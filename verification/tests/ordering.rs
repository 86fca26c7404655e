use mini_git::order::{order, Order};

#[test]
fn path_is_the_same_as_itself() {
    assert_eq!(order("a.txt", "a.txt"), Order::Same);
    assert_eq!(order("", ""), Order::Same);
    assert_eq!(order("caf\u{e9}", "caf\u{e9}"), Order::Same);
}

#[test]
fn smaller_byte_comes_first() {
    assert_eq!(order("a", "b"), Order::Before);
    assert_eq!(order("b", "a"), Order::After);
    assert_eq!(order("src/a.txt", "src/b.txt"), Order::Before);
    assert_eq!(order("src/b.txt", "src/a.txt"), Order::After);
}

#[test]
fn prefix_comes_first() {
    assert_eq!(order("", "a"), Order::Before);
    assert_eq!(order("a", ""), Order::After);
    assert_eq!(order("src", "src/a.txt"), Order::Before);
    assert_eq!(order("src/a.txt", "src"), Order::After);
}

#[test]
fn first_difference_decides() {
    assert_eq!(order("a/b", "ab"), Order::Before);
    assert_eq!(order("ab", "a/b"), Order::After);
    assert_eq!(order("az", "b"), Order::Before);
    assert_eq!(order("Z", "a"), Order::Before);
}

#[test]
fn order_is_that_of_the_bytes() {
    assert_eq!(order("z", "\u{e9}"), Order::Before);
    assert_eq!(order("\u{e9}", "\u{1f600}"), Order::Before);
    assert_eq!(order("\u{ffff}", "\u{10000}"), Order::Before);
    let texts = ["", "a", "A", "a/b", "ab", "\u{e9}", "\u{1f600}", "~", "a\u{0}"];
    for a in texts {
        for b in texts {
            let expected = match a.cmp(b) {
                std::cmp::Ordering::Less => Order::Before,
                std::cmp::Ordering::Equal => Order::Same,
                std::cmp::Ordering::Greater => Order::After,
            };
            assert_eq!(order(a, b), expected, "{:?} and {:?}", a, b);
        }
    }
}
