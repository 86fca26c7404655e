use mini_git::error::StoreError;
use mini_git::index::Index;
use mini_git::json::{load_index, save_index};

fn s(text: &str) -> String {
    text.to_string()
}

fn index_of(pairs: &[(&str, &str)]) -> Index {
    let mut index = Index::new();
    for (path, blob_id) in pairs {
        index.insert(s(path), s(blob_id));
    }
    index
}

#[test]
fn missing_index_file_loads_as_empty() {
    let index = load_index(None).unwrap();
    assert!(index.is_empty());
}

#[test]
fn empty_object_loads_as_empty() {
    let index = load_index(Some(&b"{}"[..])).unwrap();
    assert_eq!(index.len(), 0);
}

#[test]
fn object_of_strings_loads() {
    let text = br#"{"src/a.txt": "d1", "b.txt": "d2"}"#;
    let index = load_index(Some(&text[..])).unwrap();
    assert_eq!(index, index_of(&[("b.txt", "d2"), ("src/a.txt", "d1")]));
}

#[test]
fn compact_and_pretty_text_load_alike() {
    let compact = br#"{"a":"1","b":"2"}"#;
    let pretty = b"{\n  \"a\": \"1\",\n  \"b\": \"2\"\n}\n";
    assert_eq!(load_index(Some(&compact[..])).unwrap(), load_index(Some(&pretty[..])).unwrap());
}

#[test]
fn repeated_key_keeps_its_last_value() {
    let text = br#"{"a": "1", "a": "2"}"#;
    let index = load_index(Some(&text[..])).unwrap();
    assert_eq!(index.len(), 1);
    assert_eq!(index.get("a"), Some(s("2")));
}

#[test]
fn escapes_are_decoded() {
    let text = br#"{"dir\\file\n": "A\"x"}"#;
    let index = load_index(Some(&text[..])).unwrap();
    assert_eq!(index.get("dir\\file\n"), Some(s("A\"x")));
}

#[test]
fn empty_file_is_a_parse_error() {
    assert_eq!(load_index(Some(&b""[..])).unwrap_err(), StoreError::Parse);
}

#[test]
fn text_that_is_not_json_is_a_parse_error() {
    assert_eq!(load_index(Some(&b"not json"[..])).unwrap_err(), StoreError::Parse);
    assert_eq!(load_index(Some(&b"{\"a\": \"1\""[..])).unwrap_err(), StoreError::Parse);
}

#[test]
fn json_of_another_shape_is_a_parse_error() {
    assert_eq!(load_index(Some(&b"[]"[..])).unwrap_err(), StoreError::Parse);
    assert_eq!(load_index(Some(&b"\"a\""[..])).unwrap_err(), StoreError::Parse);
    assert_eq!(load_index(Some(&b"{\"a\": 1}"[..])).unwrap_err(), StoreError::Parse);
    assert_eq!(load_index(Some(&b"{\"a\": null}"[..])).unwrap_err(), StoreError::Parse);
    assert_eq!(load_index(Some(&b"{\"a\": {\"b\": \"c\"}}"[..])).unwrap_err(), StoreError::Parse);
}

#[test]
fn text_after_the_object_is_a_parse_error() {
    assert_eq!(load_index(Some(&b"{} {}"[..])).unwrap_err(), StoreError::Parse);
}

#[test]
fn bytes_that_are_not_utf8_are_a_parse_error() {
    assert_eq!(load_index(Some(&[b'{', b'"', 0xff, b'"', b':', b'"', b'"', b'}'][..])).unwrap_err(), StoreError::Parse);
}

#[test]
fn empty_index_is_saved_as_an_empty_object() {
    assert_eq!(save_index(&Index::new()).unwrap(), b"{}".to_vec());
}

#[test]
fn one_entry_is_saved_pretty_printed() {
    let index = index_of(&[("fileA.txt", "aaf4c61ddcc5e8a2dabede0f3b482cd9aea9434d")]);
    let text = save_index(&index).unwrap();
    assert_eq!(
        String::from_utf8(text).unwrap(),
        "{\n  \"fileA.txt\": \"aaf4c61ddcc5e8a2dabede0f3b482cd9aea9434d\"\n}"
    );
}

#[test]
fn entries_are_saved_in_ascending_order_of_path() {
    let index = index_of(&[("b.txt", "2"), ("a.txt", "1"), ("c/d.txt", "3")]);
    let text = save_index(&index).unwrap();
    assert_eq!(
        String::from_utf8(text).unwrap(),
        "{\n  \"a.txt\": \"1\",\n  \"b.txt\": \"2\",\n  \"c/d.txt\": \"3\"\n}"
    );
}

#[test]
fn entries_are_saved_in_the_order_of_the_index() {
    let index = index_of(&[("ab", "1"), ("a/b", "2"), ("B", "3"), ("\u{e9}", "4"), ("", "5")]);
    let text = String::from_utf8(save_index(&index).unwrap()).unwrap();
    let mut at = 0;
    for (path, _) in index.to_entries() {
        let key = format!("\n  \"{}\": ", path);
        let found = text[at..].find(&key).expect("keys follow each other");
        at += found + key.len();
    }
}

#[test]
fn saved_text_does_not_depend_on_the_order_of_staging() {
    let first = index_of(&[("a", "1"), ("b", "2")]);
    let second = index_of(&[("b", "2"), ("a", "1")]);
    assert_eq!(save_index(&first).unwrap(), save_index(&second).unwrap());
}

#[test]
fn saved_index_loads_back() {
    let index = index_of(&[("src/a.txt", "d1"), ("b.txt", "d2"), ("/abs/c", "d1")]);
    let text = save_index(&index).unwrap();
    assert_eq!(load_index(Some(&text[..])).unwrap(), index);
}

#[test]
fn saved_empty_index_loads_back() {
    let text = save_index(&Index::new()).unwrap();
    let index = load_index(Some(&text[..])).unwrap();
    assert!(index.is_empty());
    assert_eq!(index, Index::new());
}

#[test]
fn paths_with_special_characters_load_back() {
    let index = index_of(&[
        ("quote\"d", "1"),
        ("back\\slash", "2"),
        ("line\nbreak", "3"),
        ("tab\there", "4"),
        ("caf\u{e9}/\u{1f600}", "5"),
        ("", "6"),
        ("\u{0}\u{1f}", "7"),
    ]);
    let text = save_index(&index).unwrap();
    assert_eq!(load_index(Some(&text[..])).unwrap(), index);
}

#[test]
fn loading_and_saving_again_gives_the_same_text() {
    let index = index_of(&[("z", "26"), ("y", "25")]);
    let text = save_index(&index).unwrap();
    let again = save_index(&load_index(Some(&text[..])).unwrap()).unwrap();
    assert_eq!(text, again);
}
