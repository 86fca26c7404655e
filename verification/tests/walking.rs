use mini_git::walk::{path_kind, walkdir, DirEntry, PathKind};

fn s(text: &str) -> String {
    text.to_string()
}

fn entry(path: &str, kind: PathKind) -> DirEntry {
    DirEntry { path: s(path), kind }
}

#[test]
fn directory_wins_over_file() {
    assert_eq!(path_kind(true, true), PathKind::Directory);
    assert_eq!(path_kind(true, false), PathKind::Directory);
}

#[test]
fn file_is_a_file() {
    assert_eq!(path_kind(false, true), PathKind::File);
}

#[test]
fn what_is_neither_is_neither() {
    assert_eq!(path_kind(false, false), PathKind::Neither);
}

#[test]
fn walk_starts_with_its_root() {
    let mut walk = walkdir(s("root"));
    assert!(!walk.is_done());
    assert_eq!(walk.next_dir(), Some(s("root")));
    assert!(walk.is_done());
    assert_eq!(walk.next_dir(), None);
    assert!(walk.into_files().is_empty());
}

#[test]
fn walk_of_an_empty_directory_finds_nothing() {
    let mut walk = walkdir(s("root"));
    assert_eq!(walk.next_dir(), Some(s("root")));
    walk.visit(&Vec::new());
    assert!(walk.is_done());
    assert!(walk.into_files().is_empty());
}

#[test]
fn walk_yields_files_and_descends_into_directories() {
    let mut walk = walkdir(s("root"));
    assert_eq!(walk.next_dir(), Some(s("root")));
    walk.visit(&vec![
        entry("root/a", PathKind::File),
        entry("root/sub", PathKind::Directory),
        entry("root/socket", PathKind::Neither),
        entry("root/b", PathKind::File),
    ]);
    assert!(!walk.is_done());
    assert_eq!(walk.next_dir(), Some(s("root/sub")));
    walk.visit(&vec![entry("root/sub/c", PathKind::File)]);
    assert_eq!(walk.next_dir(), None);
    assert_eq!(walk.into_files(), vec![s("root/a"), s("root/b"), s("root/sub/c")]);
}

#[test]
fn walk_reads_the_directory_listed_last_first() {
    let mut walk = walkdir(s("r"));
    walk.next_dir();
    walk.visit(&vec![entry("r/x", PathKind::Directory), entry("r/y", PathKind::Directory)]);
    assert_eq!(walk.next_dir(), Some(s("r/y")));
    walk.visit(&vec![entry("r/y/z", PathKind::Directory), entry("r/y/f", PathKind::File)]);
    assert_eq!(walk.next_dir(), Some(s("r/y/z")));
    walk.visit(&vec![entry("r/y/z/g", PathKind::File)]);
    assert_eq!(walk.next_dir(), Some(s("r/x")));
    walk.visit(&vec![entry("r/x/h", PathKind::File)]);
    assert_eq!(walk.next_dir(), None);
    assert_eq!(walk.into_files(), vec![s("r/y/f"), s("r/y/z/g"), s("r/x/h")]);
}

#[test]
fn walk_never_yields_a_directory() {
    let mut walk = walkdir(s("r"));
    walk.next_dir();
    walk.visit(&vec![entry("r/d", PathKind::Directory), entry("r/n", PathKind::Neither)]);
    walk.next_dir();
    walk.visit(&Vec::new());
    assert!(walk.is_done());
    assert!(walk.into_files().is_empty());
}
