use mini_git::command::{
    add_action, begin_add, cmd_init, ensure_repo, finish_add, AddAction, InitAction,
};
use mini_git::error::StoreError;
use mini_git::index::Index;
use mini_git::json::load_index;
use mini_git::stage::{put, stage_file, PutAction};
use mini_git::walk::{path_kind, walkdir, DirEntry, PathKind};
use std::collections::BTreeMap;

const ROOT: &str = "/work/repo";
const HELLO: &str = "aaf4c61ddcc5e8a2dabede0f3b482cd9aea9434d";

fn s(text: &str) -> String {
    text.to_string()
}

/// A disk kept in memory: files by absolute path, and the control area once
/// it has been created.
struct Disk {
    files: BTreeMap<String, Vec<u8>>,
    dirs: Vec<String>,
    objects: BTreeMap<String, Vec<u8>>,
    index: Option<Vec<u8>>,
    control: bool,
    writes: usize,
}

impl Disk {
    fn new() -> Disk {
        Disk {
            files: BTreeMap::new(),
            dirs: vec![s(ROOT)],
            objects: BTreeMap::new(),
            index: None,
            control: false,
            writes: 0,
        }
    }

    fn absolute(path: &str) -> String {
        if path.starts_with('/') {
            s(path.trim_end_matches('/'))
        } else {
            format!("{}/{}", ROOT, path.trim_end_matches('/'))
        }
    }

    fn write(&mut self, path: &str, content: &[u8]) {
        let full = Disk::absolute(path);
        let mut dir = full.clone();
        while let Some(cut) = dir.rfind('/') {
            dir.truncate(cut);
            if dir.len() < ROOT.len() {
                break;
            }
            if !self.dirs.contains(&dir) {
                self.dirs.push(dir.clone());
            }
        }
        self.files.insert(full, content.to_vec());
    }

    fn mkdir(&mut self, path: &str) {
        let full = Disk::absolute(path);
        if !self.dirs.contains(&full) {
            self.dirs.push(full);
        }
    }

    fn kind(&self, path: &str) -> PathKind {
        let full = Disk::absolute(path);
        path_kind(self.dirs.contains(&full), self.files.contains_key(&full))
    }

    fn list(&self, dir: &str) -> Vec<DirEntry> {
        let shown = dir.trim_end_matches('/');
        let full = Disk::absolute(dir);
        let mut names: Vec<String> = Vec::new();
        for path in self.files.keys().chain(self.dirs.iter()) {
            if let Some(rest) = path.strip_prefix(&format!("{}/", full)) {
                if !rest.contains('/') && !names.contains(&s(rest)) {
                    names.push(s(rest));
                }
            }
        }
        names
            .into_iter()
            .map(|name| {
                let path = format!("{}/{}", shown, name);
                let kind = self.kind(&path);
                DirEntry { path, kind }
            })
            .collect()
    }

    fn walk(&self, root: &str) -> Vec<String> {
        let mut walk = walkdir(s(root));
        while let Some(dir) = walk.next_dir() {
            walk.visit(&self.list(&dir));
        }
        assert!(walk.is_done());
        walk.into_files()
    }

    fn init(&mut self) -> bool {
        match cmd_init(self.control).unwrap() {
            InitAction::AlreadyPresent => false,
            InitAction::Create { objects, index, text } => {
                assert_eq!(objects, ".minigit/objects");
                assert_eq!(index, ".minigit/index.json");
                self.control = true;
                self.index = Some(text);
                true
            }
        }
    }

    fn stage(&mut self, path: &str, index: &mut Index) {
        let data = self.files[&Disk::absolute(path)].clone();
        let blob = stage_file(path, ROOT, &data, index);
        assert_eq!(blob.object, format!(".minigit/objects/{}", blob.blob_id));
        match put(self.objects.contains_key(&blob.object)) {
            PutAction::Write => {
                self.objects.insert(blob.object, data);
                self.writes += 1;
            }
            PutAction::Skip => {}
        }
    }

    fn add(&mut self, paths: &[&str]) -> Result<(usize, Vec<String>), StoreError> {
        let mut index = begin_add(self.control, self.index.as_deref())?;
        let mut skipped = Vec::new();
        for path in paths {
            match add_action(self.kind(path)) {
                AddAction::Expand => {
                    for file in self.walk(path) {
                        self.stage(&file, &mut index);
                    }
                }
                AddAction::Stage => self.stage(path, &mut index),
                AddAction::Skip => skipped.push(s(path)),
            }
        }
        let added = finish_add(&index)?;
        self.index = Some(added.text);
        Ok((added.staged, skipped))
    }

    fn staged(&self) -> Index {
        load_index(self.index.as_deref()).unwrap()
    }
}

#[test]
fn existing_blob_is_not_written_again() {
    assert_eq!(put(true), PutAction::Skip);
}

#[test]
fn missing_blob_is_written() {
    assert_eq!(put(false), PutAction::Write);
}

#[test]
fn staging_enters_the_digest_under_the_relative_path() {
    let mut index = Index::new();
    let blob = stage_file("fileA.txt", ROOT, b"hello", &mut index);
    assert_eq!(blob.blob_id, HELLO);
    assert_eq!(blob.object, format!(".minigit/objects/{}", HELLO));
    assert_eq!(index.len(), 1);
    assert_eq!(index.get("fileA.txt"), Some(s(HELLO)));
}

#[test]
fn staging_by_absolute_path_gives_the_same_entry() {
    let mut by_name = Index::new();
    stage_file("src/a.txt", ROOT, b"x", &mut by_name);
    let mut by_full_path = Index::new();
    stage_file("/work/repo/src/a.txt", ROOT, b"x", &mut by_full_path);
    assert_eq!(by_name, by_full_path);
}

#[test]
fn staging_a_file_outside_the_root_keeps_its_absolute_path() {
    let mut index = Index::new();
    stage_file("/tmp/other.txt", ROOT, b"x", &mut index);
    assert!(index.contains_key("/tmp/other.txt"));
}

#[test]
fn staging_empty_content() {
    let mut index = Index::new();
    let blob = stage_file("empty", ROOT, b"", &mut index);
    assert_eq!(blob.blob_id, "da39a3ee5e6b4b0d3255bfef95601890afd80709");
    assert_eq!(index.get("empty"), Some(blob.blob_id));
}

#[test]
fn init_then_add_one_file() {
    let mut disk = Disk::new();
    disk.write("fileA.txt", b"hello");
    assert!(disk.init());
    let (staged, skipped) = disk.add(&["fileA.txt"]).unwrap();
    assert_eq!(staged, 1);
    assert!(skipped.is_empty());
    assert_eq!(disk.objects.len(), 1);
    assert_eq!(disk.objects[&format!(".minigit/objects/{}", HELLO)], b"hello".to_vec());
    assert_eq!(
        String::from_utf8(disk.index.clone().unwrap()).unwrap(),
        format!("{{\n  \"fileA.txt\": \"{}\"\n}}", HELLO)
    );
    assert_eq!(disk.staged().to_entries(), vec![(s("fileA.txt"), s(HELLO))]);
}

#[test]
fn same_content_under_two_paths_is_stored_once() {
    let mut disk = Disk::new();
    disk.write("one.txt", b"same");
    disk.write("two.txt", b"same");
    disk.init();
    let (staged, _) = disk.add(&["one.txt", "two.txt"]).unwrap();
    assert_eq!(staged, 2);
    assert_eq!(disk.objects.len(), 1);
    assert_eq!(disk.writes, 1);
    let index = disk.staged();
    assert_eq!(index.get("one.txt"), index.get("two.txt"));
    assert!(index.get("one.txt").is_some());
}

#[test]
fn restaging_a_changed_file_overwrites_its_entry() {
    let mut disk = Disk::new();
    disk.write("a.txt", b"old");
    disk.init();
    disk.add(&["a.txt"]).unwrap();
    let old = disk.staged().get("a.txt").unwrap();
    disk.write("a.txt", b"new");
    let (staged, _) = disk.add(&["a.txt"]).unwrap();
    assert_eq!(staged, 1);
    let new = disk.staged().get("a.txt").unwrap();
    assert_ne!(old, new);
    assert_eq!(new, mini_git::hash::sha1_hex(b"new"));
    assert_eq!(disk.objects.len(), 2);
    assert_eq!(disk.objects[&format!(".minigit/objects/{}", old)], b"old".to_vec());
    assert_eq!(disk.objects[&format!(".minigit/objects/{}", new)], b"new".to_vec());
}

#[test]
fn adding_a_directory_stages_its_files() {
    let mut disk = Disk::new();
    disk.write("src/a.txt", b"content of a");
    disk.write("src/b.txt", b"content of b");
    disk.init();
    let (staged, _) = disk.add(&["src/"]).unwrap();
    assert_eq!(staged, 2);
    assert_eq!(disk.objects.len(), 2);
    let index = disk.staged();
    assert_eq!(index.get("src/a.txt"), Some(mini_git::hash::sha1_hex(b"content of a")));
    assert_eq!(index.get("src/b.txt"), Some(mini_git::hash::sha1_hex(b"content of b")));
    assert!(!index.contains_key("src"));
    assert!(!index.contains_key("src/"));

    let text = disk.index.clone();
    let (again, _) = disk.add(&["src/"]).unwrap();
    assert_eq!(again, 2);
    assert_eq!(disk.index, text);
    assert_eq!(disk.staged(), index);
    assert_eq!(disk.objects.len(), 2);
    assert_eq!(disk.writes, 2);
}

#[test]
fn adding_a_directory_stages_files_at_any_depth() {
    let mut disk = Disk::new();
    disk.write("top/a", b"1");
    disk.write("top/sub/b", b"2");
    disk.write("top/sub/deep/er/c", b"3");
    disk.write("top/other/d", b"4");
    disk.mkdir("top/empty");
    disk.write("elsewhere/e", b"5");
    disk.init();
    let (staged, _) = disk.add(&["top"]).unwrap();
    assert_eq!(staged, 4);
    let index = disk.staged();
    for path in ["top/a", "top/sub/b", "top/sub/deep/er/c", "top/other/d"] {
        assert!(index.contains_key(path), "{}", path);
    }
    for path in ["top", "top/sub", "top/sub/deep", "top/sub/deep/er", "top/other", "top/empty"] {
        assert!(!index.contains_key(path), "{}", path);
    }
    assert!(!index.contains_key("elsewhere/e"));
}

#[test]
fn missing_argument_is_skipped_and_the_rest_is_staged() {
    let mut disk = Disk::new();
    disk.write("a.txt", b"a");
    disk.init();
    let (staged, skipped) = disk.add(&["nowhere.txt", "a.txt"]).unwrap();
    assert_eq!(staged, 1);
    assert_eq!(skipped, vec![s("nowhere.txt")]);
    assert!(disk.staged().contains_key("a.txt"));
}

#[test]
fn add_without_init_is_refused() {
    let mut disk = Disk::new();
    disk.write("a.txt", b"a");
    assert_eq!(disk.add(&["a.txt"]).unwrap_err(), StoreError::NotARepository);
    assert!(disk.objects.is_empty());
    assert_eq!(disk.index, None);
}

#[test]
fn add_with_a_broken_index_is_refused() {
    let mut disk = Disk::new();
    disk.write("a.txt", b"a");
    disk.init();
    disk.index = Some(b"{ broken".to_vec());
    assert_eq!(disk.add(&["a.txt"]).unwrap_err(), StoreError::Parse);
    assert_eq!(disk.index, Some(b"{ broken".to_vec()));
    assert!(disk.objects.is_empty());
}

#[test]
fn add_counts_what_was_staged_before() {
    let mut disk = Disk::new();
    disk.write("a.txt", b"a");
    disk.write("b.txt", b"b");
    disk.init();
    assert_eq!(disk.add(&["a.txt"]).unwrap().0, 1);
    assert_eq!(disk.add(&["b.txt"]).unwrap().0, 2);
    assert_eq!(disk.add(&[]).unwrap().0, 2);
}

#[test]
fn init_creates_an_empty_repository() {
    match cmd_init(false).unwrap() {
        InitAction::Create { objects, index, text } => {
            assert_eq!(objects, ".minigit/objects");
            assert_eq!(index, ".minigit/index.json");
            assert_eq!(text, b"{}".to_vec());
            assert!(load_index(Some(&text[..])).unwrap().is_empty());
        }
        InitAction::AlreadyPresent => panic!("nothing was there"),
    }
}

#[test]
fn init_leaves_an_existing_repository_alone() {
    assert!(matches!(cmd_init(true), Ok(InitAction::AlreadyPresent)));
}

#[test]
fn second_init_changes_nothing() {
    let mut disk = Disk::new();
    disk.write("a.txt", b"a");
    assert!(disk.init());
    disk.add(&["a.txt"]).unwrap();
    let index = disk.index.clone();
    let objects = disk.objects.clone();
    assert!(!disk.init());
    assert!(!disk.init());
    assert_eq!(disk.index, index);
    assert_eq!(disk.objects, objects);
    assert_eq!(disk.staged().len(), 1);
}

#[test]
fn guard_passes_when_the_control_area_exists() {
    assert_eq!(ensure_repo(true), Ok(()));
}

#[test]
fn guard_fails_when_the_control_area_is_missing() {
    assert_eq!(ensure_repo(false), Err(StoreError::NotARepository));
}

#[test]
fn missing_control_area_is_reported_before_a_broken_index() {
    assert_eq!(begin_add(false, Some(&b"broken"[..])).unwrap_err(), StoreError::NotARepository);
    assert_eq!(begin_add(false, None).unwrap_err(), StoreError::NotARepository);
}

#[test]
fn add_begins_with_the_persisted_index() {
    assert!(begin_add(true, None).unwrap().is_empty());
    let index = begin_add(true, Some(&br#"{"a": "1"}"#[..])).unwrap();
    assert_eq!(index.get("a"), Some(s("1")));
    assert_eq!(begin_add(true, Some(&b"broken"[..])).unwrap_err(), StoreError::Parse);
}

#[test]
fn add_ends_with_the_text_and_the_count() {
    let mut index = Index::new();
    index.insert(s("b"), s("2"));
    index.insert(s("a"), s("1"));
    let added = finish_add(&index).unwrap();
    assert_eq!(added.staged, 2);
    assert_eq!(String::from_utf8(added.text).unwrap(), "{\n  \"a\": \"1\",\n  \"b\": \"2\"\n}");
}

#[test]
fn arguments_are_expanded_staged_or_skipped() {
    assert_eq!(add_action(PathKind::Directory), AddAction::Expand);
    assert_eq!(add_action(PathKind::File), AddAction::Stage);
    assert_eq!(add_action(PathKind::Neither), AddAction::Skip);
}

#[test]
fn messages_name_what_went_wrong() {
    assert_eq!(
        StoreError::NotARepository.message(),
        "Not a mini-git repo (missing .minigit). Run `mini-git init` first."
    );
    assert_eq!(StoreError::Parse.message(), "parsing index.json as JSON");
    assert_eq!(StoreError::Serialize.message(), "serializing index to JSON");
}
