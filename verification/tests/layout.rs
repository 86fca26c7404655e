use mini_git::paths::{
    commits_path, index_path, object_path, objects_dir, pick_relative, repo_dir, to_repo_relative,
};

#[test]
fn control_area_is_dot_minigit() {
    assert_eq!(repo_dir(), ".minigit");
}

#[test]
fn objects_live_inside_the_control_area() {
    assert_eq!(objects_dir(), ".minigit/objects");
}

#[test]
fn index_file_lives_inside_the_control_area() {
    assert_eq!(index_path(), ".minigit/index.json");
}

#[test]
fn commit_log_location_is_reserved() {
    assert_eq!(commits_path(), ".minigit/commits.jsonl");
}

#[test]
fn blob_is_a_file_named_by_its_digest() {
    assert_eq!(
        object_path("aaf4c61ddcc5e8a2dabede0f3b482cd9aea9434d"),
        ".minigit/objects/aaf4c61ddcc5e8a2dabede0f3b482cd9aea9434d"
    );
}

#[test]
fn relative_path_keeps_its_name() {
    assert_eq!(to_repo_relative("fileA.txt", "/work/repo"), "fileA.txt");
    assert_eq!(to_repo_relative("src/a.txt", "/work/repo"), "src/a.txt");
}

#[test]
fn leading_dot_is_dropped() {
    assert_eq!(to_repo_relative("./a.txt", "/work/repo"), "a.txt");
}

#[test]
fn inner_dot_is_kept_as_written() {
    assert_eq!(to_repo_relative("src/./a.txt", "/work/repo"), "src/./a.txt");
}

#[test]
fn trailing_separator_is_dropped() {
    assert_eq!(to_repo_relative("src/", "/work/repo"), "src");
}

#[test]
fn absolute_path_under_the_root_becomes_relative() {
    assert_eq!(to_repo_relative("/work/repo/src/a.txt", "/work/repo"), "src/a.txt");
}

#[test]
fn absolute_path_outside_the_root_stays_absolute() {
    assert_eq!(to_repo_relative("/etc/hosts", "/work/repo"), "/etc/hosts");
}

#[test]
fn sibling_with_the_root_as_name_prefix_is_outside() {
    assert_eq!(to_repo_relative("/work/repository/a.txt", "/work/repo"), "/work/repository/a.txt");
}

#[test]
fn root_itself_has_the_empty_name() {
    assert_eq!(to_repo_relative("/work/repo", "/work/repo"), "");
}

#[test]
fn parent_steps_are_kept() {
    assert_eq!(to_repo_relative("../other/a.txt", "/work/repo"), "../other/a.txt");
}

#[test]
fn remainder_wins_over_absolute_path() {
    let key = pick_relative("/work/repo/a.txt".to_string(), Some("a.txt".to_string()));
    assert_eq!(key, "a.txt");
}

#[test]
fn absolute_path_is_the_fallback() {
    let key = pick_relative("/etc/hosts".to_string(), None);
    assert_eq!(key, "/etc/hosts");
}
