use proverb::install::{
    canonicalize_dest_dir, canonicalize_prefix, combine_prefix_and_dest_dir, target_dir,
    PrefixError,
};
use proverb::paths::{
    install_prefix, join_path, prefix_from, search_directories, source_directories, PrefixVars,
};

fn vars(prefix: Option<&str>, root: Option<&str>, home: Option<&str>) -> PrefixVars {
    PrefixVars {
        prefix: prefix.map(String::from),
        install_root: root.map(String::from),
        cargo_home: home.map(String::from),
    }
}

#[test]
fn join_cases() {
    assert_eq!(join_path("/home/u", ".cargo"), "/home/u/.cargo");
    assert_eq!(join_path("/home/u/", "x"), "/home/u/x");
    assert_eq!(join_path("", "x"), "x");
    assert_eq!(join_path("/a", "/b"), "/b");
    assert_eq!(join_path("/a", ""), "/a/");
}

#[test]
fn prefix_precedence() {
    let home = Some("/home/u".to_string());
    assert_eq!(prefix_from(&vars(Some("/p"), Some("/r"), Some("/h")), home.clone()), Some("/p".to_string()));
    assert_eq!(prefix_from(&vars(None, Some("/r"), Some("/h")), home.clone()), Some("/r".to_string()));
    assert_eq!(prefix_from(&vars(None, None, Some("/h")), home.clone()), Some("/h".to_string()));
    assert_eq!(prefix_from(&vars(None, None, None), home), Some("/home/u/.cargo".to_string()));
    assert_eq!(prefix_from(&vars(None, None, None), None), None);
    assert_eq!(install_prefix(&vars(None, Some("/r"), None)), Some("/r".to_string()));
}

#[test]
fn search_directories_in_priority_order() {
    let dirs = search_directories(
        true,
        Some("/home/u/.local/share".to_string()),
        Some("/usr/local".to_string()),
        true,
    );
    assert_eq!(
        dirs,
        vec![
            "/usr/share/proverb".to_string(),
            "/usr/local/share/proverb".to_string(),
            "/home/u/.local/share/proverb".to_string(),
            "/usr/local/share/proverb".to_string(),
            "./proverb".to_string(),
        ]
    );
    assert_eq!(search_directories(false, None, None, false), Vec::<String>::new());
}

#[test]
fn source_directories_use_the_prefix() {
    let dirs = source_directories(&vars(Some("/opt/pv"), None, None), true, false);
    assert_eq!(dirs[0], "/usr/share/proverb");
    assert_eq!(dirs[1], "/usr/local/share/proverb");
    assert_eq!(dirs.last().unwrap(), "/opt/pv/share/proverb");
    assert!(dirs.len() == 3 || dirs.len() == 4);
}

#[test]
fn prefix_for_installation() {
    let none = vars(None, None, None);
    assert_eq!(canonicalize_prefix(Some("/usr/local".to_string()), &none), Ok("/usr/local".to_string()));
    assert_eq!(canonicalize_prefix(None, &vars(None, None, Some("/c"))), Ok("/c".to_string()));
    let r = canonicalize_prefix(None, &none);
    assert!(r == Err(PrefixError::Undetermined) || r.unwrap().ends_with("/.cargo"));
}

#[test]
fn dest_dir_defaults_to_root() {
    assert_eq!(canonicalize_dest_dir(None), "/");
    assert_eq!(canonicalize_dest_dir(Some("./stage".to_string())), "./stage");
}

#[test]
fn prefix_goes_under_dest_dir() {
    assert_eq!(combine_prefix_and_dest_dir("/usr/local", "./stage"), "./stage/usr/local");
    assert_eq!(combine_prefix_and_dest_dir("/usr/local", "/"), "/usr/local");
    assert_eq!(combine_prefix_and_dest_dir("//usr/./local//x/", "/tmp"), "/tmp/usr/local/x");
    assert_eq!(combine_prefix_and_dest_dir("./a/../b", "/d/"), "/d/./a/../b");
    assert_eq!(combine_prefix_and_dest_dir("/", "/d"), "/d/");
}

#[test]
fn target_dir_default() {
    assert_eq!(target_dir(None), "./target");
    assert_eq!(target_dir(Some("/build".to_string())), "/build");
}
