use std::path::Path;

use portal::paths::{is_absolute_path, join_exe_dir, normalize_id, relative_exe, remove_parents};

#[test]
fn test_normalize_id() {
    let ret = normalize_id(String::from("res/thing\\other/thing2"));
    assert_eq!(ret, "res/thing/other/thing2");
}

fn check_remove_parents(input: &str, expected: &str) {
    let ret = remove_parents(input);
    assert_eq!(Path::new(&ret), Path::new(expected));
}

#[test]
fn parse_test_remove_parents() {
    check_remove_parents("thing/other/../no_wait/", "thing/no_wait/");
    check_remove_parents("../thing/../other/", "../other/");
    check_remove_parents("../../../thing/thing2/../o", "../../../thing/o");
}

#[test]
fn util_test_remove_parents() {
    check_remove_parents("thing/other/../no_wait/", "thing/no_wait/");
    check_remove_parents("../thing/../other/", "../other/");
    check_remove_parents("../../../thing/thing2/../o", "../../../thing/o");
}

#[test]
fn normalize_id_without_separator_is_unchanged() {
    assert_eq!(normalize_id(String::from("mesh_id")), "mesh_id");
    assert_eq!(normalize_id(String::new()), "");
}

#[test]
fn normalize_id_keeps_empty_components() {
    assert_eq!(normalize_id(String::from("a\\\\b//c")), "a//b//c");
}

#[test]
fn remove_parents_exact_strings() {
    assert_eq!(remove_parents("thing/other/../no_wait/"), "thing/no_wait");
    assert_eq!(remove_parents(""), "");
    assert_eq!(remove_parents("a/.."), "");
    assert_eq!(remove_parents("./a/b/../c"), "./a/c");
    assert_eq!(remove_parents("a/./b//c"), "a/b/c");
}

#[test]
fn remove_parents_absolute() {
    assert_eq!(remove_parents("/a/b/../c"), "/a/c");
    assert_eq!(remove_parents("/"), "/");
    assert_eq!(remove_parents("/../a"), "/a");
    assert_eq!(remove_parents("/../../a"), "/../a");
}

#[test]
fn join_exe_dir_appends_components() {
    assert_eq!(join_exe_dir("/opt/game", "res/shader/phong"), "/opt/game/res/shader/phong");
    assert_eq!(join_exe_dir("/opt/game/", "./res//a/../b"), "/opt/game/./res/a/../b");
    assert_eq!(join_exe_dir("/opt/game", ""), "/opt/game");
    assert_eq!(join_exe_dir("/opt/game", "/etc/x"), "/etc/x");
}

#[test]
fn relative_exe_strips_the_directory() {
    assert_eq!(relative_exe("/opt/game/res/a.png", "/opt/game").0, Ok(String::from("res/a.png")));
    assert_eq!(relative_exe("/opt/game", "/opt/game/").0, Ok(String::new()));
    assert_eq!(
        relative_exe("/opt/gamez/a", "/opt/game").0,
        Err(String::from(
            "Strip prefix didn't work on path (prefix not found): /opt/gamez/a (executable dir: /opt/game)"
        ))
    );
    assert!(relative_exe("opt/game/a", "/opt/game").0.is_err());
}

#[test]
fn absolute_paths() {
    assert!(is_absolute_path("/a"));
    assert!(!is_absolute_path("a/b"));
    assert!(!is_absolute_path(""));
}
