use kiosk::path_input::{
    common_prefix, expand_tilde, expand_tilde_with, join_path, path_exists, split_input,
};

#[test]
fn test_split_input_tilde() {
    assert_eq!(split_input("~/Dev"), ("~/".to_string(), "Dev".to_string()));
}

#[test]
fn test_split_input_tilde_slash() {
    assert_eq!(split_input("~/"), ("~/".to_string(), String::new()));
}

#[test]
fn test_split_input_bare() {
    assert_eq!(split_input("test"), ("./".to_string(), "test".to_string()));
}

#[test]
fn test_split_input_absolute() {
    assert_eq!(
        split_input("/usr/local/bin"),
        ("/usr/local/".to_string(), "bin".to_string())
    );
}

#[test]
fn test_split_input_empty() {
    assert_eq!(split_input(""), ("./".to_string(), String::new()));
}

#[test]
fn test_expand_tilde_absolute() {
    assert_eq!(expand_tilde("/absolute/path"), "/absolute/path");
}

#[test]
fn test_expand_tilde_with_rest() {
    let expanded = expand_tilde("~/test");
    assert!(expanded.contains("test"));
    assert!(!expanded.starts_with('~'));
}

#[test]
fn expand_tilde_with_given_home() {
    assert_eq!(expand_tilde_with("~", Some("/home/u".to_string())), "/home/u");
    assert_eq!(expand_tilde_with("~/Dev", Some("/home/u".to_string())), "/home/u/Dev");
    assert_eq!(expand_tilde_with("~/Dev", Some("/home/u/".to_string())), "/home/u/Dev");
    assert_eq!(expand_tilde_with("~/Dev", None), "./Dev");
    assert_eq!(expand_tilde_with("~", None), ".");
    assert_eq!(expand_tilde_with("~user", Some("/home/u".to_string())), "~user");
    assert_eq!(expand_tilde_with("rel/x", Some("/home/u".to_string())), "rel/x");
}

#[test]
fn test_common_prefix_empty() {
    assert_eq!(common_prefix(&[]), "");
}

#[test]
fn test_common_prefix_single() {
    assert_eq!(common_prefix(&["~/Projects".to_string()]), "~/Projects");
}

#[test]
fn test_common_prefix_shared() {
    assert_eq!(
        common_prefix(&["~/Dev".to_string(), "~/Development".to_string()]),
        "~/Dev"
    );
}

#[test]
fn test_common_prefix_divergent() {
    assert_eq!(
        common_prefix(&["~/Dev".to_string(), "~/Work".to_string()]),
        "~/"
    );
}

#[test]
fn test_common_prefix_multibyte() {
    assert_eq!(
        common_prefix(&["~/Üntersuchung".to_string(), "~/Über".to_string()]),
        "~/Ü"
    );
}

#[test]
fn common_prefix_of_three_takes_the_shortest_agreement() {
    assert_eq!(
        common_prefix(&[
            "~/Desktop".to_string(),
            "~/Development".to_string(),
            "~/Documents".to_string()
        ]),
        "~/D"
    );
}

#[test]
fn test_join_path_trailing_slash() {
    assert_eq!(join_path("~/", "Dev"), "~/Dev");
}

#[test]
fn test_join_path_no_trailing_slash() {
    assert_eq!(join_path("~", "Dev"), "~/Dev");
}

#[test]
fn path_exists_sees_the_root_and_not_a_missing_path() {
    assert!(path_exists("/"));
    assert!(!path_exists("/nonexistent_path_xyz_12345/foo"));
}

use kiosk::order::sort_texts;
use kiosk::path_input::{complete_from_listing, completion_dir};

fn names(v: &[&str]) -> Vec<String> {
    v.iter().map(|s| s.to_string()).collect()
}

#[test]
fn test_complete_empty_input() {
    assert!(complete_from_listing("", &names(&["a"])).is_empty());
    assert_eq!(completion_dir(""), None);
}

#[test]
fn completion_dir_is_the_typed_directory() {
    assert_eq!(completion_dir("/tmp/De"), Some("/tmp/".to_string()));
    assert_eq!(completion_dir("De"), Some("./".to_string()));
}

#[test]
fn completions_match_the_prefix() {
    let r = complete_from_listing("/t/De", &names(&["Documents", "Development", "Desktop"]));
    assert_eq!(r, vec!["/t/Desktop".to_string(), "/t/Development".to_string()]);
}

#[test]
fn completions_ignore_case() {
    let r = complete_from_listing("/t/my", &names(&["MyDir", "other"]));
    assert_eq!(r, vec!["/t/MyDir".to_string()]);
}

#[test]
fn completions_hide_dot_directories_unless_asked() {
    let listing = names(&[".hidden", "visible"]);
    assert_eq!(complete_from_listing("/t/", &listing), vec!["/t/visible".to_string()]);
    assert_eq!(complete_from_listing("/t/.h", &listing), vec!["/t/.hidden".to_string()]);
}

#[test]
fn completions_are_sorted() {
    let r = complete_from_listing("~/", &names(&["charlie", "alpha", "bravo"]));
    assert_eq!(r, vec!["~/alpha", "~/bravo", "~/charlie"]);
}

#[test]
fn sort_texts_orders_by_code_point() {
    let r = sort_texts(names(&["b", "B", "a", "ä", "ab", "a"]));
    assert_eq!(r, vec!["B", "a", "a", "ab", "b", "ä"]);
}
