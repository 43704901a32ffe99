use kiosk::logging::{cache_dir, cache_dir_in, default_log_file, log_file_in, DEFAULT_LOG_LEVEL};
use std::path::Path;

fn temp() -> String {
    "/tmp".to_string()
}

#[test]
fn cache_dir_ends_with_app_name() {
    let dir = cache_dir(&temp());
    assert_eq!(Path::new(&dir).file_name().unwrap(), "kiosk");
}

#[test]
fn default_log_file_ends_with_log_filename() {
    let path = default_log_file(&temp());
    let path = Path::new(&path);
    assert_eq!(path.file_name().unwrap(), "kiosk.log");
    assert!(path.parent().unwrap().ends_with("kiosk"));
}

#[test]
fn default_log_level_is_warn() {
    assert_eq!(DEFAULT_LOG_LEVEL, "warn");
}

#[test]
fn cache_dir_in_prefers_the_system_cache() {
    assert_eq!(cache_dir_in(Some("/home/u/.cache".to_string()), "/tmp"), "/home/u/.cache/kiosk");
    assert_eq!(cache_dir_in(None, "/tmp"), "/tmp/kiosk");
    assert_eq!(log_file_in(Some("/c".to_string()), "/tmp"), "/c/kiosk/kiosk.log");
    assert_eq!(log_file_in(None, "/tmp"), "/tmp/kiosk/kiosk.log");
}
