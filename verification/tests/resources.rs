use std::path::Path;

use draffity_services::resources::{
    configured_root, default_root, exe_name, host_separator, join, migration_due, DraffityHome,
};

#[test]
fn with_root_sets_root_and_paths_are_relative() {
    let home = DraffityHome::with_root(String::from("/tmp/test-draffity"));
    assert_eq!(Path::new(home.root()), Path::new("/tmp/test-draffity"));
    assert_eq!(Path::new(&home.voice_dir()), Path::new("/tmp/test-draffity/voice"));
    assert_eq!(
        Path::new(&home.models_dir()),
        Path::new("/tmp/test-draffity/voice/models")
    );
    assert_eq!(
        Path::new(&home.voices_dir()),
        Path::new("/tmp/test-draffity/voice/voices")
    );
    assert_eq!(Path::new(&home.tmp_dir()), Path::new("/tmp/test-draffity/voice/tmp"));
    assert_eq!(Path::new(&home.media_dir()), Path::new("/tmp/test-draffity/media"));
    assert_eq!(Path::new(&home.backups_dir()), Path::new("/tmp/test-draffity/backups"));
    assert_eq!(Path::new(&home.logs_dir()), Path::new("/tmp/test-draffity/logs"));
    assert_eq!(
        Path::new(&home.crash_reports_dir()),
        Path::new("/tmp/test-draffity/crash-reports")
    );
    assert_eq!(
        Path::new(&home.templates_dir()),
        Path::new("/tmp/test-draffity/templates/user")
    );
    assert_eq!(Path::new(&home.db_path()), Path::new("/tmp/test-draffity/draffity.db"));
    assert_eq!(
        Path::new(&home.config_path()),
        Path::new("/tmp/test-draffity/config.json")
    );
}

#[test]
fn model_path_resolves_under_models_dir() {
    let home = DraffityHome::with_root(String::from("/r"));
    assert_eq!(
        Path::new(&home.model_path("ggml-base.bin")),
        Path::new("/r/voice/models/ggml-base.bin")
    );
}

#[test]
fn voice_file_path_resolves_under_voices_dir() {
    let home = DraffityHome::with_root(String::from("/r"));
    assert_eq!(
        Path::new(&home.voice_file_path("es_ES-carlfm.onnx")),
        Path::new("/r/voice/voices/es_ES-carlfm.onnx")
    );
}

#[test]
fn bin_dir_points_to_platform_specific_name() {
    let home = DraffityHome::with_root(String::from("/r"));
    let bin = home.bin_dir();
    let piper = home.piper_bin_path();
    if std::path::MAIN_SEPARATOR == '\\' {
        assert!(bin.ends_with("whisper.exe"));
        assert!(piper.ends_with("piper.exe"));
    } else {
        assert!(bin.ends_with("whisper"));
        assert!(piper.ends_with("piper"));
    }
}

#[test]
fn join_follows_path_join() {
    assert_eq!(join("/a", "b", '/'), "/a/b");
    assert_eq!(join("/a/", "b", '/'), "/a/b");
    assert_eq!(join("", "b", '/'), "b");
    assert_eq!(join("/a", "/abs", '/'), "/abs");
    assert_eq!(join("C:\\u", "d", '\\'), "C:\\u\\d");
    assert_eq!(join("C:\\u\\", "d", '\\'), "C:\\u\\d");
    assert_eq!(join("C:/u/", "d", '\\'), "C:/u/d");
    let sep = host_separator();
    for (base, part) in [("/a", "b"), ("/a/", "b"), ("", "b"), ("/a", "/abs"), ("x", "")] {
        assert_eq!(Path::new(&join(base, part, sep)), Path::new(base).join(part));
    }
}

#[test]
fn exe_name_matches_host() {
    let n = exe_name("piper");
    if std::path::MAIN_SEPARATOR == '\\' {
        assert_eq!(n, "piper.exe");
    } else {
        assert_eq!(n, "piper");
    }
}

#[test]
fn default_and_configured_roots() {
    assert_eq!(default_root(Some(String::from("/home/u")), '/'), "/home/u/.draffity");
    assert_eq!(default_root(None, '/'), ".draffity");
    let d = String::from("/home/u/.draffity");
    assert_eq!(configured_root(d.clone(), None), d);
    assert_eq!(configured_root(d.clone(), Some(String::new())), d);
    assert_eq!(configured_root(d, Some(String::from("/data/draffity"))), "/data/draffity");
}

#[test]
fn set_root_moves_every_path() {
    let mut home = DraffityHome::with_root(String::from("/a"));
    home.set_root(String::from("/b"));
    assert_eq!(home.root(), "/b");
    assert_eq!(home.db_path(), "/b/draffity.db");
}

#[test]
fn migration_runs_once_and_not_over_existing_data() {
    assert!(migration_due(false, false));
    assert!(!migration_due(true, false));
    assert!(!migration_due(false, true));
    assert!(!migration_due(true, true));
}

#[test]
fn migration_plan_and_startup_dirs() {
    let home = DraffityHome::with_root(String::from("/new"));
    let pairs = home.migration_pairs("/old");
    assert_eq!(pairs.len(), 7);
    assert_eq!(pairs[0], (String::from("/old/voice"), String::from("/new/voice")));
    assert_eq!(pairs[5], (String::from("/old/templates"), String::from("/new/templates")));
    assert_eq!(pairs[6], (String::from("/old/draffity.db"), String::from("/new/draffity.db")));
    assert_eq!(home.migration_marker(), "/new/.migrated-from");
    let dirs = home.dirs_to_create();
    assert_eq!(dirs.len(), 9);
    assert_eq!(dirs[3], "/new/voice/tmp");
    assert_eq!(dirs[8], "/new/templates");
}

#[test]
fn new_uses_default_when_no_config() {
    // The home a fresh install locates: the user's home directory, no
    // config.json override.
    let home_dir = dirs::home_dir().map(|h| h.to_string_lossy().into_owned());
    let home = DraffityHome::with_root(configured_root(default_root(home_dir, host_separator()), None));
    assert!(!home.root().is_empty());
}
