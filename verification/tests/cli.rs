use dirsync::cli::{
    check_input, log_level, normalize_shm_name, InputError, LogLevel, NameStyle, DEFAULT_SHM_NAME,
    DEFAULT_SHM_SIZE,
};

#[test]
fn posix_names_start_with_one_slash() {
    assert_eq!(normalize_shm_name(NameStyle::Posix, "dirsync_shm"), "/dirsync_shm");
    assert_eq!(normalize_shm_name(NameStyle::Posix, "/docs"), "/docs");
    assert_eq!(normalize_shm_name(NameStyle::Posix, ""), "/");
}

#[test]
fn windows_names_start_with_no_slash() {
    assert_eq!(normalize_shm_name(NameStyle::Windows, "/docs"), "docs");
    assert_eq!(normalize_shm_name(NameStyle::Windows, "docs"), "docs");
    assert_eq!(normalize_shm_name(NameStyle::Windows, "//d/o"), "d/o");
    assert_eq!(normalize_shm_name(NameStyle::Windows, "/"), "");
}

#[test]
fn normalizing_twice_is_normalizing_once() {
    for style in [NameStyle::Posix, NameStyle::Windows] {
        let once = normalize_shm_name(style, "\u{e9}t\u{e9}");
        assert_eq!(normalize_shm_name(style, &once), once);
        assert_eq!(normalize_shm_name(style, "/\u{e9}t\u{e9}"), once);
    }
}

#[test]
fn log_level_grows_with_verbosity() {
    assert_eq!(log_level(0), LogLevel::Info);
    assert_eq!(log_level(1), LogLevel::Debug);
    assert_eq!(log_level(2), LogLevel::Trace);
    assert_eq!(log_level(255), LogLevel::Trace);
}

#[test]
fn input_has_to_be_a_directory() {
    assert_eq!(check_input(false, false), Err(InputError::Missing));
    assert_eq!(check_input(true, false), Err(InputError::NotADirectory));
    assert_eq!(check_input(true, true), Ok(()));
}

#[test]
fn defaults_are_the_documented_ones() {
    assert_eq!(DEFAULT_SHM_NAME, "dirsync_shm");
    assert_eq!(DEFAULT_SHM_SIZE, 64 * 1024 * 1024);
}
