use glimpse_speech::paths::{
    begins_with_drive, begins_with_separator, extension, file_name, file_stem, is_verbatim, join,
    path_names, path_pieces, path_prefix, PathStyle,
};

const UNIX: PathStyle = PathStyle::Unix;
const WINDOWS: PathStyle = PathStyle::Windows;

#[test]
fn names_lie_between_separators() {
    assert_eq!(path_names(UNIX, "/a//b/./c/"), ["a", "b", "c"]);
    assert_eq!(path_names(UNIX, r"C:\a\b"), [r"C:\a\b"]);
    assert_eq!(path_names(WINDOWS, r"\a\\b/.\c\"), ["a", "b", "c"]);
    assert_eq!(path_names(WINDOWS, r"C:\a\b"), ["a", "b"]);
    assert_eq!(path_names(WINDOWS, "C:a"), ["a"]);
    assert_eq!(path_names(WINDOWS, r"\\server\share\a"), ["a"]);
    assert!(path_names(WINDOWS, r"\\server\share").is_empty());
    assert_eq!(path_names(WINDOWS, r"\\server"), ["server"]);
    assert_eq!(path_names(WINDOWS, r"a\..\b"), ["a", "..", "b"]);
    assert_eq!(path_pieces(WINDOWS, r"\a/b\"), ["", "a", "b", ""]);
    assert_eq!(path_pieces(UNIX, r"\a/b"), [r"\a", "b"]);
}

#[test]
fn drives_and_shares_come_first() {
    assert_eq!(path_prefix(UNIX, "C:a"), 0);
    assert_eq!(path_prefix(WINDOWS, "C:a"), 2);
    assert_eq!(path_prefix(WINDOWS, "é:a"), 0);
    assert_eq!(path_prefix(WINDOWS, r"\\server\share\a"), 14);
    assert_eq!(path_prefix(WINDOWS, "//server/share"), 14);
    assert_eq!(path_prefix(WINDOWS, r"\\server\"), 0);
    assert_eq!(path_prefix(WINDOWS, r"\\\share"), 0);
    assert_eq!(path_prefix(UNIX, "//server/share"), 0);
    assert!(begins_with_drive(WINDOWS, "z:"));
    assert!(!begins_with_drive(UNIX, "z:"));
    assert!(begins_with_separator(WINDOWS, r"\a"));
    assert!(!begins_with_separator(UNIX, r"\a"));
    assert!(!begins_with_separator(WINDOWS, ""));
}

#[test]
fn files_have_stems_and_extensions() {
    assert_eq!(file_name(WINDOWS, r"C:\a\b.tar.gz").as_deref(), Some("b.tar.gz"));
    assert_eq!(file_stem(WINDOWS, r"C:\a\b.tar.gz").as_deref(), Some("b.tar"));
    assert_eq!(extension(WINDOWS, r"C:\a\b.tar.gz").as_deref(), Some("gz"));
    assert_eq!(extension(WINDOWS, r"a.b\c"), None);
    assert_eq!(extension(UNIX, r"a.b\c").as_deref(), Some(r"b\c"));
    assert_eq!(file_name(WINDOWS, r"C:\"), None);
    assert_eq!(file_name(WINDOWS, r"a\.."), None);
    assert_eq!(file_stem(UNIX, "a/.hidden").as_deref(), Some(".hidden"));
    assert_eq!(extension(UNIX, "a/b.").as_deref(), Some(""));
}

#[test]
fn paths_are_joined() {
    assert_eq!(join(UNIX, "a", "b"), "a/b");
    assert_eq!(join(UNIX, "a/", "b"), "a/b");
    assert_eq!(join(UNIX, "", "b"), "b");
    assert_eq!(join(UNIX, "a", "/b"), "/b");
    assert_eq!(join(UNIX, "a", ""), "a/");
    assert_eq!(join(WINDOWS, "a", "b"), r"a\b");
    assert_eq!(join(WINDOWS, "a/", "b"), "a/b");
    assert_eq!(join(WINDOWS, "C:", "b"), "C:b");
    assert_eq!(join(WINDOWS, r"C:\a", "b"), r"C:\a\b");
    assert_eq!(join(WINDOWS, r"C:\a", r"\b"), r"C:\b");
    assert_eq!(join(WINDOWS, r"C:\a", "D:b"), "D:b");
    assert_eq!(join(WINDOWS, r"\\server\share\a", r"\b"), r"\\server\share\b");
    assert_eq!(join(WINDOWS, r"\\server\share", "b"), r"\\server\share\b");
}

#[test]
fn verbatim_paths_have_rules_of_their_own() {
    assert!(is_verbatim(WINDOWS, r"\\?\C:\a"));
    assert!(!is_verbatim(WINDOWS, "//?/C:/a"));
    assert!(!is_verbatim(UNIX, r"\\?\C:\a"));
    for (path, prefix) in [
        (r"\\?\C:\a", 6),
        (r"\\?\C:", 6),
        (r"\\?\C:a\b", 7),
        (r"\\?\pictures\kittens", 12),
        (r"\\?\pictures/kittens\a", 20),
        (r"\\?\", 4),
        (r"\\?\UNC\server\share\a", 20),
        (r"\\?\UNC\server", 14),
        (r"\\?\UNC\server\", 14),
        (r"\\?\UNC", 7),
        ("//?/C:/a", 6),
        (r"\\.\COM42\a", 9),
        (r"\\.\", 4),
    ] {
        assert_eq!(path_prefix(WINDOWS, path), prefix, "{path}");
    }
    assert_eq!(path_names(WINDOWS, r"\\?\C:\a/b\\.\c"), ["a/b", ".", "c"]);
    assert_eq!(path_names(WINDOWS, r"\\?\UNC\server\share\a\b"), ["a", "b"]);
    assert_eq!(path_names(WINDOWS, r"\\.\COM42\a/b"), ["a", "b"]);
    assert_eq!(file_name(WINDOWS, r"\\?\C:\a\."), None);
    assert_eq!(file_name(WINDOWS, r"C:\a\.").as_deref(), Some("a"));
    assert_eq!(extension(WINDOWS, r"\\?\C:\x/a.bin").as_deref(), Some("bin"));
}

#[test]
fn verbatim_directories_are_joined_name_by_name() {
    assert_eq!(join(WINDOWS, r"\\?\C:\cache", "m/f.bin"), r"\\?\C:\cache\m\f.bin");
    assert_eq!(join(WINDOWS, r"\\?\C:\cache\\x\", r".\a\..\b"), r"\\?\C:\cache\x\b");
    assert_eq!(join(WINDOWS, r"\\?\C:\cache", r"..\..\.."), r"\\?\C:\");
    assert_eq!(join(WINDOWS, r"\\?\C:\cache", r"\a"), r"\\?\C:\a");
    assert_eq!(join(WINDOWS, r"\\?\C:", "a"), r"\\?\C:\a");
    assert_eq!(join(WINDOWS, r"\\?\C:\cache", "D:a"), "D:a");
    assert_eq!(join(WINDOWS, r"\\?\C:\cache", ""), r"\\?\C:\cache\");
    assert_eq!(join(WINDOWS, r"\\?\UNC\server\share", "a/b"), r"\\?\UNC\server\share\a\b");
}

#[test]
fn joined_names_follow_those_of_the_directory() {
    for (style, dir, path) in [
        (UNIX, "/cache", "m/f.bin"),
        (UNIX, "", "f.bin"),
        (WINDOWS, r"C:\cache", r"m\f.bin"),
        (WINDOWS, "C:", "f.bin"),
        (WINDOWS, r"\\server\share", "m/f.bin"),
        (WINDOWS, r"\\server\share\cache\", "f.bin"),
        (WINDOWS, r"\\?\C:\cache\", "m/f.bin"),
        (WINDOWS, r"\\?\UNC\server\share", "m/f.bin"),
        (WINDOWS, r"\\.\disk", "f.bin"),
    ] {
        let mut expected = path_names(style, dir);
        expected.extend(path_names(style, path));
        assert_eq!(path_names(style, &join(style, dir, path)), expected, "{dir}");
    }
    assert_eq!(path_names(WINDOWS, &join(WINDOWS, r"\\server", "f.bin")), Vec::<String>::new());
}
