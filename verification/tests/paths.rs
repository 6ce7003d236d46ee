use codex_discovery::path::{NativePath, Platform};
use std::path::Path;

fn native(text: &str) -> NativePath {
    NativePath::from_text(text)
}

fn text(path: &NativePath) -> String {
    String::from_utf8(path.bytes.clone()).expect("text")
}

/// Every text of at most `longest` of the pieces.
fn spellings(pieces: &[&str], longest: usize) -> Vec<String> {
    let mut all = vec![String::new()];
    let mut last = all.clone();
    for _ in 0..longest {
        let mut next = Vec::new();
        for start in &last {
            for piece in pieces {
                next.push(format!("{start}{piece}"));
            }
        }
        all.extend(next.iter().cloned());
        last = next;
    }
    all
}

fn windows_join(base: &str, relative: &str) -> String {
    text(&native(base).join(Platform::Windows, relative.as_bytes()))
}

fn windows_name(path: &str) -> Option<String> {
    native(path).file_name(Platform::Windows).map(|name| String::from_utf8(name).expect("name"))
}

fn same_on_windows(left: &str, right: &str) -> bool {
    native(left).is_same_path(Platform::Windows, &native(right))
}

#[test]
fn unix_file_names_and_extensions_are_those_of_the_system() {
    for spelling in spellings(&["/", ".", "a", "✓", "\\"], 6) {
        let path = native(&spelling);
        let system = Path::new(&spelling);
        assert_eq!(
            path.file_name(Platform::Unix),
            system.file_name().map(|name| name.to_str().expect("name").as_bytes().to_vec()),
            "file name of {spelling:?}"
        );
        assert_eq!(
            path.extension(Platform::Unix),
            system.extension().map(|name| name.to_str().expect("name").as_bytes().to_vec()),
            "extension of {spelling:?}"
        );
    }
}

#[test]
fn unix_paths_are_joined_as_by_the_system() {
    let all = spellings(&["/", ".", "a", "b:"], 4);
    for base in &all {
        for relative in &all {
            assert_eq!(
                text(&native(base).join(Platform::Unix, relative.as_bytes())),
                Path::new(base).join(relative).to_str().expect("path"),
                "{relative:?} joined to {base:?}"
            );
        }
    }
}

#[test]
fn unix_paths_are_compared_as_by_the_system() {
    let all = spellings(&["/", ".", "a"], 5);
    for left in &all {
        for right in &all {
            assert_eq!(
                native(left).is_same_path(Platform::Unix, &native(right)),
                Path::new(left) == Path::new(right),
                "{left:?} and {right:?}"
            );
        }
    }
}

#[test]
fn macos_and_other_systems_read_paths_as_unix_does() {
    for spelling in spellings(&["/", ".", "a", "\\"], 5) {
        for platform in [Platform::MacOs, Platform::Other] {
            let path = native(&spelling);
            assert_eq!(path.file_name(platform), path.file_name(Platform::Unix));
            assert_eq!(path.extension(platform), path.extension(Platform::Unix));
        }
    }
}

#[test]
fn a_trailing_separator_and_dot_names_make_no_difference() {
    let plain = native("/home/user/.codex");
    assert!(plain.is_same_path(Platform::Unix, &native("/home/user/.codex/")));
    assert!(plain.is_same_path(Platform::Unix, &native("/home//user/./.codex")));
    assert!(!plain.is_same_path(Platform::Unix, &native("/home/other/../user/.codex")));
    assert!(!plain.is_same_path(Platform::Unix, &native("home/user/.codex")));
    assert!(!plain.is_same_path(Platform::Unix, &native("/home/user/.Codex")));
}

#[test]
fn a_relative_path_keeps_its_file_name_where_it_is_joined() {
    for base in ["/", "/home/user", "/home/user/", "relative", ".", "", "a/.."] {
        let joined = native(base).join(Platform::Unix, "b/./log.jsonl/.".as_bytes());
        assert_eq!(joined.file_name(Platform::Unix), Some("log.jsonl".as_bytes().to_vec()));
        assert_eq!(joined.extension(Platform::Unix), Some("jsonl".as_bytes().to_vec()));
    }
}

#[test]
fn windows_file_names_take_either_separator_and_skip_prefixes() {
    assert_eq!(windows_name(r"C:\Users\me\codex.exe"), Some("codex.exe".to_string()));
    assert_eq!(windows_name("C:/Users/me/codex.exe/"), Some("codex.exe".to_string()));
    assert_eq!(windows_name(r"codex.exe"), Some("codex.exe".to_string()));
    assert_eq!(windows_name(r"C:codex.exe"), Some("codex.exe".to_string()));
    assert_eq!(windows_name(r"C:\"), None);
    assert_eq!(windows_name(r"C:"), None);
    assert_eq!(windows_name(r"C:\Users\.."), None);
    assert_eq!(windows_name(r"\\server\share"), None);
    assert_eq!(windows_name(r"\\server\share\tool"), Some("tool".to_string()));
    assert_eq!(windows_name(r"\\?\C:\tool"), Some("tool".to_string()));
    assert_eq!(windows_name(r"\\?\C:\a/b"), Some("a/b".to_string()));
    assert_eq!(windows_name(r"\\?\UNC\server\share\tool"), Some("tool".to_string()));
    assert_eq!(windows_name(r"\\.\COM42"), None);
}

#[test]
fn windows_joins_follow_drives_roots_and_shares() {
    assert_eq!(windows_join(r"C:\Users", "Codex"), r"C:\Users\Codex");
    assert_eq!(windows_join(r"C:\Users\", "Codex"), r"C:\Users\Codex");
    assert_eq!(windows_join("C:/Users/", "Codex/codex.exe"), "C:/Users/Codex/codex.exe");
    assert_eq!(windows_join("C:", "Codex"), "C:Codex");
    assert_eq!(windows_join("C:", r"\Users\Native"), r"C:\Users\Native");
    assert_eq!(windows_join(r"C:\Users", r"\Windows"), r"C:\Windows");
    assert_eq!(windows_join(r"C:\Users", r"D:\Data"), r"D:\Data");
    assert_eq!(windows_join(r"C:\Users", "D:Data"), "D:Data");
    assert_eq!(windows_join(r"\\server\share", "Codex"), r"\\server\share\Codex");
    assert_eq!(windows_join(r"\\server\share\a", r"\b"), r"\\server\share\b");
    assert_eq!(windows_join(r"\\?\C:\a", "b/./c"), r"\\?\C:\a\b\c");
    assert_eq!(windows_join(r"\\?\C:\a\b", r"..\c"), r"\\?\C:\a\c");
    assert_eq!(windows_join("", "Codex"), "Codex");
}

#[test]
fn windows_paths_are_compared_by_their_parts() {
    assert!(same_on_windows(r"C:\Users\me", "C:/Users/me/"));
    assert!(same_on_windows(r"c:\Users", r"C:\Users"));
    assert!(same_on_windows(r"C:\Users\.\me", r"C:\Users\me"));
    assert!(!same_on_windows(r"C:\users", r"C:\Users"));
    assert!(!same_on_windows(r"C:Users", r"C:\Users"));
    assert!(!same_on_windows(r"\\?\C:\Users", r"C:\Users"));
    assert!(same_on_windows(r"\\server\share\a", "//server/share/a"));
    assert!(!same_on_windows(r"\\?\C:\a\.\b", r"\\?\C:\a\b"));
    assert!(same_on_windows(r"\\?\UNC/server\share\a", r"\\?\UNC\server\share\a"));
    assert!(!same_on_windows(r"\\?\UNC\server\share\a", r"\\?\UNC\Server\share\a"));
    assert!(same_on_windows(r"\\?\c:\a", r"\\?\C:\a"));
}

#[test]
fn copies_and_texts_of_paths_keep_their_bytes() {
    let path = NativePath::new(vec![0x2f, 0xff, 0x61]);
    assert_eq!(path.to_path_buf(), path);
    assert_eq!(path.bytes, vec![0x2f, 0xff, 0x61]);
    assert_eq!(native("/✓").bytes, "/✓".as_bytes().to_vec());
}
