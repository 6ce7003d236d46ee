use codex_discovery::path::{NativePath, Platform};
use codex_discovery::redaction::{normalized_path, path_comparison_value};
use codex_discovery::text::{
    blank, ends_with, is_whitespace, lowercase, same_text, split, trim, trim_end_matches,
    with_forward_slashes,
};

/// Every text of at most `longest` of the characters.
fn spellings(characters: &[char], longest: usize) -> Vec<String> {
    let mut all = vec![String::new()];
    let mut last = all.clone();
    for _ in 0..longest {
        let mut next = Vec::new();
        for start in &last {
            for character in characters {
                next.push(format!("{start}{character}"));
            }
        }
        all.extend(next.iter().cloned());
        last = next;
    }
    all
}

#[test]
fn white_space_is_that_of_unicode() {
    for character in '\0'..=char::MAX {
        assert_eq!(is_whitespace(character), character.is_whitespace(), "{character:?}");
    }
}

#[test]
fn trimming_and_blankness_agree_with_the_standard_library() {
    for text in spellings(&[' ', '\t', '\u{a0}', '\u{2003}', 'a', '✓'], 5) {
        assert_eq!(trim(&text), text.trim());
        assert_eq!(blank(&text), text.trim().is_empty());
    }
}

#[test]
fn splitting_agrees_with_the_standard_library() {
    for text in spellings(&[';', 'a', '✓'], 6) {
        assert_eq!(split(&text, ';'), text.split(';').map(str::to_string).collect::<Vec<_>>());
    }
}

#[test]
fn case_folding_touches_ascii_letters_alone() {
    for character in '\0'..=char::MAX {
        let text = character.to_string();
        assert_eq!(lowercase(&text), text.to_ascii_lowercase());
    }
    assert_eq!(lowercase("ÄPFEL.JSONL"), "Äpfel.jsonl");
}

#[test]
fn ends_of_texts_agree_with_the_standard_library() {
    let all = spellings(&['/', 'a', 'b'], 4);
    for text in &all {
        assert_eq!(trim_end_matches(text, '/'), text.trim_end_matches('/'));
        for other in &all {
            assert_eq!(ends_with(text, other), text.ends_with(other.as_str()));
            assert_eq!(same_text(text, other), text == other);
        }
    }
}

#[test]
fn backslashes_become_slashes() {
    assert_eq!(with_forward_slashes(r"C:\Users\me"), "C:/Users/me");
    assert_eq!(with_forward_slashes("/home/✓"), "/home/✓");
    let path = NativePath::from_text(r"C:\Users/me\");
    assert_eq!(normalized_path(Platform::Unix, &path), "C:/Users/me/");
}

#[test]
fn bytes_that_are_no_text_are_replaced() {
    let cases: [&[u8]; 7] = [
        &[0x2f, 0xff, 0x61],
        &[0x2f, 0xe2, 0x9c, 0x93],
        &[0x2f, 0xe2, 0x9c, 0x2f],
        &[0xed, 0xa0, 0x80, 0x61],
        &[0xf0, 0x9f, 0x92],
        &[0xc0, 0x80],
        &[],
    ];
    for bytes in cases {
        let path = NativePath::new(bytes.to_vec());
        assert_eq!(
            path.to_string_lossy(Platform::Unix),
            String::from_utf8_lossy(bytes).into_owned()
        );
        assert_eq!(
            normalized_path(Platform::Unix, &path),
            String::from_utf8_lossy(bytes).replace('\\', "/")
        );
    }
}

#[test]
fn an_unpaired_surrogate_of_a_windows_path_is_one_replacement() {
    let path = NativePath::new(vec![0x61, 0xed, 0xa0, 0x80, 0x5c, 0xed, 0xb0, 0x80, 0x62]);
    assert_eq!(path.to_string_lossy(Platform::Windows), "a\u{fffd}\\\u{fffd}b");
    assert_eq!(normalized_path(Platform::Windows, &path), "a\u{fffd}/\u{fffd}b");
    let hangul = NativePath::from_text("\u{d7ff}x");
    assert_eq!(hangul.to_string_lossy(Platform::Windows), "\u{d7ff}x");
}

#[test]
fn comparison_values_drop_slashes_and_in_windows_style_case() {
    assert_eq!(path_comparison_value("/Home/User//", false), "/Home/User");
    assert_eq!(path_comparison_value("C:/Home/User/", true), "c:/home/user");
    assert_eq!(path_comparison_value("/", false), "");
    assert_eq!(path_comparison_value("", true), "");
}
