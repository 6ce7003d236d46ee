use codex_discovery::inspection::{
    validate_codex_home, DirectoryEntry, HomeInspection, RootMetadata, WalkQuery,
};
use codex_discovery::path::{NativePath, Platform};
use codex_discovery::validation::CodexHomeValidation;

const RECORD: &str = "{\"timestamp\":1,\"type\":\"event\",\"model\":\"m\"}";

fn native(text: &str) -> NativePath {
    NativePath::from_text(text)
}

fn lines(texts: &[&str]) -> Vec<Option<String>> {
    texts.iter().map(|text| Some(text.to_string())).collect()
}

/// A walk that has entered its root and is to be told the entries.
fn entered() -> HomeInspection {
    let mut walk = HomeInspection::new(Platform::Unix, &native("/root"));
    assert_eq!(validate_codex_home(&walk), Err(WalkQuery::Stat(native("/root"))));
    walk.report_metadata(RootMetadata::Present { is_dir: true });
    assert_eq!(validate_codex_home(&walk), Err(WalkQuery::Canonicalize(native("/root"))));
    walk.report_canonical(Some(native("/root")));
    assert_eq!(validate_codex_home(&walk), Err(WalkQuery::List(native("/root"))));
    walk
}

#[test]
fn what_is_not_a_directory_is_not_walked() {
    for (metadata, expected) in [
        (RootMetadata::Unavailable { exists: true }, CodexHomeValidation::Inaccessible),
        (RootMetadata::Unavailable { exists: false }, CodexHomeValidation::Unsupported),
        (RootMetadata::Present { is_dir: false }, CodexHomeValidation::Unsupported),
    ] {
        let mut walk = HomeInspection::new(Platform::Unix, &native("/root"));
        walk.report_metadata(metadata);
        assert_eq!(validate_codex_home(&walk), Ok(expected));
    }
}

#[test]
fn a_root_without_a_canonical_form_is_inaccessible() {
    let mut walk = HomeInspection::new(Platform::Unix, &native("/root"));
    walk.report_metadata(RootMetadata::Present { is_dir: true });
    walk.report_canonical(None);
    assert_eq!(validate_codex_home(&walk), Ok(CodexHomeValidation::Inaccessible));
}

#[test]
fn a_directory_that_cannot_be_listed_is_inaccessible() {
    let mut walk = entered();
    walk.report_entries(None);
    assert_eq!(validate_codex_home(&walk), Ok(CodexHomeValidation::Inaccessible));
}

#[test]
fn an_empty_directory_is_empty() {
    let mut walk = entered();
    walk.report_entries(Some(Vec::new()));
    assert_eq!(validate_codex_home(&walk), Ok(CodexHomeValidation::Empty));
}

#[test]
fn links_and_files_of_other_names_are_left_alone() {
    let mut walk = entered();
    walk.report_entries(Some(vec![
        DirectoryEntry::Symlink,
        DirectoryEntry::Other,
        DirectoryEntry::File(native("/root/notes.txt")),
        DirectoryEntry::File(native("/root/jsonl")),
        DirectoryEntry::File(native("/root/.jsonl")),
        DirectoryEntry::File(native("/root/log.jsonl.gz")),
    ]));
    assert_eq!(validate_codex_home(&walk), Ok(CodexHomeValidation::Empty));
}

#[test]
fn logs_are_known_by_their_extension_in_any_case() {
    let mut walk = entered();
    walk.report_entries(Some(vec![DirectoryEntry::File(native("/root/Log.JsonL"))]));
    assert_eq!(validate_codex_home(&walk), Err(WalkQuery::Read(native("/root/Log.JsonL"))));
    walk.report_lines(Some(&lines(&[RECORD])));
    assert_eq!(validate_codex_home(&walk), Ok(CodexHomeValidation::Data));
}

#[test]
fn directories_are_visited_depth_first_and_in_order() {
    let mut walk = entered();
    walk.report_entries(Some(vec![
        DirectoryEntry::File(native("/root/a.jsonl")),
        DirectoryEntry::Directory(native("/root/b")),
        DirectoryEntry::File(native("/root/c.jsonl")),
    ]));
    assert_eq!(validate_codex_home(&walk), Err(WalkQuery::Read(native("/root/a.jsonl"))));
    walk.report_lines(Some(&lines(&[])));
    assert_eq!(validate_codex_home(&walk), Err(WalkQuery::Canonicalize(native("/root/b"))));
    walk.report_canonical(Some(native("/root/b")));
    assert_eq!(validate_codex_home(&walk), Err(WalkQuery::List(native("/root/b"))));
    walk.report_entries(Some(vec![DirectoryEntry::File(native("/root/b/d.jsonl"))]));
    assert_eq!(validate_codex_home(&walk), Err(WalkQuery::Read(native("/root/b/d.jsonl"))));
    walk.report_lines(Some(&lines(&[RECORD])));
    assert_eq!(validate_codex_home(&walk), Err(WalkQuery::Read(native("/root/c.jsonl"))));
    walk.report_lines(Some(&lines(&["{}"])));
    assert_eq!(validate_codex_home(&walk), Ok(CodexHomeValidation::Data));
}

#[test]
fn a_log_of_another_kind_is_unsupported() {
    let mut walk = entered();
    walk.report_entries(Some(vec![DirectoryEntry::File(native("/root/a.jsonl"))]));
    walk.report_lines(Some(&lines(&["{}"])));
    assert_eq!(validate_codex_home(&walk), Ok(CodexHomeValidation::Unsupported));
}

#[test]
fn trouble_on_the_way_outweighs_data() {
    let mut walk = entered();
    walk.report_entries(Some(vec![
        DirectoryEntry::File(native("/root/a.jsonl")),
        DirectoryEntry::Unreadable,
    ]));
    walk.report_lines(Some(&lines(&[RECORD])));
    assert_eq!(validate_codex_home(&walk), Ok(CodexHomeValidation::Inaccessible));

    let mut walk = entered();
    walk.report_entries(Some(vec![
        DirectoryEntry::File(native("/root/a.jsonl")),
        DirectoryEntry::File(native("/root/b.jsonl")),
    ]));
    walk.report_lines(Some(&lines(&[RECORD])));
    walk.report_lines(None);
    assert_eq!(validate_codex_home(&walk), Ok(CodexHomeValidation::Inaccessible));
}

#[test]
fn trouble_at_any_depth_outweighs_data() {
    for listed in [Some(vec![DirectoryEntry::Unreadable]), None] {
        let mut walk = entered();
        walk.report_entries(Some(vec![
            DirectoryEntry::File(native("/root/a.jsonl")),
            DirectoryEntry::Directory(native("/root/b")),
        ]));
        walk.report_lines(Some(&lines(&[RECORD])));
        walk.report_canonical(Some(native("/root/b")));
        walk.report_entries(Some(vec![DirectoryEntry::Directory(native("/root/b/c"))]));
        walk.report_canonical(Some(native("/root/b/c")));
        walk.report_entries(listed);
        assert_eq!(validate_codex_home(&walk), Ok(CodexHomeValidation::Inaccessible));
    }
}

#[test]
fn links_are_left_alone_at_any_depth() {
    let mut walk = entered();
    walk.report_entries(Some(vec![
        DirectoryEntry::Symlink,
        DirectoryEntry::Directory(native("/root/b")),
    ]));
    walk.report_canonical(Some(native("/root/b")));
    walk.report_entries(Some(vec![
        DirectoryEntry::Symlink,
        DirectoryEntry::File(native("/root/b/a.jsonl")),
        DirectoryEntry::Other,
    ]));
    walk.report_lines(Some(&lines(&[RECORD])));
    assert_eq!(validate_codex_home(&walk), Ok(CodexHomeValidation::Data));
}

#[test]
fn a_root_reached_through_a_link_comes_to_the_same() {
    for root in ["/real", "/link"] {
        let mut walk = HomeInspection::new(Platform::Unix, &native(root));
        walk.report_metadata(RootMetadata::Present { is_dir: true });
        walk.report_canonical(Some(native("/real")));
        walk.report_entries(Some(vec![DirectoryEntry::File(native(&format!("{root}/a.jsonl")))]));
        assert_eq!(
            validate_codex_home(&walk),
            Err(WalkQuery::Read(native(&format!("{root}/a.jsonl"))))
        );
        walk.report_lines(Some(&lines(&[RECORD])));
        assert_eq!(validate_codex_home(&walk), Ok(CodexHomeValidation::Data));
    }
}

#[test]
fn a_directory_that_was_entered_before_is_a_cycle() {
    let mut walk = entered();
    walk.report_entries(Some(vec![DirectoryEntry::Directory(native("/root/b"))]));
    walk.report_canonical(Some(native("/root/")));
    assert_eq!(validate_codex_home(&walk), Ok(CodexHomeValidation::Inaccessible));
}

#[test]
fn an_answer_that_was_not_asked_for_changes_nothing() {
    let mut walk = HomeInspection::new(Platform::Unix, &native("/root"));
    walk.report_lines(Some(&lines(&[RECORD])));
    walk.report_canonical(None);
    walk.report_entries(None);
    assert_eq!(validate_codex_home(&walk), Err(WalkQuery::Stat(native("/root"))));
    let mut walk = entered();
    walk.report_metadata(RootMetadata::Present { is_dir: false });
    walk.report_canonical(None);
    walk.report_lines(None);
    assert_eq!(validate_codex_home(&walk), Err(WalkQuery::List(native("/root"))));
    walk.report_entries(Some(Vec::new()));
    walk.report_entries(None);
    assert_eq!(validate_codex_home(&walk), Ok(CodexHomeValidation::Empty));
}
