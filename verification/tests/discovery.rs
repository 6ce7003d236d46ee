use codex_discovery::binary::{
    codex_binary_candidates, is_executable_file, is_gui_binary, resolve_codex_executable,
};
use codex_discovery::home::{
    discover_codex_home_from_sources, is_gui_home, is_usable_codex_home, is_valid_codex_home,
};
use codex_discovery::host::{home_dir_from_values, windows_executable_extensions, Host};
use codex_discovery::inspection::{
    validate_codex_home, DirectoryEntry, HomeInspection, RootMetadata, WalkQuery,
};
use codex_discovery::observation::{FileMetadata, Observations, Query};
use codex_discovery::path::{NativePath, Platform};
use codex_discovery::redaction::redact_path_with_home;
use codex_discovery::status::{app_server_status_for_mode, DiscoveryState, DiscoveryStatus};
use codex_discovery::validation::CodexHomeValidation;
use std::collections::BTreeMap;

/// What lies at a path of a disk that exists only in memory.
enum Node {
    Directory,
    File { content: String, mode: u32 },
    Link { target: String },
}

struct Disk {
    nodes: BTreeMap<String, Node>,
}

const RECORD: &str = "{\"request_id\":\"r1\",\"turn_id\":\"t1\",\"timestamp\":1735689600,\"model\":\"gpt-5-codex\",\"usage\":{\"input_tokens\":10,\"output_tokens\":4}}\n";

impl Disk {
    fn new() -> Disk {
        Disk { nodes: BTreeMap::new() }
    }

    fn create_dir_all(&mut self, path: &str) {
        let mut at = String::new();
        for name in path.split('/').filter(|name| !name.is_empty()) {
            at = format!("{at}/{name}");
            self.nodes.entry(at.clone()).or_insert(Node::Directory);
        }
    }

    fn write(&mut self, path: &str, content: &str, mode: u32) {
        let parent = path.rsplit_once('/').expect("parent").0.to_string();
        self.create_dir_all(&parent);
        self.nodes.insert(path.to_string(), Node::File { content: content.to_string(), mode });
    }

    fn write_record(&mut self, path: &str) {
        self.write(path, RECORD, 0o644);
    }

    fn link(&mut self, path: &str, target: &str) {
        self.nodes.insert(path.to_string(), Node::Link { target: target.to_string() });
    }

    fn canonical(&self, path: &str) -> Option<String> {
        match self.nodes.get(path) {
            Some(Node::Link { target }) => self.canonical(target),
            Some(_) => Some(path.to_string()),
            None => None,
        }
    }

    fn entries(&self, path: &str) -> Vec<DirectoryEntry> {
        let prefix = format!("{path}/");
        let mut entries = Vec::new();
        for (at, node) in &self.nodes {
            if let Some(name) = at.strip_prefix(&prefix) {
                if !name.contains('/') {
                    entries.push(match node {
                        Node::Directory => DirectoryEntry::Directory(native(at)),
                        Node::File { .. } => DirectoryEntry::File(native(at)),
                        Node::Link { .. } => DirectoryEntry::Symlink,
                    });
                }
            }
        }
        entries
    }

    fn metadata(&self, path: &str) -> Option<FileMetadata> {
        let at = self.canonical(path)?;
        match self.nodes.get(&at)? {
            Node::Directory => Some(FileMetadata { is_file: false, is_dir: true, mode: 0o755 }),
            Node::File { mode, .. } => {
                Some(FileMetadata { is_file: true, is_dir: false, mode: *mode })
            }
            Node::Link { .. } => None,
        }
    }

    fn validate(&self, path: &NativePath) -> CodexHomeValidation {
        let mut inspection = HomeInspection::new(Platform::Unix, path);
        loop {
            match validate_codex_home(&inspection) {
                Ok(validation) => return validation,
                Err(WalkQuery::Stat(path)) => {
                    inspection.report_metadata(match self.metadata(&text(&path)) {
                        Some(metadata) => RootMetadata::Present { is_dir: metadata.is_dir },
                        None => RootMetadata::Unavailable { exists: false },
                    })
                }
                Err(WalkQuery::Canonicalize(path)) => {
                    inspection.report_canonical(self.canonical(&text(&path)).map(|at| native(&at)))
                }
                Err(WalkQuery::List(path)) => {
                    inspection.report_entries(Some(self.entries(&text(&path))))
                }
                Err(WalkQuery::Read(path)) => {
                    let lines: Option<Vec<Option<String>>> = match self.nodes.get(&text(&path)) {
                        Some(Node::File { content, .. }) => {
                            Some(content.lines().map(|line| Some(line.to_string())).collect())
                        }
                        _ => None,
                    };
                    inspection.report_lines(lines.as_ref())
                }
            }
        }
    }

    fn answer(&self, query: Query, observations: &mut Observations) {
        match query {
            Query::Canonicalize(path) => {
                let canonical = self.canonical(&text(&path)).map(|at| native(&at));
                observations.record_canonical(path, canonical);
            }
            Query::Inspect(path) => {
                let metadata = self.metadata(&text(&path));
                observations.record_file(path, metadata);
            }
            Query::ValidateHome(path) => {
                let validation = self.validate(&path);
                observations.record_home(path, validation);
            }
            Query::FindBundles => observations.record_bundles(Vec::new()),
        }
    }

    fn ask<T>(&self, search: impl Fn(&Observations) -> Result<T, Query>) -> T {
        let mut observations = Observations::new();
        loop {
            match search(&observations) {
                Ok(outcome) => return outcome,
                Err(query) => self.answer(query, &mut observations),
            }
        }
    }

    fn discover(
        &self,
        chosen: Option<&NativePath>,
        environment: Option<&NativePath>,
        automatic: Vec<NativePath>,
    ) -> (Option<NativePath>, DiscoveryStatus) {
        let host = Host::bare(Platform::Unix);
        self.ask(|observations| {
            discover_codex_home_from_sources(&host, chosen, environment, &automatic, observations)
        })
    }

    fn redact(&self, platform: Platform, path: &NativePath, home: Option<&NativePath>) -> String {
        self.ask(|observations| redact_path_with_home(platform, path, home, observations))
    }
}

fn native(text: &str) -> NativePath {
    NativePath::from_text(text)
}

fn text(path: &NativePath) -> String {
    String::from_utf8(path.bytes.clone()).expect("text")
}

#[test]
fn persisted_override_precedes_environment_and_automatic_candidates() {
    let mut disk = Disk::new();
    let persisted = native("/precedence/selected");
    let environment = native("/precedence/environment");
    let automatic = native("/precedence/automatic");
    disk.write_record("/precedence/selected/session.jsonl");
    disk.write_record("/precedence/environment/session.jsonl");
    disk.write_record("/precedence/automatic/session.jsonl");

    let (selected, status) = disk.discover(Some(&persisted), Some(&environment), vec![automatic]);
    assert_eq!(selected, Some(persisted));
    assert!(matches!(status.state, DiscoveryState::Selected));
}

#[test]
fn environment_precedes_automatic_candidates() {
    let mut disk = Disk::new();
    let environment = native("/environment/environment");
    let automatic = native("/environment/automatic");
    disk.write_record("/environment/environment/session.jsonl");
    disk.write_record("/environment/automatic/session.jsonl");

    let (selected, status) = disk.discover(None, Some(&environment), vec![automatic]);
    assert_eq!(selected, Some(environment));
    assert_eq!(status.message, "Using CODEX_HOME");
}

#[test]
fn empty_automatic_directory_is_skipped_ahead_of_valid_data() {
    let mut disk = Disk::new();
    let empty = native("/empty/empty");
    let valid = native("/empty/valid");
    disk.create_dir_all("/empty/empty");
    disk.write_record("/empty/valid/sessions/with spaces (unicode-✓).jsonl");

    let (selected, _) = disk.discover(None, None, vec![empty, valid.to_path_buf()]);
    assert_eq!(selected, Some(valid));
}

#[test]
fn manual_empty_directory_is_distinguished_from_unsupported_data() {
    let mut disk = Disk::new();
    let empty = native("/manual-empty/future");
    let malformed = native("/manual-empty/malformed");
    disk.create_dir_all("/manual-empty/future");
    disk.create_dir_all("/manual-empty/malformed");
    disk.write("/manual-empty/malformed/not-codex.jsonl", "{\"hello\":\"world\"}\n", 0o644);
    assert_eq!(disk.validate(&empty), CodexHomeValidation::Empty);
    assert_eq!(disk.validate(&malformed), CodexHomeValidation::Unsupported);
    assert!(disk.ask(|observations| is_valid_codex_home(&empty, observations)));
    assert!(!disk.ask(|observations| is_usable_codex_home(&empty, observations)));
}

#[test]
fn rejects_non_codex_jsonl_and_reports_missing_without_host_installation() {
    let mut disk = Disk::new();
    disk.write("/unsupported/data.jsonl", "{\"prompt\":\"not a Codex record\"}\n", 0o644);
    let (selected, status) = disk.discover(None, None, vec![native("/unsupported")]);
    assert!(selected.is_none());
    assert!(matches!(status.state, DiscoveryState::Missing));
    assert_eq!(status.message, "No usable Codex data directory found");
    assert_eq!(status.redacted_location, None);
}

#[test]
fn redaction_handles_home_paths_spaces_unicode_parentheses_and_symlinks() {
    let mut disk = Disk::new();
    let home = native("/redaction/Home User (✓)");
    let nested = native("/redaction/Home User (✓)/Library/Application Support/Codex");
    disk.create_dir_all("/redaction/Home User (✓)/Library/Application Support/Codex");
    let redacted = disk.redact(Platform::Unix, &nested, Some(&home));
    assert_eq!(redacted, "~/Library/Application Support/Codex");
    assert!(!redacted.contains("Home User"));
    assert!(!redacted.contains(&text(&home)));

    disk.link("/redaction/link", "/redaction/Home User (✓)/Library/Application Support/Codex");
    assert_eq!(
        disk.redact(Platform::Unix, &native("/redaction/link"), Some(&home)),
        "~/Library/Application Support/Codex"
    );
    let outside = native("/redaction/outside (private)/file.jsonl");
    assert_eq!(disk.redact(Platform::Unix, &outside, Some(&home)), "local path redacted");
    assert_eq!(disk.redact(Platform::Unix, &outside, None), "local path redacted");
}

#[test]
fn redaction_supports_windows_style_paths_without_echoing_usernames() {
    let disk = Disk::new();
    let home = native(r"C:\Users\Sample User");
    let path = native(r"C:\Users\Sample User\AppData\Roaming\Codex (✓)");
    for (platform, expected) in [
        (Platform::Windows, "~/AppData/Roaming/Codex (✓)"),
        (Platform::Unix, "~/appdata/roaming/codex (✓)"),
        (Platform::MacOs, "~/appdata/roaming/codex (✓)"),
    ] {
        let redacted = disk.redact(platform, &path, Some(&home));
        assert_eq!(redacted, expected);
        assert!(!redacted.contains("Sample User"));
    }
}

#[test]
fn missing_or_unusual_home_values_do_not_leak_paths() {
    let disk = Disk::new();
    let arbitrary = native("Users/Unexpected Home (private)/Codex");
    assert_eq!(disk.redact(Platform::Unix, &arbitrary, None), "local path redacted");
    assert!(home_dir_from_values(Platform::Unix, None, None, None, None).is_none());
    let home = native("home/user");
    assert_eq!(
        home_dir_from_values(Platform::Unix, None, None, None, Some(&home)),
        Some(native("home/user"))
    );
    let drive = native("C:");
    let path = native(r"\Users\Native");
    let msys = native(r"/msys/home");
    let directory =
        home_dir_from_values(Platform::Windows, None, Some(&drive), Some(&path), Some(&msys))
            .expect("native Windows home");
    assert_eq!(directory, native(r"C:\Users\Native"));
}

#[test]
fn skips_symlink_directory_cycles() {
    let mut disk = Disk::new();
    disk.write_record("/cycle/session.jsonl");
    disk.link("/cycle/nested-cycle", "/cycle");
    assert_eq!(disk.validate(&native("/cycle")), CodexHomeValidation::Data);
}

#[test]
fn desktop_mode_status_does_not_claim_unintegrated_supervision() {
    let desktop = app_server_status_for_mode(false, true);
    assert!(matches!(desktop.state, DiscoveryState::NotRequired));
    let cli = app_server_status_for_mode(true, false);
    assert!(matches!(cli.state, DiscoveryState::Unsupported));
    assert!(cli.message.contains("not integrated"));
}

#[test]
fn recognizes_desktop_app_data_roots_and_bundles() {
    assert!(is_gui_home(Platform::Unix, &native("/tmp/nerftrack/Library/Application Support/Codex")));
    assert!(is_gui_home(Platform::Unix, &native(r"C:\profiles\sample\AppData\Roaming\Codex")));
    assert!(!is_gui_home(Platform::Unix, &native("/tmp/nerftrack/Documents/Codex")));
    assert!(!is_gui_home(Platform::Unix, &native("/tmp/nerftrack/.codex")));
    assert!(is_gui_binary(Platform::Unix, &native("/Applications/ChatGPT.app/Contents/Resources/codex")));
    assert!(!is_gui_binary(Platform::Unix, &native("/usr/local/bin/codex")));
}

#[test]
fn includes_standard_macos_desktop_binary_candidates() {
    let disk = Disk::new();
    let mut host = Host::bare(Platform::MacOs);
    host.home = Some(native("/Users/sample"));
    let candidates =
        disk.ask(|observations| codex_binary_candidates(&host, None, observations));
    assert!(candidates
        .iter()
        .any(|candidate| text(candidate).ends_with("/ChatGPT.app")));
}

#[test]
fn resolves_a_macos_app_bundle_codex_executable() {
    let mut disk = Disk::new();
    let bundle = native("/macos-bundle/Codex.app");
    disk.write("/macos-bundle/Codex.app/Contents/MacOS/codex", "#!/bin/sh\n", 0o755);
    let host = Host::bare(Platform::MacOs);
    assert_eq!(
        disk.ask(|observations| resolve_codex_executable(&host, &bundle, observations)),
        Some(native("/macos-bundle/Codex.app/Contents/MacOS/codex"))
    );
}

#[test]
fn rejects_an_arbitrary_executable_file_as_codex() {
    let mut disk = Disk::new();
    let arbitrary = native("/binary/tool");
    disk.write("/binary/tool", "", 0o755);
    let host = Host::bare(Platform::Unix);
    assert!(is_executable_file(&host, &arbitrary, disk.metadata("/binary/tool")));
    assert!(disk
        .ask(|observations| resolve_codex_executable(&host, &arbitrary, observations))
        .is_none());
}

#[test]
fn resolves_windows_codex_executables_using_pathext() {
    let mut disk = Disk::new();
    let host = Host::bare(Platform::Windows);
    let extension = windows_executable_extensions(&host.path_extensions)
        .into_iter()
        .next()
        .expect("PATHEXT extension");
    let executable = native(&format!("/windows-binary/codex{extension}"));
    disk.write(&text(&executable), "codex", 0);
    assert!(is_executable_file(&host, &executable, disk.metadata(&text(&executable))));
    assert_eq!(
        disk.ask(|observations| resolve_codex_executable(&host, &executable, observations)),
        Some(executable)
    );
    let arbitrary = native(&format!("/windows-binary/tool{extension}"));
    disk.write(&text(&arbitrary), "not codex", 0);
    assert!(disk
        .ask(|observations| resolve_codex_executable(&host, &arbitrary, observations))
        .is_none());
}
