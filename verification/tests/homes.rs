use codex_discovery::home::{
    add_unique_path, automatic_codex_home_candidates, codex_home_candidates, discover_codex_home,
    discover_codex_home_for_mode, discover_codex_home_from_sources, gui_home_text, home_status,
    is_automatic_candidate, is_usable_codex_home, is_valid_codex_home, unavailable_home_status,
};
use codex_discovery::host::{home_dir, home_dir_from_values, non_empty_env_path, Host};
use codex_discovery::observation::{Observations, Query};
use codex_discovery::path::{NativePath, Platform};
use codex_discovery::status::{DiscoveryState, DiscoveryStatus};
use codex_discovery::validation::CodexHomeValidation;

fn native(text: &str) -> NativePath {
    NativePath::from_text(text)
}

fn texts(paths: &[NativePath]) -> Vec<String> {
    paths.iter().map(|path| String::from_utf8(path.bytes.clone()).expect("text")).collect()
}

fn unix_host() -> Host {
    let mut host = Host::bare(Platform::Unix);
    host.home = Some(native("/home/me"));
    host
}

/// Observations of directories; every other path is unsupported, and no path has a
/// canonical form of its own.
fn outcome<T>(
    homes: &[(&str, CodexHomeValidation)],
    search: impl Fn(&Observations) -> Result<T, Query>,
) -> (T, Vec<Query>) {
    let mut observations = Observations::new();
    let mut asked = Vec::new();
    loop {
        match search(&observations) {
            Ok(found) => return (found, asked),
            Err(query) => {
                match &query {
                    Query::Canonicalize(path) => {
                        observations.record_canonical(path.to_path_buf(), None)
                    }
                    Query::ValidateHome(path) => {
                        let validation = homes
                            .iter()
                            .find(|(home, _)| native(home) == *path)
                            .map_or(CodexHomeValidation::Unsupported, |(_, validation)| {
                                *validation
                            });
                        observations.record_home(path.to_path_buf(), validation)
                    }
                    other => panic!("unexpected {other:?}"),
                }
                asked.push(query);
            }
        }
    }
}

fn discover(
    host: &Host,
    chosen: Option<&str>,
    homes: &[(&str, CodexHomeValidation)],
) -> (Option<NativePath>, DiscoveryStatus) {
    let chosen = chosen.map(native);
    outcome(homes, |observations| discover_codex_home(host, chosen.as_ref(), observations)).0
}

fn status(state: DiscoveryState, location: Option<&str>, message: &str) -> DiscoveryStatus {
    DiscoveryStatus {
        state,
        redacted_location: location.map(str::to_string),
        message: message.to_string(),
    }
}

#[test]
fn each_platform_has_its_standard_places() {
    assert_eq!(
        texts(&automatic_codex_home_candidates(&unix_host())),
        [
            "/home/me/.codex",
            "/home/me/.local/share/codex",
            "/home/me/.local/share/Codex",
            "/home/me/.config/codex",
        ]
    );
    let mut mac = Host::bare(Platform::MacOs);
    mac.home = Some(native("/Users/me"));
    assert_eq!(
        texts(&automatic_codex_home_candidates(&mac)),
        [
            "/Users/me/Library/Application Support/Codex",
            "/Users/me/Library/Application Support/com.openai.codex",
            "/Users/me/Library/Application Support/OpenAI/Codex",
            "/Users/me/.codex",
        ]
    );
    let mut windows = Host::bare(Platform::Windows);
    windows.user_profile = Some(native(r"C:\Users\me"));
    windows.app_data = Some(native(r"C:\Users\me\AppData\Roaming"));
    windows.local_app_data = Some(native(r"C:\Users\me\AppData\Local"));
    assert_eq!(
        texts(&automatic_codex_home_candidates(&windows)),
        [
            r"C:\Users\me\AppData\Roaming\Codex",
            r"C:\Users\me\AppData\Local\Codex",
            r"C:\Users\me\.codex",
        ]
    );
}

#[test]
fn without_a_home_there_are_no_standard_places() {
    for platform in [Platform::MacOs, Platform::Windows, Platform::Unix, Platform::Other] {
        assert!(automatic_codex_home_candidates(&Host::bare(platform)).is_empty());
    }
    let mut windows = Host::bare(Platform::Windows);
    windows.app_data = Some(native(""));
    windows.local_app_data = Some(native(r"D:\Local"));
    assert_eq!(texts(&automatic_codex_home_candidates(&windows)), [r"D:\Local\Codex"]);
}

#[test]
fn no_place_is_tried_twice() {
    let mut windows = Host::bare(Platform::Windows);
    windows.app_data = Some(native(r"C:\Data"));
    windows.local_app_data = Some(native("c:/Data/"));
    assert_eq!(texts(&automatic_codex_home_candidates(&windows)), [r"C:\Data\Codex"]);

    let mut paths = Vec::new();
    add_unique_path(Platform::Unix, &mut paths, native("/a/b"));
    add_unique_path(Platform::Unix, &mut paths, native("/a//b/"));
    add_unique_path(Platform::Unix, &mut paths, native("/a/B"));
    assert_eq!(texts(&paths), ["/a/b", "/a/B"]);
}

#[test]
fn a_requested_directory_is_listed_first_and_once() {
    let mut host = unix_host();
    host.codex_home = Some(native("/home/me/.config/codex/"));
    assert_eq!(
        texts(&codex_home_candidates(&host, None)),
        [
            "/home/me/.config/codex/",
            "/home/me/.codex",
            "/home/me/.local/share/codex",
            "/home/me/.local/share/Codex",
        ]
    );
    let chosen = native("/chosen");
    assert_eq!(texts(&codex_home_candidates(&host, Some(&chosen)))[0], "/chosen");
    assert_eq!(codex_home_candidates(&host, Some(&chosen)).len(), 5);
    host.codex_home = Some(native(""));
    assert_eq!(codex_home_candidates(&host, None).len(), 4);
}

#[test]
fn a_chosen_directory_is_used_or_the_search_ends() {
    let host = unix_host();
    let all = [
        ("/home/me/data", CodexHomeValidation::Data),
        ("/home/me/empty", CodexHomeValidation::Empty),
        ("/home/me/locked", CodexHomeValidation::Inaccessible),
        ("/home/me/.codex", CodexHomeValidation::Data),
    ];
    assert_eq!(
        discover(&host, Some("/home/me/data"), &all),
        (
            Some(native("/home/me/data")),
            status(DiscoveryState::Selected, Some("~/data"), "Selected")
        )
    );
    assert_eq!(
        discover(&host, Some("/home/me/empty"), &all),
        (
            Some(native("/home/me/empty")),
            status(
                DiscoveryState::Selected,
                Some("~/empty"),
                "Selected empty data directory; waiting for Codex JSONL"
            )
        )
    );
    assert_eq!(
        discover(&host, Some("/home/me/locked"), &all),
        (
            None,
            status(
                DiscoveryState::Unsupported,
                Some("~/locked"),
                "Codex data directory is inaccessible"
            )
        )
    );
    assert_eq!(
        discover(&host, Some("/elsewhere"), &all),
        (
            None,
            status(
                DiscoveryState::Unsupported,
                Some("local path redacted"),
                "Folder is not a supported Codex data directory"
            )
        )
    );
}

#[test]
fn the_environment_decides_unless_its_directory_cannot_be_used() {
    let mut host = unix_host();
    host.codex_home = Some(native("/home/me/env"));
    assert_eq!(
        discover(&host, None, &[("/home/me/env", CodexHomeValidation::Empty)]),
        (
            Some(native("/home/me/env")),
            status(DiscoveryState::AutoDetected, Some("~/env"), "Empty data directory")
        )
    );
    assert_eq!(
        discover(
            &host,
            None,
            &[
                ("/home/me/env", CodexHomeValidation::Inaccessible),
                ("/home/me/.local/share/codex", CodexHomeValidation::Data),
            ]
        ),
        (
            Some(native("/home/me/.local/share/codex")),
            status(DiscoveryState::AutoDetected, Some("~/.local/share/codex"), "Auto-detected")
        )
    );
    assert_eq!(
        discover(&host, None, &[("/home/me/env", CodexHomeValidation::Inaccessible)]),
        (
            None,
            status(
                DiscoveryState::Missing,
                Some("~/env"),
                "Codex data directory is inaccessible"
            )
        )
    );
    assert_eq!(
        discover(&host, None, &[]),
        (
            None,
            status(
                DiscoveryState::Missing,
                Some("~/env"),
                "Folder is not a supported Codex data directory"
            )
        )
    );
}

#[test]
fn data_of_the_desktop_app_is_named_as_such() {
    let mut host = Host::bare(Platform::MacOs);
    host.home = Some(native("/Users/me"));
    assert_eq!(
        discover(
            &host,
            None,
            &[
                ("/Users/me/Library/Application Support/OpenAI/Codex", CodexHomeValidation::Data),
                ("/Users/me/.codex", CodexHomeValidation::Data),
            ]
        ),
        (
            Some(native("/Users/me/Library/Application Support/OpenAI/Codex")),
            status(
                DiscoveryState::AutoDetected,
                Some("~/Library/Application Support/OpenAI/Codex"),
                "Desktop app data detected"
            )
        )
    );
}

#[test]
fn the_mode_makes_no_difference() {
    let host = unix_host();
    let homes = [("/home/me/.codex", CodexHomeValidation::Data)];
    for prefer_gui in [false, true] {
        let (found, _) = outcome(&homes, |observations| {
            discover_codex_home_for_mode(&host, None, prefer_gui, observations)
        });
        assert_eq!(found, discover(&host, None, &homes));
    }
}

#[test]
fn a_search_asks_each_question_once_and_only_what_it_needs() {
    let host = unix_host();
    let chosen = native("/home/me/data");
    let homes = [("/home/me/data", CodexHomeValidation::Data)];
    let (_, asked) =
        outcome(&homes, |observations| discover_codex_home(&host, Some(&chosen), observations));
    assert_eq!(
        asked,
        [
            Query::ValidateHome(native("/home/me/data")),
            Query::Canonicalize(native("/home/me/data")),
            Query::Canonicalize(native("/home/me")),
        ]
    );
    let (found, asked) = outcome(&[], |observations| {
        discover_codex_home_from_sources(
            &host,
            None,
            None,
            &vec![native("/a"), native("/b")],
            observations,
        )
    });
    assert_eq!(asked, [Query::ValidateHome(native("/a")), Query::ValidateHome(native("/b"))]);
    assert_eq!(
        found,
        (
            None,
            status(DiscoveryState::Missing, None, "No usable Codex data directory found")
        )
    );
}

#[test]
fn a_found_directory_is_one_of_the_candidates() {
    let host = unix_host();
    let homes = [("/home/me/.config/codex", CodexHomeValidation::Data)];
    let (found, _) = discover(&host, None, &homes);
    let found = found.expect("home");
    assert!(codex_home_candidates(&host, None)
        .iter()
        .any(|candidate| candidate.is_same_path(Platform::Unix, &found)));
}

#[test]
fn statuses_say_what_a_directory_holds() {
    let host = Host::bare(Platform::Unix);
    let observations = Observations::new();
    let path = native("/data");
    let used = |validation, selected, source: &str| {
        home_status(&host, &path, validation, selected, source, &observations)
            .expect("no question")
            .message
    };
    assert_eq!(used(CodexHomeValidation::Data, true, "x"), "Selected");
    assert_eq!(used(CodexHomeValidation::Data, false, "CODEX_HOME"), "Using CODEX_HOME");
    assert_eq!(used(CodexHomeValidation::Data, false, "x"), "Auto-detected");
    assert_eq!(
        used(CodexHomeValidation::Empty, true, "x"),
        "Selected empty data directory; waiting for Codex JSONL"
    );
    assert_eq!(used(CodexHomeValidation::Empty, false, "x"), "Empty data directory");
    assert_eq!(
        used(CodexHomeValidation::Unsupported, false, "x"),
        "Codex data directory is unavailable"
    );
    assert_eq!(
        used(CodexHomeValidation::Inaccessible, true, "x"),
        "Codex data directory is unavailable"
    );
    for (validation, message) in [
        (CodexHomeValidation::Data, "Codex data directory is available"),
        (
            CodexHomeValidation::Empty,
            "Selected empty data directory; waiting for Codex JSONL",
        ),
        (
            CodexHomeValidation::Unsupported,
            "Folder is not a supported Codex data directory",
        ),
        (CodexHomeValidation::Inaccessible, "Codex data directory is inaccessible"),
    ] {
        for (explicit, state) in
            [(true, DiscoveryState::Unsupported), (false, DiscoveryState::Missing)]
        {
            assert_eq!(
                unavailable_home_status(&host, &path, validation, explicit, &observations),
                Ok(status(state, Some("local path redacted"), message))
            );
        }
    }
}

#[test]
fn an_empty_directory_is_valid_but_not_usable() {
    let mut observations = Observations::new();
    for (validation, valid, usable) in [
        (CodexHomeValidation::Data, true, true),
        (CodexHomeValidation::Empty, true, false),
        (CodexHomeValidation::Unsupported, false, false),
        (CodexHomeValidation::Inaccessible, false, false),
    ] {
        let path = native("/data");
        observations.record_home(native("/data"), validation);
        assert_eq!(is_valid_codex_home(&path, &observations), Ok(valid));
        assert_eq!(is_usable_codex_home(&path, &observations), Ok(usable));
        assert_eq!(is_automatic_candidate(&path, &observations), Ok(usable));
    }
    let unknown = native("/unknown");
    assert_eq!(
        is_valid_codex_home(&unknown, &observations),
        Err(Query::ValidateHome(native("/unknown")))
    );
}

#[test]
fn desktop_data_is_known_in_any_case_and_with_slashes_at_the_end() {
    for place in [
        "/Users/me/Library/Application Support/Codex",
        "/Users/me/Library/Application Support/com.openai.codex",
        "/Users/me/Library/Application Support/OpenAI/Codex",
        "C:/Users/me/AppData/Roaming/Codex",
        "C:/Users/me/AppData/Local/Codex",
    ] {
        assert!(gui_home_text(place));
        assert!(gui_home_text(&place.to_ascii_uppercase()));
        assert!(gui_home_text(&format!("{place}//")));
        assert!(!gui_home_text(&format!("{place}/sub")));
        assert!(!gui_home_text(&format!("{place}x")));
    }
}

#[test]
fn the_native_profile_precedes_a_unix_style_home_on_windows() {
    let profile = native(r"C:\Users\Native");
    let drive = native("D:");
    let path = native(r"\Users\Drive");
    let home = native("/msys/home");
    assert_eq!(
        home_dir_from_values(
            Platform::Windows,
            Some(&profile),
            Some(&drive),
            Some(&path),
            Some(&home)
        ),
        Some(native(r"C:\Users\Native"))
    );
    assert_eq!(
        home_dir_from_values(Platform::Windows, None, Some(&drive), Some(&path), Some(&home)),
        Some(native(r"D:\Users\Drive"))
    );
    assert_eq!(
        home_dir_from_values(Platform::Windows, None, Some(&drive), None, Some(&home)),
        Some(native("/msys/home"))
    );
    assert_eq!(
        home_dir_from_values(Platform::MacOs, Some(&profile), Some(&drive), Some(&path), None),
        None
    );
    let mut host = Host::bare(Platform::Unix);
    host.user_profile = Some(native(r"C:\Users\Native"));
    assert_eq!(home_dir(&host), None);
    host.home = Some(native(""));
    assert_eq!(home_dir(&host), Some(native("")));
}

#[test]
fn a_variable_set_to_nothing_counts_as_not_set() {
    assert_eq!(non_empty_env_path(&None), None);
    assert_eq!(non_empty_env_path(&Some(native(""))), None);
    assert_eq!(non_empty_env_path(&Some(native(" "))), Some(native(" ")));
}
