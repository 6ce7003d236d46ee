use codex_discovery::binary::{
    codex_binary_candidates, codex_file_name, discover_codex_binary, explicit_binary_result,
    gui_binary_text, is_executable_file, macos_app_binary_candidates, macos_bundle_executables,
    path_candidates, platform_fallback_binary_candidates, resolve_codex_executable, which_on_path,
};
use codex_discovery::host::{windows_executable_extensions, Host};
use codex_discovery::observation::{FileMetadata, Observations, Query};
use codex_discovery::path::{NativePath, Platform};
use codex_discovery::status::{DiscoveryState, DiscoveryStatus};

const TOOL: FileMetadata = FileMetadata { is_file: true, is_dir: false, mode: 0o755 };
const PLAIN: FileMetadata = FileMetadata { is_file: true, is_dir: false, mode: 0o644 };
const DIRECTORY: FileMetadata = FileMetadata { is_file: false, is_dir: true, mode: 0o755 };

fn native(text: &str) -> NativePath {
    NativePath::from_text(text)
}

fn texts(paths: &[NativePath]) -> Vec<String> {
    paths.iter().map(|path| String::from_utf8(path.bytes.clone()).expect("text")).collect()
}

/// The outcome on a machine with these files and these bundles, where no path has a
/// canonical form of its own.
fn outcome<T>(
    files: &[(&str, FileMetadata)],
    bundles: &str,
    search: impl Fn(&Observations) -> Result<T, Query>,
) -> T {
    let mut observations = Observations::new();
    loop {
        match search(&observations) {
            Ok(found) => return found,
            Err(Query::Canonicalize(path)) => observations.record_canonical(path, None),
            Err(Query::Inspect(path)) => {
                let metadata =
                    files.iter().find(|(file, _)| native(file) == path).map(|(_, file)| *file);
                observations.record_file(path, metadata);
            }
            Err(Query::FindBundles) => observations.record_bundles(bundles.as_bytes().to_vec()),
            Err(other) => panic!("unexpected {other:?}"),
        }
    }
}

fn resolve(host: &Host, path: &str, files: &[(&str, FileMetadata)]) -> Option<NativePath> {
    let path = native(path);
    outcome(files, "", |observations| resolve_codex_executable(host, &path, observations))
}

fn discover(
    host: &Host,
    chosen: Option<&str>,
    files: &[(&str, FileMetadata)],
    bundles: &str,
) -> (Option<NativePath>, DiscoveryStatus) {
    let chosen = chosen.map(native);
    outcome(files, bundles, |observations| {
        discover_codex_binary(host, chosen.as_ref(), observations)
    })
}

fn status(state: DiscoveryState, location: Option<&str>, message: &str) -> DiscoveryStatus {
    DiscoveryStatus {
        state,
        redacted_location: location.map(str::to_string),
        message: message.to_string(),
    }
}

fn mac() -> Host {
    let mut host = Host::bare(Platform::MacOs);
    host.home = Some(native("/Users/me"));
    host
}

#[test]
fn the_tool_is_known_by_its_name() {
    let unix = Host::bare(Platform::Unix);
    for name in ["/bin/codex", "/bin/Codex-CLI", "codex", "/bin/CODEX/"] {
        assert!(codex_file_name(&unix, &native(name)), "{name}");
    }
    for name in ["/bin/codex.exe", "/bin/codex2", "/bin/tool", "/", "/bin/codex/..", ""] {
        assert!(!codex_file_name(&unix, &native(name)), "{name}");
    }
    assert!(!codex_file_name(&unix, &NativePath::new(vec![0x63, 0xff])));
    let windows = Host::bare(Platform::Windows);
    for name in [r"C:\codex", r"C:\Codex.EXE", r"C:\codex-cli.com", r"C:\CODEX-CLI"] {
        assert!(codex_file_name(&windows, &native(name)), "{name}");
    }
    for name in [r"C:\codex.bat", r"C:\codex.cmd", r"C:\codex.ps1", r"C:\codex.exe.txt"] {
        assert!(!codex_file_name(&windows, &native(name)), "{name}");
    }
}

#[test]
fn executable_extensions_are_read_from_pathext() {
    let default = [".com", ".exe", ".bat", ".cmd"];
    assert_eq!(windows_executable_extensions(&None), default);
    assert_eq!(windows_executable_extensions(&Some(native(""))), default);
    assert_eq!(windows_executable_extensions(&Some(native(" \t"))), default);
    assert_eq!(
        windows_executable_extensions(&Some(native(" .EXE ;;ps1; .Com"))),
        [".exe", ".ps1", ".com"]
    );
    assert!(windows_executable_extensions(&Some(native(";"))).is_empty());
    assert_eq!(
        windows_executable_extensions(&Some(NativePath::new(vec![0x2e, 0xed, 0xa0, 0x80]))),
        [".\u{fffd}"]
    );
}

#[test]
fn a_file_that_can_be_run_is_told_by_its_permissions_on_unix() {
    for platform in [Platform::Unix, Platform::MacOs] {
        let host = Host::bare(platform);
        let path = native("/bin/tool");
        for mode in [0o100u32, 0o010, 0o001, 0o755, 0o111] {
            let file = FileMetadata { is_file: true, is_dir: false, mode };
            assert!(is_executable_file(&host, &path, Some(file)));
        }
        for mode in [0u32, 0o644, 0o666, 0o7000] {
            let file = FileMetadata { is_file: true, is_dir: false, mode };
            assert!(!is_executable_file(&host, &path, Some(file)));
        }
        assert!(!is_executable_file(&host, &path, Some(DIRECTORY)));
        assert!(!is_executable_file(&host, &path, None));
    }
    let other = Host::bare(Platform::Other);
    assert!(is_executable_file(&other, &native("tool"), Some(PLAIN)));
    assert!(!is_executable_file(&other, &native("tool"), Some(DIRECTORY)));
}

#[test]
fn a_file_that_can_be_run_is_told_by_its_extension_on_windows() {
    let mut host = Host::bare(Platform::Windows);
    for (path, expected) in [
        (r"C:\tool.exe", true),
        (r"C:\tool.COM", true),
        (r"C:\tool.bat", false),
        (r"C:\tool.Cmd", false),
        (r"C:\tool.txt", false),
        (r"C:\tool", false),
        (r"C:\.exe", false),
    ] {
        assert_eq!(is_executable_file(&host, &native(path), Some(PLAIN)), expected, "{path}");
    }
    host.path_extensions = Some(native("ps1;.BAT"));
    assert!(is_executable_file(&host, &native(r"C:\tool.PS1"), Some(PLAIN)));
    assert!(!is_executable_file(&host, &native(r"C:\tool.bat"), Some(PLAIN)));
    assert!(!is_executable_file(&host, &native(r"C:\tool.exe"), Some(PLAIN)));
}

#[test]
fn a_path_stands_for_the_tool_only_where_it_is_the_tool() {
    let unix = Host::bare(Platform::Unix);
    let files = [("/bin/codex", TOOL), ("/bin/tool", TOOL), ("/lib/codex", PLAIN)];
    assert_eq!(resolve(&unix, "/bin/codex", &files), Some(native("/bin/codex")));
    assert_eq!(resolve(&unix, "/bin/tool", &files), None);
    assert_eq!(resolve(&unix, "/lib/codex", &files), None);
    assert_eq!(resolve(&unix, "/missing/codex", &files), None);
}

#[test]
fn scripts_are_not_resolved_on_windows() {
    let host = Host::bare(Platform::Windows);
    let files = [(r"C:\codex.bat", PLAIN), (r"C:\codex.exe", PLAIN), (r"C:\codex", PLAIN)];
    assert_eq!(resolve(&host, r"C:\codex.exe", &files), Some(native(r"C:\codex.exe")));
    assert_eq!(resolve(&host, r"C:\codex.bat", &files), None);
    assert_eq!(resolve(&host, r"C:\codex", &files), None);
}

#[test]
fn a_bundle_stands_for_the_first_tool_inside_it() {
    let inside = texts(&macos_bundle_executables(Platform::MacOs, &native("/A/Codex.app")));
    assert_eq!(
        inside,
        [
            "/A/Codex.app/Contents/MacOS/codex",
            "/A/Codex.app/Contents/MacOS/Codex",
            "/A/Codex.app/Contents/Resources/codex",
        ]
    );
    for path in &inside {
        assert!(codex_file_name(&mac(), &native(path)));
    }
    let files = [
        ("/A/Codex.app", DIRECTORY),
        (inside[0].as_str(), PLAIN),
        (inside[1].as_str(), TOOL),
        (inside[2].as_str(), TOOL),
    ];
    assert_eq!(resolve(&mac(), "/A/Codex.app", &files), Some(native(&inside[1])));
    assert_eq!(resolve(&Host::bare(Platform::Unix), "/A/Codex.app", &files), None);
    let files = [("/A/Codex.APP", DIRECTORY), ("/A/Codex.APP/Contents/Resources/codex", TOOL)];
    assert_eq!(
        resolve(&mac(), "/A/Codex.APP", &files),
        Some(native("/A/Codex.APP/Contents/Resources/codex"))
    );
    let files = [("/A/Codex", DIRECTORY), ("/A/Codex/Contents/MacOS/codex", TOOL)];
    assert_eq!(resolve(&mac(), "/A/Codex", &files), None);
}

#[test]
fn the_search_path_lists_candidates_in_order() {
    let mut unix = Host::bare(Platform::Unix);
    assert!(path_candidates(&unix, "codex").is_empty());
    unix.search_path = Some(vec![native("/bin"), native("/usr/bin/"), native("")]);
    assert_eq!(
        texts(&path_candidates(&unix, "codex")),
        ["/bin/codex", "/usr/bin/codex", "codex"]
    );
    let mut windows = Host::bare(Platform::Windows);
    windows.path_extensions = Some(native(".EXE;.COM"));
    windows.search_path = Some(vec![native(r"C:\bin"), native(r"D:\")]);
    assert_eq!(
        texts(&path_candidates(&windows, "codex")),
        [
            r"C:\bin\codex",
            r"C:\bin\codex.exe",
            r"C:\bin\codex.com",
            r"D:\codex",
            r"D:\codex.exe",
            r"D:\codex.com",
        ]
    );
    assert_eq!(
        texts(&path_candidates(&windows, "codex.exe")),
        [r"C:\bin\codex.exe", r"D:\codex.exe"]
    );
}

#[test]
fn the_first_tool_on_the_search_path_is_found() {
    let mut host = Host::bare(Platform::Unix);
    host.search_path = Some(vec![native("/a"), native("/b"), native("/c")]);
    let files = [("/a/codex", PLAIN), ("/b/codex", TOOL), ("/c/codex", TOOL)];
    assert_eq!(
        outcome(&files, "", |observations| which_on_path(&host, "codex", observations)),
        Some(native("/b/codex"))
    );
    assert_eq!(outcome(&[], "", |observations| which_on_path(&host, "codex", observations)), None);
}

#[test]
fn bundles_of_the_search_index_are_read_line_by_line() {
    let output = " /A/ChatGPT.app \r\n/B/✓.app\n";
    assert_eq!(
        texts(&macos_app_binary_candidates(Platform::MacOs, output.as_bytes())),
        [
            "/A/ChatGPT.app/Contents/MacOS/codex",
            "/A/ChatGPT.app/Contents/MacOS/Codex",
            "/A/ChatGPT.app/Contents/Resources/codex",
            "/B/✓.app/Contents/MacOS/codex",
            "/B/✓.app/Contents/MacOS/Codex",
            "/B/✓.app/Contents/Resources/codex",
        ]
    );
    assert!(macos_app_binary_candidates(Platform::MacOs, &[]).is_empty());
    assert_eq!(
        texts(&macos_app_binary_candidates(Platform::MacOs, "\n".as_bytes())),
        ["Contents/MacOS/codex", "Contents/MacOS/Codex", "Contents/Resources/codex"]
    );
    assert_eq!(
        texts(&macos_app_binary_candidates(Platform::MacOs, &[0x2f, 0xff]))[0],
        "/\u{fffd}/Contents/MacOS/codex"
    );
}

#[test]
fn each_platform_has_its_fallback_places() {
    assert_eq!(
        texts(&platform_fallback_binary_candidates(&mac())),
        [
            "/Users/me/.local/bin/codex",
            "/Users/me/Library/Application Support/Codex/bin/codex",
            "/Users/me/Applications/ChatGPT.app",
            "/Users/me/Applications/Codex.app",
            "/Applications/ChatGPT.app",
            "/Applications/Codex.app",
            "/usr/local/bin/codex",
            "/opt/homebrew/bin/codex",
        ]
    );
    assert_eq!(platform_fallback_binary_candidates(&Host::bare(Platform::MacOs)).len(), 4);
    let mut windows = Host::bare(Platform::Windows);
    windows.program_files = Some(native(r"C:\Program Files"));
    windows.local_app_data = Some(native(r"C:\Local"));
    assert_eq!(
        texts(&platform_fallback_binary_candidates(&windows)),
        [r"C:\Program Files\Codex/codex.exe", r"C:\Local\Programs/Codex/codex.exe"]
    );
    assert!(platform_fallback_binary_candidates(&Host::bare(Platform::Windows)).is_empty());
    assert!(platform_fallback_binary_candidates(&Host::bare(Platform::Unix)).is_empty());
}

#[test]
fn candidates_are_listed_in_the_order_of_their_precedence() {
    let mut host = mac();
    host.codex_binary = Some(native("/env/codex"));
    host.search_path = Some(vec![native("/bin")]);
    let files = [("/bin/codex", TOOL)];
    let listed = outcome(&files, "/X/Codex.app\n", |observations| {
        codex_binary_candidates(&host, None, observations)
    });
    let listed = texts(&listed);
    assert_eq!(listed[..3], ["/env/codex", "/bin/codex", "/X/Codex.app/Contents/MacOS/codex"]);
    assert_eq!(listed.len(), 13);
    let chosen = native("/chosen");
    let listed = outcome(&files, "", |observations| {
        codex_binary_candidates(&host, Some(&chosen), observations)
    });
    assert_eq!(texts(&listed), ["/chosen"]);
}

#[test]
fn a_chosen_executable_is_used_or_the_search_ends() {
    let mut host = Host::bare(Platform::Unix);
    host.home = Some(native("/home/me"));
    host.search_path = Some(vec![native("/bin")]);
    let files = [("/home/me/codex", TOOL), ("/home/me/tool", TOOL), ("/bin/codex", TOOL)];
    assert_eq!(
        discover(&host, Some("/home/me/codex"), &files, ""),
        (
            Some(native("/home/me/codex")),
            status(DiscoveryState::Selected, Some("~/codex"), "Selected")
        )
    );
    let rejected = (
        None,
        status(
            DiscoveryState::Unsupported,
            Some("~/tool"),
            "Selected item is not an executable Codex CLI or macOS app bundle",
        ),
    );
    assert_eq!(discover(&host, Some("/home/me/tool"), &files, ""), rejected);
    let tool = native("/home/me/tool");
    assert_eq!(
        outcome(&files, "", |observations| explicit_binary_result(&host, &tool, observations)),
        rejected
    );
}

#[test]
fn an_executable_is_searched_for_in_the_order_of_precedence() {
    let mut host = mac();
    host.codex_binary = Some(native("/Users/me/env/codex"));
    host.search_path = Some(vec![native("/Users/me/bin")]);
    let bundle = "/Users/me/X/Codex.app\n";
    let all = [
        ("/Users/me/env/codex", TOOL),
        ("/Users/me/bin/codex", TOOL),
        ("/Users/me/X/Codex.app/Contents/Resources/codex", TOOL),
        ("/Users/me/.local/bin/codex", TOOL),
    ];
    for (known, location, message) in [
        (&all[..], "~/env/codex", "Using CODEX_BINARY"),
        (&all[1..], "~/bin/codex", "Found on PATH"),
        (
            &all[2..],
            "~/X/Codex.app/Contents/Resources/codex",
            "Found in a macOS app bundle",
        ),
        (&all[3..], "~/.local/bin/codex", "Found at a platform fallback path"),
    ] {
        assert_eq!(
            discover(&host, None, known, bundle),
            (
                Some(native(known[0].0)),
                status(DiscoveryState::AutoDetected, Some(location), message)
            )
        );
    }
    assert_eq!(
        discover(&host, None, &[], bundle),
        (
            None,
            status(
                DiscoveryState::Missing,
                Some("~/env/codex"),
                "CODEX_BINARY is not a valid executable Codex CLI"
            )
        )
    );
    host.codex_binary = None;
    assert_eq!(
        discover(&host, None, &[], bundle),
        (None, status(DiscoveryState::Missing, None, "No executable Codex CLI found"))
    );
}

#[test]
fn bundles_are_searched_for_on_macos_alone() {
    for platform in [Platform::Unix, Platform::Windows, Platform::Other] {
        let mut host = Host::bare(platform);
        host.home = Some(native("/Users/me"));
        let observations = Observations::new();
        assert_eq!(
            discover_codex_binary(&host, None, &observations),
            Ok((None, status(DiscoveryState::Missing, None, "No executable Codex CLI found")))
        );
    }
    let observations = Observations::new();
    assert_eq!(discover_codex_binary(&mac(), None, &observations), Err(Query::FindBundles));
}

#[test]
fn the_executable_of_a_desktop_app_is_known_in_any_case() {
    for text in [
        "/Applications/ChatGPT.app/Contents/Resources/codex",
        "/Applications/Codex.app/Contents/Resources/codex",
        "/applications/CODEX.APP/contents/resources/CODEX",
    ] {
        assert!(gui_binary_text(text));
    }
    assert!(!gui_binary_text("/Applications/Codex.app/Contents/MacOS/codex"));
    assert!(!gui_binary_text("/Applications/Codex.app/Contents/Resources/codex/"));
}
