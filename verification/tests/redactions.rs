use codex_discovery::host::Host;
use codex_discovery::observation::{Observations, Query};
use codex_discovery::path::{NativePath, Platform};
use codex_discovery::redaction::{redact_path, redact_path_with_home, redact_text};
use codex_discovery::status::{
    app_server_status, app_server_status_for_mode, DiscoveryState, DiscoveryStatus,
};

fn native(text: &str) -> NativePath {
    NativePath::from_text(text)
}

#[test]
fn the_home_itself_is_a_tilde() {
    assert_eq!(redact_text(Platform::Unix, "/home/me", "/home/me"), "~");
    assert_eq!(redact_text(Platform::Unix, "/home/me/", "/home/me"), "~");
    assert_eq!(redact_text(Platform::Unix, "/home/me", "/home/me//"), "~");
    assert_eq!(redact_text(Platform::Windows, "c:/users/ME", "C:/Users/me/"), "~");
}

#[test]
fn a_path_below_the_home_keeps_its_tail() {
    assert_eq!(redact_text(Platform::Unix, "/home/me/a/B", "/home/me"), "~/a/B");
    assert_eq!(redact_text(Platform::Unix, "/home/me/a/B/", "/home/me/"), "~/a/B");
    assert_eq!(redact_text(Platform::Windows, "C:/Users/Me/A/B", "c:/users/me"), "~/A/B");
    assert_eq!(redact_text(Platform::Windows, "C:/Users/Me/A/B/", "c:/users/me"), "~/A/B/");
    assert_eq!(redact_text(Platform::MacOs, "C:/Users/Me/A/B", "c:/users/me"), "~/a/b");
    assert_eq!(redact_text(Platform::Unix, "/usr", "/"), "~/usr");
}

#[test]
fn a_path_outside_the_home_is_not_echoed() {
    for (path, home) in [
        ("/home/other", "/home/me"),
        ("/home/mercury", "/home/me"),
        ("/home/Me/a", "/home/me"),
        ("home/me/a", "/home/me"),
        ("/", "/home/me"),
        ("", "/home/me"),
    ] {
        assert_eq!(redact_text(Platform::Unix, path, home), "local path redacted");
    }
    assert_eq!(
        redact_text(Platform::Windows, "D:/Users/me/a", "C:/Users/me"),
        "local path redacted"
    );
}

#[test]
fn a_path_that_leads_out_of_the_home_again_is_not_echoed() {
    let path = native("/no-such-root/u/../bob/key");
    let home = native("/no-such-root/u");
    let mut observations = Observations::new();
    observations.record_canonical(native("/no-such-root/u/../bob/key"), None);
    observations.record_canonical(native("/no-such-root/u"), None);
    for platform in [Platform::Unix, Platform::MacOs, Platform::Windows, Platform::Other] {
        assert_eq!(
            redact_path_with_home(platform, &path, Some(&home), &observations),
            Ok("local path redacted".to_string())
        );
    }
    for tail in ["..", "../", "../x", "a/../../b", "./../b", "/../b", "a//.././../b", "a/../.."] {
        assert_eq!(
            redact_text(Platform::Unix, &format!("/home/me/{tail}"), "/home/me"),
            "local path redacted",
            "{tail}"
        );
        assert_eq!(
            redact_text(Platform::Windows, &format!("C:/Users/Me/{tail}"), "C:/users/me"),
            "local path redacted",
            "{tail}"
        );
        assert_eq!(
            redact_text(Platform::Unix, &format!("C:/Users/Me/{tail}"), "C:/users/me"),
            "local path redacted",
            "{tail}"
        );
        assert_eq!(
            redact_text(Platform::Windows, &format!("//server/share/Me/{tail}"), "//Server/share/me"),
            "local path redacted",
            "{tail}"
        );
    }
    assert_eq!(redact_text(Platform::Unix, "../../x", ".."), "local path redacted");
    assert_eq!(redact_text(Platform::Unix, "./../x", "."), "local path redacted");
}

#[test]
fn a_path_that_leads_back_into_the_home_is_shown() {
    assert_eq!(redact_text(Platform::Unix, "/no/u/../u/x", "/no/u"), "~/../u/x");
    assert_eq!(redact_text(Platform::Unix, "/no/u/../../no/u", "/no/u"), "~/../../no/u");
    assert_eq!(redact_text(Platform::Unix, "/no/u/../../../no/u/x", "/no/u"), "~/../../../no/u/x");
    assert_eq!(redact_text(Platform::Unix, "a/../a/x", "a"), "~/../a/x");
    assert_eq!(redact_text(Platform::Unix, "../u/../x", ".."), "~/u/../x");
    assert_eq!(redact_text(Platform::Unix, "/no/u/../U/x", "/no/u"), "local path redacted");
    assert_eq!(
        redact_text(Platform::Windows, "C:/Users/Me/../ME/X", "C:/users/me"),
        "~/../ME/X"
    );
    assert_eq!(
        redact_text(Platform::Windows, r"C:\Users\Me\..\..\..\Users\me\X", r"C:\users\me"),
        "~/../../../Users/me/X"
    );
    assert_eq!(redact_text(Platform::MacOs, "C:/Users/Me/../ME/X", "C:/users/me"), "~/../me/x");
}

#[test]
fn nothing_leads_out_of_a_root() {
    assert_eq!(redact_text(Platform::Unix, "/../x", "/"), "~/../x");
    assert_eq!(redact_text(Platform::Unix, "/a/../../x", "/"), "~/a/../../x");
    assert_eq!(redact_text(Platform::Windows, "C:/../X", "C:/"), "~/../X");
    assert_eq!(redact_text(Platform::Windows, "C:/../X", "C:"), "~/../X");
    assert_eq!(
        redact_text(Platform::Windows, "//server/share/../x", "//server/share"),
        "~/../x"
    );
    assert_eq!(
        redact_text(Platform::Windows, "//server/share/../../x", "//server"),
        "~/share/../../x"
    );
}

#[test]
fn off_windows_a_backslash_is_part_of_a_name() {
    for platform in [Platform::Unix, Platform::MacOs, Platform::Other] {
        assert_eq!(redact_text(platform, r"/no/u/..\x", "/no/u"), "~/../x");
        assert_eq!(redact_text(platform, r"/no/u/a\..\..\x", "/no/u"), "~/a/../../x");
        assert_eq!(redact_text(platform, r"/no/u\v/x", r"/no/u\v"), "~/x");
        assert_eq!(redact_text(platform, r"/no/u\x", "/no/u"), "local path redacted");
        assert_eq!(redact_text(platform, "/no/u/v/x", r"/no/u\v"), "local path redacted");
    }
    assert_eq!(redact_text(Platform::Windows, r"/no/u\x", "/no/u"), "~/x");
    assert_eq!(redact_text(Platform::Windows, r"/no/u/..\x", "/no/u"), "local path redacted");
    assert_eq!(redact_text(Platform::Unix, r"C:\u\..\x", r"C:\u"), "local path redacted");
}

#[test]
fn a_path_that_stays_below_the_home_is_shown_though_it_leads_up() {
    for tail in ["a/../b", "a/b/../../c", "./a", "a/..", "...", "..a", "a/..b/../c", "a/./../b"] {
        assert_eq!(
            redact_text(Platform::Unix, &format!("/home/me/{tail}"), "/home/me"),
            format!("~/{tail}")
        );
    }
    assert_eq!(redact_text(Platform::Windows, "C:/Users/Me/A/../B", "c:/users/me"), "~/A/../B");
}

#[test]
fn nothing_lies_under_a_home_without_a_name() {
    let path = native("/no-such-root/secret");
    let home = native("");
    let mut observations = Observations::new();
    observations.record_canonical(native("/no-such-root/secret"), None);
    observations.record_canonical(native(""), None);
    for platform in [Platform::Unix, Platform::MacOs, Platform::Windows, Platform::Other] {
        assert_eq!(
            redact_path_with_home(platform, &path, Some(&home), &observations),
            Ok("local path redacted".to_string())
        );
        for text in ["secret", "/secret", "//secret", "/../secret", "C:/secret"] {
            assert_eq!(redact_text(platform, text, ""), "local path redacted");
        }
        for text in ["", "/", "//"] {
            assert_eq!(redact_text(platform, text, ""), "~");
        }
    }
    let mut host = Host::bare(Platform::Unix);
    host.home = Some(native(""));
    assert_eq!(
        redact_path(&host, &path, &observations),
        Ok("local path redacted".to_string())
    );
}

#[test]
fn a_colon_is_looked_for_at_the_second_byte() {
    assert_eq!(redact_text(Platform::Unix, "✓:/A", "✓:"), "~/A");
    assert_eq!(redact_text(Platform::Unix, "a:/A", "a:"), "~/a");
}

#[test]
fn redaction_goes_by_canonical_forms() {
    let mut host = Host::bare(Platform::Unix);
    host.home = Some(native("/home/me"));
    let path = native("/link");
    let mut observations = Observations::new();
    assert_eq!(
        redact_path(&host, &path, &observations),
        Err(Query::Canonicalize(native("/link")))
    );
    observations.record_canonical(native("/link"), Some(native("/real/me/data")));
    assert_eq!(
        redact_path(&host, &path, &observations),
        Err(Query::Canonicalize(native("/home/me")))
    );
    observations.record_canonical(native("/home/me"), Some(native("/real/me")));
    assert_eq!(redact_path(&host, &path, &observations), Ok("~/data".to_string()));
    observations.record_canonical(native("/other"), None);
    assert_eq!(redact_path(&host, &path, &observations), Ok("~/data".to_string()));
    assert_eq!(
        redact_path(&host, &native("/other"), &observations),
        Ok("local path redacted".to_string())
    );
}

#[test]
fn without_a_home_nothing_is_asked_and_nothing_is_shown() {
    let observations = Observations::new();
    assert_eq!(
        redact_path_with_home(Platform::Unix, &native("/secret"), None, &observations),
        Ok("local path redacted".to_string())
    );
}

#[test]
fn a_later_observation_replaces_an_earlier_one() {
    let mut observations = Observations::new();
    let path = native("/a");
    observations.record_canonical(native("/a"), None);
    assert_eq!(observations.canonical_or_original(&path), Ok(native("/a")));
    observations.record_canonical(native("/a"), Some(native("/b")));
    assert_eq!(observations.canonical_or_original(&path), Ok(native("/b")));
}

#[test]
fn the_app_server_is_never_reported_as_usable() {
    assert_eq!(
        app_server_status(true),
        DiscoveryStatus {
            state: DiscoveryState::Unsupported,
            redacted_location: Some("CLI App Server".to_string()),
            message: "Unavailable: App Server supervision is not integrated".to_string(),
        }
    );
    assert_eq!(app_server_status(false), DiscoveryStatus::missing("Waiting for Codex executable"));
    for binary_found in [false, true] {
        assert_eq!(
            app_server_status_for_mode(binary_found, true),
            DiscoveryStatus::not_required("Not required for desktop app")
        );
        assert_eq!(
            app_server_status_for_mode(binary_found, false),
            app_server_status(binary_found)
        );
    }
}
