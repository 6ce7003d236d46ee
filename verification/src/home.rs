//! Finding the Codex data directory.

use crate::host::{home_dir, home_of, non_empty, non_empty_env_path, ref_bytes, Host};
use crate::observation::{search_answer, status_answer, Facts, Observations, Query, Question};
use crate::path::{
    are_distinct, contains_path, holds_path, join_of, law_paths_spell_their_text, maybe_bytes,
    path_bytes, same_path, NativePath, Platform,
};
use crate::redaction::{
    law_redaction_is_stable, normalized_path, normalized_text, redact_on, redact_path,
};
use crate::status::{located, unlocated, DiscoveryState, DiscoveryStatus, StatusView};
use crate::text::{
    ascii_lower, ends_with, forward_slashes, law_trimmed_marks, lowercase, same_text,
    trim_end_mark, trim_end_matches,
};
use crate::validation::CodexHomeValidation;
use vstd::prelude::*;
use vstd::utf8::encode_utf8;

verus! {

/// The paths with one more, unless it is already among them.
pub open spec fn add_unique(platform: Platform, paths: Seq<Seq<u8>>, path: Seq<u8>) -> Seq<
    Seq<u8>,
> {
    if holds_path(platform, paths, path) {
        paths
    } else {
        paths.push(path)
    }
}

/// The paths without those that an earlier one already spells.
pub open spec fn unique_paths(platform: Platform, paths: Seq<Seq<u8>>) -> Seq<Seq<u8>>
    decreases paths.len(),
{
    if paths.len() == 0 {
        seq![]
    } else {
        add_unique(platform, unique_paths(platform, paths.drop_last()), paths.last())
    }
}

/// A path below a directory, where there is such a directory.
pub open spec fn below(platform: Platform, base: Option<Seq<u8>>, relative: Seq<char>) -> Seq<
    Seq<u8>,
> {
    match base {
        Some(base) => seq![join_of(platform, base, encode_utf8(relative))],
        None => seq![],
    }
}

/// The places where Codex keeps its data on a platform, the likeliest first. On
/// macOS the desktop app's come before that of the command line tool.
pub open spec fn standard_places(host: Host) -> Seq<Seq<u8>> {
    let platform = host.platform;
    let home = home_of(host);
    match platform {
        Platform::MacOs => below(platform, home, "Library/Application Support/Codex"@) + below(
            platform,
            home,
            "Library/Application Support/com.openai.codex"@,
        ) + below(platform, home, "Library/Application Support/OpenAI/Codex"@) + below(
            platform,
            home,
            ".codex"@,
        ),
        Platform::Windows => below(platform, non_empty(host.app_data), "Codex"@) + below(
            platform,
            non_empty(host.local_app_data),
            "Codex"@,
        ) + below(platform, home, ".codex"@),
        _ => below(platform, home, ".codex"@) + below(platform, home, ".local/share/codex"@)
            + below(platform, home, ".local/share/Codex"@) + below(
            platform,
            home,
            ".config/codex"@,
        ),
    }
}

/// The directories that are tried without being asked for.
pub open spec fn automatic_candidates(host: Host) -> Seq<Seq<u8>> {
    unique_paths(host.platform, standard_places(host))
}

/// The directory that is asked for: by the user, or else by `CODEX_HOME`.
pub open spec fn requested_home(host: Host, override_path: Option<Seq<u8>>) -> Seq<Seq<u8>> {
    match override_path {
        Some(path) => seq![path],
        None => match non_empty(host.codex_home) {
            Some(path) => seq![path],
            None => seq![],
        },
    }
}

/// All the directories that are tried, in order.
pub open spec fn home_candidates(host: Host, override_path: Option<Seq<u8>>) -> Seq<Seq<u8>> {
    unique_paths(
        host.platform,
        requested_home(host, override_path) + automatic_candidates(host),
    )
}

/// Whether a path, by its text, is where the desktop app keeps its data.
pub open spec fn is_gui_home_text(text: Seq<char>) -> bool {
    let comparable = trim_end_mark(ascii_lower(text), '/');
    ||| "/library/application support/codex"@.is_suffix_of(comparable)
    ||| "/library/application support/com.openai.codex"@.is_suffix_of(comparable)
    ||| "/library/application support/openai/codex"@.is_suffix_of(comparable)
    ||| "/appdata/roaming/codex"@.is_suffix_of(comparable)
    ||| "/appdata/local/codex"@.is_suffix_of(comparable)
}

/// Whether a path is where the desktop app keeps its data.
pub fn is_gui_home(platform: Platform, path: &NativePath) -> (yes: bool)
    ensures
        yes == is_gui_home_text(normalized_text(platform, path@)),
{
    let text = normalized_path(platform, path);
    gui_home_text(text.as_str())
}

/// Whether a path, by its text with forward slashes, is where the desktop app keeps
/// its data.
pub fn gui_home_text(text: &str) -> (yes: bool)
    ensures
        yes == is_gui_home_text(text@),
{
    let lower = lowercase(text);
    let trimmed = trim_end_matches(lower.as_str(), '/');
    let comparable = trimmed.as_str();
    ends_with(comparable, "/library/application support/codex") || ends_with(
        comparable,
        "/library/application support/com.openai.codex",
    ) || ends_with(comparable, "/library/application support/openai/codex") || ends_with(
        comparable,
        "/appdata/roaming/codex",
    ) || ends_with(comparable, "/appdata/local/codex")
}

/// What is said of a directory that is used.
pub open spec fn home_message(
    platform: Platform,
    path: Seq<u8>,
    validation: CodexHomeValidation,
    selected: bool,
    source: Seq<char>,
) -> Seq<char> {
    match validation {
        CodexHomeValidation::Empty => if selected {
            "Selected empty data directory; waiting for Codex JSONL"@
        } else {
            "Empty data directory"@
        },
        CodexHomeValidation::Data => if selected {
            "Selected"@
        } else if source == "CODEX_HOME"@ {
            "Using CODEX_HOME"@
        } else if is_gui_home_text(normalized_text(platform, path)) {
            "Desktop app data detected"@
        } else {
            "Auto-detected"@
        },
        _ => "Codex data directory is unavailable"@,
    }
}

/// What is said of a directory that is not used.
pub open spec fn unavailable_message(validation: CodexHomeValidation) -> Seq<char> {
    match validation {
        CodexHomeValidation::Inaccessible => "Codex data directory is inaccessible"@,
        CodexHomeValidation::Unsupported => "Folder is not a supported Codex data directory"@,
        CodexHomeValidation::Empty => "Selected empty data directory; waiting for Codex JSONL"@,
        CodexHomeValidation::Data => "Codex data directory is available"@,
    }
}

/// The status of a location, its path redacted.
pub open spec fn status_at(
    host: Host,
    state: DiscoveryState,
    path: Seq<u8>,
    message: Seq<char>,
    facts: Facts,
) -> Result<StatusView, Question> {
    match redact_on(host, path, facts) {
        Ok(location) => Ok(located(state, location, message)),
        Err(question) => Err(question),
    }
}

/// The status of a directory that is used.
pub open spec fn used_home(
    host: Host,
    path: Seq<u8>,
    validation: CodexHomeValidation,
    selected: bool,
    source: Seq<char>,
    facts: Facts,
) -> Result<StatusView, Question> {
    status_at(
        host,
        if selected {
            DiscoveryState::Selected
        } else {
            DiscoveryState::AutoDetected
        },
        path,
        home_message(host.platform, path, validation, selected, source),
        facts,
    )
}

/// The status of a directory that is not used.
pub open spec fn unused_home(
    host: Host,
    path: Seq<u8>,
    validation: CodexHomeValidation,
    explicit: bool,
    facts: Facts,
) -> Result<StatusView, Question> {
    status_at(
        host,
        if explicit {
            DiscoveryState::Unsupported
        } else {
            DiscoveryState::Missing
        },
        path,
        unavailable_message(validation),
        facts,
    )
}

/// A path together with its status.
pub open spec fn with_status(
    path: Option<Seq<u8>>,
    status: Result<StatusView, Question>,
) -> Result<(Option<Seq<u8>>, StatusView), Question> {
    match status {
        Ok(status) => Ok((path, status)),
        Err(question) => Err(question),
    }
}

/// Whether a directory can be used where it is asked for: one with data, or one that
/// may get some.
pub open spec fn is_valid(validation: CodexHomeValidation) -> bool {
    validation is Data || validation is Empty
}

/// The first directory at or after `from` that holds data.
pub open spec fn first_with_data(paths: Seq<Seq<u8>>, from: int, facts: Facts) -> Result<
    Option<Seq<u8>>,
    Question,
>
    decreases paths.len() - from,
{
    if from >= paths.len() {
        Ok(None)
    } else if !facts.homes.contains_key(paths[from]) {
        Err(Question::ValidateHome(paths[from]))
    } else if facts.homes[paths[from]] is Data {
        Ok(Some(paths[from]))
    } else {
        first_with_data(paths, from + 1, facts)
    }
}

/// The outcome where the user asked for a directory: that one or none.
pub open spec fn overridden_home(host: Host, path: Seq<u8>, facts: Facts) -> Result<
    (Option<Seq<u8>>, StatusView),
    Question,
> {
    if !facts.homes.contains_key(path) {
        Err(Question::ValidateHome(path))
    } else {
        let validation = facts.homes[path];
        if is_valid(validation) {
            with_status(
                Some(path),
                used_home(host, path, validation, true, "persisted selection"@, facts),
            )
        } else {
            with_status(None, unused_home(host, path, validation, true, facts))
        }
    }
}

/// The outcome where the user asked for no directory: the one that the environment
/// names if it can be used, else the first automatic one with data, else none.
pub open spec fn detected_home(
    host: Host,
    environment: Option<Seq<u8>>,
    automatic: Seq<Seq<u8>>,
    facts: Facts,
) -> Result<(Option<Seq<u8>>, StatusView), Question> {
    if environment is Some && !facts.homes.contains_key(environment->0) {
        Err(Question::ValidateHome(environment->0))
    } else if environment is Some && is_valid(facts.homes[environment->0]) {
        let path = environment->0;
        with_status(
            Some(path),
            used_home(host, path, facts.homes[path], false, "CODEX_HOME"@, facts),
        )
    } else {
        match first_with_data(automatic, 0, facts) {
            Err(question) => Err(question),
            Ok(Some(path)) => with_status(
                Some(path),
                used_home(
                    host,
                    path,
                    CodexHomeValidation::Data,
                    false,
                    "automatic candidate"@,
                    facts,
                ),
            ),
            Ok(None) => match environment {
                Some(path) => with_status(
                    None,
                    unused_home(host, path, facts.homes[path], false, facts),
                ),
                None => Ok(
                    (
                        None,
                        unlocated(
                            DiscoveryState::Missing,
                            "No usable Codex data directory found"@,
                        ),
                    ),
                ),
            },
        }
    }
}

/// The outcome of the search for the data directory.
pub open spec fn home_search(
    host: Host,
    override_path: Option<Seq<u8>>,
    environment: Option<Seq<u8>>,
    automatic: Seq<Seq<u8>>,
    facts: Facts,
) -> Result<(Option<Seq<u8>>, StatusView), Question> {
    match override_path {
        Some(path) => overridden_home(host, path, facts),
        None => detected_home(host, environment, automatic, facts),
    }
}

/// The outcome of the search for the data directory on a machine.
pub open spec fn home_search_on(host: Host, override_path: Option<Seq<u8>>, facts: Facts) -> Result<
    (Option<Seq<u8>>, StatusView),
    Question,
> {
    home_search(
        host,
        override_path,
        non_empty(host.codex_home),
        automatic_candidates(host),
        facts,
    )
}

/// Adds a path, unless it is already among the paths.
pub fn add_unique_path(platform: Platform, paths: &mut Vec<NativePath>, path: NativePath)
    ensures
        path_bytes(final(paths)@) == add_unique(platform, path_bytes(old(paths)@), path@),
{
    if !contains_path(platform, paths, &path) {
        paths.push(path);
        assert(path_bytes(paths@) =~= path_bytes(old(paths)@).push(path@));
    }
}

/// Adds the path below a directory, where there is such a directory.
fn add_below(
    platform: Platform,
    paths: &mut Vec<NativePath>,
    base: &Option<NativePath>,
    relative: &str,
    Ghost(listed): Ghost<Seq<Seq<u8>>>,
)
    requires
        path_bytes(old(paths)@) == unique_paths(platform, listed),
    ensures
        path_bytes(final(paths)@) == unique_paths(
            platform,
            listed + below(platform, maybe_bytes(*base), relative@),
        ),
{
    if let Some(base) = base {
        let path = base.join(platform, relative.as_bytes());
        proof {
            assert((listed + seq![path@]).drop_last() =~= listed);
            assert((listed + seq![path@]).last() == path@);
        }
        add_unique_path(platform, paths, path);
    } else {
        assert(listed + Seq::<Seq<u8>>::empty() =~= listed);
    }
}

/// The directories that are tried without being asked for.
pub fn automatic_codex_home_candidates(host: &Host) -> (candidates: Vec<NativePath>)
    ensures
        path_bytes(candidates@) == automatic_candidates(*host),
{
    let platform = host.platform;
    let home = home_dir(host);
    let mut paths: Vec<NativePath> = Vec::new();
    let ghost none = Seq::<Seq<u8>>::empty();
    let ghost at_home = home_of(*host);
    assert(path_bytes(paths@) =~= none);
    match platform {
        Platform::MacOs => {
            let ghost first = below(platform, at_home, "Library/Application Support/Codex"@);
            let ghost second = first + below(
                platform,
                at_home,
                "Library/Application Support/com.openai.codex"@,
            );
            let ghost third = second + below(
                platform,
                at_home,
                "Library/Application Support/OpenAI/Codex"@,
            );
            add_below(
                platform,
                &mut paths,
                &home,
                "Library/Application Support/Codex",
                Ghost(none),
            );
            assert(none + first =~= first);
            add_below(
                platform,
                &mut paths,
                &home,
                "Library/Application Support/com.openai.codex",
                Ghost(first),
            );
            add_below(
                platform,
                &mut paths,
                &home,
                "Library/Application Support/OpenAI/Codex",
                Ghost(second),
            );
            add_below(platform, &mut paths, &home, ".codex", Ghost(third));
        },
        Platform::Windows => {
            let app_data = non_empty_env_path(&host.app_data);
            let local_app_data = non_empty_env_path(&host.local_app_data);
            let ghost first = below(platform, non_empty(host.app_data), "Codex"@);
            let ghost second = first + below(platform, non_empty(host.local_app_data), "Codex"@);
            add_below(platform, &mut paths, &app_data, "Codex", Ghost(none));
            assert(none + first =~= first);
            add_below(platform, &mut paths, &local_app_data, "Codex", Ghost(first));
            add_below(platform, &mut paths, &home, ".codex", Ghost(second));
        },
        _ => {
            let ghost first = below(platform, at_home, ".codex"@);
            let ghost second = first + below(platform, at_home, ".local/share/codex"@);
            let ghost third = second + below(platform, at_home, ".local/share/Codex"@);
            add_below(platform, &mut paths, &home, ".codex", Ghost(none));
            assert(none + first =~= first);
            add_below(platform, &mut paths, &home, ".local/share/codex", Ghost(first));
            add_below(platform, &mut paths, &home, ".local/share/Codex", Ghost(second));
            add_below(platform, &mut paths, &home, ".config/codex", Ghost(third));
        },
    }
    paths
}

/// All the directories that are tried, in order.
pub fn codex_home_candidates(host: &Host, override_path: Option<&NativePath>) -> (candidates: Vec<
    NativePath,
>)
    ensures
        path_bytes(candidates@) == home_candidates(*host, ref_bytes(override_path)),
{
    let platform = host.platform;
    let mut candidates: Vec<NativePath> = Vec::new();
    let ghost requested = requested_home(*host, ref_bytes(override_path));
    assert(path_bytes(candidates@) =~= unique_paths(platform, Seq::<Seq<u8>>::empty()));
    let asked_for = match override_path {
        Some(path) => Some(path.to_path_buf()),
        None => non_empty_env_path(&host.codex_home),
    };
    if let Some(path) = asked_for {
        assert(requested.drop_last() =~= Seq::<Seq<u8>>::empty());
        assert(requested.last() == path@);
        add_unique_path(platform, &mut candidates, path);
    }
    assert(path_bytes(candidates@) == unique_paths(platform, requested));
    let automatic = automatic_codex_home_candidates(host);
    let ghost tried = path_bytes(automatic@);
    assert(requested + tried.take(0) =~= requested);
    for i in 0..automatic.len()
        invariant
            tried == path_bytes(automatic@),
            path_bytes(candidates@) == unique_paths(platform, requested + tried.take(i as int)),
    {
        proof {
            let listed = requested + tried.take(i + 1);
            assert(listed.drop_last() =~= requested + tried.take(i as int));
            assert(listed.last() == automatic@[i as int]@);
        }
        add_unique_path(platform, &mut candidates, automatic[i].to_path_buf());
    }
    assert(tried.take(tried.len() as int) =~= tried);
    candidates
}

/// The status of a location, its path redacted.
pub(crate) fn redacted_status(
    host: &Host,
    state: DiscoveryState,
    path: &NativePath,
    message: &str,
    observations: &Observations,
) -> (status: Result<DiscoveryStatus, Query>)
    ensures
        status_answer(status) == status_at(*host, state, path@, message@, observations@),
{
    match redact_path(host, path, observations) {
        Ok(location) => Ok(DiscoveryStatus::at(state, location, message)),
        Err(query) => Err(query),
    }
}

/// The status of a directory that is used.
pub fn home_status(
    host: &Host,
    path: &NativePath,
    validation: CodexHomeValidation,
    selected: bool,
    source: &str,
    observations: &Observations,
) -> (status: Result<DiscoveryStatus, Query>)
    ensures
        status_answer(status) == used_home(
            *host,
            path@,
            validation,
            selected,
            source@,
            observations@,
        ),
{
    let message = match validation {
        CodexHomeValidation::Empty => {
            if selected {
                "Selected empty data directory; waiting for Codex JSONL"
            } else {
                "Empty data directory"
            }
        },
        CodexHomeValidation::Data => {
            if selected {
                "Selected"
            } else if same_text(source, "CODEX_HOME") {
                "Using CODEX_HOME"
            } else if is_gui_home(host.platform, path) {
                "Desktop app data detected"
            } else {
                "Auto-detected"
            }
        },
        _ => "Codex data directory is unavailable",
    };
    let state = if selected {
        DiscoveryState::Selected
    } else {
        DiscoveryState::AutoDetected
    };
    redacted_status(host, state, path, message, observations)
}

/// The status of a directory that is not used.
pub fn unavailable_home_status(
    host: &Host,
    path: &NativePath,
    validation: CodexHomeValidation,
    explicit: bool,
    observations: &Observations,
) -> (status: Result<DiscoveryStatus, Query>)
    ensures
        status_answer(status) == unused_home(*host, path@, validation, explicit, observations@),
{
    let message = match validation {
        CodexHomeValidation::Inaccessible => "Codex data directory is inaccessible",
        CodexHomeValidation::Unsupported => "Folder is not a supported Codex data directory",
        CodexHomeValidation::Empty => "Selected empty data directory; waiting for Codex JSONL",
        CodexHomeValidation::Data => "Codex data directory is available",
    };
    let state = if explicit {
        DiscoveryState::Unsupported
    } else {
        DiscoveryState::Missing
    };
    redacted_status(host, state, path, message, observations)
}

/// A path together with its status.
pub(crate) fn found_at(
    path: Option<NativePath>,
    status: Result<DiscoveryStatus, Query>,
) -> (found: Result<(Option<NativePath>, DiscoveryStatus), Query>)
    ensures
        search_answer(found) == with_status(
            maybe_bytes(path),
            status_answer(status),
        ),
{
    match status {
        Ok(status) => Ok((path, status)),
        Err(query) => Err(query),
    }
}

/// Whether a directory can be used where it is asked for.
pub fn is_valid_codex_home(path: &NativePath, observations: &Observations) -> (valid: Result<
    bool,
    Query,
>)
    ensures
        match valid {
            Ok(valid) => observations@.homes.contains_key(path@) && valid == is_valid(
                observations@.homes[path@],
            ),
            Err(query) => !observations@.homes.contains_key(path@) && query@
                == Question::ValidateHome(path@),
        },
{
    match observations.validation(path) {
        Ok(validation) => Ok(
            match validation {
                CodexHomeValidation::Data | CodexHomeValidation::Empty => true,
                _ => false,
            },
        ),
        Err(query) => Err(query),
    }
}

/// Whether a directory holds data.
pub fn is_usable_codex_home(path: &NativePath, observations: &Observations) -> (usable: Result<
    bool,
    Query,
>)
    ensures
        match usable {
            Ok(usable) => observations@.homes.contains_key(path@) && usable
                == observations@.homes[path@] is Data,
            Err(query) => !observations@.homes.contains_key(path@) && query@
                == Question::ValidateHome(path@),
        },
{
    match observations.validation(path) {
        Ok(validation) => Ok(
            match validation {
                CodexHomeValidation::Data => true,
                _ => false,
            },
        ),
        Err(query) => Err(query),
    }
}

/// Whether a directory is good enough to be used without being asked for.
pub fn is_automatic_candidate(path: &NativePath, observations: &Observations) -> (good: Result<
    bool,
    Query,
>)
    ensures
        match good {
            Ok(good) => observations@.homes.contains_key(path@) && good
                == observations@.homes[path@] is Data,
            Err(query) => !observations@.homes.contains_key(path@) && query@
                == Question::ValidateHome(path@),
        },
{
    is_usable_codex_home(path, observations)
}

/// Searches for the data directory: the one that the user asked for, or that alone
/// failing; else the one that the environment names; else the first automatic one
/// with data.
pub fn discover_codex_home_from_sources(
    host: &Host,
    override_path: Option<&NativePath>,
    environment_path: Option<&NativePath>,
    automatic_candidates: &Vec<NativePath>,
    observations: &Observations,
) -> (found: Result<(Option<NativePath>, DiscoveryStatus), Query>)
    ensures
        search_answer(found) == home_search(
            *host,
            ref_bytes(override_path),
            ref_bytes(environment_path),
            path_bytes(automatic_candidates@),
            observations@,
        ),
{
    if let Some(path) = override_path {
        let validation = match observations.validation(path) {
            Ok(validation) => validation,
            Err(query) => {
                return Err(query);
            },
        };
        return match validation {
            CodexHomeValidation::Data | CodexHomeValidation::Empty => found_at(
                Some(path.to_path_buf()),
                home_status(host, path, validation, true, "persisted selection", observations),
            ),
            _ => found_at(
                None,
                unavailable_home_status(host, path, validation, true, observations),
            ),
        };
    }
    if let Some(path) = environment_path {
        let validation = match observations.validation(path) {
            Ok(validation) => validation,
            Err(query) => {
                return Err(query);
            },
        };
        match validation {
            CodexHomeValidation::Data | CodexHomeValidation::Empty => {
                return found_at(
                    Some(path.to_path_buf()),
                    home_status(host, path, validation, false, "CODEX_HOME", observations),
                );
            },
            _ => {},
        }
    }
    let ghost tried = path_bytes(automatic_candidates@);
    let ghost facts = observations@;
    for i in 0..automatic_candidates.len()
        invariant
            override_path is None,
            tried == path_bytes(automatic_candidates@),
            facts == observations@,
            environment_path is Some ==> {
                &&& facts.homes.contains_key(environment_path->0@)
                &&& !is_valid(facts.homes[environment_path->0@])
            },
            first_with_data(tried, 0, facts) == first_with_data(tried, i as int, facts),
    {
        let path = &automatic_candidates[i];
        assert(tried[i as int] == path@);
        match is_automatic_candidate(path, observations) {
            Ok(good) => {
                if good {
                    return found_at(
                        Some(path.to_path_buf()),
                        home_status(
                            host,
                            path,
                            CodexHomeValidation::Data,
                            false,
                            "automatic candidate",
                            observations,
                        ),
                    );
                }
            },
            Err(query) => {
                return Err(query);
            },
        }
    }
    if let Some(path) = environment_path {
        let validation = match observations.validation(path) {
            Ok(validation) => validation,
            Err(query) => {
                return Err(query);
            },
        };
        return found_at(
            None,
            unavailable_home_status(host, path, validation, false, observations),
        );
    }
    Ok((None, DiscoveryStatus::missing("No usable Codex data directory found")))
}

/// Searches for the data directory on a machine.
pub fn discover_codex_home(
    host: &Host,
    override_path: Option<&NativePath>,
    observations: &Observations,
) -> (found: Result<(Option<NativePath>, DiscoveryStatus), Query>)
    ensures
        search_answer(found) == home_search_on(*host, ref_bytes(override_path), observations@),
{
    let environment = non_empty_env_path(&host.codex_home);
    let automatic = automatic_codex_home_candidates(host);
    discover_codex_home_from_sources(
        host,
        override_path,
        environment.as_ref(),
        &automatic,
        observations,
    )
}

/// Searches for the data directory on a machine. The mode makes no difference: the
/// command line tool and the desktop app follow one precedence.
pub fn discover_codex_home_for_mode(
    host: &Host,
    override_path: Option<&NativePath>,
    _prefer_gui: bool,
    observations: &Observations,
) -> (found: Result<(Option<NativePath>, DiscoveryStatus), Query>)
    ensures
        search_answer(found) == home_search_on(*host, ref_bytes(override_path), observations@),
{
    discover_codex_home(host, override_path, observations)
}

/// What is added to distinct paths leaves them distinct.
proof fn lemma_unique_distinct(platform: Platform, paths: Seq<Seq<u8>>)
    ensures
        are_distinct(platform, unique_paths(platform, paths)),
    decreases paths.len(),
{
    if paths.len() > 0 {
        let before = unique_paths(platform, paths.drop_last());
        let last = paths.last();
        lemma_unique_distinct(platform, paths.drop_last());
        if !holds_path(platform, before, last) {
            let after = before.push(last);
            assert forall|i: int, j: int| 0 <= i < j < after.len() implies !same_path(
                platform,
                #[trigger] after[i],
                #[trigger] after[j],
            ) by {
                if j < before.len() {
                    assert(!same_path(platform, before[i], before[j]));
                } else {
                    assert(!same_path(platform, before[i], last));
                }
            }
        }
    }
}

/// Every path is spelled by one of the paths that stay, and the paths that stay are
/// some of the paths.
proof fn lemma_unique_complete(platform: Platform, paths: Seq<Seq<u8>>, path: Seq<u8>)
    ensures
        paths.contains(path) ==> holds_path(platform, unique_paths(platform, paths), path),
        unique_paths(platform, paths).contains(path) ==> paths.contains(path),
    decreases paths.len(),
{
    if paths.len() > 0 {
        let before = unique_paths(platform, paths.drop_last());
        let after = unique_paths(platform, paths);
        lemma_unique_complete(platform, paths.drop_last(), path);
        if paths.contains(path) {
            let k = choose|k: int| 0 <= k < paths.len() && paths[k] == path;
            if k < paths.len() - 1 {
                assert(paths.drop_last()[k] == path);
                let i = choose|i: int|
                    0 <= i < before.len() && same_path(platform, #[trigger] before[i], path);
                assert(after[i] == before[i]);
            } else if !holds_path(platform, before, path) {
                assert(after[before.len() as int] == path);
            }
        }
        if after.contains(path) {
            let k = choose|k: int| 0 <= k < after.len() && after[k] == path;
            if k < before.len() {
                assert(before[k] == path);
                let i = choose|i: int| 0 <= i < paths.drop_last().len() && paths.drop_last()[i]
                    == path;
                assert(paths[i] == path);
            } else {
                assert(paths[paths.len() - 1] == path);
            }
        }
    }
}

/// The first path stays first.
proof fn lemma_unique_first(platform: Platform, paths: Seq<Seq<u8>>)
    requires
        paths.len() > 0,
    ensures
        unique_paths(platform, paths).len() > 0,
        unique_paths(platform, paths)[0] == paths[0],
    decreases paths.len(),
{
    if paths.len() > 1 {
        lemma_unique_first(platform, paths.drop_last());
    } else {
        assert(unique_paths(platform, paths.drop_last()) =~= Seq::<Seq<u8>>::empty());
    }
}

/// No directory is tried twice, each standard place is tried under some spelling, and
/// a directory that was asked for is tried first.
pub proof fn law_candidates(host: Host, override_path: Option<Seq<u8>>, place: Seq<u8>)
    ensures
        are_distinct(host.platform, home_candidates(host, override_path)),
        standard_places(host).contains(place) ==> holds_path(
            host.platform,
            home_candidates(host, override_path),
            place,
        ),
        requested_home(host, override_path).len() > 0 ==> {
            &&& home_candidates(host, override_path).len() > 0
            &&& home_candidates(host, override_path)[0] == requested_home(host, override_path)[0]
        },
{
    let platform = host.platform;
    let requested = requested_home(host, override_path);
    let automatic = automatic_candidates(host);
    let all = requested + automatic;
    let candidates = home_candidates(host, override_path);
    lemma_unique_distinct(platform, all);
    if standard_places(host).contains(place) {
        lemma_unique_complete(platform, standard_places(host), place);
        let i = choose|i: int|
            0 <= i < automatic.len() && same_path(platform, #[trigger] automatic[i], place);
        assert(all[requested.len() + i] == automatic[i]);
        lemma_unique_complete(platform, all, automatic[i]);
        let k = choose|k: int|
            0 <= k < candidates.len() && same_path(
                platform,
                #[trigger] candidates[k],
                automatic[i],
            );
        assert(same_path(platform, candidates[k], place));
    }
    if requested.len() > 0 {
        lemma_unique_first(platform, all);
    }
}

/// A directory that the user asked for is used or the search ends: nothing else is
/// looked at.
pub proof fn law_override_decides_alone(
    host: Host,
    path: Seq<u8>,
    environment: Option<Seq<u8>>,
    automatic: Seq<Seq<u8>>,
    other_environment: Option<Seq<u8>>,
    other_automatic: Seq<Seq<u8>>,
    facts: Facts,
)
    ensures
        home_search(host, Some(path), environment, automatic, facts) == home_search(
            host,
            Some(path),
            other_environment,
            other_automatic,
            facts,
        ),
        home_search(host, Some(path), environment, automatic, facts) matches Ok((
            found,
            status,
        )) ==> {
            &&& found is Some ==> found->0 == path && status.state is Selected
            &&& found is None ==> status.state is Unsupported
        },
{
}

/// A directory that the environment names and that can be used is used, whatever the
/// automatic candidates are.
pub proof fn law_environment_precedes_automatic(
    host: Host,
    path: Seq<u8>,
    automatic: Seq<Seq<u8>>,
    facts: Facts,
)
    requires
        facts.homes.contains_key(path),
        is_valid(facts.homes[path]),
    ensures
        home_search(host, None, Some(path), automatic, facts) == with_status(
            Some(path),
            used_home(host, path, facts.homes[path], false, "CODEX_HOME"@, facts),
        ),
{
}

/// Among the automatic candidates the first one with data is used: those before it
/// that are empty, unsupported or inaccessible are passed over.
pub proof fn law_first_candidate_with_data(
    host: Host,
    automatic: Seq<Seq<u8>>,
    chosen: int,
    facts: Facts,
)
    requires
        0 <= chosen < automatic.len(),
        facts.homes.contains_key(automatic[chosen]),
        facts.homes[automatic[chosen]] is Data,
        forall|i: int|
            0 <= i < chosen ==> facts.homes.contains_key(#[trigger] automatic[i])
                && !(facts.homes[automatic[i]] is Data),
    ensures
        home_search(host, None, None, automatic, facts) == with_status(
            Some(automatic[chosen]),
            used_home(
                host,
                automatic[chosen],
                CodexHomeValidation::Data,
                false,
                "automatic candidate"@,
                facts,
            ),
        ),
{
    lemma_first_with_data(automatic, 0, chosen, facts);
}

/// The first directory with data is the one that no other with data precedes.
proof fn lemma_first_with_data(paths: Seq<Seq<u8>>, from: int, chosen: int, facts: Facts)
    requires
        0 <= from <= chosen < paths.len(),
        facts.homes.contains_key(paths[chosen]),
        facts.homes[paths[chosen]] is Data,
        forall|i: int|
            from <= i < chosen ==> facts.homes.contains_key(#[trigger] paths[i]) && !(
            facts.homes[paths[i]] is Data),
    ensures
        first_with_data(paths, from, facts) == Ok::<_, Question>(Some(paths[chosen])),
    decreases chosen - from,
{
    if from < chosen {
        assert(facts.homes.contains_key(paths[from]));
        lemma_first_with_data(paths, from + 1, chosen, facts);
    }
}

/// A search ends with a directory just where its state says that one is in use.
pub proof fn law_state_tells_whether_a_home_was_found(
    host: Host,
    override_path: Option<Seq<u8>>,
    environment: Option<Seq<u8>>,
    automatic: Seq<Seq<u8>>,
    facts: Facts,
)
    ensures
        home_search(host, override_path, environment, automatic, facts) matches Ok((
            found,
            status,
        )) ==> (found is Some <==> status.state is Selected || status.state is AutoDetected),
{
}

/// What an empty directory is: good enough to be asked for, not good enough to be
/// picked without being asked for. Every directory that may be picked may be asked for.
pub proof fn law_usable_homes_are_valid(validation: CodexHomeValidation)
    ensures
        validation is Data ==> is_valid(validation),
        validation is Empty ==> is_valid(validation) && !(validation is Data),
        is_valid(validation) ==> validation is Data || validation is Empty,
{
}

/// The question that the automatic candidates raise has no answer yet, and what they
/// come to stays once more is known.
proof fn lemma_candidates_are_stable(
    paths: Seq<Seq<u8>>,
    from: int,
    facts: Facts,
    later: Facts,
)
    requires
        facts.is_part_of(later),
    ensures
        first_with_data(paths, from, facts) matches Err(question) ==> !facts.answers(question),
        first_with_data(paths, from, facts) is Ok ==> first_with_data(paths, from, later)
            == first_with_data(paths, from, facts),
    decreases paths.len() - from,
{
    if from < paths.len() {
        lemma_candidates_are_stable(paths, from + 1, facts, later);
    }
}

/// A search for the data directory never asks again what it was told, and once it has
/// come to an outcome, knowing more does not change it.
pub proof fn law_home_search_is_stable(
    host: Host,
    override_path: Option<Seq<u8>>,
    environment: Option<Seq<u8>>,
    automatic: Seq<Seq<u8>>,
    facts: Facts,
    later: Facts,
)
    requires
        facts.is_part_of(later),
    ensures
        home_search(host, override_path, environment, automatic, facts) matches Err(
            question,
        ) ==> !facts.answers(question),
        home_search(host, override_path, environment, automatic, facts) is Ok ==> home_search(
            host,
            override_path,
            environment,
            automatic,
            later,
        ) == home_search(host, override_path, environment, automatic, facts),
{
    lemma_candidates_are_stable(automatic, 0, facts, later);
    assert forall|path: Seq<u8>|
        {
            &&& #[trigger] redact_on(host, path, facts) matches Err(question)
                ==> !facts.answers(question)
            &&& redact_on(host, path, facts) is Ok ==> redact_on(host, path, later) == redact_on(
                host,
                path,
                facts,
            )
        } by {
        law_redaction_is_stable(host, path, facts, later);
    }
}

/// Whether a search for the data directory may have to look at a path.
pub open spec fn may_look_at(
    override_path: Option<Seq<u8>>,
    environment: Option<Seq<u8>>,
    automatic: Seq<Seq<u8>>,
    path: Seq<u8>,
) -> bool {
    match override_path {
        Some(chosen) => path == chosen,
        None => environment == Some(path) || automatic.contains(path),
    }
}

/// The automatic candidates raise questions about themselves alone, and come to one
/// of themselves.
proof fn lemma_candidates_stay_in_bounds(paths: Seq<Seq<u8>>, from: int, facts: Facts)
    requires
        0 <= from,
    ensures
        match first_with_data(paths, from, facts) {
            Err(question) => question matches Question::ValidateHome(path) && paths.contains(path),
            Ok(Some(path)) => paths.contains(path),
            Ok(None) => true,
        },
    decreases paths.len() - from,
{
    if from < paths.len() {
        assert(paths.contains(paths[from]));
        lemma_candidates_stay_in_bounds(paths, from + 1, facts);
    }
}

/// A search for the data directory asks what its candidates hold, and the canonical
/// forms of its candidates and of the user's home; it asks nothing else. With the
/// user's choice given, the choice is the only candidate.
pub proof fn law_home_search_stays_in_bounds(
    host: Host,
    override_path: Option<Seq<u8>>,
    environment: Option<Seq<u8>>,
    automatic: Seq<Seq<u8>>,
    facts: Facts,
)
    ensures
        home_search(host, override_path, environment, automatic, facts) matches Err(
            question,
        ) ==> match question {
            Question::ValidateHome(path) => may_look_at(
                override_path,
                environment,
                automatic,
                path,
            ),
            Question::Canonicalize(path) => home_of(host) == Some(path) || may_look_at(
                override_path,
                environment,
                automatic,
                path,
            ),
            _ => false,
        },
        home_search(host, override_path, environment, automatic, facts) matches Ok((
            found,
            _,
        )) ==> (found is Some ==> may_look_at(override_path, environment, automatic, found->0)),
{
    lemma_candidates_stay_in_bounds(automatic, 0, facts);
}

/// A directory that the search on a machine ends with is one of the directories that
/// are listed as tried there.
pub proof fn law_found_home_is_a_candidate(
    host: Host,
    override_path: Option<Seq<u8>>,
    facts: Facts,
)
    ensures
        home_search_on(host, override_path, facts) matches Ok((found, _)) ==> (found is Some
            ==> holds_path(host.platform, home_candidates(host, override_path), found->0)),
{
    let requested = requested_home(host, override_path);
    let automatic = automatic_candidates(host);
    let all = requested + automatic;
    law_home_search_stays_in_bounds(
        host,
        override_path,
        non_empty(host.codex_home),
        automatic,
        facts,
    );
    if let Ok((Some(path), _)) = home_search_on(host, override_path, facts) {
        if requested.len() > 0 && requested[0] == path {
            assert(all[0] == path);
        } else {
            let i = choose|i: int| 0 <= i < automatic.len() && automatic[i] == path;
            assert(all[requested.len() + i] == path);
        }
        lemma_unique_complete(host.platform, all, path);
    }
}

/// Whether a path is where the desktop app keeps its data depends neither on the case
/// of its ASCII letters nor on slashes at its end.
pub proof fn law_gui_home_spelling(text: Seq<char>)
    ensures
        is_gui_home_text(ascii_lower(text)) == is_gui_home_text(text),
        is_gui_home_text(text.push('/')) == is_gui_home_text(text),
{
    assert(ascii_lower(ascii_lower(text)) =~= ascii_lower(text));
    assert(ascii_lower(text.push('/')) =~= ascii_lower(text).push('/'));
    assert(ascii_lower(text).push('/').drop_last() =~= ascii_lower(text));
}

/// A directory that the user chose is used where it holds data or nothing yet, and
/// rejected else; what is said of it follows from what it holds.
pub proof fn law_what_a_chosen_home_comes_to(
    host: Host,
    path: Seq<u8>,
    environment: Option<Seq<u8>>,
    automatic: Seq<Seq<u8>>,
    facts: Facts,
    location: Seq<char>,
)
    requires
        facts.homes.contains_key(path),
        redact_on(host, path, facts) == Ok::<_, Question>(location),
    ensures
        home_search(host, Some(path), environment, automatic, facts) == Ok::<_, Question>(
            match facts.homes[path] {
                CodexHomeValidation::Data => (
                    Some(path),
                    StatusView {
                        state: DiscoveryState::Selected,
                        redacted_location: Some(location),
                        message: "Selected"@,
                    },
                ),
                CodexHomeValidation::Empty => (
                    Some(path),
                    StatusView {
                        state: DiscoveryState::Selected,
                        redacted_location: Some(location),
                        message: "Selected empty data directory; waiting for Codex JSONL"@,
                    },
                ),
                CodexHomeValidation::Unsupported => (
                    None,
                    StatusView {
                        state: DiscoveryState::Unsupported,
                        redacted_location: Some(location),
                        message: "Folder is not a supported Codex data directory"@,
                    },
                ),
                CodexHomeValidation::Inaccessible => (
                    None,
                    StatusView {
                        state: DiscoveryState::Unsupported,
                        redacted_location: Some(location),
                        message: "Codex data directory is inaccessible"@,
                    },
                ),
            },
        ),
{
}

/// A directory that the environment names is used where it holds data or nothing yet,
/// whatever the automatic candidates hold.
pub proof fn law_what_a_named_home_comes_to(
    host: Host,
    path: Seq<u8>,
    automatic: Seq<Seq<u8>>,
    facts: Facts,
    location: Seq<char>,
)
    requires
        facts.homes.contains_key(path),
        facts.homes[path] is Data || facts.homes[path] is Empty,
        redact_on(host, path, facts) == Ok::<_, Question>(location),
    ensures
        home_search(host, None, Some(path), automatic, facts) == Ok::<_, Question>(
            (
                Some(path),
                StatusView {
                    state: DiscoveryState::AutoDetected,
                    redacted_location: Some(location),
                    message: if facts.homes[path] is Data {
                        "Using CODEX_HOME"@
                    } else {
                        "Empty data directory"@
                    },
                },
            ),
        ),
{
    assert("CODEX_HOME"@ == "CODEX_HOME"@);
}

/// Whether the environment names no directory, or one that is known to be of no use.
pub open spec fn is_no_help(environment: Option<Seq<u8>>, facts: Facts) -> bool {
    environment matches Some(path) ==> {
        &&& facts.homes.contains_key(path)
        &&& facts.homes[path] is Unsupported || facts.homes[path] is Inaccessible
    }
}

/// Whether the directories before a position are all known to hold no data.
pub open spec fn are_passed_over(automatic: Seq<Seq<u8>>, until: int, facts: Facts) -> bool {
    forall|i: int|
        0 <= i < until ==> facts.homes.contains_key(#[trigger] automatic[i])
            && !(facts.homes[automatic[i]] is Data)
}

/// Where the environment is no help, be it that it names nothing, something unsupported
/// or something inaccessible, the first automatic candidate with data is found.
pub proof fn law_candidates_are_tried_where_the_environment_is_no_help(
    host: Host,
    environment: Option<Seq<u8>>,
    automatic: Seq<Seq<u8>>,
    chosen: int,
    facts: Facts,
    location: Seq<char>,
)
    requires
        is_no_help(environment, facts),
        0 <= chosen < automatic.len(),
        facts.homes.contains_key(automatic[chosen]),
        facts.homes[automatic[chosen]] is Data,
        are_passed_over(automatic, chosen, facts),
        redact_on(host, automatic[chosen], facts) == Ok::<_, Question>(location),
    ensures
        home_search(host, None, environment, automatic, facts) == Ok::<_, Question>(
            (
                Some(automatic[chosen]),
                StatusView {
                    state: DiscoveryState::AutoDetected,
                    redacted_location: Some(location),
                    message: if is_gui_home_text(
                        normalized_text(host.platform, automatic[chosen]),
                    ) {
                        "Desktop app data detected"@
                    } else {
                        "Auto-detected"@
                    },
                },
            ),
        ),
{
    lemma_first_with_data(automatic, 0, chosen, facts);
    reveal_strlit("automatic candidate");
    reveal_strlit("CODEX_HOME");
    assert("automatic candidate"@.len() != "CODEX_HOME"@.len());
}

/// Where the environment is no help and no automatic candidate holds data, nothing is
/// found: what the environment names is reported, or where it names nothing, that
/// nothing was found.
pub proof fn law_nothing_is_found_where_nothing_has_data(
    host: Host,
    environment: Option<Seq<u8>>,
    automatic: Seq<Seq<u8>>,
    facts: Facts,
    location: Seq<char>,
)
    requires
        is_no_help(environment, facts),
        are_passed_over(automatic, automatic.len() as int, facts),
        environment is Some ==> redact_on(host, environment->0, facts) == Ok::<_, Question>(
            location,
        ),
    ensures
        home_search(host, None, environment, automatic, facts) == Ok::<_, Question>(
            match environment {
                None => (
                    None::<Seq<u8>>,
                    StatusView {
                        state: DiscoveryState::Missing,
                        redacted_location: None,
                        message: "No usable Codex data directory found"@,
                    },
                ),
                Some(path) => (
                    None,
                    StatusView {
                        state: DiscoveryState::Missing,
                        redacted_location: Some(location),
                        message: if facts.homes[path] is Inaccessible {
                            "Codex data directory is inaccessible"@
                        } else {
                            "Folder is not a supported Codex data directory"@
                        },
                    },
                ),
            },
        ),
{
    lemma_none_with_data(automatic, 0, facts);
}

/// Where no directory holds data, none is the first.
proof fn lemma_none_with_data(paths: Seq<Seq<u8>>, from: int, facts: Facts)
    requires
        0 <= from <= paths.len(),
        are_passed_over(paths, paths.len() as int, facts),
    ensures
        first_with_data(paths, from, facts) == Ok::<_, Question>(None::<Seq<u8>>),
    decreases paths.len() - from,
{
    if from < paths.len() {
        assert(facts.homes.contains_key(paths[from]));
        lemma_none_with_data(paths, from + 1, facts);
    }
}

/// Where a directory is not known, and none before it holds data, it is what is asked
/// about.
proof fn lemma_first_unknown(paths: Seq<Seq<u8>>, from: int, unknown: int, facts: Facts)
    requires
        0 <= from <= unknown < paths.len(),
        are_passed_over(paths, unknown, facts),
        !facts.homes.contains_key(paths[unknown]),
    ensures
        first_with_data(paths, from, facts) == Err::<Option<Seq<u8>>, _>(
            Question::ValidateHome(paths[unknown]),
        ),
    decreases unknown - from,
{
    if from < unknown {
        assert(facts.homes.contains_key(paths[from]));
        lemma_first_unknown(paths, from + 1, unknown, facts);
    }
}

/// A search asks about the directories in the order in which they count: the chosen
/// one; else the one that the environment names; else the first candidate that is not
/// known yet, where none before it holds data.
pub proof fn law_homes_are_asked_about_in_order(
    host: Host,
    environment: Option<Seq<u8>>,
    automatic: Seq<Seq<u8>>,
    path: Seq<u8>,
    unknown: int,
    facts: Facts,
)
    requires
        !facts.homes.contains_key(path),
    ensures
        home_search(host, Some(path), environment, automatic, facts) == Err::<
            (Option<Seq<u8>>, StatusView),
            _,
        >(Question::ValidateHome(path)),
        home_search(host, None, Some(path), automatic, facts) == Err::<
            (Option<Seq<u8>>, StatusView),
            _,
        >(Question::ValidateHome(path)),
        is_no_help(environment, facts) && 0 <= unknown < automatic.len() && automatic[unknown]
            == path && are_passed_over(automatic, unknown, facts) ==> home_search(
            host,
            None,
            environment,
            automatic,
            facts,
        ) == Err::<(Option<Seq<u8>>, StatusView), _>(Question::ValidateHome(path)),
{
    if is_no_help(environment, facts) && 0 <= unknown < automatic.len() && automatic[unknown]
        == path && are_passed_over(automatic, unknown, facts) {
        lemma_first_unknown(automatic, 0, unknown, facts);
    }
}

/// On a machine the environment names what `CODEX_HOME` holds, unless that is nothing,
/// and the automatic candidates are the standard places, each under its first spelling.
pub proof fn law_sources_on_a_machine(host: Host, override_path: Option<Seq<u8>>, facts: Facts)
    ensures
        home_search_on(host, override_path, facts) == home_search(
            host,
            override_path,
            match host.codex_home {
                Some(value) => if value@.len() == 0 {
                    None
                } else {
                    Some(value@)
                },
                None => None,
            },
            unique_paths(host.platform, standard_places(host)),
            facts,
        ),
{
}

/// A place below a directory, where there is such a directory that has a name.
pub open spec fn place(platform: Platform, base: Option<Seq<u8>>, relative: Seq<char>) -> Seq<
    Seq<u8>,
> {
    if base is Some {
        seq![join_of(platform, base->0, encode_utf8(relative))]
    } else {
        Seq::empty()
    }
}

/// The value of a variable, unless it is not set or holds nothing.
pub open spec fn value_of(variable: Option<NativePath>) -> Option<Seq<u8>> {
    if variable is Some && variable->0@.len() > 0 {
        Some(variable->0@)
    } else {
        None
    }
}

/// Where the data may lie on each platform, in the order in which it is looked for.
pub proof fn law_standard_places(host: Host)
    ensures
        ({
            let platform = host.platform;
            let home = home_of(host);
            let places = standard_places(host);
            match platform {
                Platform::MacOs => places == place(
                    platform,
                    home,
                    "Library/Application Support/Codex"@,
                ) + place(platform, home, "Library/Application Support/com.openai.codex"@) + place(
                    platform,
                    home,
                    "Library/Application Support/OpenAI/Codex"@,
                ) + place(platform, home, ".codex"@),
                Platform::Windows => places == place(
                    platform,
                    value_of(host.app_data),
                    "Codex"@,
                ) + place(platform, value_of(host.local_app_data), "Codex"@) + place(
                    platform,
                    home,
                    ".codex"@,
                ),
                Platform::Unix | Platform::Other => places == place(platform, home, ".codex"@)
                    + place(platform, home, ".local/share/codex"@) + place(
                    platform,
                    home,
                    ".local/share/Codex"@,
                ) + place(platform, home, ".config/codex"@),
            }
        }),
{
}

/// Whether no earlier path spells the path at a position.
pub open spec fn is_first_spelling(platform: Platform, paths: Seq<Seq<u8>>, at: int) -> bool {
    forall|i: int| 0 <= i < at ==> !same_path(platform, #[trigger] paths[i], paths[at])
}

/// How many of the paths before a position are first spellings.
pub open spec fn first_spellings(platform: Platform, paths: Seq<Seq<u8>>, until: int) -> int
    decreases until,
{
    if until <= 0 {
        0
    } else {
        first_spellings(platform, paths, until - 1) + (if is_first_spelling(
            platform,
            paths,
            until - 1,
        ) {
            1int
        } else {
            0int
        })
    }
}

/// Of several spellings of a path the first one stays, and the paths that stay keep
/// their order.
pub proof fn law_first_spellings_stay_in_order(
    platform: Platform,
    paths: Seq<Seq<u8>>,
    at: int,
)
    requires
        0 <= at < paths.len(),
    ensures
        unique_paths(platform, paths).len() == first_spellings(
            platform,
            paths,
            paths.len() as int,
        ),
        is_first_spelling(platform, paths, at) ==> {
            let position = first_spellings(platform, paths, at);
            &&& 0 <= position < unique_paths(platform, paths).len()
            &&& unique_paths(platform, paths)[position] == paths[at]
        },
    decreases paths.len(),
{
    let before = paths.drop_last();
    let last = paths.len() - 1;
    let kept = unique_paths(platform, before);
    lemma_same_count(platform, before, paths, last);
    if before.len() > 0 {
        law_first_spellings_stay_in_order(
            platform,
            before,
            if at < last {
                at
            } else {
                0
            },
        );
    } else {
        assert(kept =~= Seq::<Seq<u8>>::empty());
    }
    lemma_kept_spellings(platform, before, paths.last());
    assert(is_first_spelling(platform, paths, last) == !holds_path(
        platform,
        before,
        paths.last(),
    )) by {
        if holds_path(platform, before, paths.last()) {
            let i = choose|i: int|
                0 <= i < before.len() && same_path(platform, #[trigger] before[i], paths.last());
            assert(same_path(platform, paths[i], paths[last]));
        } else {
            assert forall|i: int| 0 <= i < last implies !same_path(
                platform,
                #[trigger] paths[i],
                paths[last],
            ) by {
                assert(before[i] == paths[i]);
            }
        }
    }
    if at < last {
        assert(is_first_spelling(platform, before, at) == is_first_spelling(platform, paths, at))
            by {
            assert forall|i: int| 0 <= i < at implies #[trigger] paths[i] == before[i] by {}
            assert(paths[at] == before[at]);
            if is_first_spelling(platform, paths, at) {
                assert forall|i: int| 0 <= i < at implies !same_path(
                    platform,
                    #[trigger] before[i],
                    before[at],
                ) by {
                    assert(!same_path(platform, paths[i], paths[at]));
                }
            }
            if is_first_spelling(platform, before, at) {
                assert forall|i: int| 0 <= i < at implies !same_path(
                    platform,
                    #[trigger] paths[i],
                    paths[at],
                ) by {
                    assert(!same_path(platform, before[i], before[at]));
                }
            }
        }
        lemma_same_count(platform, before, paths, at);
    }
}

/// Counting looks at the paths before the position alone.
proof fn lemma_same_count(
    platform: Platform,
    paths: Seq<Seq<u8>>,
    longer: Seq<Seq<u8>>,
    until: int,
)
    requires
        until <= paths.len() <= longer.len(),
        forall|i: int| 0 <= i < paths.len() ==> #[trigger] paths[i] == longer[i],
    ensures
        first_spellings(platform, paths, until) == first_spellings(platform, longer, until),
    decreases until,
{
    if until > 0 {
        let at = until - 1;
        lemma_same_count(platform, paths, longer, at);
        assert(paths[at] == longer[at]);
        if is_first_spelling(platform, paths, at) {
            assert forall|i: int| 0 <= i < at implies !same_path(
                platform,
                #[trigger] longer[i],
                longer[at],
            ) by {
                assert(paths[i] == longer[i]);
            }
        }
        if is_first_spelling(platform, longer, at) {
            assert forall|i: int| 0 <= i < at implies !same_path(
                platform,
                #[trigger] paths[i],
                paths[at],
            ) by {
                assert(paths[i] == longer[i]);
            }
        }
    }
}

/// What the paths spell, the paths that stay spell too, and nothing more.
proof fn lemma_kept_spellings(platform: Platform, paths: Seq<Seq<u8>>, path: Seq<u8>)
    ensures
        holds_path(platform, unique_paths(platform, paths), path) == holds_path(
            platform,
            paths,
            path,
        ),
{
    let kept = unique_paths(platform, paths);
    if holds_path(platform, paths, path) {
        let i = choose|i: int|
            0 <= i < paths.len() && same_path(platform, #[trigger] paths[i], path);
        lemma_unique_complete(platform, paths, paths[i]);
        let k = choose|k: int|
            0 <= k < kept.len() && same_path(platform, #[trigger] kept[k], paths[i]);
        assert(same_path(platform, kept[k], path));
    }
    if holds_path(platform, kept, path) {
        let k = choose|k: int| 0 <= k < kept.len() && same_path(platform, #[trigger] kept[k], path);
        lemma_unique_complete(platform, paths, kept[k]);
        let i = choose|i: int| 0 <= i < paths.len() && paths[i] == kept[k];
        assert(same_path(platform, paths[i], path));
    }
}

/// The directories that are listed as tried are the one that was asked for and then the
/// standard places, each under its first spelling.
pub proof fn law_listed_candidates(host: Host, override_path: Option<Seq<u8>>)
    ensures
        home_candidates(host, override_path) == unique_paths(
            host.platform,
            (match (override_path, value_of(host.codex_home)) {
                (Some(path), _) => seq![path],
                (None, Some(path)) => seq![path],
                (None, None) => Seq::empty(),
            }) + unique_paths(host.platform, standard_places(host)),
        ),
{
}

/// Whether a text in lower case names a place where the desktop app keeps its data.
pub open spec fn is_desktop_place(place: Seq<char>) -> bool {
    ||| place == "/library/application support/codex"@
    ||| place == "/library/application support/com.openai.codex"@
    ||| place == "/library/application support/openai/codex"@
    ||| place == "/appdata/roaming/codex"@
    ||| place == "/appdata/local/codex"@
}

/// None of the places of the desktop app ends in a slash.
proof fn lemma_desktop_place_ends(place: Seq<char>)
    requires
        is_desktop_place(place),
    ensures
        place.len() > 0,
        place.last() != '/',
{
    reveal_strlit("/library/application support/codex");
    reveal_strlit("/library/application support/com.openai.codex");
    reveal_strlit("/library/application support/openai/codex");
    reveal_strlit("/appdata/roaming/codex");
    reveal_strlit("/appdata/local/codex");
}

/// A path is where the desktop app keeps its data where it ends in one of five places,
/// in any case of the ASCII letters, whatever stands before and however many slashes
/// follow.
pub proof fn law_desktop_places_are_known(
    front: Seq<char>,
    place: Seq<char>,
    slashes: Seq<char>,
)
    requires
        is_desktop_place(ascii_lower(place)),
        forall|i: int| 0 <= i < slashes.len() ==> #[trigger] slashes[i] == '/',
    ensures
        is_gui_home_text(front + place + slashes),
{
    let text = front + place + slashes;
    let lower = ascii_lower(place);
    let named = ascii_lower(front) + lower;
    lemma_desktop_place_ends(lower);
    assert(ascii_lower(slashes) =~= slashes);
    assert(ascii_lower(text) =~= named + slashes);
    assert(named.last() == lower.last());
    law_trimmed_marks(named, slashes, '/');
    assert(lower.is_suffix_of(named)) by {
        assert(named.subrange(named.len() - lower.len(), named.len() as int) =~= lower);
    }
}

/// Whether a path ends, but for slashes, in a place of the desktop app.
pub open spec fn ends_in_desktop_place(text: Seq<char>, start: int, end: int) -> bool {
    &&& 0 <= start <= end <= text.len()
    &&& is_desktop_place(ascii_lower(text.subrange(start, end)))
    &&& forall|i: int| end <= i < text.len() ==> #[trigger] text[i] == '/'
}

/// No other path is where the desktop app keeps its data.
pub proof fn law_only_desktop_places_are_known(text: Seq<char>)
    ensures
        is_gui_home_text(text) ==> exists|start: int, end: int| #[trigger]
            ends_in_desktop_place(text, start, end),
{
    let lower = ascii_lower(text);
    let comparable = trim_end_mark(lower, '/');
    lemma_trimmed_slashes(lower);
    if is_gui_home_text(text) {
        let place = if "/library/application support/codex"@.is_suffix_of(comparable) {
            "/library/application support/codex"@
        } else if "/library/application support/com.openai.codex"@.is_suffix_of(comparable) {
            "/library/application support/com.openai.codex"@
        } else if "/library/application support/openai/codex"@.is_suffix_of(comparable) {
            "/library/application support/openai/codex"@
        } else if "/appdata/roaming/codex"@.is_suffix_of(comparable) {
            "/appdata/roaming/codex"@
        } else {
            "/appdata/local/codex"@
        };
        let end = comparable.len() as int;
        let start = end - place.len();
        assert(ascii_lower(text.subrange(start, end)) =~= comparable.subrange(start, end));
        assert forall|i: int| end <= i < text.len() implies #[trigger] text[i] == '/' by {
            assert(lower[i] == '/');
        }
        assert(ends_in_desktop_place(text, start, end));
    }
}

/// What trimming takes away are slashes.
proof fn lemma_trimmed_slashes(text: Seq<char>)
    ensures
        ({
            let kept = trim_end_mark(text, '/');
            &&& kept.len() <= text.len()
            &&& kept == text.take(kept.len() as int)
            &&& forall|i: int| kept.len() <= i < text.len() ==> #[trigger] text[i] == '/'
        }),
    decreases text.len(),
{
    if text.len() > 0 && text.last() == '/' {
        lemma_trimmed_slashes(text.drop_last());
        let kept = trim_end_mark(text, '/');
        assert(text.drop_last().take(kept.len() as int) =~= text.take(kept.len() as int));
        assert forall|i: int| kept.len() <= i < text.len() implies #[trigger] text[i] == '/' by {
            if i < text.len() - 1 {
                assert(text.drop_last()[i] == '/');
            }
        }
    } else {
        assert(text.take(text.len() as int) =~= text);
    }
}

/// The location that is reported is what may be shown of the directory that was found,
/// or else of the one that was asked for; without either, none is reported.
pub proof fn law_reported_home(
    host: Host,
    override_path: Option<Seq<u8>>,
    environment: Option<Seq<u8>>,
    automatic: Seq<Seq<u8>>,
    facts: Facts,
)
    ensures
        home_search(host, override_path, environment, automatic, facts) matches Ok((
            found,
            status,
        )) ==> match (found, override_path, environment) {
            (Some(path), _, _) => status.redacted_location is Some && redact_on(host, path, facts)
                == Ok::<_, Question>(status.redacted_location->0),
            (None, Some(path), _) => status.redacted_location is Some && redact_on(
                host,
                path,
                facts,
            ) == Ok::<_, Question>(status.redacted_location->0),
            (None, None, Some(path)) => status.redacted_location is Some && redact_on(
                host,
                path,
                facts,
            ) == Ok::<_, Question>(status.redacted_location->0),
            (None, None, None) => status.redacted_location is None,
        },
{
}

/// What is said of a directory that is used, for whatever it holds and wherever it came
/// from, and of one that is not used.
pub proof fn law_what_is_said_of_a_home(
    host: Host,
    path: Seq<u8>,
    validation: CodexHomeValidation,
    flag: bool,
    source: Seq<char>,
    facts: Facts,
    location: Seq<char>,
)
    requires
        redact_on(host, path, facts) == Ok::<_, Question>(location),
    ensures
        used_home(host, path, validation, flag, source, facts) == Ok::<_, Question>(
            StatusView {
                state: if flag {
                    DiscoveryState::Selected
                } else {
                    DiscoveryState::AutoDetected
                },
                redacted_location: Some(location),
                message: match (validation, flag) {
                    (CodexHomeValidation::Empty, true) => {
                        "Selected empty data directory; waiting for Codex JSONL"@
                    },
                    (CodexHomeValidation::Empty, false) => "Empty data directory"@,
                    (CodexHomeValidation::Data, true) => "Selected"@,
                    (CodexHomeValidation::Data, false) => {
                        if source == "CODEX_HOME"@ {
                            "Using CODEX_HOME"@
                        } else if is_gui_home_text(normalized_text(host.platform, path)) {
                            "Desktop app data detected"@
                        } else {
                            "Auto-detected"@
                        }
                    },
                    _ => "Codex data directory is unavailable"@,
                },
            },
        ),
        unused_home(host, path, validation, flag, facts) == Ok::<_, Question>(
            StatusView {
                state: if flag {
                    DiscoveryState::Unsupported
                } else {
                    DiscoveryState::Missing
                },
                redacted_location: Some(location),
                message: match validation {
                    CodexHomeValidation::Inaccessible => "Codex data directory is inaccessible"@,
                    CodexHomeValidation::Unsupported => {
                        "Folder is not a supported Codex data directory"@
                    },
                    CodexHomeValidation::Empty => {
                        "Selected empty data directory; waiting for Codex JSONL"@
                    },
                    CodexHomeValidation::Data => "Codex data directory is available"@,
                },
            },
        ),
{
}

/// The text by which a place of the desktop app is known has every backslash turned.
pub proof fn law_places_are_known_with_slashes_turned(platform: Platform, text: Seq<char>)
    ensures
        normalized_text(platform, encode_utf8(text)) == forward_slashes(text),
{
    law_paths_spell_their_text(platform, text);
}

/// A status carries its state, what may be shown of its path, and its message; where it
/// is not known what may be shown, that is asked.
pub proof fn law_statuses_carry_what_may_be_shown(
    host: Host,
    state: DiscoveryState,
    path: Seq<u8>,
    message: Seq<char>,
    facts: Facts,
)
    ensures
        match (redact_on(host, path, facts), status_at(host, state, path, message, facts)) {
            (Ok(location), Ok(status)) => status == (StatusView {
                state,
                redacted_location: Some(location),
                message,
            }),
            (Err(question), Err(asked)) => question == asked,
            _ => false,
        },
{
}

/// A variable that is set to nothing counts as not set.
pub proof fn law_empty_variables(variable: Option<NativePath>)
    ensures
        non_empty(variable) == value_of(variable),
{
}

} // verus!
