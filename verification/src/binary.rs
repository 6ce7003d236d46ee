//! Finding the Codex executable.

use crate::bytes::{lower_byte, lower_bytes, lowered, push_bytes, same_bytes};
use crate::home::{below, found_at, place, redacted_status, status_at, value_of, with_status};
use crate::host::{
    executable_extensions, home_dir, home_of, non_empty, non_empty_env_path, ref_bytes,
    windows_executable_extensions, Host,
};
use crate::observation::{
    search_answer, status_answer, Facts, FileMetadata, Observations, Query, Question,
};
use crate::path::{
    extension_of, file_name_of, join_of, law_extension, law_join_keeps_the_file_name,
    lemma_last_name, maybe_bytes, path_bytes, physical_root, NativePath, Platform, DOT, SLASH,
};
use crate::redaction::{law_redaction_is_stable, normalized_path, normalized_text, redact_on};
use crate::status::{unlocated, DiscoveryState, DiscoveryStatus, StatusView};
use crate::text::{
    ascii_lower, ends_with, lemma_split_nonempty, lossy_text, lowercase, same_text, split,
    split_text, texts_of, trim, trim_space, utf8_lossy,
};
use vstd::prelude::*;
use vstd::utf8::{encode_utf8, is_ascii_chars, is_ascii_chars_encode_utf8};

verus! {

/// Whether an extension is that of a shell script, which is never run directly.
pub open spec fn is_script_extension(extension: Seq<char>) -> bool {
    extension == ".bat"@ || extension == ".cmd"@
}

/// Whether a file name in lower case is that of the command line tool with one of the
/// extensions.
pub open spec fn has_codex_stem(name: Seq<u8>, extensions: Seq<Seq<char>>) -> bool {
    exists|i: int|
        {
            &&& 0 <= i < extensions.len()
            &&& !is_script_extension(#[trigger] extensions[i])
            &&& name == encode_utf8("codex"@ + extensions[i]) || name == encode_utf8(
                "codex-cli"@ + extensions[i],
            )
        }
}

/// Whether a path is named like the command line tool.
pub open spec fn is_codex_name(host: Host, path: Seq<u8>) -> bool {
    match file_name_of(host.platform, path) {
        Some(name) => {
            let lower = lower_bytes(name);
            ||| lower == encode_utf8("codex"@)
            ||| lower == encode_utf8("codex-cli"@)
            ||| host.platform == Platform::Windows && has_codex_stem(
                lower,
                executable_extensions(host.path_extensions),
            )
        },
        None => false,
    }
}

/// Whether a path has one of the extensions of an executable, scripts left out.
pub open spec fn has_executable_extension(host: Host, path: Seq<u8>) -> bool {
    match extension_of(host.platform, path) {
        Some(extension) => {
            let dotted = lower_bytes(seq![DOT] + extension);
            let extensions = executable_extensions(host.path_extensions);
            &&& dotted != encode_utf8(".bat"@)
            &&& dotted != encode_utf8(".cmd"@)
            &&& exists|i: int|
                0 <= i < extensions.len() && dotted == encode_utf8(#[trigger] extensions[i])
        },
        None => false,
    }
}

/// Whether the file at a path can be run: a regular file that has an execute
/// permission on Unix, and an executable's extension on Windows.
pub open spec fn is_executable(host: Host, path: Seq<u8>, metadata: Option<FileMetadata>) -> bool {
    &&& metadata is Some
    &&& metadata->0.is_file
    &&& match host.platform {
        Platform::MacOs | Platform::Unix => metadata->0.mode & 0x49 != 0,
        Platform::Windows => has_executable_extension(host, path),
        Platform::Other => true,
    }
}

/// The executables that a macOS application bundle may hold, in order.
pub open spec fn bundle_executables(platform: Platform, bundle: Seq<u8>) -> Seq<Seq<u8>> {
    seq![
        join_of(platform, bundle, encode_utf8("Contents/MacOS/codex"@)),
        join_of(platform, bundle, encode_utf8("Contents/MacOS/Codex"@)),
        join_of(platform, bundle, encode_utf8("Contents/Resources/codex"@)),
    ]
}

/// Whether a path is named like a macOS application bundle.
pub open spec fn is_bundle_name(platform: Platform, path: Seq<u8>) -> bool {
    match extension_of(platform, path) {
        Some(extension) => lower_bytes(extension) == encode_utf8("app"@),
        None => false,
    }
}

/// The first path at or after `from` that is named like the command line tool and can
/// be run.
pub open spec fn first_executable(
    host: Host,
    paths: Seq<Seq<u8>>,
    from: int,
    facts: Facts,
) -> Result<Option<Seq<u8>>, Question>
    decreases paths.len() - from,
{
    if from >= paths.len() {
        Ok(None)
    } else if !is_codex_name(host, paths[from]) {
        first_executable(host, paths, from + 1, facts)
    } else if !facts.files.contains_key(paths[from]) {
        Err(Question::Inspect(paths[from]))
    } else if is_executable(host, paths[from], facts.files[paths[from]]) {
        Ok(Some(paths[from]))
    } else {
        first_executable(host, paths, from + 1, facts)
    }
}

/// The executable that a path stands for: the path itself where it is the command
/// line tool, or on macOS the tool inside an application bundle.
pub open spec fn resolved(host: Host, path: Seq<u8>, facts: Facts) -> Result<
    Option<Seq<u8>>,
    Question,
> {
    if !facts.files.contains_key(path) {
        Err(Question::Inspect(path))
    } else {
        let metadata = facts.files[path];
        if is_codex_name(host, path) && is_executable(host, path, metadata) {
            Ok(Some(path))
        } else if host.platform == Platform::MacOs && metadata is Some && metadata->0.is_dir
            && is_bundle_name(host.platform, path) {
            first_executable(host, bundle_executables(host.platform, path), 0, facts)
        } else {
            Ok(None)
        }
    }
}

/// The executable that the first path at or after `from` to stand for one stands for.
pub open spec fn first_resolved(
    host: Host,
    paths: Seq<Seq<u8>>,
    from: int,
    facts: Facts,
) -> Result<Option<Seq<u8>>, Question>
    decreases paths.len() - from,
{
    if from >= paths.len() {
        Ok(None)
    } else {
        match resolved(host, paths[from], facts) {
            Ok(None) => first_resolved(host, paths, from + 1, facts),
            outcome => outcome,
        }
    }
}

/// The paths in a directory under each of the extensions.
pub open spec fn extended_candidates(
    platform: Platform,
    directory: Seq<u8>,
    command: Seq<char>,
    extensions: Seq<Seq<char>>,
) -> Seq<Seq<u8>> {
    extensions.map_values(
        |extension: Seq<char>| join_of(platform, directory, encode_utf8(command + extension)),
    )
}

/// The paths under which a command may lie in a directory.
pub open spec fn candidates_in(host: Host, directory: Seq<u8>, command: Seq<char>) -> Seq<Seq<u8>> {
    let platform = host.platform;
    let plain = seq![join_of(platform, directory, encode_utf8(command))];
    if platform == Platform::Windows && extension_of(platform, encode_utf8(command)) is None {
        plain + extended_candidates(
            platform,
            directory,
            command,
            executable_extensions(host.path_extensions),
        )
    } else {
        plain
    }
}

/// The paths under which a command may lie in one of the directories, in order.
pub open spec fn candidates_among(
    host: Host,
    directories: Seq<Seq<u8>>,
    command: Seq<char>,
) -> Seq<Seq<u8>>
    decreases directories.len(),
{
    if directories.len() == 0 {
        seq![]
    } else {
        candidates_among(host, directories.drop_last(), command) + candidates_in(
            host,
            directories.last(),
            command,
        )
    }
}

/// The paths under which `PATH` lets a command be found, in order.
pub open spec fn candidates_on_path(host: Host, command: Seq<char>) -> Seq<Seq<u8>> {
    match host.search_path {
        Some(directories) => candidates_among(host, path_bytes(directories@), command),
        None => seq![],
    }
}

/// The executable that `PATH` gives for a command.
pub open spec fn found_on_path(host: Host, command: Seq<char>, facts: Facts) -> Result<
    Option<Seq<u8>>,
    Question,
> {
    first_resolved(host, candidates_on_path(host, command), 0, facts)
}

/// The lines of a text; a line break at the very end begins no line.
pub open spec fn text_lines(text: Seq<char>) -> Seq<Seq<char>> {
    let pieces = split_text(text, '\n');
    if pieces.last().len() == 0 {
        pieces.drop_last()
    } else {
        pieces
    }
}

/// The executables that the bundles on the lines may hold, in order.
pub open spec fn line_executables(platform: Platform, lines: Seq<Seq<char>>) -> Seq<Seq<u8>>
    decreases lines.len(),
{
    if lines.len() == 0 {
        seq![]
    } else {
        line_executables(platform, lines.drop_last()) + bundle_executables(
            platform,
            encode_utf8(trim_space(lines.last())),
        )
    }
}

/// The executables that the bundles found by the system's search may hold, in order.
pub open spec fn bundled_candidates(platform: Platform, output: Seq<u8>) -> Seq<Seq<u8>> {
    line_executables(platform, text_lines(lossy_text(output)))
}

/// The executable in one of the bundles found by the system's search; only macOS has
/// such a search.
pub open spec fn found_in_bundles(host: Host, facts: Facts) -> Result<Option<Seq<u8>>, Question> {
    if host.platform != Platform::MacOs {
        Ok(None)
    } else {
        match facts.bundles {
            Some(output) => first_resolved(
                host,
                bundled_candidates(host.platform, output),
                0,
                facts,
            ),
            None => Err(Question::FindBundles),
        }
    }
}

/// The places where an installer may have put the executable on a platform.
pub open spec fn fallback_places(host: Host) -> Seq<Seq<u8>> {
    let platform = host.platform;
    let home = home_of(host);
    match platform {
        Platform::MacOs => below(platform, home, ".local/bin/codex"@) + below(
            platform,
            home,
            "Library/Application Support/Codex/bin/codex"@,
        ) + below(platform, home, "Applications/ChatGPT.app"@) + below(
            platform,
            home,
            "Applications/Codex.app"@,
        ) + seq![
            encode_utf8("/Applications/ChatGPT.app"@),
            encode_utf8("/Applications/Codex.app"@),
            encode_utf8("/usr/local/bin/codex"@),
            encode_utf8("/opt/homebrew/bin/codex"@),
        ],
        Platform::Windows => below(
            platform,
            non_empty(host.program_files),
            "Codex/codex.exe"@,
        ) + below(platform, non_empty(host.local_app_data), "Programs/Codex/codex.exe"@),
        _ => seq![],
    }
}

/// The list of one path, or of none.
pub open spec fn as_list(path: Option<Seq<u8>>) -> Seq<Seq<u8>> {
    match path {
        Some(path) => seq![path],
        None => seq![],
    }
}

/// All the paths that are tried, in order.
pub open spec fn binary_candidates(
    host: Host,
    override_path: Option<Seq<u8>>,
    facts: Facts,
) -> Result<Seq<Seq<u8>>, Question> {
    match override_path {
        Some(path) => Ok(seq![path]),
        None => match found_on_path(host, "codex"@, facts) {
            Err(question) => Err(question),
            Ok(on_path) => {
                let named = as_list(non_empty(host.codex_binary)) + as_list(on_path);
                if host.platform != Platform::MacOs {
                    Ok(named + fallback_places(host))
                } else {
                    match facts.bundles {
                        Some(output) => Ok(
                            named + bundled_candidates(host.platform, output) + fallback_places(
                                host,
                            ),
                        ),
                        None => Err(Question::FindBundles),
                    }
                }
            },
        },
    }
}

/// The outcome for an executable that was found without being asked for.
pub open spec fn detected_at(host: Host, path: Seq<u8>, message: Seq<char>, facts: Facts) -> Result<
    (Option<Seq<u8>>, StatusView),
    Question,
> {
    with_status(
        Some(path),
        status_at(host, DiscoveryState::AutoDetected, path, message, facts),
    )
}

/// The outcome where the user asked for an executable: what it stands for or none.
pub open spec fn overridden_binary(host: Host, path: Seq<u8>, facts: Facts) -> Result<
    (Option<Seq<u8>>, StatusView),
    Question,
> {
    match resolved(host, path, facts) {
        Err(question) => Err(question),
        Ok(Some(found)) => with_status(
            Some(found),
            status_at(host, DiscoveryState::Selected, found, "Selected"@, facts),
        ),
        Ok(None) => with_status(
            None,
            status_at(
                host,
                DiscoveryState::Unsupported,
                path,
                "Selected item is not an executable Codex CLI or macOS app bundle"@,
                facts,
            ),
        ),
    }
}

/// What `CODEX_BINARY` stands for, where it is set.
pub open spec fn named_binary(host: Host, facts: Facts) -> Result<Option<Seq<u8>>, Question> {
    match non_empty(host.codex_binary) {
        Some(path) => resolved(host, path, facts),
        None => Ok(None),
    }
}

/// The outcome where no executable was found anywhere.
pub open spec fn no_binary(host: Host, facts: Facts) -> Result<
    (Option<Seq<u8>>, StatusView),
    Question,
> {
    match non_empty(host.codex_binary) {
        Some(path) => with_status(
            None,
            status_at(
                host,
                DiscoveryState::Missing,
                path,
                "CODEX_BINARY is not a valid executable Codex CLI"@,
                facts,
            ),
        ),
        None => Ok(
            (None, unlocated(DiscoveryState::Missing, "No executable Codex CLI found"@)),
        ),
    }
}

/// The outcome where the user asked for no executable: what `CODEX_BINARY` stands for,
/// else the one on `PATH`, else one in a bundle, else one in a fallback place.
pub open spec fn detected_binary(host: Host, facts: Facts) -> Result<
    (Option<Seq<u8>>, StatusView),
    Question,
> {
    match named_binary(host, facts) {
        Err(question) => Err(question),
        Ok(Some(path)) => detected_at(host, path, "Using CODEX_BINARY"@, facts),
        Ok(None) => match found_on_path(host, "codex"@, facts) {
            Err(question) => Err(question),
            Ok(Some(path)) => detected_at(host, path, "Found on PATH"@, facts),
            Ok(None) => match found_in_bundles(host, facts) {
                Err(question) => Err(question),
                Ok(Some(path)) => detected_at(host, path, "Found in a macOS app bundle"@, facts),
                Ok(None) => match first_resolved(host, fallback_places(host), 0, facts) {
                    Err(question) => Err(question),
                    Ok(Some(path)) => detected_at(
                        host,
                        path,
                        "Found at a platform fallback path"@,
                        facts,
                    ),
                    Ok(None) => no_binary(host, facts),
                },
            },
        },
    }
}

/// The outcome of the search for the executable.
pub open spec fn binary_search(host: Host, override_path: Option<Seq<u8>>, facts: Facts) -> Result<
    (Option<Seq<u8>>, StatusView),
    Question,
> {
    match override_path {
        Some(path) => overridden_binary(host, path, facts),
        None => detected_binary(host, facts),
    }
}

/// Whether a path, by its text, is the executable of a desktop app.
pub open spec fn is_gui_binary_text(text: Seq<char>) -> bool {
    let comparable = ascii_lower(text);
    ||| "/chatgpt.app/contents/resources/codex"@.is_suffix_of(comparable)
    ||| "/codex.app/contents/resources/codex"@.is_suffix_of(comparable)
}

/// An optional path, or the question that stands in its way.
pub open spec fn option_answer(answer: Result<Option<NativePath>, Query>) -> Result<
    Option<Seq<u8>>,
    Question,
> {
    match answer {
        Ok(path) => Ok(maybe_bytes(path)),
        Err(query) => Err(query@),
    }
}

/// Paths, or the question that stands in their way.
pub open spec fn list_answer(answer: Result<Vec<NativePath>, Query>) -> Result<
    Seq<Seq<u8>>,
    Question,
> {
    match answer {
        Ok(paths) => Ok(path_bytes(paths@)),
        Err(query) => Err(query@),
    }
}

/// Whether a path is the executable of a desktop app.
pub fn is_gui_binary(platform: Platform, path: &NativePath) -> (yes: bool)
    ensures
        yes == is_gui_binary_text(normalized_text(platform, path@)),
{
    let text = normalized_path(platform, path);
    gui_binary_text(text.as_str())
}

/// Whether a path, by its text with forward slashes, is the executable of a desktop app.
pub fn gui_binary_text(text: &str) -> (yes: bool)
    ensures
        yes == is_gui_binary_text(text@),
{
    let lower = lowercase(text);
    ends_with(lower.as_str(), "/chatgpt.app/contents/resources/codex") || ends_with(
        lower.as_str(),
        "/codex.app/contents/resources/codex",
    )
}

/// Whether the bytes are those of the two texts, one after the other.
fn is_concatenation(bytes: &[u8], first: &str, second: &str) -> (yes: bool)
    ensures
        yes == (bytes@ == encode_utf8(first@ + second@)),
{
    let mut whole = first.to_owned();
    whole.append(second);
    same_bytes(bytes, whole.as_str().as_bytes())
}

/// Whether an extension is that of a shell script.
fn script_extension(extension: &str) -> (yes: bool)
    ensures
        yes == is_script_extension(extension@),
{
    same_text(extension, ".bat") || same_text(extension, ".cmd")
}

/// Whether a path is named like the command line tool.
pub fn codex_file_name(host: &Host, path: &NativePath) -> (yes: bool)
    ensures
        yes == is_codex_name(*host, path@),
{
    let name = match path.file_name(host.platform) {
        Some(name) => name,
        None => {
            return false;
        },
    };
    let lower = lowered(name.as_slice());
    if same_bytes(lower.as_slice(), "codex".as_bytes()) || same_bytes(
        lower.as_slice(),
        "codex-cli".as_bytes(),
    ) {
        return true;
    }
    if host.platform != Platform::Windows {
        return false;
    }
    let extensions = windows_executable_extensions(&host.path_extensions);
    let ghost views = texts_of(extensions@);
    for i in 0..extensions.len()
        invariant
            views == texts_of(extensions@),
            views == executable_extensions(host.path_extensions),
            host.platform == Platform::Windows,
            file_name_of(host.platform, path@) is Some,
            lower@ == lower_bytes(file_name_of(host.platform, path@)->0),
            forall|j: int|
                0 <= j < i ==> is_script_extension(#[trigger] views[j]) || (lower@ != encode_utf8(
                    "codex"@ + views[j],
                ) && lower@ != encode_utf8("codex-cli"@ + views[j])),
    {
        let extension = extensions[i].as_str();
        assert(views[i as int] == extension@);
        if !script_extension(extension) && (is_concatenation(lower.as_slice(), "codex", extension)
            || is_concatenation(lower.as_slice(), "codex-cli", extension)) {
            return true;
        }
    }
    false
}

/// Whether a path has one of the extensions of an executable, scripts left out.
fn executable_extension(host: &Host, path: &NativePath) -> (yes: bool)
    ensures
        yes == has_executable_extension(*host, path@),
{
    let extension = match path.extension(host.platform) {
        Some(extension) => extension,
        None => {
            return false;
        },
    };
    let mut dotted: Vec<u8> = vec![DOT];
    push_bytes(&mut dotted, extension.as_slice());
    assert(dotted@ =~= seq![DOT] + extension@);
    let lower = lowered(dotted.as_slice());
    if same_bytes(lower.as_slice(), ".bat".as_bytes()) || same_bytes(
        lower.as_slice(),
        ".cmd".as_bytes(),
    ) {
        return false;
    }
    let extensions = windows_executable_extensions(&host.path_extensions);
    let ghost views = texts_of(extensions@);
    for i in 0..extensions.len()
        invariant
            views == texts_of(extensions@),
            views == executable_extensions(host.path_extensions),
            extension_of(host.platform, path@) is Some,
            lower@ == lower_bytes(seq![DOT] + extension_of(host.platform, path@)->0),
            lower@ != encode_utf8(".bat"@),
            lower@ != encode_utf8(".cmd"@),
            forall|j: int| 0 <= j < i ==> lower@ != encode_utf8(#[trigger] views[j]),
    {
        assert(views[i as int] == extensions@[i as int]@);
        if same_bytes(lower.as_slice(), extensions[i].as_str().as_bytes()) {
            return true;
        }
    }
    false
}

/// Whether the file at a path can be run; `metadata` is what the system tells of it.
pub fn is_executable_file(
    host: &Host,
    path: &NativePath,
    metadata: Option<FileMetadata>,
) -> (yes: bool)
    ensures
        yes == is_executable(*host, path@, metadata),
{
    let metadata = match metadata {
        Some(metadata) => metadata,
        None => {
            return false;
        },
    };
    if !metadata.is_file {
        return false;
    }
    match host.platform {
        Platform::MacOs | Platform::Unix => metadata.mode & 0x49 != 0,
        Platform::Windows => executable_extension(host, path),
        Platform::Other => true,
    }
}

/// The executables that a macOS application bundle may hold, in order.
pub fn macos_bundle_executables(platform: Platform, bundle: &NativePath) -> (paths: Vec<NativePath>)
    ensures
        path_bytes(paths@) == bundle_executables(platform, bundle@),
{
    let mut paths: Vec<NativePath> = Vec::new();
    paths.push(bundle.join(platform, "Contents/MacOS/codex".as_bytes()));
    paths.push(bundle.join(platform, "Contents/MacOS/Codex".as_bytes()));
    paths.push(bundle.join(platform, "Contents/Resources/codex".as_bytes()));
    assert(path_bytes(paths@) =~= bundle_executables(platform, bundle@));
    paths
}

/// Whether a path is named like a macOS application bundle.
fn bundle_name(platform: Platform, path: &NativePath) -> (yes: bool)
    ensures
        yes == is_bundle_name(platform, path@),
{
    match path.extension(platform) {
        Some(extension) => {
            let lower = lowered(extension.as_slice());
            same_bytes(lower.as_slice(), "app".as_bytes())
        },
        None => false,
    }
}

/// The executable that a path stands for.
pub fn resolve_codex_executable(
    host: &Host,
    path: &NativePath,
    observations: &Observations,
) -> (found: Result<Option<NativePath>, Query>)
    ensures
        option_answer(found) == resolved(*host, path@, observations@),
{
    let metadata = match observations.metadata(path) {
        Ok(metadata) => metadata,
        Err(query) => {
            return Err(query);
        },
    };
    if codex_file_name(host, path) && is_executable_file(host, path, metadata) {
        return Ok(Some(path.to_path_buf()));
    }
    let is_dir = match metadata {
        Some(metadata) => metadata.is_dir,
        None => false,
    };
    if host.platform != Platform::MacOs || !is_dir || !bundle_name(host.platform, path) {
        return Ok(None);
    }
    let inside = macos_bundle_executables(host.platform, path);
    let ghost views = path_bytes(inside@);
    let ghost facts = observations@;
    for i in 0..inside.len()
        invariant
            views == path_bytes(inside@),
            facts == observations@,
            resolved(*host, path@, facts) == first_executable(*host, views, i as int, facts),
    {
        let candidate = &inside[i];
        assert(views[i as int] == candidate@);
        if codex_file_name(host, candidate) {
            match observations.metadata(candidate) {
                Ok(metadata) => {
                    if is_executable_file(host, candidate, metadata) {
                        return Ok(Some(candidate.to_path_buf()));
                    }
                },
                Err(query) => {
                    return Err(query);
                },
            }
        }
    }
    Ok(None)
}

/// The executable that the first of the paths to stand for one stands for.
pub fn first_executable_among(
    host: &Host,
    paths: &Vec<NativePath>,
    observations: &Observations,
) -> (found: Result<Option<NativePath>, Query>)
    ensures
        option_answer(found) == first_resolved(*host, path_bytes(paths@), 0, observations@),
{
    let ghost views = path_bytes(paths@);
    let ghost facts = observations@;
    for i in 0..paths.len()
        invariant
            views == path_bytes(paths@),
            facts == observations@,
            first_resolved(*host, views, 0, facts) == first_resolved(
                *host,
                views,
                i as int,
                facts,
            ),
    {
        assert(views[i as int] == paths@[i as int]@);
        match resolve_codex_executable(host, &paths[i], observations) {
            Ok(Some(found)) => {
                return Ok(Some(found));
            },
            Ok(None) => {},
            Err(query) => {
                return Err(query);
            },
        }
    }
    Ok(None)
}

/// Adds the paths under which a command may lie in a directory.
fn add_candidates_in(
    host: &Host,
    directory: &NativePath,
    command: &str,
    extensions: &Vec<String>,
    paths: &mut Vec<NativePath>,
)
    requires
        host.platform == Platform::Windows && extension_of(host.platform, encode_utf8(command@))
            is None ==> texts_of(extensions@) == executable_extensions(host.path_extensions),
        !(host.platform == Platform::Windows && extension_of(host.platform, encode_utf8(command@))
            is None) ==> extensions@.len() == 0,
    ensures
        path_bytes(final(paths)@) == path_bytes(old(paths)@) + candidates_in(
            *host,
            directory@,
            command@,
        ),
{
    let platform = host.platform;
    let ghost before = path_bytes(paths@);
    let ghost plain = seq![join_of(platform, directory@, encode_utf8(command@))];
    let ghost views = texts_of(extensions@);
    let ghost extended = extended_candidates(platform, directory@, command@, views);
    paths.push(directory.join(platform, command.as_bytes()));
    assert(path_bytes(paths@) =~= before + plain + extended.take(0));
    for i in 0..extensions.len()
        invariant
            platform == host.platform,
            views == texts_of(extensions@),
            extended == extended_candidates(platform, directory@, command@, views),
            path_bytes(paths@) == before + plain + extended.take(i as int),
    {
        let ghost so_far = path_bytes(paths@);
        let mut file_name = command.to_owned();
        file_name.append(extensions[i].as_str());
        let path = directory.join(platform, file_name.as_str().as_bytes());
        assert(extended[i as int] == path@);
        paths.push(path);
        assert(path_bytes(paths@) =~= so_far.push(path@));
        assert(extended.take(i + 1) =~= extended.take(i as int).push(path@));
        assert(path_bytes(paths@) =~= before + plain + extended.take(i + 1));
    }
    proof {
        assert(extended.take(extended.len() as int) =~= extended);
        if extensions@.len() == 0 {
            assert(before + plain + extended =~= before + plain);
        } else {
            assert(before + plain + extended =~= before + (plain + extended));
        }
        if host.platform == Platform::Windows && extension_of(
            host.platform,
            encode_utf8(command@),
        ) is None {
            assert(before + plain + extended =~= before + candidates_in(
                *host,
                directory@,
                command@,
            ));
        }
    }
}

/// The paths under which `PATH` lets a command be found, in order.
pub fn path_candidates(host: &Host, command: &str) -> (paths: Vec<NativePath>)
    ensures
        path_bytes(paths@) == candidates_on_path(*host, command@),
{
    let mut paths: Vec<NativePath> = Vec::new();
    assert(path_bytes(paths@) =~= Seq::<Seq<u8>>::empty());
    let directories = match &host.search_path {
        Some(directories) => directories,
        None => {
            return paths;
        },
    };
    let command_has_extension = NativePath::from_text(command).extension(
        host.platform,
    ).is_some();
    let extensions = if host.platform == Platform::Windows && !command_has_extension {
        windows_executable_extensions(&host.path_extensions)
    } else {
        Vec::new()
    };
    let ghost views = path_bytes(directories@);
    for i in 0..directories.len()
        invariant
            views == path_bytes(directories@),
            command_has_extension == extension_of(host.platform, encode_utf8(command@)) is Some,
            host.platform == Platform::Windows && !command_has_extension ==> texts_of(extensions@)
                == executable_extensions(host.path_extensions),
            !(host.platform == Platform::Windows && !command_has_extension) ==> extensions@.len()
                == 0,
            path_bytes(paths@) == candidates_among(*host, views.take(i as int), command@),
    {
        assert(views.take(i + 1).drop_last() =~= views.take(i as int));
        assert(views.take(i + 1).last() == directories@[i as int]@);
        add_candidates_in(host, &directories[i], command, &extensions, &mut paths);
    }
    assert(views.take(views.len() as int) =~= views);
    paths
}

/// The executable that `PATH` gives for a command.
pub fn which_on_path(host: &Host, command: &str, observations: &Observations) -> (found: Result<
    Option<NativePath>,
    Query,
>)
    ensures
        option_answer(found) == found_on_path(*host, command@, observations@),
{
    let candidates = path_candidates(host, command);
    first_executable_among(host, &candidates, observations)
}

/// The executables that the bundles found by the system's search may hold, in order;
/// `output` lists the bundles, one to a line.
pub fn macos_app_binary_candidates(platform: Platform, output: &[u8]) -> (paths: Vec<NativePath>)
    ensures
        path_bytes(paths@) == bundled_candidates(platform, output@),
{
    let text = utf8_lossy(output);
    let pieces = split(text.as_str(), '\n');
    let ghost views = texts_of(pieces@);
    proof {
        lemma_split_nonempty(text@, '\n');
        assert(views.last() == pieces@.last()@);
    }
    let count: usize = if pieces[pieces.len() - 1].as_str().is_empty() {
        pieces.len() - 1
    } else {
        pieces.len()
    };
    let ghost lines = text_lines(text@);
    assert(lines =~= views.take(count as int));
    let mut paths: Vec<NativePath> = Vec::new();
    assert(path_bytes(paths@) =~= line_executables(platform, lines.take(0)));
    for i in 0..count
        invariant
            count <= pieces@.len(),
            views == texts_of(pieces@),
            lines == views.take(count as int),
            path_bytes(paths@) == line_executables(platform, lines.take(i as int)),
    {
        let trimmed = trim(pieces[i].as_str());
        let bundle = NativePath::from_text(trimmed.as_str());
        let mut inside = macos_bundle_executables(platform, &bundle);
        let ghost before = path_bytes(paths@);
        let ghost more = path_bytes(inside@);
        proof {
            assert(lines[i as int] == pieces@[i as int]@);
            assert(lines.take(i + 1).drop_last() =~= lines.take(i as int));
            assert(lines.take(i + 1).last() == pieces@[i as int]@);
        }
        paths.append(&mut inside);
        assert(path_bytes(paths@) =~= before + more);
    }
    assert(lines.take(count as int) =~= lines);
    paths
}

/// Adds the path below a directory, where there is such a directory.
fn push_below(
    platform: Platform,
    paths: &mut Vec<NativePath>,
    base: &Option<NativePath>,
    relative: &str,
)
    ensures
        path_bytes(final(paths)@) == path_bytes(old(paths)@) + below(
            platform,
            maybe_bytes(*base),
            relative@,
        ),
{
    if let Some(base) = base {
        let path = base.join(platform, relative.as_bytes());
        paths.push(path);
        assert(path_bytes(paths@) =~= path_bytes(old(paths)@) + seq![path@]);
    }
}

/// The places where an installer may have put the executable on a platform.
pub fn platform_fallback_binary_candidates(host: &Host) -> (paths: Vec<NativePath>)
    ensures
        path_bytes(paths@) == fallback_places(*host),
{
    let platform = host.platform;
    let mut paths: Vec<NativePath> = Vec::new();
    assert(path_bytes(paths@) =~= Seq::<Seq<u8>>::empty());
    match platform {
        Platform::MacOs => {
            let home = home_dir(host);
            push_below(platform, &mut paths, &home, ".local/bin/codex");
            push_below(
                platform,
                &mut paths,
                &home,
                "Library/Application Support/Codex/bin/codex",
            );
            push_below(platform, &mut paths, &home, "Applications/ChatGPT.app");
            push_below(platform, &mut paths, &home, "Applications/Codex.app");
            paths.push(NativePath::from_text("/Applications/ChatGPT.app"));
            paths.push(NativePath::from_text("/Applications/Codex.app"));
            paths.push(NativePath::from_text("/usr/local/bin/codex"));
            paths.push(NativePath::from_text("/opt/homebrew/bin/codex"));
        },
        Platform::Windows => {
            let program_files = non_empty_env_path(&host.program_files);
            let local_app_data = non_empty_env_path(&host.local_app_data);
            push_below(platform, &mut paths, &program_files, "Codex/codex.exe");
            push_below(platform, &mut paths, &local_app_data, "Programs/Codex/codex.exe");
        },
        _ => {},
    }
    assert(path_bytes(paths@) =~= fallback_places(*host));
    paths
}

/// All the paths that are tried, in order.
pub fn codex_binary_candidates(
    host: &Host,
    override_path: Option<&NativePath>,
    observations: &Observations,
) -> (candidates: Result<Vec<NativePath>, Query>)
    ensures
        list_answer(candidates) == binary_candidates(
            *host,
            ref_bytes(override_path),
            observations@,
        ),
{
    let mut candidates: Vec<NativePath> = Vec::new();
    if let Some(path) = override_path {
        candidates.push(path.to_path_buf());
        assert(path_bytes(candidates@) =~= seq![path@]);
        return Ok(candidates);
    }
    if let Some(path) = non_empty_env_path(&host.codex_binary) {
        candidates.push(path);
    }
    assert(path_bytes(candidates@) =~= as_list(non_empty(host.codex_binary)));
    let ghost named = path_bytes(candidates@);
    let on_path = match which_on_path(host, "codex", observations) {
        Ok(on_path) => on_path,
        Err(query) => {
            return Err(query);
        },
    };
    let ghost on_path_view = maybe_bytes(on_path);
    if let Some(path) = on_path {
        candidates.push(path);
    }
    assert(path_bytes(candidates@) =~= named + as_list(on_path_view));
    let ghost direct = path_bytes(candidates@);
    if host.platform == Platform::MacOs {
        match observations.found_bundles() {
            Ok(output) => {
                let mut bundled = macos_app_binary_candidates(host.platform, output.as_slice());
                let ghost more = path_bytes(bundled@);
                candidates.append(&mut bundled);
                assert(path_bytes(candidates@) =~= direct + more);
            },
            Err(query) => {
                return Err(query);
            },
        }
    }
    let ghost before = path_bytes(candidates@);
    let mut fallbacks = platform_fallback_binary_candidates(host);
    let ghost last = path_bytes(fallbacks@);
    candidates.append(&mut fallbacks);
    assert(path_bytes(candidates@) =~= before + last);
    Ok(candidates)
}

/// The status of an executable.
pub fn binary_status(
    host: &Host,
    path: &NativePath,
    state: DiscoveryState,
    message: &str,
    observations: &Observations,
) -> (status: Result<DiscoveryStatus, Query>)
    ensures
        status_answer(status) == status_at(
            *host,
            state,
            path@,
            message@,
            observations@,
        ),
{
    redacted_status(host, state, path, message, observations)
}

/// The outcome where the user asked for an executable.
pub fn explicit_binary_result(
    host: &Host,
    path: &NativePath,
    observations: &Observations,
) -> (found: Result<(Option<NativePath>, DiscoveryStatus), Query>)
    ensures
        search_answer(found) == overridden_binary(*host, path@, observations@),
{
    match resolve_codex_executable(host, path, observations) {
        Ok(Some(resolved)) => {
            let status = binary_status(
                host,
                &resolved,
                DiscoveryState::Selected,
                "Selected",
                observations,
            );
            found_at(Some(resolved), status)
        },
        Ok(None) => found_at(
            None,
            binary_status(
                host,
                path,
                DiscoveryState::Unsupported,
                "Selected item is not an executable Codex CLI or macOS app bundle",
                observations,
            ),
        ),
        Err(query) => Err(query),
    }
}

/// The outcome for an executable that was found without being asked for.
fn detected_result(
    host: &Host,
    path: NativePath,
    message: &str,
    observations: &Observations,
) -> (found: Result<(Option<NativePath>, DiscoveryStatus), Query>)
    ensures
        search_answer(found) == detected_at(*host, path@, message@, observations@),
{
    let status = binary_status(host, &path, DiscoveryState::AutoDetected, message, observations);
    found_at(Some(path), status)
}

/// Searches for the executable on a machine: the one that the user asked for, or that
/// alone failing; else the one that the environment names; else the one on `PATH`;
/// else one in an application bundle; else one in a fallback place.
pub fn discover_codex_binary(
    host: &Host,
    override_path: Option<&NativePath>,
    observations: &Observations,
) -> (found: Result<(Option<NativePath>, DiscoveryStatus), Query>)
    ensures
        search_answer(found) == binary_search(*host, ref_bytes(override_path), observations@),
{
    if let Some(path) = override_path {
        return explicit_binary_result(host, path, observations);
    }
    let environment = non_empty_env_path(&host.codex_binary);
    if let Some(path) = &environment {
        match resolve_codex_executable(host, path, observations) {
            Ok(Some(resolved)) => {
                return detected_result(host, resolved, "Using CODEX_BINARY", observations);
            },
            Ok(None) => {},
            Err(query) => {
                return Err(query);
            },
        }
    }
    match which_on_path(host, "codex", observations) {
        Ok(Some(path)) => {
            return detected_result(host, path, "Found on PATH", observations);
        },
        Ok(None) => {},
        Err(query) => {
            return Err(query);
        },
    }
    if host.platform == Platform::MacOs {
        let bundled = match observations.found_bundles() {
            Ok(output) => macos_app_binary_candidates(host.platform, output.as_slice()),
            Err(query) => {
                return Err(query);
            },
        };
        match first_executable_among(host, &bundled, observations) {
            Ok(Some(path)) => {
                return detected_result(host, path, "Found in a macOS app bundle", observations);
            },
            Ok(None) => {},
            Err(query) => {
                return Err(query);
            },
        }
    }
    let fallbacks = platform_fallback_binary_candidates(host);
    match first_executable_among(host, &fallbacks, observations) {
        Ok(Some(path)) => {
            return detected_result(host, path, "Found at a platform fallback path", observations);
        },
        Ok(None) => {},
        Err(query) => {
            return Err(query);
        },
    }
    match &environment {
        Some(path) => found_at(
            None,
            binary_status(
                host,
                path,
                DiscoveryState::Missing,
                "CODEX_BINARY is not a valid executable Codex CLI",
                observations,
            ),
        ),
        None => Ok((None, DiscoveryStatus::missing("No executable Codex CLI found"))),
    }
}

/// Whether a path is known to be the command line tool and to be one that can be run.
pub open spec fn is_known_tool(host: Host, path: Seq<u8>, facts: Facts) -> bool {
    &&& facts.files.contains_key(path)
    &&& is_codex_name(host, path)
    &&& is_executable(host, path, facts.files[path])
}

/// What is found among paths is the command line tool, and one of the paths.
proof fn lemma_first_executable(host: Host, paths: Seq<Seq<u8>>, from: int, facts: Facts)
    requires
        0 <= from,
    ensures
        match first_executable(host, paths, from, facts) {
            Ok(Some(path)) => is_known_tool(host, path, facts) && paths.contains(path),
            Ok(None) => true,
            Err(question) => question matches Question::Inspect(path) && paths.contains(path),
        },
    decreases paths.len() - from,
{
    if from < paths.len() {
        assert(paths.contains(paths[from]));
        lemma_first_executable(host, paths, from + 1, facts);
    }
}

/// Whatever a path stands for is named like the command line tool and can be run: no
/// other executable passes for it. Off macOS it is the path itself, and on macOS the
/// path itself or one of three places inside it.
pub proof fn law_only_the_tool_is_resolved(host: Host, path: Seq<u8>, facts: Facts)
    ensures
        resolved(host, path, facts) matches Ok(Some(found)) ==> {
            &&& is_known_tool(host, found, facts)
            &&& found == path || (host.platform == Platform::MacOs && bundle_executables(
                host.platform,
                path,
            ).contains(found))
        },
{
    lemma_first_executable(host, bundle_executables(host.platform, path), 0, facts);
}

/// What is not named like the command line tool is not resolved, whatever its
/// permissions are, unless it is a bundle.
pub proof fn law_other_files_are_rejected(host: Host, path: Seq<u8>, facts: Facts)
    requires
        facts.files.contains_key(path),
        !is_codex_name(host, path),
        !(host.platform == Platform::MacOs && facts.files[path] is Some
            && facts.files[path]->0.is_dir && is_bundle_name(host.platform, path)),
    ensures
        resolved(host, path, facts) == Ok::<_, Question>(None::<Seq<u8>>),
{
}

/// On Windows no shell script is ever resolved.
pub proof fn law_scripts_are_rejected(host: Host, path: Seq<u8>, facts: Facts)
    requires
        host.platform == Platform::Windows,
    ensures
        resolved(host, path, facts) matches Ok(Some(found)) ==> {
            &&& found == path
            &&& extension_of(host.platform, path) is Some
            &&& lower_bytes(seq![DOT] + extension_of(host.platform, path)->0) != encode_utf8(
                ".bat"@,
            )
            &&& lower_bytes(seq![DOT] + extension_of(host.platform, path)->0) != encode_utf8(
                ".cmd"@,
            )
        },
{
}

/// Whether a path is one of the paths or lies in one of them as in a bundle.
pub open spec fn is_reached_from(host: Host, paths: Seq<Seq<u8>>, path: Seq<u8>) -> bool {
    ||| paths.contains(path)
    ||| exists|i: int|
        0 <= i < paths.len() && bundle_executables(host.platform, #[trigger] paths[i]).contains(
            path,
        )
}

/// What is resolved among paths is the command line tool, and reached from the paths;
/// so is what the paths raise a question about.
proof fn lemma_first_resolved(host: Host, paths: Seq<Seq<u8>>, from: int, facts: Facts)
    requires
        0 <= from,
    ensures
        match first_resolved(host, paths, from, facts) {
            Ok(Some(path)) => is_known_tool(host, path, facts) && is_reached_from(
                host,
                paths,
                path,
            ),
            Ok(None) => true,
            Err(question) => question matches Question::Inspect(path) && is_reached_from(
                host,
                paths,
                path,
            ),
        },
    decreases paths.len() - from,
{
    if from < paths.len() {
        assert(paths.contains(paths[from]));
        lemma_first_executable(host, bundle_executables(host.platform, paths[from]), 0, facts);
        lemma_first_resolved(host, paths, from + 1, facts);
    }
}

/// The executables that the bundles known so far may hold.
pub open spec fn listed_bundles(host: Host, facts: Facts) -> Seq<Seq<u8>> {
    match facts.bundles {
        Some(output) => bundled_candidates(host.platform, output),
        None => seq![],
    }
}

/// The paths that a search for the executable starts from.
pub open spec fn search_roots(host: Host, override_path: Option<Seq<u8>>, facts: Facts) -> Seq<
    Seq<u8>,
> {
    match override_path {
        Some(path) => seq![path],
        None => as_list(non_empty(host.codex_binary)) + candidates_on_path(host, "codex"@)
            + listed_bundles(host, facts) + fallback_places(host),
    }
}

/// What is reached from some of the paths is reached from all of them.
proof fn lemma_reached_from_part(
    host: Host,
    part: Seq<Seq<u8>>,
    whole: Seq<Seq<u8>>,
    start: int,
    path: Seq<u8>,
)
    requires
        0 <= start,
        start + part.len() <= whole.len(),
        forall|i: int| 0 <= i < part.len() ==> #[trigger] part[i] == whole[start + i],
    ensures
        is_reached_from(host, part, path) ==> is_reached_from(host, whole, path),
{
    if part.contains(path) {
        let i = choose|i: int| 0 <= i < part.len() && part[i] == path;
        assert(whole[start + i] == path);
    } else if is_reached_from(host, part, path) {
        let i = choose|i: int|
            0 <= i < part.len() && bundle_executables(host.platform, #[trigger] part[i]).contains(
                path,
            );
        assert(bundle_executables(host.platform, whole[start + i]).contains(path));
    }
}

/// What is reached from one of the places that a search turns to is reached from where
/// the search starts.
proof fn lemma_reached_from_roots(host: Host, facts: Facts, path: Seq<u8>)
    ensures
        is_reached_from(host, candidates_on_path(host, "codex"@), path) || is_reached_from(
            host,
            listed_bundles(host, facts),
            path,
        ) || is_reached_from(host, fallback_places(host), path) ==> is_reached_from(
            host,
            search_roots(host, None, facts),
            path,
        ),
{
    let roots = search_roots(host, None, facts);
    let named = as_list(non_empty(host.codex_binary));
    let on_path = candidates_on_path(host, "codex"@);
    let bundled = listed_bundles(host, facts);
    let fallbacks = fallback_places(host);
    lemma_reached_from_part(host, on_path, roots, named.len() as int, path);
    lemma_reached_from_part(host, bundled, roots, named.len() + on_path.len() as int, path);
    lemma_reached_from_part(
        host,
        fallbacks,
        roots,
        named.len() + on_path.len() + bundled.len() as int,
        path,
    );
}

/// The executable that a search comes to is the command line tool and can be run, and
/// was reached from one of the paths that the search starts from. The search asks
/// about nothing else: only about the files that it reaches, the canonical forms of
/// those and of the user's home, and on macOS the system's list of bundles.
pub proof fn law_binary_search_stays_in_bounds(
    host: Host,
    override_path: Option<Seq<u8>>,
    facts: Facts,
)
    ensures
        match binary_search(host, override_path, facts) {
            Ok((found, _)) => found is Some ==> is_known_tool(host, found->0, facts)
                && is_reached_from(host, search_roots(host, override_path, facts), found->0),
            Err(question) => match question {
                Question::Inspect(path) => is_reached_from(
                    host,
                    search_roots(host, override_path, facts),
                    path,
                ),
                Question::Canonicalize(path) => home_of(host) == Some(path) || is_reached_from(
                    host,
                    search_roots(host, override_path, facts),
                    path,
                ),
                Question::FindBundles => host.platform == Platform::MacOs && facts.bundles is None,
                Question::ValidateHome(_) => false,
            },
        },
{
    let roots = search_roots(host, override_path, facts);
    match override_path {
        Some(path) => {
            lemma_first_executable(host, bundle_executables(host.platform, path), 0, facts);
            assert(roots[0] == path);
            assert(roots.contains(path));
        },
        None => {
            let named = as_list(non_empty(host.codex_binary));
            if named.len() > 0 {
                let path = named[0];
                lemma_first_executable(host, bundle_executables(host.platform, path), 0, facts);
                assert(roots[0] == path);
                assert(roots.contains(path));
            }
            lemma_first_resolved(host, candidates_on_path(host, "codex"@), 0, facts);
            lemma_first_resolved(host, listed_bundles(host, facts), 0, facts);
            lemma_first_resolved(host, fallback_places(host), 0, facts);
            assert forall|path: Seq<u8>|
                is_reached_from(host, candidates_on_path(host, "codex"@), path) || is_reached_from(
                    host,
                    listed_bundles(host, facts),
                    path,
                ) || is_reached_from(
                    host,
                    fallback_places(host),
                    path,
                ) implies #[trigger] is_reached_from(host, roots, path) by {
                lemma_reached_from_roots(host, facts, path);
            }
        },
    }
}

/// An executable that the user asked for is used or the search ends: nothing else is
/// looked at.
pub proof fn law_chosen_binary_decides_alone(host: Host, path: Seq<u8>, facts: Facts)
    ensures
        binary_search(host, Some(path), facts) == overridden_binary(host, path, facts),
        binary_search(host, Some(path), facts) matches Ok((found, status)) ==> {
            &&& found is Some ==> status.state is Selected
            &&& found is None ==> status.state is Unsupported
            &&& resolved(host, path, facts) == Ok::<_, Question>(found)
        },
{
}

/// What `CODEX_BINARY` stands for precedes everything else that was not asked for, and
/// what `PATH` gives precedes bundles and fallback places.
pub proof fn law_binary_precedence(host: Host, path: Seq<u8>, facts: Facts)
    ensures
        named_binary(host, facts) == Ok::<_, Question>(Some(path)) ==> binary_search(
            host,
            None,
            facts,
        ) == detected_at(host, path, "Using CODEX_BINARY"@, facts),
        named_binary(host, facts) == Ok::<_, Question>(None::<Seq<u8>>) && found_on_path(
            host,
            "codex"@,
            facts,
        ) == Ok::<_, Question>(Some(path)) ==> binary_search(host, None, facts) == detected_at(
            host,
            path,
            "Found on PATH"@,
            facts,
        ),
{
}

/// A search ends with an executable just where its state says that one is in use.
pub proof fn law_state_tells_whether_a_binary_was_found(
    host: Host,
    override_path: Option<Seq<u8>>,
    facts: Facts,
)
    ensures
        binary_search(host, override_path, facts) matches Ok((found, status)) ==> (found is Some
            <==> status.state is Selected || status.state is AutoDetected),
{
}

/// The question that paths raise has no answer yet, and what they come to stays once
/// more is known.
proof fn lemma_executables_are_stable(
    host: Host,
    paths: Seq<Seq<u8>>,
    from: int,
    facts: Facts,
    later: Facts,
)
    requires
        facts.is_part_of(later),
    ensures
        first_executable(host, paths, from, facts) matches Err(question) ==> !facts.answers(
            question,
        ),
        first_executable(host, paths, from, facts) is Ok ==> first_executable(
            host,
            paths,
            from,
            later,
        ) == first_executable(host, paths, from, facts),
    decreases paths.len() - from,
{
    if from < paths.len() {
        lemma_executables_are_stable(host, paths, from + 1, facts, later);
    }
}

/// The question that paths raise has no answer yet, and what they stand for stays once
/// more is known.
proof fn lemma_resolution_is_stable(
    host: Host,
    paths: Seq<Seq<u8>>,
    from: int,
    facts: Facts,
    later: Facts,
)
    requires
        facts.is_part_of(later),
    ensures
        first_resolved(host, paths, from, facts) matches Err(question) ==> !facts.answers(
            question,
        ),
        first_resolved(host, paths, from, facts) is Ok ==> first_resolved(
            host,
            paths,
            from,
            later,
        ) == first_resolved(host, paths, from, facts),
    decreases paths.len() - from,
{
    if from < paths.len() {
        lemma_executables_are_stable(
            host,
            bundle_executables(host.platform, paths[from]),
            0,
            facts,
            later,
        );
        lemma_resolution_is_stable(host, paths, from + 1, facts, later);
    }
}

/// A search for the executable never asks again what it was told, and once it has come
/// to an outcome, knowing more does not change it.
pub proof fn law_binary_search_is_stable(
    host: Host,
    override_path: Option<Seq<u8>>,
    facts: Facts,
    later: Facts,
)
    requires
        facts.is_part_of(later),
    ensures
        binary_search(host, override_path, facts) matches Err(question) ==> !facts.answers(
            question,
        ),
        binary_search(host, override_path, facts) is Ok ==> binary_search(
            host,
            override_path,
            later,
        ) == binary_search(host, override_path, facts),
{
    assert forall|path: Seq<u8>|
        {
            &&& #[trigger] redact_on(host, path, facts) matches Err(question)
                ==> !facts.answers(question)
            &&& redact_on(host, path, facts) is Ok ==> redact_on(host, path, later) == redact_on(
                host,
                path,
                facts,
            )
        } by {
        law_redaction_is_stable(host, path, facts, later);
    }
    assert forall|path: Seq<u8>|
        {
            &&& #[trigger] resolved(host, path, facts) matches Err(question)
                ==> !facts.answers(question)
            &&& resolved(host, path, facts) is Ok ==> resolved(host, path, later) == resolved(
                host,
                path,
                facts,
            )
        } by {
        lemma_executables_are_stable(
            host,
            bundle_executables(host.platform, path),
            0,
            facts,
            later,
        );
    }
    lemma_resolution_is_stable(host, candidates_on_path(host, "codex"@), 0, facts, later);
    lemma_resolution_is_stable(host, fallback_places(host), 0, facts, later);
    if facts.bundles is Some {
        lemma_resolution_is_stable(
            host,
            bundled_candidates(host.platform, facts.bundles->0),
            0,
            facts,
            later,
        );
    }
}

/// The paths inside a bundle spell the tool's name after their last slash.
proof fn lemma_bundle_path(text: Seq<char>, bytes: Seq<u8>, cut: int)
    requires
        bytes == encode_utf8(text),
        is_ascii_chars(text),
        0 < cut,
        cut + 6 == text.len(),
        text[0] == 'C',
        text[cut] == '/',
        text[cut + 1] == 'c' || text[cut + 1] == 'C',
        text[cut + 2] == 'o',
        text[cut + 3] == 'd',
        text[cut + 4] == 'e',
        text[cut + 5] == 'x',
    ensures
        !physical_root(Platform::MacOs, bytes),
        file_name_of(Platform::MacOs, bytes) is Some,
        lower_bytes(file_name_of(Platform::MacOs, bytes)->0) == encode_utf8("codex"@),
{
    reveal_strlit("codex");
    is_ascii_chars_encode_utf8(text);
    is_ascii_chars_encode_utf8("codex"@);
    let front = bytes.take(cut);
    let name = bytes.skip(cut + 1);
    assert(bytes =~= front.push(SLASH) + name);
    assert(name.len() == 5);
    lemma_last_name(Platform::MacOs, front, name);
    assert(lower_bytes(name) =~= encode_utf8("codex"@));
}

/// Every path inside a bundle that is tried is named like the command line tool, so
/// that the bundle's own name is all that decides whether it is looked into.
pub proof fn law_bundles_hold_the_tool(host: Host, bundle: Seq<u8>, executable: Seq<u8>)
    requires
        host.platform == Platform::MacOs,
        bundle_executables(host.platform, bundle).contains(executable),
    ensures
        is_codex_name(host, executable),
{
    reveal_strlit("Contents/MacOS/codex");
    reveal_strlit("Contents/MacOS/Codex");
    reveal_strlit("Contents/Resources/codex");
    let plain = encode_utf8("Contents/MacOS/codex"@);
    let capital = encode_utf8("Contents/MacOS/Codex"@);
    let resource = encode_utf8("Contents/Resources/codex"@);
    lemma_bundle_path("Contents/MacOS/codex"@, plain, 14);
    lemma_bundle_path("Contents/MacOS/Codex"@, capital, 14);
    lemma_bundle_path("Contents/Resources/codex"@, resource, 18);
    law_join_keeps_the_file_name(host.platform, bundle, plain);
    law_join_keeps_the_file_name(host.platform, bundle, capital);
    law_join_keeps_the_file_name(host.platform, bundle, resource);
}

/// The executable that a search comes to is one of the paths that are listed as tried,
/// or lies in one of them as in a bundle.
pub proof fn law_found_binary_is_a_candidate(
    host: Host,
    override_path: Option<Seq<u8>>,
    facts: Facts,
)
    requires
        binary_candidates(host, override_path, facts) is Ok,
    ensures
        binary_search(host, override_path, facts) matches Ok((found, _)) ==> (found is Some
            ==> is_reached_from(
            host,
            binary_candidates(host, override_path, facts)->Ok_0,
            found->0,
        )),
{
    let tried = binary_candidates(host, override_path, facts)->Ok_0;
    if let Ok((Some(path), _)) = binary_search(host, override_path, facts) {
        match override_path {
            Some(chosen) => {
                law_only_the_tool_is_resolved(host, chosen, facts);
                assert(tried[0] == chosen);
            },
            None => {
                let named = as_list(non_empty(host.codex_binary));
                let on_path = as_list(found_on_path(host, "codex"@, facts)->Ok_0);
                let bundled = if host.platform == Platform::MacOs {
                    bundled_candidates(host.platform, facts.bundles->0)
                } else {
                    seq![]
                };
                let fallbacks = fallback_places(host);
                assert(tried =~= named + on_path + bundled + fallbacks);
                if named.len() > 0 {
                    law_only_the_tool_is_resolved(host, named[0], facts);
                    assert(tried[0] == named[0]);
                }
                if on_path.len() > 0 {
                    assert(tried[named.len() as int] == on_path[0]);
                }
                lemma_first_resolved(host, bundled, 0, facts);
                lemma_first_resolved(host, fallbacks, 0, facts);
                lemma_reached_from_part(
                    host,
                    bundled,
                    tried,
                    named.len() + on_path.len() as int,
                    path,
                );
                lemma_reached_from_part(
                    host,
                    fallbacks,
                    tried,
                    named.len() + on_path.len() + bundled.len() as int,
                    path,
                );
            },
        }
    }
}

/// Whether a path is the executable of a desktop app does not depend on the case of its
/// ASCII letters.
pub proof fn law_gui_binary_spelling(text: Seq<char>)
    ensures
        is_gui_binary_text(ascii_lower(text)) == is_gui_binary_text(text),
{
    assert(ascii_lower(ascii_lower(text)) =~= ascii_lower(text));
}

/// Whether a file name in lower case is one of the tool's two names.
pub open spec fn is_plain_tool_name(lower: Seq<u8>) -> bool {
    lower == encode_utf8("codex"@) || lower == encode_utf8("codex-cli"@)
}

/// Whether a file name in lower case is one of the tool's two names with an extension of
/// an executable that is no script.
pub open spec fn is_extended_tool_name(host: Host, lower: Seq<u8>, i: int) -> bool {
    let extensions = executable_extensions(host.path_extensions);
    &&& 0 <= i < extensions.len()
    &&& extensions[i] != ".bat"@ && extensions[i] != ".cmd"@
    &&& lower == encode_utf8("codex"@ + extensions[i]) || lower == encode_utf8(
        "codex-cli"@ + extensions[i],
    )
}

/// A path is named like the tool just where its file name is one of two names in any
/// case of the ASCII letters, or on Windows one of these with an executable's extension.
pub proof fn law_tool_names(host: Host, path: Seq<u8>)
    ensures
        file_name_of(host.platform, path) is None ==> !is_codex_name(host, path),
        file_name_of(host.platform, path) matches Some(name) ==> (is_codex_name(host, path) <==> {
            ||| is_plain_tool_name(lower_bytes(name))
            ||| host.platform == Platform::Windows && exists|i: int| #[trigger]
                is_extended_tool_name(host, lower_bytes(name), i)
        }),
{
    if let Some(name) = file_name_of(host.platform, path) {
        let lower = lower_bytes(name);
        let extensions = executable_extensions(host.path_extensions);
        if has_codex_stem(lower, extensions) {
            let i = choose|i: int|
                {
                    &&& 0 <= i < extensions.len()
                    &&& !is_script_extension(#[trigger] extensions[i])
                    &&& lower == encode_utf8("codex"@ + extensions[i]) || lower == encode_utf8(
                        "codex-cli"@ + extensions[i],
                    )
                };
            assert(is_extended_tool_name(host, lower, i));
        }
        if exists|i: int| #[trigger] is_extended_tool_name(host, lower, i) {
            let i = choose|i: int| #[trigger] is_extended_tool_name(host, lower, i);
            assert(!is_script_extension(extensions[i]));
        }
    }
}

/// Whether one of the three execute permissions is given: to the owner, the group or
/// others.
pub open spec fn has_execute_permission(mode: u32) -> bool {
    mode & 0x40 != 0 || mode & 0x08 != 0 || mode & 0x01 != 0
}

/// A file can be run where it is a regular file and, on Unix, someone may execute it, or
/// on Windows, its dotted extension in lower case is one of an executable and not of a
/// script. Nothing else can be run, nor can what is not known to exist.
pub proof fn law_what_can_be_run(host: Host, path: Seq<u8>, metadata: Option<FileMetadata>)
    ensures
        metadata is None ==> !is_executable(host, path, metadata),
        metadata matches Some(file) ==> (is_executable(host, path, metadata) <==> file.is_file
            && match host.platform {
            Platform::MacOs => has_execute_permission(file.mode),
            Platform::Unix => has_execute_permission(file.mode),
            Platform::Other => true,
            Platform::Windows => extension_of(host.platform, path) is Some && {
                let dotted = lower_bytes(seq![DOT] + extension_of(host.platform, path)->0);
                let extensions = executable_extensions(host.path_extensions);
                &&& dotted != encode_utf8(".bat"@) && dotted != encode_utf8(".cmd"@)
                &&& exists|i: int|
                    0 <= i < extensions.len() && dotted == encode_utf8(#[trigger] extensions[i])
            },
        }),
{
    if let Some(file) = metadata {
        let mode = file.mode;
        assert(mode & 0x49 != 0 <==> mode & 0x40 != 0 || mode & 0x08 != 0 || mode & 0x01 != 0)
            by (bit_vector);
    }
}

/// A path that is known to be a file with the tool's name that can be run stands for
/// itself; one of which nothing is known raises the question what it is.
pub proof fn law_the_tool_stands_for_itself(host: Host, path: Seq<u8>, facts: Facts)
    ensures
        facts.files.contains_key(path) && is_codex_name(host, path) && is_executable(
            host,
            path,
            facts.files[path],
        ) ==> resolved(host, path, facts) == Ok::<_, Question>(Some(path)),
        !facts.files.contains_key(path) ==> resolved(host, path, facts) == Err::<
            Option<Seq<u8>>,
            _,
        >(Question::Inspect(path)),
{
}

/// The places inside a bundle where the tool may lie, in the order in which they count.
pub open spec fn inside_bundle(bundle: Seq<u8>, i: int) -> Seq<u8> {
    join_of(
        Platform::MacOs,
        bundle,
        encode_utf8(
            if i == 0 {
                "Contents/MacOS/codex"@
            } else if i == 1 {
                "Contents/MacOS/Codex"@
            } else {
                "Contents/Resources/codex"@
            },
        ),
    )
}

/// Whether a path is known not to be a file that can be run, by its permissions.
pub open spec fn is_known_not_to_run(path: Seq<u8>, facts: Facts) -> bool {
    &&& facts.files.contains_key(path)
    &&& facts.files[path] matches Some(file) ==> !file.is_file || !has_execute_permission(
        file.mode,
    )
}

/// Whether a path is known to be a file that can be run, by its permissions.
pub open spec fn is_known_to_run(path: Seq<u8>, facts: Facts) -> bool {
    &&& facts.files.contains_key(path)
    &&& facts.files[path] is Some
    &&& facts.files[path]->0.is_file
    &&& has_execute_permission(facts.files[path]->0.mode)
}

/// On macOS a directory whose name is anything, a dot and `app`, in any case of the
/// ASCII letters, stands for the first of the three places inside it that is a file that
/// can be run; where none is, for nothing; and where one is not known yet and none before
/// it can be run, that one is asked about.
pub proof fn law_bundles_are_looked_into(
    host: Host,
    path: Seq<u8>,
    stem: Seq<u8>,
    extension: Seq<u8>,
    chosen: int,
    facts: Facts,
)
    requires
        host.platform == Platform::MacOs,
        file_name_of(host.platform, path) == Some(stem + seq![DOT] + extension),
        stem.len() > 0,
        lower_bytes(extension) == encode_utf8("app"@),
        facts.files.contains_key(path),
        facts.files[path] is Some,
        facts.files[path]->0.is_dir,
        0 <= chosen <= 3,
        forall|i: int|
            0 <= i < chosen ==> is_known_not_to_run(#[trigger] inside_bundle(path, i), facts),
    ensures
        chosen == 3 ==> resolved(host, path, facts) == Ok::<_, Question>(None::<Seq<u8>>),
        chosen < 3 && is_known_to_run(inside_bundle(path, chosen), facts) ==> resolved(
            host,
            path,
            facts,
        ) == Ok::<_, Question>(Some(inside_bundle(path, chosen))),
        chosen < 3 && !facts.files.contains_key(inside_bundle(path, chosen)) ==> resolved(
            host,
            path,
            facts,
        ) == Err::<Option<Seq<u8>>, _>(Question::Inspect(inside_bundle(path, chosen))),
{
    let inside = bundle_executables(host.platform, path);
    lemma_bundle_is_named(host, path, stem, extension);
    assert(inside[0] == inside_bundle(path, 0));
    assert(inside[1] == inside_bundle(path, 1));
    assert(inside[2] == inside_bundle(path, 2));
    law_bundles_hold_the_tool(host, path, inside[0]);
    law_bundles_hold_the_tool(host, path, inside[1]);
    law_bundles_hold_the_tool(host, path, inside[2]);
    assert forall|i: int|
        0 <= i < 3 && facts.files.contains_key(#[trigger] inside[i]) implies is_executable(
        host,
        inside[i],
        facts.files[inside[i]],
    ) == is_known_to_run(inside[i], facts) by {
        law_what_can_be_run(host, inside[i], facts.files[inside[i]]);
    }
    assert forall|i: int| 0 <= i < chosen implies is_known_not_to_run(
        #[trigger] inside[i],
        facts,
    ) by {
        assert(inside[i] == inside_bundle(path, i));
    }
    reveal_with_fuel(first_executable, 5);
}

/// What is named like a bundle is known as one, and is not named like the tool.
proof fn lemma_bundle_is_named(host: Host, path: Seq<u8>, stem: Seq<u8>, extension: Seq<u8>)
    requires
        host.platform == Platform::MacOs,
        file_name_of(host.platform, path) == Some(stem + seq![DOT] + extension),
        stem.len() > 0,
        lower_bytes(extension) == encode_utf8("app"@),
    ensures
        is_bundle_name(host.platform, path),
        !is_codex_name(host, path),
{
    let name = stem + seq![DOT] + extension;
    let lower = lower_bytes(name);
    reveal_strlit("app");
    reveal_strlit("codex");
    reveal_strlit("codex-cli");
    is_ascii_chars_encode_utf8("app"@);
    is_ascii_chars_encode_utf8("codex"@);
    is_ascii_chars_encode_utf8("codex-cli"@);
    assert(extension.len() == 3);
    assert forall|i: int| 0 <= i < 3 implies #[trigger] extension[i] != DOT by {
        assert(lower_bytes(extension)[i] == lower_byte(extension[i]));
    }
    assert(!extension.contains(DOT));
    law_extension(host.platform, path, name, stem, extension);
    assert(lower.len() == name.len());
    assert(lower[stem.len() as int] == DOT);
    if lower == encode_utf8("codex"@) {
        assert(encode_utf8("codex"@)[stem.len() as int] != DOT);
    }
    if lower == encode_utf8("codex-cli"@) {
        assert(encode_utf8("codex-cli"@)[stem.len() as int] != DOT);
    }
}

/// Off macOS no directory stands for anything, whatever it is called.
pub proof fn law_bundles_count_on_macos_alone(host: Host, path: Seq<u8>, facts: Facts)
    requires
        host.platform != Platform::MacOs,
        facts.files.contains_key(path),
        facts.files[path] matches Some(file) ==> !file.is_file,
    ensures
        resolved(host, path, facts) == Ok::<_, Question>(None::<Seq<u8>>),
{
}

/// The paths that a search turns to where the user chose nothing, in the order in which
/// they count: what `CODEX_BINARY` names, what `PATH` gives, on macOS what the bundles
/// hold, and the fallback places.
pub open spec fn turned_to(host: Host, facts: Facts) -> Seq<Seq<u8>> {
    let named = match host.codex_binary {
        Some(value) => if value@.len() > 0 {
            seq![value@]
        } else {
            Seq::empty()
        },
        None => Seq::empty(),
    };
    let bundled = if host.platform == Platform::MacOs && facts.bundles is Some {
        bundled_candidates(host.platform, facts.bundles->0)
    } else {
        Seq::empty()
    };
    named + candidates_on_path(host, "codex"@) + bundled + fallback_places(host)
}

/// What is said of an executable by its place among the paths that a search turns to.
pub open spec fn said_of(host: Host, facts: Facts, at: int) -> Seq<char> {
    let named: int = if host.codex_binary is Some && host.codex_binary->0@.len() > 0 {
        1
    } else {
        0
    };
    let on_path = named + candidates_on_path(host, "codex"@).len();
    let all = turned_to(host, facts).len();
    if at < named {
        "Using CODEX_BINARY"@
    } else if at < on_path {
        "Found on PATH"@
    } else if at < all - fallback_places(host).len() {
        "Found in a macOS app bundle"@
    } else {
        "Found at a platform fallback path"@
    }
}

/// Whether all paths before a position are known to stand for nothing.
pub open spec fn stand_for_nothing(
    host: Host,
    paths: Seq<Seq<u8>>,
    until: int,
    facts: Facts,
) -> bool {
    forall|i: int|
        0 <= i < until ==> resolved(host, #[trigger] paths[i], facts) == Ok::<_, Question>(
            None::<Seq<u8>>,
        )
}

/// The first of the paths that does not stand for nothing decides.
proof fn lemma_first_that_counts(
    host: Host,
    paths: Seq<Seq<u8>>,
    from: int,
    at: int,
    facts: Facts,
)
    requires
        0 <= from <= at <= paths.len(),
        stand_for_nothing(host, paths, at, facts),
        at < paths.len() ==> resolved(host, paths[at], facts) != Ok::<_, Question>(
            None::<Seq<u8>>,
        ),
    ensures
        first_resolved(host, paths, from, facts) == (if at < paths.len() {
            resolved(host, paths[at], facts)
        } else {
            Ok(None)
        }),
    decreases at - from,
{
    if from < at {
        assert(resolved(host, paths[from], facts) == Ok::<_, Question>(None::<Seq<u8>>));
        lemma_first_that_counts(host, paths, from + 1, at, facts);
    }
}

/// Paths that stand for nothing do so in every run of them.
proof fn lemma_run_stands_for_nothing(
    host: Host,
    paths: Seq<Seq<u8>>,
    until: int,
    run: Seq<Seq<u8>>,
    start: int,
    facts: Facts,
)
    requires
        stand_for_nothing(host, paths, until, facts),
        0 <= start,
        start + run.len() <= paths.len(),
        forall|i: int| 0 <= i < run.len() ==> #[trigger] run[i] == paths[start + i],
    ensures
        stand_for_nothing(
            host,
            run,
            if until - start < run.len() {
                until - start
            } else {
                run.len() as int
            },
            facts,
        ),
{
    let count = if until - start < run.len() {
        until - start
    } else {
        run.len() as int
    };
    assert forall|i: int| 0 <= i < count implies resolved(host, #[trigger] run[i], facts) == Ok::<
        _,
        Question,
    >(None::<Seq<u8>>) by {
        assert(run[i] == paths[start + i]);
    }
}

/// Where the user chose nothing, the search on every platform comes to what the first
/// path stands for that stands for anything, of all the paths that it turns to; what is
/// said of it follows from where it was found. While such a path is known, nothing is
/// reported missing.
pub proof fn law_the_first_that_resolves_is_found(
    host: Host,
    at: int,
    found: Seq<u8>,
    facts: Facts,
    location: Seq<char>,
)
    requires
        host.platform == Platform::MacOs ==> facts.bundles is Some,
        0 <= at < turned_to(host, facts).len(),
        stand_for_nothing(host, turned_to(host, facts), at, facts),
        resolved(host, turned_to(host, facts)[at], facts) == Ok::<_, Question>(Some(found)),
        redact_on(host, found, facts) == Ok::<_, Question>(location),
    ensures
        binary_search(host, None, facts) == Ok::<_, Question>(
            (
                Some(found),
                StatusView {
                    state: DiscoveryState::AutoDetected,
                    redacted_location: Some(location),
                    message: said_of(host, facts, at),
                },
            ),
        ),
{
    lemma_groups(host, at, facts);
}

/// Where none of the paths that a search turns to stands for anything, nothing is found:
/// what `CODEX_BINARY` names is reported, or where it names nothing, that nothing was
/// found.
pub proof fn law_nothing_is_found_where_nothing_resolves(
    host: Host,
    facts: Facts,
    location: Seq<char>,
)
    requires
        host.platform == Platform::MacOs ==> facts.bundles is Some,
        stand_for_nothing(
            host,
            turned_to(host, facts),
            turned_to(host, facts).len() as int,
            facts,
        ),
        host.codex_binary is Some && host.codex_binary->0@.len() > 0 ==> redact_on(
            host,
            host.codex_binary->0@,
            facts,
        ) == Ok::<_, Question>(location),
    ensures
        binary_search(host, None, facts) == Ok::<_, Question>(
            if host.codex_binary is Some && host.codex_binary->0@.len() > 0 {
                (
                    None::<Seq<u8>>,
                    StatusView {
                        state: DiscoveryState::Missing,
                        redacted_location: Some(location),
                        message: "CODEX_BINARY is not a valid executable Codex CLI"@,
                    },
                )
            } else {
                (
                    None,
                    StatusView {
                        state: DiscoveryState::Missing,
                        redacted_location: None,
                        message: "No executable Codex CLI found"@,
                    },
                )
            },
        ),
{
    lemma_groups(host, turned_to(host, facts).len() as int, facts);
}

/// Where one of the paths raises a question, and none before it stands for anything, that
/// is what is asked; and on macOS the bundles are asked for once nothing before them
/// stands for anything.
pub proof fn law_binaries_are_asked_about_in_order(
    host: Host,
    at: int,
    question: Question,
    facts: Facts,
)
    requires
        0 <= at < turned_to(host, facts).len(),
        stand_for_nothing(host, turned_to(host, facts), at, facts),
        resolved(host, turned_to(host, facts)[at], facts) == Err::<Option<Seq<u8>>, _>(question),
        host.platform == Platform::MacOs ==> facts.bundles is Some,
    ensures
        binary_search(host, None, facts) == Err::<(Option<Seq<u8>>, StatusView), _>(question),
{
    lemma_groups(host, at, facts);
}

/// On macOS the bundles are asked for once neither `CODEX_BINARY` nor `PATH` gives
/// anything.
pub proof fn law_bundles_are_asked_for(host: Host, facts: Facts)
    requires
        host.platform == Platform::MacOs,
        facts.bundles is None,
        host.codex_binary matches Some(value) ==> (value@.len() > 0 ==> resolved(
            host,
            value@,
            facts,
        ) == Ok::<_, Question>(None::<Seq<u8>>)),
        stand_for_nothing(
            host,
            candidates_on_path(host, "codex"@),
            candidates_on_path(host, "codex"@).len() as int,
            facts,
        ),
    ensures
        binary_search(host, None, facts) == Err::<(Option<Seq<u8>>, StatusView), _>(
            Question::FindBundles,
        ),
{
    let on_path = candidates_on_path(host, "codex"@);
    lemma_first_that_counts(host, on_path, 0, on_path.len() as int, facts);
}

/// What each group of paths comes to, where the paths before a position stand for
/// nothing and the one there stands for something or is the end.
proof fn lemma_groups(host: Host, at: int, facts: Facts)
    requires
        host.platform == Platform::MacOs ==> facts.bundles is Some,
        0 <= at <= turned_to(host, facts).len(),
        stand_for_nothing(host, turned_to(host, facts), at, facts),
        at < turned_to(host, facts).len() ==> resolved(host, turned_to(host, facts)[at], facts)
            != Ok::<_, Question>(None::<Seq<u8>>),
    ensures
        ({
            let all = turned_to(host, facts);
            let named: int = if host.codex_binary is Some && host.codex_binary->0@.len() > 0 {
                1
            } else {
                0
            };
            let on_path = candidates_on_path(host, "codex"@).len() as int;
            let last = all.len() - fallback_places(host).len();
            let nothing = Ok::<_, Question>(None::<Seq<u8>>);
            if at < named {
                named_binary(host, facts) == resolved(host, all[at], facts)
            } else {
                &&& named_binary(host, facts) == nothing
                &&& if at < named + on_path {
                    found_on_path(host, "codex"@, facts) == resolved(host, all[at], facts)
                } else {
                    &&& found_on_path(host, "codex"@, facts) == nothing
                    &&& if at < last {
                        found_in_bundles(host, facts) == resolved(host, all[at], facts)
                    } else {
                        &&& found_in_bundles(host, facts) == nothing
                        &&& first_resolved(host, fallback_places(host), 0, facts) == (if at
                            < all.len() {
                            resolved(host, all[at], facts)
                        } else {
                            nothing
                        })
                    }
                }
            }
        }),
{
    let all = turned_to(host, facts);
    let named = as_list(non_empty(host.codex_binary));
    let on_path = candidates_on_path(host, "codex"@);
    let bundled = if host.platform == Platform::MacOs && facts.bundles is Some {
        bundled_candidates(host.platform, facts.bundles->0)
    } else {
        Seq::empty()
    };
    let fallbacks = fallback_places(host);
    assert(all =~= named + on_path + bundled + fallbacks);
    lemma_one_after_the_other(host, named, on_path, bundled, fallbacks, at, facts);
    if named.len() > 0 {
        assert(named =~= seq![named[0]]);
        assert(first_resolved(host, named, 0, facts) == named_binary(host, facts)) by {
            reveal_with_fuel(first_resolved, 3);
        }
    }
    assert(first_resolved(host, Seq::<Seq<u8>>::empty(), 0, facts) == Ok::<_, Question>(
        None::<Seq<u8>>,
    ));
}

/// What runs of paths come to, one after the other.
proof fn lemma_one_after_the_other(
    host: Host,
    first: Seq<Seq<u8>>,
    second: Seq<Seq<u8>>,
    third: Seq<Seq<u8>>,
    fourth: Seq<Seq<u8>>,
    at: int,
    facts: Facts,
)
    requires
        ({
            let all = first + second + third + fourth;
            &&& 0 <= at <= all.len()
            &&& stand_for_nothing(host, all, at, facts)
            &&& at < all.len() ==> resolved(host, all[at], facts) != Ok::<_, Question>(
                None::<Seq<u8>>,
            )
        }),
    ensures
        ({
            let all = first + second + third + fourth;
            let nothing = Ok::<_, Question>(None::<Seq<u8>>);
            let here = if at < all.len() {
                resolved(host, all[at], facts)
            } else {
                nothing
            };
            let (one, two, three) = (
                first.len(),
                first.len() + second.len(),
                first.len() + second.len() + third.len(),
            );
            &&& at < one ==> first_resolved(host, first, 0, facts) == here
            &&& one <= at ==> first_resolved(host, first, 0, facts) == nothing
            &&& one <= at < two ==> first_resolved(host, second, 0, facts) == here
            &&& two <= at ==> first_resolved(host, second, 0, facts) == nothing
            &&& two <= at < three ==> first_resolved(host, third, 0, facts) == here
            &&& three <= at ==> first_resolved(host, third, 0, facts) == nothing
            &&& three <= at ==> first_resolved(host, fourth, 0, facts) == here
        }),
{
    let all = first + second + third + fourth;
    let two = first.len() + second.len() as int;
    let three = two + third.len();
    lemma_run(host, all, first, 0, at, facts);
    lemma_run(host, all, second, first.len() as int, at, facts);
    lemma_run(host, all, third, two, at, facts);
    lemma_run(host, all, fourth, three, at, facts);
}

/// What one run of the paths comes to.
proof fn lemma_run(
    host: Host,
    all: Seq<Seq<u8>>,
    run: Seq<Seq<u8>>,
    start: int,
    at: int,
    facts: Facts,
)
    requires
        0 <= start,
        start + run.len() <= all.len(),
        forall|i: int| 0 <= i < run.len() ==> #[trigger] run[i] == all[start + i],
        0 <= at <= all.len(),
        stand_for_nothing(host, all, at, facts),
        at < all.len() ==> resolved(host, all[at], facts) != Ok::<_, Question>(None::<Seq<u8>>),
    ensures
        start <= at < start + run.len() ==> first_resolved(host, run, 0, facts) == resolved(
            host,
            all[at],
            facts,
        ),
        start + run.len() <= at ==> first_resolved(host, run, 0, facts) == Ok::<_, Question>(
            None::<Seq<u8>>,
        ),
{
    if start <= at {
        lemma_run_stands_for_nothing(host, all, at, run, start, facts);
        if at < start + run.len() {
            assert(run[at - start] == all[at]);
            lemma_first_that_counts(host, run, 0, at - start, facts);
        } else {
            lemma_first_that_counts(host, run, 0, run.len() as int, facts);
        }
    }
}

/// An executable that the user chose is used where it stands for the tool, and rejected
/// else; nothing but the choice counts.
pub proof fn law_what_a_chosen_binary_comes_to(
    host: Host,
    path: Seq<u8>,
    facts: Facts,
    location: Seq<char>,
)
    ensures
        resolved(host, path, facts) matches Err(question) ==> binary_search(
            host,
            Some(path),
            facts,
        ) == Err::<(Option<Seq<u8>>, StatusView), _>(question),
        resolved(host, path, facts) matches Ok(Some(found)) ==> (redact_on(host, found, facts)
            == Ok::<_, Question>(location) ==> binary_search(host, Some(path), facts) == Ok::<
            _,
            Question,
        >(
            (
                Some(found),
                StatusView {
                    state: DiscoveryState::Selected,
                    redacted_location: Some(location),
                    message: "Selected"@,
                },
            ),
        )),
        resolved(host, path, facts) == Ok::<_, Question>(None::<Seq<u8>>) && redact_on(
            host,
            path,
            facts,
        ) == Ok::<_, Question>(location) ==> binary_search(host, Some(path), facts) == Ok::<
            _,
            Question,
        >(
            (
                None::<Seq<u8>>,
                StatusView {
                    state: DiscoveryState::Unsupported,
                    redacted_location: Some(location),
                    message: "Selected item is not an executable Codex CLI or macOS app bundle"@,
                },
            ),
        ),
{
}

/// The location that is reported is what may be shown of the executable that was found,
/// or else of what was asked for; without either, none is reported.
pub proof fn law_reported_binary(host: Host, override_path: Option<Seq<u8>>, facts: Facts)
    ensures
        binary_search(host, override_path, facts) matches Ok((found, status)) ==> {
            let asked_for = match (override_path, host.codex_binary) {
                (Some(path), _) => Some(path),
                (None, Some(value)) => if value@.len() > 0 {
                    Some(value@)
                } else {
                    None
                },
                (None, None) => None,
            };
            match (found, asked_for) {
                (Some(path), _) => status.redacted_location is Some && redact_on(host, path, facts)
                    == Ok::<_, Question>(status.redacted_location->0),
                (None, Some(path)) => status.redacted_location is Some && redact_on(
                    host,
                    path,
                    facts,
                ) == Ok::<_, Question>(status.redacted_location->0),
                (None, None) => status.redacted_location is None,
            }
        },
{
}

/// Where an installer may have put the executable on each platform, in the order in
/// which it is looked for.
pub proof fn law_fallback_places(host: Host)
    ensures
        ({
            let platform = host.platform;
            let home = home_of(host);
            let places = fallback_places(host);
            match platform {
                Platform::MacOs => places == place(platform, home, ".local/bin/codex"@) + place(
                    platform,
                    home,
                    "Library/Application Support/Codex/bin/codex"@,
                ) + place(platform, home, "Applications/ChatGPT.app"@) + place(
                    platform,
                    home,
                    "Applications/Codex.app"@,
                ) + seq![
                    encode_utf8("/Applications/ChatGPT.app"@),
                    encode_utf8("/Applications/Codex.app"@),
                    encode_utf8("/usr/local/bin/codex"@),
                    encode_utf8("/opt/homebrew/bin/codex"@),
                ],
                Platform::Windows => places == place(
                    platform,
                    value_of(host.program_files),
                    "Codex/codex.exe"@,
                ) + place(platform, value_of(host.local_app_data), "Programs/Codex/codex.exe"@),
                Platform::Unix | Platform::Other => places.len() == 0,
            }
        }),
{
}

/// Off Windows a command is looked for under its own name in each directory of `PATH`,
/// in order.
pub proof fn law_path_candidates_off_windows(
    host: Host,
    command: Seq<char>,
    directories: Vec<NativePath>,
)
    requires
        host.platform != Platform::Windows,
        host.search_path == Some(directories),
    ensures
        candidates_on_path(host, command).len() == directories@.len(),
        forall|i: int|
            0 <= i < directories@.len() ==> #[trigger] candidates_on_path(host, command)[i]
                == join_of(host.platform, directories@[i]@, encode_utf8(command)),
{
    lemma_plain_candidates(host, path_bytes(directories@), command);
}

/// Off Windows each directory gives one candidate.
proof fn lemma_plain_candidates(host: Host, directories: Seq<Seq<u8>>, command: Seq<char>)
    requires
        host.platform != Platform::Windows,
    ensures
        candidates_among(host, directories, command).len() == directories.len(),
        forall|i: int|
            0 <= i < directories.len() ==> #[trigger] candidates_among(
                host,
                directories,
                command,
            )[i] == join_of(host.platform, directories[i], encode_utf8(command)),
    decreases directories.len(),
{
    if directories.len() > 0 {
        lemma_plain_candidates(host, directories.drop_last(), command);
        let all = candidates_among(host, directories, command);
        let before = candidates_among(host, directories.drop_last(), command);
        assert forall|i: int| 0 <= i < directories.len() implies #[trigger] all[i] == join_of(
            host.platform,
            directories[i],
            encode_utf8(command),
        ) by {
            if i < directories.len() - 1 {
                assert(all[i] == before[i]);
                assert(directories.drop_last()[i] == directories[i]);
            }
        }
    }
}

/// On Windows a command is looked for in each directory of `PATH`, in order, under its
/// own name and then, where it has no extension, with each extension of an executable.
/// Without `PATH` it is looked for nowhere.
pub proof fn law_path_candidates_on_windows(
    host: Host,
    directories: Seq<Seq<u8>>,
    last: Seq<u8>,
    command: Seq<char>,
    i: int,
)
    requires
        host.platform == Platform::Windows,
    ensures
        host.search_path is None ==> candidates_on_path(host, command).len() == 0,
        candidates_among(host, Seq::empty(), command).len() == 0,
        ({
            let windows = Platform::Windows;
            let extensions = executable_extensions(host.path_extensions);
            let before = candidates_among(host, directories, command);
            let all = candidates_among(host, directories.push(last), command);
            &&& all.len() > before.len()
            &&& all.take(before.len() as int) == before
            &&& all[before.len() as int] == join_of(windows, last, encode_utf8(command))
            &&& if extension_of(windows, encode_utf8(command)) is Some {
                all.len() == before.len() + 1
            } else {
                &&& all.len() == before.len() + 1 + extensions.len()
                &&& 0 <= i < extensions.len() ==> all[before.len() + 1 + i] == join_of(
                    windows,
                    last,
                    encode_utf8(command + extensions[i]),
                )
            }
        }),
{
    let before = candidates_among(host, directories, command);
    let all = candidates_among(host, directories.push(last), command);
    assert(directories.push(last).drop_last() =~= directories);
    assert(all == before + candidates_in(host, last, command));
    assert(all.take(before.len() as int) =~= before);
}

/// What `PATH` lists is where a command is looked for.
pub proof fn law_search_path(host: Host, directories: Vec<NativePath>, command: Seq<char>)
    requires
        host.search_path == Some(directories),
    ensures
        candidates_on_path(host, command) == candidates_among(
            host,
            path_bytes(directories@),
            command,
        ),
{
}

/// A line feed at the end of a text begins no line, and any other text after a line feed
/// is a line.
pub proof fn law_lines(text: Seq<char>, line: Seq<char>)
    requires
        line.len() > 0,
        !line.contains('\n'),
    ensures
        text_lines(Seq::empty()).len() == 0,
        text_lines(line) == seq![line],
        text_lines(line.push('\n')) == seq![line],
        text_lines(text.push('\n') + line) == text_lines(text.push('\n')).push(line),
        text_lines(text.push('\n') + line.push('\n')) == text_lines(text.push('\n')).push(line),
        text_lines(text.push('\n').push('\n')) == text_lines(text.push('\n')).push(Seq::empty()),
{
    let empty = Seq::<char>::empty();
    let broken = text.push('\n');
    let before = split_text(text, '\n');
    lemma_split_nonempty(text, '\n');
    assert(broken.drop_last() =~= text);
    assert(split_text(broken, '\n') == before.push(seq![]));
    assert(text_lines(broken) =~= before);
    lemma_split_line(broken, before, line);
    assert((broken + line).push('\n') =~= broken + line.push('\n'));
    assert((broken + line).push('\n').drop_last() =~= broken + line);
    assert(split_text(broken + line.push('\n'), '\n') == before.push(line).push(seq![]));
    assert(before.push(line).push(seq![]).drop_last() =~= before.push(line));
    assert(broken.push('\n').drop_last() =~= broken);
    assert(split_text(broken.push('\n'), '\n') == before.push(seq![]).push(seq![]));
    assert(before.push(seq![]).push(seq![]).drop_last() =~= before.push(seq![]));
    let none = Seq::<Seq<char>>::empty();
    assert(split_text(empty, '\n') =~= none.push(seq![]));
    lemma_split_line(empty, none, line);
    assert(empty + line =~= line);
    assert(none.push(line) =~= seq![line]);
    assert(line.push('\n').drop_last() =~= line);
    assert(split_text(line.push('\n'), '\n') == seq![line].push(seq![]));
    assert(seq![line].push(seq![]).drop_last() =~= seq![line]);
}

/// What follows the last line feed is one piece.
proof fn lemma_split_line(text: Seq<char>, before: Seq<Seq<char>>, line: Seq<char>)
    requires
        split_text(text, '\n') == before.push(seq![]),
        !line.contains('\n'),
    ensures
        split_text(text + line, '\n') == before.push(line),
    decreases line.len(),
{
    if line.len() == 0 {
        assert(text + line =~= text);
        assert(line =~= seq![]);
    } else {
        let front = line.drop_last();
        assert(!front.contains('\n')) by {
            if front.contains('\n') {
                let i = choose|i: int| 0 <= i < front.len() && front[i] == '\n';
                assert(line[i] == '\n');
            }
        }
        lemma_split_line(text, before, front);
        assert((text + line).drop_last() =~= text + front);
        assert((text + line).last() == line.last());
        assert(line.contains(line[line.len() - 1]));
        assert(before.push(front).drop_last() =~= before);
        assert(front.push(line.last()) =~= line);
    }
}

/// Each line of the output of the system's search names a bundle, white space at its
/// ends left out, and gives the three places inside that bundle, in order.
pub proof fn law_listed_bundles(
    output: Seq<u8>,
    lines: Seq<Seq<char>>,
    last: Seq<char>,
)
    ensures
        bundled_candidates(Platform::MacOs, output) == line_executables(
            Platform::MacOs,
            text_lines(lossy_text(output)),
        ),
        line_executables(Platform::MacOs, Seq::empty()).len() == 0,
        line_executables(Platform::MacOs, lines.push(last)) == line_executables(
            Platform::MacOs,
            lines,
        ) + seq![
            inside_bundle(encode_utf8(trim_space(last)), 0),
            inside_bundle(encode_utf8(trim_space(last)), 1),
            inside_bundle(encode_utf8(trim_space(last)), 2),
        ],
{
    assert(lines.push(last).drop_last() =~= lines);
}

/// The paths that are listed as tried: the chosen one alone, or what `CODEX_BINARY`
/// names, what `PATH` gives, on macOS what the bundles hold, and the fallback places.
pub proof fn law_listed_binaries(host: Host, path: Seq<u8>, facts: Facts)
    ensures
        binary_candidates(host, Some(path), facts) == Ok::<_, Question>(seq![path]),
        found_on_path(host, "codex"@, facts) matches Ok(on_path) ==> (host.platform
            != Platform::MacOs || facts.bundles is Some ==> binary_candidates(host, None, facts)
            == Ok::<_, Question>(
            (match value_of(host.codex_binary) {
                Some(named) => seq![named],
                None => Seq::empty(),
            }) + (match on_path {
                Some(tool) => seq![tool],
                None => Seq::empty(),
            }) + (if host.platform == Platform::MacOs {
                bundled_candidates(host.platform, facts.bundles->0)
            } else {
                Seq::empty()
            }) + fallback_places(host),
        )),
{
    if let Ok(on_path) = found_on_path(host, "codex"@, facts) {
        let named = as_list(non_empty(host.codex_binary)) + as_list(on_path);
        assert(named + Seq::<Seq<u8>>::empty() =~= named);
    }
}

/// What `PATH` gives for a command is what the first of the candidates stands for that
/// stands for anything.
pub proof fn law_found_on_path(host: Host, command: Seq<char>, at: int, facts: Facts)
    requires
        0 <= at <= candidates_on_path(host, command).len(),
        stand_for_nothing(host, candidates_on_path(host, command), at, facts),
        at < candidates_on_path(host, command).len() ==> resolved(
            host,
            candidates_on_path(host, command)[at],
            facts,
        ) != Ok::<_, Question>(None::<Seq<u8>>),
    ensures
        found_on_path(host, command, facts) == (if at < candidates_on_path(host, command).len() {
            resolved(host, candidates_on_path(host, command)[at], facts)
        } else {
            Ok(None)
        }),
{
    lemma_first_that_counts(host, candidates_on_path(host, command), 0, at, facts);
}

/// Whether a text in lower case names the executable of a desktop app.
pub open spec fn is_desktop_binary(place: Seq<char>) -> bool {
    ||| place == "/chatgpt.app/contents/resources/codex"@
    ||| place == "/codex.app/contents/resources/codex"@
}

/// A path is the executable of a desktop app just where it ends in one of two places, in
/// any case of the ASCII letters.
pub proof fn law_desktop_binaries(front: Seq<char>, place: Seq<char>, text: Seq<char>)
    ensures
        is_desktop_binary(ascii_lower(place)) ==> is_gui_binary_text(front + place),
        is_gui_binary_text(text) ==> exists|start: int|
            0 <= start <= text.len() && is_desktop_binary(#[trigger] ascii_lower(text.skip(start))),
{
    let whole = ascii_lower(front + place);
    let lower = ascii_lower(place);
    assert(whole =~= ascii_lower(front) + lower);
    assert(whole.subrange(whole.len() - lower.len(), whole.len() as int) =~= lower);
    let comparable = ascii_lower(text);
    if is_gui_binary_text(text) {
        let found = if "/chatgpt.app/contents/resources/codex"@.is_suffix_of(comparable) {
            "/chatgpt.app/contents/resources/codex"@
        } else {
            "/codex.app/contents/resources/codex"@
        };
        let start = comparable.len() - found.len();
        assert(ascii_lower(text.skip(start)) =~= comparable.subrange(
            start,
            comparable.len() as int,
        ));
        assert(is_desktop_binary(ascii_lower(text.skip(start))));
    }
}

} // verus!
