//! The machine that discovery runs on: its platform and its environment variables.

use crate::path::{join_of, maybe_bytes, path_text, NativePath, Platform};
use crate::text::{
    ascii_lower, blank, is_blank, lowercase, split, split_text, texts_of, trim, trim_space,
};
use vstd::prelude::*;

verus! {

/// The platform and the values of the environment variables that discovery reads;
/// `None` stands for a variable that is not set.
pub struct Host {
    pub platform: Platform,
    /// `HOME`.
    pub home: Option<NativePath>,
    /// `USERPROFILE`.
    pub user_profile: Option<NativePath>,
    /// `HOMEDRIVE`.
    pub home_drive: Option<NativePath>,
    /// `HOMEPATH`.
    pub home_path: Option<NativePath>,
    /// `CODEX_HOME`.
    pub codex_home: Option<NativePath>,
    /// `CODEX_BINARY`.
    pub codex_binary: Option<NativePath>,
    /// `APPDATA`.
    pub app_data: Option<NativePath>,
    /// `LOCALAPPDATA`.
    pub local_app_data: Option<NativePath>,
    /// `ProgramFiles`.
    pub program_files: Option<NativePath>,
    /// The directories that `PATH` lists.
    pub search_path: Option<Vec<NativePath>>,
    /// `PATHEXT`.
    pub path_extensions: Option<NativePath>,
}

impl Host {
    /// A machine with no environment variable set.
    pub fn bare(platform: Platform) -> (host: Host)
        ensures
            host == (Host {
                platform,
                home: None,
                user_profile: None,
                home_drive: None,
                home_path: None,
                codex_home: None,
                codex_binary: None,
                app_data: None,
                local_app_data: None,
                program_files: None,
                search_path: None,
                path_extensions: None,
            }),
    {
        Host {
            platform,
            home: None,
            user_profile: None,
            home_drive: None,
            home_path: None,
            codex_home: None,
            codex_binary: None,
            app_data: None,
            local_app_data: None,
            program_files: None,
            search_path: None,
            path_extensions: None,
        }
    }
}

/// The user's home directory as the environment gives it. On Windows the native
/// profile comes before the drive and path, and those before `HOME`.
pub open spec fn home_from_values(
    platform: Platform,
    user_profile: Option<Seq<u8>>,
    home_drive: Option<Seq<u8>>,
    home_path: Option<Seq<u8>>,
    home: Option<Seq<u8>>,
) -> Option<Seq<u8>> {
    if platform == Platform::Windows && user_profile is Some {
        user_profile
    } else if platform == Platform::Windows && home_drive is Some && home_path is Some {
        Some(join_of(platform, home_drive->0, home_path->0))
    } else {
        home
    }
}

/// The user's home directory on a machine.
pub open spec fn home_of(host: Host) -> Option<Seq<u8>> {
    home_from_values(
        host.platform,
        maybe_bytes(host.user_profile),
        maybe_bytes(host.home_drive),
        maybe_bytes(host.home_path),
        maybe_bytes(host.home),
    )
}

/// The value of a variable, where it is set to something.
pub open spec fn non_empty(value: Option<NativePath>) -> Option<Seq<u8>> {
    match value {
        Some(path) => if path@.len() > 0 {
            Some(path@)
        } else {
            None
        },
        None => None,
    }
}

/// One entry of `PATHEXT` in its comparable form, with its dot and in lower case.
pub open spec fn extension_entry(entry: Seq<char>) -> Option<Seq<char>> {
    let lower = ascii_lower(trim_space(entry));
    if lower.len() == 0 {
        None
    } else if lower[0] == '.' {
        Some(lower)
    } else {
        Some(seq!['.'] + lower)
    }
}

/// The comparable forms of the entries that name an extension, in order.
pub open spec fn extension_entries(entries: Seq<Seq<char>>) -> Seq<Seq<char>>
    decreases entries.len(),
{
    if entries.len() == 0 {
        seq![]
    } else {
        let before = extension_entries(entries.drop_last());
        match extension_entry(entries.last()) {
            Some(extension) => before.push(extension),
            None => before,
        }
    }
}

/// The text that lists the executable extensions: `PATHEXT`, unless it is blank.
pub open spec fn extension_source(value: Option<NativePath>) -> Seq<char> {
    match value {
        Some(path) => if is_blank(path_text(Platform::Windows, path@)) {
            ".COM;.EXE;.BAT;.CMD"@
        } else {
            path_text(Platform::Windows, path@)
        },
        None => ".COM;.EXE;.BAT;.CMD"@,
    }
}

/// The extensions of executable files on Windows.
pub open spec fn executable_extensions(value: Option<NativePath>) -> Seq<Seq<char>> {
    extension_entries(split_text(extension_source(value), ';'))
}

/// A second copy of an optional path.
fn copy_path(path: Option<&NativePath>) -> (copy: Option<NativePath>)
    ensures
        match path {
            Some(path) => maybe_bytes(copy) == Some(path@),
            None => copy is None,
        },
{
    match path {
        Some(path) => Some(path.to_path_buf()),
        None => None,
    }
}

/// The bytes of an optional reference to a path.
pub open spec fn ref_bytes(path: Option<&NativePath>) -> Option<Seq<u8>> {
    match path {
        Some(path) => Some(path@),
        None => None,
    }
}

/// The user's home directory as the given values of the environment give it.
pub fn home_dir_from_values(
    platform: Platform,
    user_profile: Option<&NativePath>,
    home_drive: Option<&NativePath>,
    home_path: Option<&NativePath>,
    home: Option<&NativePath>,
) -> (directory: Option<NativePath>)
    ensures
        maybe_bytes(directory) == home_from_values(
            platform,
            ref_bytes(user_profile),
            ref_bytes(home_drive),
            ref_bytes(home_path),
            ref_bytes(home),
        ),
{
    if platform == Platform::Windows {
        if let Some(profile) = user_profile {
            return Some(profile.to_path_buf());
        }
        if let Some(drive) = home_drive {
            if let Some(path) = home_path {
                return Some(drive.join(platform, path.bytes.as_slice()));
            }
        }
    }
    copy_path(home)
}

/// The user's home directory. On Windows a Unix-style `HOME` never overrides the
/// native profile.
pub fn home_dir(host: &Host) -> (directory: Option<NativePath>)
    ensures
        maybe_bytes(directory) == home_of(*host),
{
    home_dir_from_values(
        host.platform,
        host.user_profile.as_ref(),
        host.home_drive.as_ref(),
        host.home_path.as_ref(),
        host.home.as_ref(),
    )
}

/// The value of a variable as a path, where it is set to something.
pub fn non_empty_env_path(value: &Option<NativePath>) -> (path: Option<NativePath>)
    ensures
        maybe_bytes(path) == non_empty(*value),
{
    match value {
        Some(path) => if path.bytes.len() > 0 {
            Some(path.to_path_buf())
        } else {
            None
        },
        None => None,
    }
}

/// The extensions of executable files on Windows, each with its dot and in lower case.
pub fn windows_executable_extensions(value: &Option<NativePath>) -> (extensions: Vec<String>)
    ensures
        texts_of(extensions@) == executable_extensions(*value),
{
    let listed = match value {
        Some(path) => path.to_string_lossy(Platform::Windows),
        None => String::new(),
    };
    let source = if blank(listed.as_str()) {
        ".COM;.EXE;.BAT;.CMD".to_owned()
    } else {
        listed
    };
    assert(source@ == extension_source(*value));
    let entries = split(source.as_str(), ';');
    let ghost entries_view = texts_of(entries@);
    let mut extensions: Vec<String> = Vec::new();
    assert(texts_of(extensions@) == extension_entries(entries_view.take(0)));
    for i in 0..entries.len()
        invariant
            entries_view == texts_of(entries@),
            texts_of(extensions@) == extension_entries(entries_view.take(i as int)),
    {
        let ghost before = texts_of(extensions@);
        let trimmed = trim(entries[i].as_str());
        let lower = lowercase(trimmed.as_str());
        proof {
            assert(entries_view.take(i + 1).drop_last() == entries_view.take(i as int));
            assert(entries_view.take(i + 1).last() == entries@[i as int]@);
        }
        if !lower.as_str().is_empty() {
            let extension = if lower.as_str().get_char(0) == '.' {
                lower
            } else {
                let mut dotted = String::new();
                dotted.push('.');
                dotted.append(lower.as_str());
                assert(dotted@ == seq!['.'] + lower@);
                dotted
            };
            extensions.push(extension);
            assert(texts_of(extensions@) == before.push(extension@));
        }
    }
    assert(entries_view.take(entries_view.len() as int) == entries_view);
    extensions
}

/// On Windows, `HOME` counts only where the native variables give no home; elsewhere
/// the native variables never count.
pub proof fn law_home_precedence(
    platform: Platform,
    user_profile: Option<Seq<u8>>,
    home_drive: Option<Seq<u8>>,
    home_path: Option<Seq<u8>>,
    home: Option<Seq<u8>>,
    other_home: Option<Seq<u8>>,
)
    ensures
        platform != Platform::Windows ==> home_from_values(
            platform,
            user_profile,
            home_drive,
            home_path,
            home,
        ) == home,
        platform == Platform::Windows && (user_profile is Some || (home_drive is Some
            && home_path is Some)) ==> home_from_values(
            platform,
            user_profile,
            home_drive,
            home_path,
            home,
        ) == home_from_values(platform, user_profile, home_drive, home_path, other_home),
{
}

/// The user's home on a machine: on Windows the profile, else drive and path put
/// together where both are set, else `HOME`; elsewhere `HOME` alone.
pub proof fn law_home_on_a_machine(host: Host)
    ensures
        host.platform != Platform::Windows ==> home_of(host) == maybe_bytes(host.home),
        host.platform == Platform::Windows ==> home_of(host) == (match (
            host.user_profile,
            host.home_drive,
            host.home_path,
        ) {
            (Some(profile), _, _) => Some(profile@),
            (None, Some(drive), Some(path)) => Some(join_of(Platform::Windows, drive@, path@)),
            _ => maybe_bytes(host.home),
        }),
{
}

/// Where `PATHEXT` is not set or blank, it counts as the usual list; else it is read
/// piece by piece, parted by semicolons. A piece of white space is no extension; any
/// other is one in lower case, with a dot put in front where it has none.
pub proof fn law_executable_extensions(
    value: NativePath,
    entries: Seq<Seq<char>>,
    entry: Seq<char>,
)
    ensures
        executable_extensions(None) == extension_entries(
            split_text(".COM;.EXE;.BAT;.CMD"@, ';'),
        ),
        is_blank(path_text(Platform::Windows, value@)) ==> executable_extensions(Some(value))
            == executable_extensions(None),
        !is_blank(path_text(Platform::Windows, value@)) ==> executable_extensions(Some(value))
            == extension_entries(split_text(path_text(Platform::Windows, value@), ';')),
        extension_entries(Seq::empty()).len() == 0,
        ({
            let lower = ascii_lower(trim_space(entry));
            let before = extension_entries(entries);
            extension_entries(entries.push(entry)) == (if lower.len() == 0 {
                before
            } else if lower[0] == '.' {
                before.push(lower)
            } else {
                before.push(seq!['.'] + lower)
            })
        }),
{
    assert(entries.push(entry).drop_last() =~= entries);
}

} // verus!
