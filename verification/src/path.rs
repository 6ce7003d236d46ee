//! Native file system paths and their lexical structure.
//!
//! A path is the operating system's own byte string: arbitrary bytes on Unix, the
//! platform's superset of UTF-8 on Windows. Everything in this module reads the
//! bytes alone and never touches the disk.

use crate::bytes::{byte_strings, lower_bytes, lowered, push_bytes, same_bytes, sub_bytes};
use crate::text::{lossy_text, utf8_lossy};
use vstd::prelude::*;
use vstd::utf8::{
    encode_scalar, encode_utf8, encode_utf8_decode_utf8, encode_utf8_valid_utf8,
    has_width_1_encoding, has_width_2_encoding, has_width_3_encoding, has_width_4_encoding,
    last_continuation_byte, leading_byte_width_1, leading_byte_width_2, leading_byte_width_3,
    leading_byte_width_4, second_last_continuation_byte, third_last_continuation_byte,
};

verus! {

/// `/`.
pub const SLASH: u8 = 0x2f;

/// `\`.
pub const BACKSLASH: u8 = 0x5c;

/// `.`.
pub const DOT: u8 = 0x2e;

/// `:`.
pub const COLON: u8 = 0x3a;

/// `?`.
pub const QUESTION_MARK: u8 = 0x3f;

/// The operating system family whose conventions apply.
#[derive(Debug, Clone, Copy, PartialEq, Eq, Structural)]
pub enum Platform {
    /// macOS, a Unix with application bundles.
    MacOs,
    /// Windows.
    Windows,
    /// Any other Unix.
    Unix,
    /// A system that is neither Unix nor Windows.
    Other,
}

/// A path as the operating system spells it.
#[derive(Debug, PartialEq, Eq)]
pub struct NativePath {
    pub bytes: Vec<u8>,
}

impl View for NativePath {
    type V = Seq<u8>;

    open spec fn view(&self) -> Seq<u8> {
        self.bytes@
    }
}

impl NativePath {
    /// The path whose bytes are `bytes`.
    pub fn new(bytes: Vec<u8>) -> (path: NativePath)
        ensures
            path@ == bytes@,
    {
        NativePath { bytes }
    }

    /// The path that the text spells.
    pub fn from_text(text: &str) -> (path: NativePath)
        ensures
            path@ == encode_utf8(text@),
    {
        let source = text.as_bytes();
        NativePath { bytes: sub_bytes(source, 0, source.len()) }
    }

    /// A second copy of the path.
    pub fn to_path_buf(&self) -> (copy: NativePath)
        ensures
            copy@ == self@,
    {
        NativePath { bytes: sub_bytes(self.bytes.as_slice(), 0, self.bytes.len()) }
    }
}

/// The paths that a vector holds, each by its bytes.
pub open spec fn path_bytes(paths: Seq<NativePath>) -> Seq<Seq<u8>> {
    paths.map_values(|path: NativePath| path@)
}

/// The path that an option holds, by its bytes.
pub open spec fn maybe_bytes(path: Option<NativePath>) -> Option<Seq<u8>> {
    match path {
        Some(path) => Some(path@),
        None => None,
    }
}

/// The bytes of a Windows path with every unpaired surrogate, which a Windows file
/// name can hold, turned into the encoding of the replacement character.
pub open spec fn without_surrogates(bytes: Seq<u8>) -> Seq<u8>
    decreases bytes.len(),
{
    if bytes.len() == 0 {
        seq![]
    } else if bytes.len() >= 3 && bytes[0] == 0xed && bytes[1] >= 0xa0 {
        seq![0xefu8, 0xbfu8, 0xbdu8] + without_surrogates(bytes.skip(3))
    } else {
        seq![bytes[0]] + without_surrogates(bytes.skip(1))
    }
}

/// The text of a path, with whatever is not text replaced.
pub open spec fn path_text(platform: Platform, path: Seq<u8>) -> Seq<char> {
    if platform == Platform::Windows {
        lossy_text(without_surrogates(path))
    } else {
        lossy_text(path)
    }
}

/// The bytes of a Windows path with every unpaired surrogate replaced.
fn replace_surrogates(bytes: &[u8]) -> (replaced: Vec<u8>)
    ensures
        replaced@ == without_surrogates(bytes@),
{
    let mut replaced: Vec<u8> = Vec::new();
    let mut at: usize = 0;
    assert(bytes@.skip(0) == bytes@);
    while at < bytes.len()
        invariant
            at <= bytes@.len(),
            replaced@ + without_surrogates(bytes@.skip(at as int)) == without_surrogates(bytes@),
        decreases bytes@.len() - at,
    {
        let ghost rest = bytes@.skip(at as int);
        let ghost before = replaced@;
        if bytes.len() - at >= 3 && bytes[at] == 0xed && bytes[at + 1] >= 0xa0 {
            replaced.push(0xef);
            replaced.push(0xbf);
            replaced.push(0xbd);
            at += 3;
            assert(rest.skip(3) == bytes@.skip(at as int));
            assert(replaced@ == before + seq![0xefu8, 0xbfu8, 0xbdu8]);
        } else {
            replaced.push(bytes[at]);
            at += 1;
            assert(rest.skip(1) == bytes@.skip(at as int));
            assert(replaced@ == before + seq![rest[0]]);
        }
    }
    assert(bytes@.skip(at as int).len() == 0);
    replaced
}

impl NativePath {
    /// The text of the path, with whatever is not text replaced.
    pub fn to_string_lossy(&self, platform: Platform) -> (text: String)
        ensures
            text@ == path_text(platform, self@),
    {
        if platform == Platform::Windows {
            let bytes = replace_surrogates(self.bytes.as_slice());
            utf8_lossy(bytes.as_slice())
        } else {
            utf8_lossy(self.bytes.as_slice())
        }
    }
}

/// Which bytes part one name of a path from the next.
#[derive(Debug, Clone, Copy, PartialEq, Eq, Structural)]
pub enum Separators {
    /// `/` alone.
    Slash,
    /// `\` alone.
    Backslash,
    /// Either of the two.
    Either,
}

impl Separators {
    /// Whether the byte is a separator.
    pub open spec fn holds(self, byte: u8) -> bool {
        match self {
            Separators::Slash => byte == SLASH,
            Separators::Backslash => byte == BACKSLASH,
            Separators::Either => byte == SLASH || byte == BACKSLASH,
        }
    }

    /// Whether the byte is a separator.
    pub fn contains(self, byte: u8) -> (yes: bool)
        ensures
            yes == self.holds(byte),
    {
        match self {
            Separators::Slash => byte == SLASH,
            Separators::Backslash => byte == BACKSLASH,
            Separators::Either => byte == SLASH || byte == BACKSLASH,
        }
    }
}

/// The separators of ordinary paths on a platform.
pub open spec fn native_separators(platform: Platform) -> Separators {
    if platform == Platform::Windows {
        Separators::Either
    } else {
        Separators::Slash
    }
}

/// The position of the first separator at or after `from`, or the length.
pub open spec fn next_separator(path: Seq<u8>, from: int, separators: Separators) -> int
    decreases path.len() - from,
{
    if from >= path.len() {
        path.len() as int
    } else if separators.holds(path[from]) {
        from
    } else {
        next_separator(path, from + 1, separators)
    }
}

/// The kinds of prefix that a Windows path can start with.
#[derive(Debug, Clone, Copy, PartialEq, Eq, Structural)]
pub enum PrefixKind {
    /// No prefix; every path off Windows.
    Absent,
    /// A drive, `C:`.
    Drive,
    /// A share on a server, `\\server\share`.
    Network,
    /// A device, `\\.\COM42`.
    Device,
    /// A verbatim name, `\\?\name`.
    Verbatim,
    /// A verbatim share, `\\?\UNC\server\share`.
    VerbatimNetwork,
    /// A verbatim drive, `\\?\C:`.
    VerbatimDrive,
}

impl PrefixKind {
    /// Whether the rest of the path is to be read literally.
    pub open spec fn is_verbatim(self) -> bool {
        self is Verbatim || self is VerbatimNetwork || self is VerbatimDrive
    }
}

/// A path's prefix: its kind, and how many bytes it takes.
#[derive(Debug, Clone, Copy, PartialEq, Eq, Structural)]
pub struct Prefix {
    pub kind: PrefixKind,
    pub len: usize,
}

/// Whether the two bytes at `at` are a drive letter and a colon.
pub open spec fn drive_at(path: Seq<u8>, at: int) -> bool {
    &&& at + 2 <= path.len()
    &&& 0x41 <= path[at] <= 0x5a || 0x61 <= path[at] <= 0x7a
    &&& path[at + 1] == COLON
}

/// The end of the run of bytes after the separator at `at`, or the length.
pub open spec fn run_after(path: Seq<u8>, at: int, separators: Separators) -> int {
    if at < path.len() {
        next_separator(path, at + 1, separators)
    } else {
        path.len() as int
    }
}

/// Whether a Windows path opens with `\\?\`.
pub open spec fn verbatim_opening(path: Seq<u8>) -> bool {
    &&& path.len() >= 4
    &&& path[0] == BACKSLASH
    &&& path[1] == BACKSLASH
    &&& path[2] == QUESTION_MARK
    &&& path[3] == BACKSLASH
}

/// The prefix of a path that opens with `\\?\`.
pub open spec fn verbatim_prefix(path: Seq<u8>) -> (PrefixKind, int) {
    if path.len() >= 8 && path[4] == 0x55 && path[5] == 0x4e && path[6] == 0x43
        && Separators::Either.holds(path[7]) {
        let server = next_separator(path, 8, Separators::Backslash);
        let share = run_after(path, server, Separators::Backslash);
        (PrefixKind::VerbatimNetwork, if share > server + 1 { share } else { server })
    } else if drive_at(path, 4) && (path.len() == 6 || Separators::Either.holds(path[6])) {
        (PrefixKind::VerbatimDrive, 6)
    } else {
        (PrefixKind::Verbatim, next_separator(path, 4, Separators::Backslash))
    }
}

/// The prefix of a Windows path.
pub open spec fn windows_prefix(path: Seq<u8>) -> (PrefixKind, int) {
    let either = Separators::Either;
    if path.len() >= 2 && either.holds(path[0]) && either.holds(path[1]) {
        if verbatim_opening(path) {
            verbatim_prefix(path)
        } else if path.len() >= 4 && path[2] == DOT && either.holds(path[3]) {
            (PrefixKind::Device, next_separator(path, 4, either))
        } else {
            let server = next_separator(path, 2, either);
            let share = run_after(path, server, either);
            if server > 2 && share > server + 1 {
                (PrefixKind::Network, share)
            } else {
                (PrefixKind::Absent, 0)
            }
        }
    } else if drive_at(path, 0) {
        (PrefixKind::Drive, 2)
    } else {
        (PrefixKind::Absent, 0)
    }
}

/// The prefix of a path: its kind and its length.
pub open spec fn prefix_of(platform: Platform, path: Seq<u8>) -> (PrefixKind, int) {
    if platform == Platform::Windows {
        windows_prefix(path)
    } else {
        (PrefixKind::Absent, 0)
    }
}

/// How many bytes a verbatim share spends before its server, `\\?\UNC\`.
pub const SERVER_START: usize = 8;

/// What a prefix is compared by: drive letters in any case and either separator
/// are the same, unless the prefix is verbatim; a verbatim share goes by its server
/// and its name alone.
pub open spec fn prefix_key(kind: PrefixKind, prefix: Seq<u8>) -> Seq<u8> {
    match kind {
        PrefixKind::Drive | PrefixKind::VerbatimDrive => lower_bytes(prefix),
        PrefixKind::Network | PrefixKind::Device => prefix.map_values(
            |byte: u8|
                if byte == SLASH {
                    BACKSLASH
                } else {
                    byte
                },
        ),
        PrefixKind::VerbatimNetwork if prefix.len() > SERVER_START => prefix.skip(
            SERVER_START as int,
        ),
        PrefixKind::VerbatimNetwork => seq![],
        _ => prefix,
    }
}

/// The names from position `from` on: empty runs are dropped, and so are the `.`
/// names unless `keep_dots`.
pub open spec fn names_from(
    path: Seq<u8>,
    from: int,
    separators: Separators,
    keep_dots: bool,
) -> Seq<Seq<u8>>
    decreases path.len() - from,
{
    if from >= path.len() {
        seq![]
    } else {
        proof {
            lemma_next_separator(path, from, separators);
        }
        let end = next_separator(path, from, separators);
        let name = path.subrange(from, end);
        let rest = if end < path.len() {
            names_from(path, end + 1, separators, keep_dots)
        } else {
            seq![]
        };
        if name.len() == 0 || (!keep_dots && name == seq![DOT]) {
            rest
        } else {
            seq![name] + rest
        }
    }
}

/// The separator that was found lies at or after where the search began.
pub proof fn lemma_next_separator(path: Seq<u8>, from: int, separators: Separators)
    ensures
        from <= path.len() ==> from <= next_separator(path, from, separators) <= path.len(),
        from >= path.len() ==> next_separator(path, from, separators) == path.len(),
    decreases path.len() - from,
{
    if from < path.len() && !separators.holds(path[from]) {
        lemma_next_separator(path, from + 1, separators);
    }
}

/// Whether the path, past its prefix, starts with a separator.
pub open spec fn physical_root(platform: Platform, path: Seq<u8>) -> bool {
    let start = prefix_of(platform, path).1;
    start < path.len() && native_separators(platform).holds(path[start])
}

/// Whether the path's first name is `.`, with nothing before it.
pub open spec fn leading_dot(platform: Platform, path: Seq<u8>) -> bool {
    &&& path.len() > 0
    &&& path[0] == DOT
    &&& path.len() == 1 || native_separators(platform).holds(path[1])
}

/// The names of a path, in order. Repeated separators, a trailing separator and
/// `.` names leave no trace, except that a leading `.` stays.
pub open spec fn names_of(platform: Platform, path: Seq<u8>) -> Seq<Seq<u8>> {
    let (kind, len) = prefix_of(platform, path);
    let rooted = physical_root(platform, path);
    let separators = if kind.is_verbatim() {
        Separators::Backslash
    } else {
        native_separators(platform)
    };
    let start = if rooted {
        len + 1
    } else {
        len
    };
    let names = names_from(path, start, separators, kind.is_verbatim());
    if kind is Absent && leading_dot(platform, path) {
        seq![seq![DOT]] + names
    } else {
        names
    }
}

/// What two spellings of one path have in common.
#[verifier::ext_equal]
pub struct PathParts {
    pub kind: PrefixKind,
    pub prefix: Seq<u8>,
    pub rooted: bool,
    pub names: Seq<Seq<u8>>,
}

/// The parts of a path.
pub open spec fn parts_of(platform: Platform, path: Seq<u8>) -> PathParts {
    let (kind, len) = prefix_of(platform, path);
    PathParts {
        kind,
        prefix: prefix_key(kind, path.take(len)),
        rooted: physical_root(platform, path) || kind is Network || kind is Device,
        names: names_of(platform, path),
    }
}

/// Whether two paths start from the same root, or both from none.
pub open spec fn same_root(platform: Platform, left: Seq<u8>, right: Seq<u8>) -> bool {
    let (here, there) = (parts_of(platform, left), parts_of(platform, right));
    here.kind == there.kind && here.prefix == there.prefix && here.rooted == there.rooted
}

/// Whether two byte strings spell the same path.
pub open spec fn same_path(platform: Platform, left: Seq<u8>, right: Seq<u8>) -> bool {
    parts_of(platform, left) == parts_of(platform, right)
}

/// Whether one of the paths is a spelling of `path`.
pub open spec fn holds_path(platform: Platform, paths: Seq<Seq<u8>>, path: Seq<u8>) -> bool {
    exists|i: int| 0 <= i < paths.len() && same_path(platform, #[trigger] paths[i], path)
}

/// Whether no two of the paths are spellings of one.
pub open spec fn are_distinct(platform: Platform, paths: Seq<Seq<u8>>) -> bool {
    forall|i: int, j: int|
        0 <= i < j < paths.len() ==> !same_path(platform, #[trigger] paths[i], #[trigger] paths[j])
}

/// Whether a name is an ordinary one, neither `.` nor `..`.
pub open spec fn is_normal(name: Seq<u8>) -> bool {
    name != seq![DOT] && name != seq![DOT, DOT]
}

/// The names after one more name has been followed: `.` leads nowhere and `..` leads
/// back, out of a root nowhere and out of where a relative path starts further up.
pub open spec fn follow_name(names: Seq<Seq<u8>>, name: Seq<u8>, rooted: bool) -> Seq<Seq<u8>> {
    if name == seq![DOT] {
        names
    } else if name == seq![DOT, DOT] {
        if names.len() > 0 && is_normal(names.last()) {
            names.drop_last()
        } else if rooted {
            names
        } else {
            names.push(name)
        }
    } else {
        names.push(name)
    }
}

/// Where the names lead, followed in order.
pub open spec fn follow_names(names: Seq<Seq<u8>>, rooted: bool) -> Seq<Seq<u8>>
    decreases names.len(),
{
    if names.len() == 0 {
        seq![]
    } else {
        follow_name(follow_names(names.drop_last(), rooted), names.last(), rooted)
    }
}

/// Where a path leads from its root, or from where it starts, as far as its names tell.
pub open spec fn followed(platform: Platform, path: Seq<u8>) -> Seq<Seq<u8>> {
    follow_names(names_of(platform, path), parts_of(platform, path).rooted)
}

/// Whether names lead to where the names of `base` lead, or further down from there.
pub open spec fn is_below(names: Seq<Seq<u8>>, base: Seq<Seq<u8>>) -> bool {
    &&& base.is_prefix_of(names)
    &&& names.len() > base.len() ==> names[base.len() as int] != seq![DOT, DOT]
}

/// Whether a path leads to the directory `base` or to something in it, as far as the
/// two paths tell.
pub open spec fn lies_under(platform: Platform, path: Seq<u8>, base: Seq<u8>) -> bool {
    same_root(platform, path, base) && is_below(followed(platform, path), followed(platform, base))
}

/// Whether a Windows path whose text goes on after that of `base` still has its root
/// where `base` has ended: `base` is a bare server, a bare separator or a bare drive.
pub open spec fn ends_within_root(path: Seq<u8>, base: Seq<u8>) -> bool {
    let windows = Platform::Windows;
    let (whole, part) = (parts_of(windows, path), parts_of(windows, base));
    ||| part.kind is Absent && !(whole.kind is Absent)
    ||| part.kind is Drive && whole.kind is Drive && !part.rooted && whole.rooted
}

/// The last name of a path, if it is an ordinary one.
pub open spec fn file_name_of(platform: Platform, path: Seq<u8>) -> Option<Seq<u8>> {
    let names = names_of(platform, path);
    if names.len() > 0 && is_normal(names.last()) {
        Some(names.last())
    } else {
        None
    }
}

/// The position of the last dot, or a negative number.
pub open spec fn last_dot(name: Seq<u8>) -> int
    decreases name.len(),
{
    if name.len() == 0 {
        -1
    } else if name.last() == DOT {
        name.len() - 1
    } else {
        last_dot(name.drop_last())
    }
}

/// What follows the last dot of the file name, unless the name has no dot or has
/// its only one in front.
pub open spec fn extension_of(platform: Platform, path: Seq<u8>) -> Option<Seq<u8>> {
    match file_name_of(platform, path) {
        Some(name) => if last_dot(name) > 0 {
            Some(name.skip(last_dot(name) + 1))
        } else {
            None
        },
        None => None,
    }
}

/// The names after one more name of a joined path has been taken in: `.` changes
/// nothing and `..` takes back an ordinary name.
pub open spec fn take_name(names: Seq<Seq<u8>>, name: Seq<u8>) -> Seq<Seq<u8>> {
    if name == seq![DOT] {
        names
    } else if name == seq![DOT, DOT] {
        if names.len() > 0 && is_normal(names.last()) {
            names.drop_last()
        } else {
            names
        }
    } else {
        names.push(name)
    }
}

/// The names after all of `more` have been taken in, in order.
pub open spec fn take_names(names: Seq<Seq<u8>>, more: Seq<Seq<u8>>) -> Seq<Seq<u8>>
    decreases more.len(),
{
    if more.len() == 0 {
        names
    } else {
        take_name(take_names(names, more.drop_last()), more.last())
    }
}

/// The names, each with a backslash in front.
pub open spec fn spell_names(names: Seq<Seq<u8>>) -> Seq<u8>
    decreases names.len(),
{
    if names.len() == 0 {
        seq![]
    } else {
        spell_names(names.drop_last()).push(BACKSLASH) + names.last()
    }
}

/// A relative path joined to a verbatim one, with its `.` and `..` resolved.
pub open spec fn verbatim_join(base: Seq<u8>, relative: Seq<u8>) -> Seq<u8> {
    let windows = Platform::Windows;
    let prefix = base.take(prefix_of(windows, base).1);
    let reset = physical_root(windows, relative);
    let start = if reset {
        seq![]
    } else {
        names_of(windows, base)
    };
    let names = take_names(start, names_of(windows, relative));
    if names.len() == 0 && (reset || physical_root(windows, base)) {
        prefix.push(BACKSLASH)
    } else {
        prefix + spell_names(names)
    }
}

/// The byte that joins two paths on a platform.
pub open spec fn main_separator(platform: Platform) -> u8 {
    if platform == Platform::Windows {
        BACKSLASH
    } else {
        SLASH
    }
}

/// `relative` taken relative to `base`. A path with a prefix of its own, or off
/// Windows with a root of its own, stands for itself; on Windows a path with a root
/// keeps only the prefix of `base`.
pub open spec fn join_of(platform: Platform, base: Seq<u8>, relative: Seq<u8>) -> Seq<u8> {
    let (kind, len) = prefix_of(platform, base);
    let rooted = physical_root(platform, relative);
    if !(prefix_of(platform, relative).0 is Absent) || (platform != Platform::Windows && rooted) {
        relative
    } else if kind.is_verbatim() && relative.len() > 0 {
        verbatim_join(base, relative)
    } else if rooted {
        base.take(len) + relative
    } else if base.len() > 0 && !native_separators(platform).holds(base.last()) && !(kind is Drive
        && len == base.len()) {
        base.push(main_separator(platform)) + relative
    } else {
        base + relative
    }
}

/// The position of the first separator at or after `from`, or the length.
fn find_separator(path: &[u8], from: usize, separators: Separators) -> (at: usize)
    requires
        from <= path@.len(),
    ensures
        at == next_separator(path@, from as int, separators),
        from <= at <= path@.len(),
{
    let mut at: usize = from;
    while at < path.len() && !separators.contains(path[at])
        invariant
            from <= at <= path@.len(),
            next_separator(path@, from as int, separators) == next_separator(
                path@,
                at as int,
                separators,
            ),
        decreases path@.len() - at,
    {
        at += 1;
    }
    at
}

/// The end of the run of bytes after the separator at `at`, or the length.
fn find_run(path: &[u8], at: usize, separators: Separators) -> (end: usize)
    requires
        at <= path@.len(),
    ensures
        end == run_after(path@, at as int, separators),
        at <= end <= path@.len(),
{
    if at < path.len() {
        find_separator(path, at + 1, separators)
    } else {
        path.len()
    }
}

/// Whether the two bytes at `at` are a drive letter and a colon.
fn has_drive(path: &[u8], at: usize) -> (yes: bool)
    requires
        at <= path@.len(),
    ensures
        yes == drive_at(path@, at as int),
{
    if path.len() - at < 2 {
        return false;
    }
    let letter = path[at];
    (0x41 <= letter && letter <= 0x5a || 0x61 <= letter && letter <= 0x7a) && path[at + 1] == COLON
}

/// The prefix of a path that opens with `\\?\`.
fn parse_verbatim(path: &[u8]) -> (prefix: Prefix)
    requires
        verbatim_opening(path@),
    ensures
        (prefix.kind, prefix.len as int) == verbatim_prefix(path@),
        prefix.len <= path@.len(),
{
    let either = Separators::Either;
    let backslash = Separators::Backslash;
    if path.len() >= 8 && path[4] == 0x55 && path[5] == 0x4e && path[6] == 0x43 && either.contains(
        path[7],
    ) {
        let server = find_separator(path, 8, backslash);
        let share = find_run(path, server, backslash);
        let len: usize = if share - server > 1 {
            share
        } else {
            server
        };
        Prefix { kind: PrefixKind::VerbatimNetwork, len }
    } else if has_drive(path, 4) && (path.len() == 6 || either.contains(path[6])) {
        Prefix { kind: PrefixKind::VerbatimDrive, len: 6 }
    } else {
        Prefix { kind: PrefixKind::Verbatim, len: find_separator(path, 4, backslash) }
    }
}

/// The prefix of a path: its kind and its length.
pub fn path_prefix(platform: Platform, path: &[u8]) -> (prefix: Prefix)
    ensures
        (prefix.kind, prefix.len as int) == prefix_of(platform, path@),
        prefix.len <= path@.len(),
{
    let either = Separators::Either;
    let absent = Prefix { kind: PrefixKind::Absent, len: 0 };
    if platform != Platform::Windows {
        return absent;
    }
    if path.len() >= 2 && either.contains(path[0]) && either.contains(path[1]) {
        if path.len() >= 4 && path[0] == BACKSLASH && path[1] == BACKSLASH && path[2]
            == QUESTION_MARK && path[3] == BACKSLASH {
            parse_verbatim(path)
        } else if path.len() >= 4 && path[2] == DOT && either.contains(path[3]) {
            Prefix { kind: PrefixKind::Device, len: find_separator(path, 4, either) }
        } else {
            let server = find_separator(path, 2, either);
            let share = find_run(path, server, either);
            if server > 2 && share - server > 1 {
                Prefix { kind: PrefixKind::Network, len: share }
            } else {
                absent
            }
        }
    } else if has_drive(path, 0) {
        Prefix { kind: PrefixKind::Drive, len: 2 }
    } else {
        absent
    }
}

/// Whether the kind reads the rest of the path literally.
fn reads_verbatim(kind: PrefixKind) -> (yes: bool)
    ensures
        yes == kind.is_verbatim(),
{
    match kind {
        PrefixKind::Verbatim | PrefixKind::VerbatimNetwork | PrefixKind::VerbatimDrive => true,
        _ => false,
    }
}

/// The separators of ordinary paths on a platform.
fn separators_on(platform: Platform) -> (separators: Separators)
    ensures
        separators == native_separators(platform),
{
    if platform == Platform::Windows {
        Separators::Either
    } else {
        Separators::Slash
    }
}

/// Whether the path, past its prefix, starts with a separator.
fn has_root(platform: Platform, path: &[u8]) -> (yes: bool)
    ensures
        yes == physical_root(platform, path@),
{
    let prefix = path_prefix(platform, path);
    prefix.len < path.len() && separators_on(platform).contains(path[prefix.len])
}

/// The names of a path, in order.
pub fn path_names(platform: Platform, path: &[u8]) -> (names: Vec<Vec<u8>>)
    ensures
        byte_strings(names@) == names_of(platform, path@),
{
    let prefix = path_prefix(platform, path);
    let native = separators_on(platform);
    let keep_dots = reads_verbatim(prefix.kind);
    let separators = if keep_dots {
        Separators::Backslash
    } else {
        native
    };
    let mut names: Vec<Vec<u8>> = Vec::new();
    if prefix.kind == PrefixKind::Absent && path.len() > 0 && path[0] == DOT && (path.len() == 1
        || native.contains(path[1])) {
        let dot: Vec<u8> = vec![DOT];
        assert(dot@ == seq![DOT]);
        names.push(dot);
        assert(byte_strings(names@) == seq![seq![DOT]]);
    } else {
        assert(byte_strings(names@) == Seq::<Seq<u8>>::empty());
    }
    let mut from: usize = if prefix.len < path.len() && native.contains(path[prefix.len]) {
        prefix.len + 1
    } else {
        prefix.len
    };
    assert(byte_strings(names@) + names_from(path@, from as int, separators, keep_dots)
        == names_of(platform, path@));
    while from < path.len()
        invariant
            from <= path@.len(),
            byte_strings(names@) + names_from(path@, from as int, separators, keep_dots)
                == names_of(platform, path@),
        decreases path@.len() - from,
    {
        let end = find_separator(path, from, separators);
        let name = sub_bytes(path, from, end);
        let ghost before = byte_strings(names@);
        let ghost rest = if end < path@.len() {
            names_from(path@, end + 1, separators, keep_dots)
        } else {
            seq![]
        };
        if name.len() == 0 || (!keep_dots && name.len() == 1 && name[0] == DOT) {
            assert(name@.len() == 0 || name@ == seq![DOT]);
        } else {
            assert(name@ != seq![DOT] || keep_dots);
            names.push(name);
            assert(byte_strings(names@) == before.push(name@));
            assert(before.push(name@) + rest == before + (seq![name@] + rest));
        }
        from = if end < path.len() {
            end + 1
        } else {
            end
        };
    }
    assert(byte_strings(names@) + Seq::<Seq<u8>>::empty() == byte_strings(names@));
    names
}

/// Whether a name is an ordinary one, neither `.` nor `..`.
fn normal_name(name: &[u8]) -> (yes: bool)
    ensures
        yes == is_normal(name@),
{
    proof {
        assert(name@.len() == 1 && name@[0] == DOT ==> name@ == seq![DOT]);
        assert(name@.len() == 2 && name@[0] == DOT && name@[1] == DOT ==> name@ == seq![DOT, DOT]);
    }
    !(name.len() == 1 && name[0] == DOT) && !(name.len() == 2 && name[0] == DOT && name[1] == DOT)
}

impl NativePath {
    /// The last name of the path, if it is an ordinary one.
    pub fn file_name(&self, platform: Platform) -> (name: Option<Vec<u8>>)
        ensures
            match name {
                Some(name) => file_name_of(platform, self@) == Some(name@),
                None => file_name_of(platform, self@) is None,
            },
    {
        let mut names = path_names(platform, self.bytes.as_slice());
        proof {
            assert(byte_strings(names@).len() == names@.len());
            if names@.len() > 0 {
                assert(byte_strings(names@).last() == names@.last()@);
            }
        }
        match names.pop() {
            Some(name) => if normal_name(name.as_slice()) {
                Some(name)
            } else {
                None
            },
            None => None,
        }
    }

    /// What follows the last dot of the file name, unless the name has no dot or has
    /// its only one in front.
    pub fn extension(&self, platform: Platform) -> (extension: Option<Vec<u8>>)
        ensures
            match extension {
                Some(extension) => extension_of(platform, self@) == Some(extension@),
                None => extension_of(platform, self@) is None,
            },
    {
        let name = match self.file_name(platform) {
            Some(name) => name,
            None => {
                return None;
            },
        };
        let mut end: usize = name.len();
        assert(name@.take(end as int) == name@);
        while end > 0
            invariant_except_break
                end <= name@.len(),
                last_dot(name@.take(end as int)) == last_dot(name@),
            ensures
                end <= name@.len(),
                last_dot(name@) == end - 1,
            decreases end,
        {
            assert(name@.take(end as int).drop_last() == name@.take(end - 1));
            if name[end - 1] == DOT {
                break;
            }
            end -= 1;
        }
        if end > 1 {
            assert(name@.skip(end as int) == name@.subrange(end as int, name@.len() as int));
            Some(sub_bytes(name.as_slice(), end, name.len()))
        } else {
            None
        }
    }
}

/// The path that `relative` names when taken relative to a verbatim `base`.
fn join_verbatim(base: &[u8], relative: &[u8]) -> (joined: Vec<u8>)
    ensures
        joined@ == verbatim_join(base@, relative@),
{
    let windows = Platform::Windows;
    let prefix = path_prefix(windows, base);
    let reset = has_root(windows, relative);
    let mut names: Vec<Vec<u8>> = if reset {
        Vec::new()
    } else {
        path_names(windows, base)
    };
    let ghost start = byte_strings(names@);
    assert(reset ==> start == Seq::<Seq<u8>>::empty());
    let more = path_names(windows, relative);
    let ghost more_view = byte_strings(more@);
    for i in 0..more.len()
        invariant
            more_view == byte_strings(more@),
            byte_strings(names@) == take_names(start, more_view.take(i as int)),
    {
        let name = sub_bytes(more[i].as_slice(), 0, more[i].len());
        let ghost before = byte_strings(names@);
        proof {
            assert(more_view.take(i + 1).drop_last() == more_view.take(i as int));
            assert(more_view.take(i + 1).last() == name@);
            assert(name@.len() == 1 && name@[0] == DOT ==> name@ == seq![DOT]);
            assert(name@.len() == 2 && name@[0] == DOT && name@[1] == DOT ==> name@
                == seq![DOT, DOT]);
        }
        if name.len() == 1 && name[0] == DOT {
        } else if name.len() == 2 && name[0] == DOT && name[1] == DOT {
            let last = names.len();
            if last > 0 && normal_name(names[last - 1].as_slice()) {
                assert(before.last() == names@[last - 1]@);
                let _ = names.pop();
                assert(byte_strings(names@) == before.drop_last());
            } else {
                assert(last > 0 ==> before.last() == names@[last - 1]@);
            }
        } else {
            names.push(name);
            assert(byte_strings(names@) == before.push(name@));
        }
    }
    assert(more_view.take(more_view.len() as int) == more_view);
    let mut joined = sub_bytes(base, 0, prefix.len);
    assert(joined@ == base@.take(prefix.len as int));
    if names.len() == 0 && (reset || has_root(windows, base)) {
        joined.push(BACKSLASH);
        return joined;
    }
    let ghost spelled = byte_strings(names@);
    for i in 0..names.len()
        invariant
            spelled == byte_strings(names@),
            joined@ == base@.take(prefix.len as int) + spell_names(spelled.take(i as int)),
    {
        joined.push(BACKSLASH);
        push_bytes(&mut joined, names[i].as_slice());
        proof {
            assert(spelled.take(i + 1).drop_last() == spelled.take(i as int));
            assert(spelled.take(i + 1).last() == names@[i as int]@);
        }
    }
    assert(spelled.take(spelled.len() as int) == spelled);
    joined
}

/// What a prefix is compared by.
fn comparable_prefix(kind: PrefixKind, prefix: &[u8]) -> (key: Vec<u8>)
    ensures
        key@ == prefix_key(kind, prefix@),
{
    match kind {
        PrefixKind::Drive | PrefixKind::VerbatimDrive => lowered(prefix),
        PrefixKind::Network | PrefixKind::Device => {
            let mut key: Vec<u8> = Vec::new();
            for i in 0..prefix.len()
                invariant
                    kind is Network || kind is Device,
                    key@ == prefix_key(kind, prefix@.take(i as int)),
            {
                let byte = prefix[i];
                key.push(
                    if byte == SLASH {
                        BACKSLASH
                    } else {
                        byte
                    },
                );
                assert(key@ == prefix_key(kind, prefix@.take(i + 1)));
            }
            assert(prefix@.take(prefix@.len() as int) == prefix@);
            key
        },
        PrefixKind::VerbatimNetwork => if prefix.len() > SERVER_START {
            assert(prefix@.skip(SERVER_START as int) =~= prefix@.subrange(
                SERVER_START as int,
                prefix@.len() as int,
            ));
            sub_bytes(prefix, SERVER_START, prefix.len())
        } else {
            Vec::new()
        },
        _ => sub_bytes(prefix, 0, prefix.len()),
    }
}

/// Whether a path starts from a root.
fn is_rooted(platform: Platform, path: &[u8]) -> (yes: bool)
    ensures
        yes == parts_of(platform, path@).rooted,
{
    let kind = path_prefix(platform, path).kind;
    kind == PrefixKind::Network || kind == PrefixKind::Device || has_root(platform, path)
}

/// Whether two paths start from the same root, or both from none.
fn starts_from_same_root(platform: Platform, left: &[u8], right: &[u8]) -> (same: bool)
    ensures
        same == same_root(platform, left@, right@),
{
    let left_prefix = path_prefix(platform, left);
    let right_prefix = path_prefix(platform, right);
    if left_prefix.kind != right_prefix.kind || is_rooted(platform, left) != is_rooted(
        platform,
        right,
    ) {
        return false;
    }
    let left_text = sub_bytes(left, 0, left_prefix.len);
    let right_text = sub_bytes(right, 0, right_prefix.len);
    let left_key = comparable_prefix(left_prefix.kind, left_text.as_slice());
    let right_key = comparable_prefix(left_prefix.kind, right_text.as_slice());
    assert(left_text@ == left@.take(left_prefix.len as int));
    assert(right_text@ == right@.take(right_prefix.len as int));
    same_bytes(left_key.as_slice(), right_key.as_slice())
}

/// Where a path leads, as far as its names tell.
fn follow_path(platform: Platform, path: &[u8]) -> (names: Vec<Vec<u8>>)
    ensures
        byte_strings(names@) == followed(platform, path@),
{
    let rooted = is_rooted(platform, path);
    let steps = path_names(platform, path);
    let ghost steps_view = byte_strings(steps@);
    let mut names: Vec<Vec<u8>> = Vec::new();
    assert(byte_strings(names@) =~= follow_names(steps_view.take(0), rooted));
    for i in 0..steps.len()
        invariant
            steps_view == byte_strings(steps@),
            byte_strings(names@) == follow_names(steps_view.take(i as int), rooted),
    {
        let step = sub_bytes(steps[i].as_slice(), 0, steps[i].len());
        let ghost before = byte_strings(names@);
        proof {
            assert(steps_view.take(i + 1).drop_last() =~= steps_view.take(i as int));
            assert(steps_view.take(i + 1).last() =~= step@);
            assert(step@.len() == 1 && step@[0] == DOT ==> step@ =~= seq![DOT]);
            assert(step@.len() == 2 && step@[0] == DOT && step@[1] == DOT ==> step@
                =~= seq![DOT, DOT]);
        }
        let leads_back = step.len() == 2 && step[0] == DOT && step[1] == DOT;
        let last = names.len();
        assert(last > 0 ==> before.last() == names@[last - 1]@);
        if step.len() == 1 && step[0] == DOT {
        } else if leads_back && last > 0 && normal_name(names[last - 1].as_slice()) {
            let _ = names.pop();
            assert(byte_strings(names@) =~= before.drop_last());
        } else if !(leads_back && rooted) {
            names.push(step);
            assert(byte_strings(names@) =~= before.push(step@));
        }
    }
    assert(steps_view.take(steps_view.len() as int) =~= steps_view);
    names
}

/// Whether a path leads to the directory `base` or to something in it, as far as the
/// two paths tell.
pub fn leads_under(platform: Platform, path: &[u8], base: &[u8]) -> (yes: bool)
    ensures
        yes == lies_under(platform, path@, base@),
{
    if !starts_from_same_root(platform, path, base) {
        return false;
    }
    let names = follow_path(platform, path);
    let base_names = follow_path(platform, base);
    let ghost views = byte_strings(names@);
    let ghost base_views = byte_strings(base_names@);
    if base_names.len() > names.len() {
        assert(base_views.len() > views.len());
        return false;
    }
    for i in 0..base_names.len()
        invariant
            views == byte_strings(names@),
            base_views == byte_strings(base_names@),
            views == followed(platform, path@),
            base_views == followed(platform, base@),
            base_names@.len() <= names@.len(),
            forall|j: int| 0 <= j < i ==> #[trigger] base_views[j] == views[j],
    {
        assert(views[i as int] == names@[i as int]@);
        assert(base_views[i as int] == base_names@[i as int]@);
        if !same_bytes(names[i].as_slice(), base_names[i].as_slice()) {
            return false;
        }
    }
    assert(base_views =~= views.subrange(0, base_views.len() as int));
    if names.len() > base_names.len() {
        let next = &names[base_names.len()];
        assert(views[base_views.len() as int] == next@);
        assert(next@.len() == 2 && next@[0] == DOT && next@[1] == DOT ==> next@
            =~= seq![DOT, DOT]);
        return !(next.len() == 2 && next[0] == DOT && next[1] == DOT);
    }
    true
}

/// Whether a Windows path whose text goes on after that of `base` still has its root
/// where `base` has ended.
pub fn base_ends_within_root(path: &[u8], base: &[u8]) -> (yes: bool)
    ensures
        yes == ends_within_root(path@, base@),
{
    let windows = Platform::Windows;
    let whole = path_prefix(windows, path).kind;
    let part = path_prefix(windows, base).kind;
    part == PrefixKind::Absent && whole != PrefixKind::Absent || part == PrefixKind::Drive && whole
        == PrefixKind::Drive && !is_rooted(windows, base) && is_rooted(windows, path)
}

impl NativePath {
    /// `relative` taken relative to this path.
    pub fn join(&self, platform: Platform, relative: &[u8]) -> (joined: NativePath)
        ensures
            joined@ == join_of(platform, self@, relative@),
    {
        let base = self.bytes.as_slice();
        let prefix = path_prefix(platform, base);
        let rooted = has_root(platform, relative);
        if path_prefix(platform, relative).kind != PrefixKind::Absent || (platform
            != Platform::Windows && rooted) {
            return NativePath { bytes: sub_bytes(relative, 0, relative.len()) };
        }
        if reads_verbatim(prefix.kind) && relative.len() > 0 {
            return NativePath { bytes: join_verbatim(base, relative) };
        }
        let kept: usize = if rooted {
            prefix.len
        } else {
            base.len()
        };
        let mut joined = sub_bytes(base, 0, kept);
        let bare_drive = prefix.kind == PrefixKind::Drive && prefix.len == base.len();
        if !rooted && !bare_drive && base.len() > 0 && !separators_on(platform).contains(
            base[base.len() - 1],
        ) {
            if platform == Platform::Windows {
                joined.push(BACKSLASH);
            } else {
                joined.push(SLASH);
            }
        }
        push_bytes(&mut joined, relative);
        NativePath { bytes: joined }
    }

    /// Whether the two paths are spellings of one.
    pub fn is_same_path(&self, platform: Platform, other: &NativePath) -> (same: bool)
        ensures
            same == same_path(platform, self@, other@),
    {
        let left = self.bytes.as_slice();
        let right = other.bytes.as_slice();
        let left_names = path_names(platform, left);
        let right_names = path_names(platform, right);
        let ghost left_view = byte_strings(left_names@);
        let ghost right_view = byte_strings(right_names@);
        if !starts_from_same_root(platform, left, right) {
            return false;
        }
        if left_names.len() != right_names.len() {
            assert(left_view.len() != right_view.len());
            return false;
        }
        for i in 0..left_names.len()
            invariant
                left_view == byte_strings(left_names@),
                right_view == byte_strings(right_names@),
                left_names@.len() == right_names@.len(),
                left_view == names_of(platform, self@),
                right_view == names_of(platform, other@),
                left_view.take(i as int) == right_view.take(i as int),
        {
            if !same_bytes(left_names[i].as_slice(), right_names[i].as_slice()) {
                assert(left_view[i as int] != right_view[i as int]);
                return false;
            }
            assert(left_view.take(i + 1) == left_view.take(i as int).push(left_view[i as int]));
            assert(right_view.take(i + 1) == right_view.take(i as int).push(right_view[i as int]));
        }
        assert(left_view.take(left_view.len() as int) == left_view);
        assert(right_view.take(right_view.len() as int) == right_view);
        assert(parts_of(platform, self@) =~= parts_of(platform, other@));
        true
    }
}

/// Whether one of the paths is a spelling of `path`.
pub fn contains_path(platform: Platform, paths: &Vec<NativePath>, path: &NativePath) -> (yes: bool)
    ensures
        yes == holds_path(platform, path_bytes(paths@), path@),
{
    let ghost views = path_bytes(paths@);
    for i in 0..paths.len()
        invariant
            views == path_bytes(paths@),
            forall|j: int| 0 <= j < i ==> !same_path(platform, #[trigger] views[j], path@),
    {
        assert(views[i as int] == paths@[i as int]@);
        if paths[i].is_same_path(platform, path) {
            return true;
        }
    }
    false
}

/// A separator that is found in the front of a path is found in the whole path; where
/// the front has none, the one right after the front is found.
proof fn lemma_separator_in_front(
    front: Seq<u8>,
    back: Seq<u8>,
    mark: u8,
    from: int,
    separators: Separators,
)
    requires
        0 <= from <= front.len(),
        separators.holds(mark),
    ensures
        next_separator(front.push(mark) + back, from, separators) == next_separator(
            front,
            from,
            separators,
        ),
    decreases front.len() - from,
{
    let path = front.push(mark) + back;
    if from < front.len() {
        assert(path[from] == front[from]);
        if !separators.holds(front[from]) {
            lemma_separator_in_front(front, back, mark, from + 1, separators);
        }
    } else {
        assert(path[from] == mark);
    }
}

/// A separator in the back of a path lies as far into the back as it does in the back
/// alone.
proof fn lemma_separator_in_back(path: Seq<u8>, cut: int, from: int, separators: Separators)
    requires
        0 <= cut <= path.len(),
        0 <= from,
    ensures
        next_separator(path, cut + from, separators) == cut + next_separator(
            path.skip(cut),
            from,
            separators,
        ),
    decreases path.len() - cut - from,
{
    if cut + from < path.len() {
        assert(path.skip(cut)[from] == path[cut + from]);
        if !separators.holds(path[cut + from]) {
            lemma_separator_in_back(path, cut, from + 1, separators);
        }
    }
}

/// The names in the back of a path are those of the back alone.
proof fn lemma_names_in_back(
    path: Seq<u8>,
    cut: int,
    from: int,
    separators: Separators,
    keep_dots: bool,
)
    requires
        0 <= cut <= path.len(),
        0 <= from,
    ensures
        names_from(path, cut + from, separators, keep_dots) == names_from(
            path.skip(cut),
            from,
            separators,
            keep_dots,
        ),
    decreases path.len() - cut - from,
{
    let back = path.skip(cut);
    if cut + from < path.len() {
        lemma_next_separator(back, from, separators);
        lemma_separator_in_back(path, cut, from, separators);
        let end = next_separator(back, from, separators);
        assert(path.subrange(cut + from, cut + end) =~= back.subrange(from, end));
        if end < back.len() {
            lemma_names_in_back(path, cut, end + 1, separators, keep_dots);
        }
    }
}

/// The names of a path are those of its front and then those of its back.
proof fn lemma_names_split(
    front: Seq<u8>,
    back: Seq<u8>,
    mark: u8,
    from: int,
    separators: Separators,
    keep_dots: bool,
)
    requires
        0 <= from <= front.len(),
        separators.holds(mark),
    ensures
        names_from(front.push(mark) + back, from, separators, keep_dots) == names_from(
            front,
            from,
            separators,
            keep_dots,
        ) + names_from(back, 0, separators, keep_dots),
    decreases front.len() - from,
{
    let path = front.push(mark) + back;
    let cut = front.len() as int + 1;
    let tail = names_from(back, 0, separators, keep_dots);
    assert(path.skip(cut) =~= back);
    lemma_names_in_back(path, cut, 0, separators, keep_dots);
    lemma_separator_in_front(front, back, mark, from, separators);
    lemma_next_separator(front, from, separators);
    let end = next_separator(front, from, separators);
    assert(path.subrange(from, end) =~= front.subrange(from, end));
    if from == front.len() {
        assert(names_from(front, from, separators, keep_dots) =~= Seq::<Seq<u8>>::empty());
        assert(Seq::<Seq<u8>>::empty() + tail =~= tail);
    } else {
        let name = front.subrange(from, end);
        if end < front.len() {
            lemma_names_split(front, back, mark, end + 1, separators, keep_dots);
            let rest = names_from(front, end + 1, separators, keep_dots);
            assert(seq![name] + (rest + tail) =~= (seq![name] + rest) + tail);
        } else {
            assert(Seq::<Seq<u8>>::empty() + tail =~= tail);
            assert(seq![name] + Seq::<Seq<u8>>::empty() + tail =~= seq![name] + tail);
        }
    }
}

/// Off Windows, joining a relative path to a directory keeps the directory's names and
/// root and appends the names of the relative path; a leading `.` of the latter goes.
pub proof fn law_join_appends_names(platform: Platform, base: Seq<u8>, relative: Seq<u8>)
    requires
        platform != Platform::Windows,
        base.len() > 0,
        !physical_root(platform, relative),
    ensures
        ({
            let joined = parts_of(platform, join_of(platform, base, relative));
            &&& joined.rooted == parts_of(platform, base).rooted
            &&& joined.names == names_of(platform, base) + names_from(
                relative,
                0,
                Separators::Slash,
                false,
            )
        }),
{
    let joined = join_of(platform, base, relative);
    let slash = Separators::Slash;
    let front = if base.last() == SLASH {
        base.drop_last()
    } else {
        base
    };
    assert(joined =~= front.push(SLASH) + relative);
    let start = if physical_root(platform, base) {
        1int
    } else {
        0int
    };
    assert(joined[0] == base[0]);
    let tail = names_from(relative, 0, slash, false);
    if start <= front.len() {
        lemma_names_split(front, relative, SLASH, start, slash, false);
        if base.last() == SLASH {
            assert(base =~= front.push(SLASH) + Seq::<u8>::empty());
            lemma_names_split(front, Seq::<u8>::empty(), SLASH, start, slash, false);
            assert(names_from(Seq::<u8>::empty(), 0, slash, false) =~= Seq::<Seq<u8>>::empty());
        }
        let head = names_from(base, start, slash, false);
        assert(names_from(joined, start, slash, false) =~= head + tail);
        assert(seq![seq![DOT]] + (head + tail) =~= (seq![seq![DOT]] + head) + tail);
        assert(leading_dot(platform, joined) == leading_dot(platform, base));
    } else {
        assert(base =~= seq![SLASH]);
        assert(joined.skip(1) =~= relative);
        lemma_names_in_back(joined, 1, 0, slash, false);
        assert(Seq::<Seq<u8>>::empty() + tail =~= tail);
    }
}

/// Off Windows, a relative path keeps its file name and its extension wherever it is
/// joined.
pub proof fn law_join_keeps_the_file_name(platform: Platform, base: Seq<u8>, relative: Seq<u8>)
    requires
        platform != Platform::Windows,
        !physical_root(platform, relative),
        file_name_of(platform, relative) is Some,
    ensures
        file_name_of(platform, join_of(platform, base, relative)) == file_name_of(
            platform,
            relative,
        ),
        extension_of(platform, join_of(platform, base, relative)) == extension_of(
            platform,
            relative,
        ),
{
    if base.len() == 0 {
        assert(join_of(platform, base, relative) =~= relative);
    } else {
        let plain = names_from(relative, 0, Separators::Slash, false);
        law_join_appends_names(platform, base, relative);
        if plain.len() == 0 {
            assert(names_of(platform, relative).last() == seq![DOT]);
        } else {
            assert(names_of(platform, relative).last() == plain.last());
        }
    }
}

/// Off Windows, the file name of a path is what follows its last separator, where that
/// is an ordinary name.
pub proof fn lemma_last_name(platform: Platform, front: Seq<u8>, name: Seq<u8>)
    requires
        platform != Platform::Windows,
        front.len() > 0,
        front[0] != SLASH,
        name.len() > 0,
        is_normal(name),
        !name.contains(SLASH),
    ensures
        file_name_of(platform, front.push(SLASH) + name) == Some(name),
{
    let path = front.push(SLASH) + name;
    lemma_names_split(front, name, SLASH, 0, Separators::Slash, false);
    lemma_no_separator(name, 0);
    assert(name.subrange(0, name.len() as int) =~= name);
    assert(names_from(name, 0, Separators::Slash, false) =~= seq![name]);
    assert(path[0] == front[0]);
    assert(names_of(platform, path).last() == name);
}

/// Where no byte is a slash, none is found.
proof fn lemma_no_separator(name: Seq<u8>, from: int)
    requires
        0 <= from <= name.len(),
        !name.contains(SLASH),
    ensures
        next_separator(name, from, Separators::Slash) == name.len(),
    decreases name.len() - from,
{
    if from < name.len() {
        assert(name[from] != SLASH);
        lemma_no_separator(name, from + 1);
    }
}

/// Off Windows, a path is the same with a separator at its end.
pub proof fn law_trailing_separator(platform: Platform, path: Seq<u8>)
    requires
        platform != Platform::Windows,
        path.len() > 0,
    ensures
        same_path(platform, path, path.push(SLASH)),
{
    let empty = Seq::<u8>::empty();
    if path.last() == SLASH {
        let front = path.drop_last();
        let start = if physical_root(platform, path) {
            1int
        } else {
            0int
        };
        let slash = Separators::Slash;
        assert(path =~= front.push(SLASH) + empty);
        assert(path.push(SLASH) =~= front.push(SLASH) + seq![SLASH]);
        assert(names_from(empty, 0, slash, false) =~= Seq::<Seq<u8>>::empty());
        assert(seq![SLASH].skip(1) =~= empty);
        lemma_names_in_back(seq![SLASH], 1, 0, slash, false);
        if start <= front.len() {
            lemma_names_split(front, empty, SLASH, start, slash, false);
            lemma_names_split(front, seq![SLASH], SLASH, start, slash, false);
        } else {
            assert(path =~= seq![SLASH]);
            assert(path.push(SLASH).skip(1) =~= seq![SLASH]);
            lemma_names_in_back(path.push(SLASH), 1, 0, slash, false);
        }
    } else {
        law_join_appends_names(platform, path, empty);
        assert(join_of(platform, path, empty) =~= path.push(SLASH));
        assert(names_from(empty, 0, Separators::Slash, false) =~= Seq::<Seq<u8>>::empty());
        assert(names_of(platform, path) + Seq::<Seq<u8>>::empty() =~= names_of(platform, path));
    }
    assert(parts_of(platform, path) =~= parts_of(platform, path.push(SLASH)));
}

/// How far a name leads down: `..` leads up and `.` nowhere.
pub open spec fn name_descent(name: Seq<u8>) -> int {
    if name == seq![DOT, DOT] {
        -1
    } else if name == seq![DOT] {
        0
    } else {
        1
    }
}

/// How far names lead down, taken together.
pub open spec fn descent(names: Seq<Seq<u8>>) -> int
    decreases names.len(),
{
    if names.len() == 0 {
        0
    } else {
        descent(names.drop_last()) + name_descent(names.last())
    }
}

/// Whether some of the names, from the first on, lead up further than down.
pub open spec fn climbs_out(names: Seq<Seq<u8>>) -> bool {
    exists|k: int| 0 <= k <= names.len() && descent(#[trigger] names.take(k)) < 0
}

/// Names that do not climb out lead down from wherever they are followed.
#[verifier::spinoff_prover]
proof fn lemma_follow_down(names: Seq<Seq<u8>>, more: Seq<Seq<u8>>, rooted: bool)
    requires
        !climbs_out(more),
    ensures
        ({
            let start = follow_names(names, rooted);
            let end = follow_names(names + more, rooted);
            &&& end.len() == start.len() + descent(more)
            &&& start.is_prefix_of(end)
            &&& forall|i: int| start.len() <= i < end.len() ==> is_normal(#[trigger] end[i])
        }),
    decreases more.len(),
{
    let start = follow_names(names, rooted);
    if more.len() == 0 {
        assert(names + more =~= names);
    } else {
        let before = more.drop_last();
        assert forall|k: int| 0 <= k <= before.len() implies descent(
            #[trigger] before.take(k),
        ) >= 0 by {
            assert(before.take(k) =~= more.take(k));
        }
        lemma_follow_down(names, before, rooted);
        assert((names + more).drop_last() =~= names + before);
        assert(more.take(more.len() as int) =~= more);
        assert(descent(more) >= 0);
        let middle = follow_names(names + before, rooted);
        let end = follow_names(names + more, rooted);
        assert((names + more).last() == more.last());
        if more.last() == seq![DOT, DOT] {
            assert(more.last().len() == 2);
            assert(name_descent(more.last()) == -1);
            assert(middle.len() > start.len());
            assert(is_normal(middle[middle.len() - 1]));
            assert(end == follow_name(middle, more.last(), rooted));
            assert(end == middle.drop_last());
        }
        assert(start =~= end.subrange(0, start.len() as int));
    }
}

/// What does not climb out of a directory that it is joined to lies under it.
pub proof fn law_joined_paths_lie_under(platform: Platform, base: Seq<u8>, relative: Seq<u8>)
    requires
        platform != Platform::Windows,
        base.len() > 0,
        !physical_root(platform, relative),
        !climbs_out(names_from(relative, 0, Separators::Slash, false)),
    ensures
        lies_under(platform, join_of(platform, base, relative), base),
{
    let path = join_of(platform, base, relative);
    law_join_appends_names(platform, base, relative);
    lemma_follow_down(
        names_of(platform, base),
        names_from(relative, 0, Separators::Slash, false),
        parts_of(platform, base).rooted,
    );
    assert(parts_of(platform, path).prefix =~= parts_of(platform, base).prefix);
    lemma_below(followed(platform, path), followed(platform, base));
}

/// Names that go on with ordinary ones lead further down.
proof fn lemma_below(names: Seq<Seq<u8>>, base: Seq<Seq<u8>>)
    requires
        base.is_prefix_of(names),
        forall|i: int| base.len() <= i < names.len() ==> is_normal(#[trigger] names[i]),
    ensures
        is_below(names, base),
{
    if names.len() > base.len() {
        assert(is_normal(names[base.len() as int]));
    }
}

/// A Windows path that goes on after a separator has the root of its front, unless the
/// front is only a part of the root.
proof fn lemma_windows_front(front: Seq<u8>, back: Seq<u8>, mark: u8)
    requires
        Separators::Either.holds(mark),
        front.len() > 0,
        !Separators::Either.holds(front.last()),
        !windows_prefix(front.push(mark) + back).0.is_verbatim(),
    ensures
        ({
            let windows = Platform::Windows;
            let path = front.push(mark) + back;
            let (whole, part) = (parts_of(windows, path), parts_of(windows, front));
            !ends_within_root(path, front) ==> {
                &&& same_root(windows, path, front)
                &&& whole.names == part.names + names_from(back, 0, Separators::Either, false)
            }
        }),
{
    let windows = Platform::Windows;
    let either = Separators::Either;
    let path = front.push(mark) + back;
    let (kind, len) = windows_prefix(front);
    let (path_kind, path_len) = windows_prefix(path);
    let tail = names_from(back, 0, either, false);
    assert forall|i: int| 0 <= i < front.len() implies #[trigger] path[i] == front[i] by {}
    assert(path[front.len() as int] == mark);
    if front.len() >= 2 {
        lemma_separator_in_front(front, back, mark, 2, either);
        lemma_next_separator(front, 2, either);
        let server = next_separator(front, 2, either);
        if server < front.len() {
            lemma_separator_in_front(front, back, mark, server + 1, either);
            lemma_next_separator(front, server + 1, either);
        }
    }
    if front.len() >= 4 {
        lemma_separator_in_front(front, back, mark, 4, either);
        lemma_next_separator(front, 4, either);
    }
    if !ends_within_root(path, front) {
        assert(kind == path_kind);
        assert(len == path_len);
        assert(0 <= len <= front.len());
        assert(path.take(len) =~= front.take(len));
        let rooted = physical_root(windows, front);
        let start = if rooted {
            len + 1
        } else {
            len
        };
        if len < front.len() {
            lemma_names_split(front, back, mark, start, either, false);
            let head = names_from(front, start, either, false);
            assert(seq![seq![DOT]] + (head + tail) =~= (seq![seq![DOT]] + head) + tail);
            assert(leading_dot(windows, path) == leading_dot(windows, front));
        } else {
            assert(path.skip(len + 1) =~= back);
            lemma_names_in_back(path, len + 1, 0, either, false);
            assert(names_of(windows, front) =~= Seq::<Seq<u8>>::empty());
            assert(Seq::<Seq<u8>>::empty() + tail =~= tail);
        }
    }
}

/// On Windows, what does not climb out of a directory that it follows lies under it,
/// unless the path still has its root there.
pub proof fn law_windows_paths_lie_under(base: Seq<u8>, relative: Seq<u8>, mark: u8)
    requires
        Separators::Either.holds(mark),
        base.len() > 0,
        !Separators::Either.holds(base.last()),
        !windows_prefix(base.push(mark) + relative).0.is_verbatim(),
        !climbs_out(names_from(relative, 0, Separators::Either, false)),
    ensures
        ({
            let path = base.push(mark) + relative;
            ends_within_root(path, base) || lies_under(Platform::Windows, path, base)
        }),
{
    let windows = Platform::Windows;
    let path = base.push(mark) + relative;
    lemma_windows_front(base, relative, mark);
    lemma_follow_down(
        names_of(windows, base),
        names_from(relative, 0, Separators::Either, false),
        parts_of(windows, base).rooted,
    );
    if same_root(windows, path, base) {
        lemma_below(followed(windows, path), followed(windows, base));
    }
}

/// The last dot of a name is the one that no dot follows.
proof fn lemma_last_dot(stem: Seq<u8>, extension: Seq<u8>)
    requires
        !extension.contains(DOT),
    ensures
        last_dot(stem + seq![DOT] + extension) == stem.len(),
    decreases extension.len(),
{
    let name = stem + seq![DOT] + extension;
    if extension.len() > 0 {
        assert(name.last() == extension[extension.len() - 1]);
        assert(extension.contains(extension[extension.len() - 1]));
        assert(name.drop_last() =~= stem + seq![DOT] + extension.drop_last());
        assert(!extension.drop_last().contains(DOT)) by {
            if extension.drop_last().contains(DOT) {
                let i = choose|i: int|
                    0 <= i < extension.drop_last().len() && extension.drop_last()[i] == DOT;
                assert(extension[i] == DOT);
            }
        }
        lemma_last_dot(stem, extension.drop_last());
    }
}

/// Where a name has no dot, none is the last.
proof fn lemma_no_dot(name: Seq<u8>)
    requires
        !name.contains(DOT),
    ensures
        last_dot(name) == -1,
    decreases name.len(),
{
    if name.len() > 0 {
        assert(name.contains(name[name.len() - 1]));
        assert(!name.drop_last().contains(DOT)) by {
            if name.drop_last().contains(DOT) {
                let i = choose|i: int|
                    0 <= i < name.drop_last().len() && name.drop_last()[i] == DOT;
                assert(name[i] == DOT);
            }
        }
        lemma_no_dot(name.drop_last());
    }
}

/// Whether a name consists of a stem, a dot and an extension without a dot.
pub open spec fn is_parted(name: Seq<u8>, stem: Seq<u8>, extension: Seq<u8>) -> bool {
    name == stem + seq![DOT] + extension && !extension.contains(DOT)
}

/// The extension of a path is what follows the last dot of its file name, where
/// something stands before that dot; a file name without a dot, or with its only dot in
/// front, has none.
pub proof fn law_extension(
    platform: Platform,
    path: Seq<u8>,
    name: Seq<u8>,
    stem: Seq<u8>,
    extension: Seq<u8>,
)
    requires
        file_name_of(platform, path) == Some(name),
    ensures
        is_parted(name, stem, extension) && stem.len() > 0 ==> extension_of(platform, path) == Some(
            extension,
        ),
        is_parted(name, stem, extension) && stem.len() == 0 ==> extension_of(
            platform,
            path,
        ) is None,
        !name.contains(DOT) ==> extension_of(platform, path) is None,
{
    if is_parted(name, stem, extension) {
        lemma_last_dot(stem, extension);
        assert(name.skip(stem.len() as int + 1) =~= extension);
    }
    if !name.contains(DOT) {
        lemma_no_dot(name);
    }
}

/// The last dot of a name parts it.
pub proof fn lemma_parted_at_last_dot(name: Seq<u8>)
    requires
        last_dot(name) >= 0,
    ensures
        last_dot(name) < name.len(),
        is_parted(name, name.take(last_dot(name)), name.skip(last_dot(name) + 1)),
    decreases name.len(),
{
    let at = last_dot(name);
    if name.len() > 0 && name.last() != DOT {
        let before = name.drop_last();
        lemma_parted_at_last_dot(before);
        assert(name.skip(at + 1).drop_last() =~= before.skip(at + 1));
        assert(!name.skip(at + 1).contains(DOT)) by {
            let rest = name.skip(at + 1);
            if rest.contains(DOT) {
                let i = choose|i: int| 0 <= i < rest.len() && rest[i] == DOT;
                if i < rest.len() - 1 {
                    assert(rest.drop_last()[i] == DOT);
                    assert(before.skip(at + 1).contains(DOT));
                } else {
                    assert(name.last() == DOT);
                }
            }
        }
        assert(name[at] == DOT) by {
            assert(before[at] == DOT) by {
                let parted = before.take(at) + seq![DOT] + before.skip(at + 1);
                assert(parted[at] == DOT);
            }
        }
        assert(name =~= name.take(at) + seq![DOT] + name.skip(at + 1));
    } else {
        assert(name =~= name.take(at) + seq![DOT] + name.skip(at + 1));
    }
}

/// On Windows, a relative path without a prefix is put behind the path that it is
/// joined to, with a backslash between them unless there is a separator or nothing but
/// a drive; one with a root keeps the prefix alone, and one with a prefix stands for
/// itself. A verbatim path is left out here.
pub proof fn law_windows_join(base: Seq<u8>, relative: Seq<u8>)
    ensures
        ({
            let windows = Platform::Windows;
            let joined = join_of(windows, base, relative);
            let (kind, len) = windows_prefix(base);
            let bare_drive = kind is Drive && len == base.len();
            if !(windows_prefix(relative).0 is Absent) {
                joined == relative
            } else if kind is Verbatim || kind is VerbatimDrive || kind is VerbatimNetwork {
                true
            } else if relative.len() > 0 && (relative[0] == SLASH || relative[0] == BACKSLASH) {
                joined == base.take(len) + relative
            } else if base.len() == 0 || base.last() == SLASH || base.last() == BACKSLASH
                || bare_drive {
                joined == base + relative
            } else {
                joined == base.push(BACKSLASH) + relative
            }
        }),
{
}

/// On Windows, the file name of a path is what follows its last separator, where that
/// is an ordinary name and the root has ended before. A verbatim path is left out here.
pub proof fn law_windows_file_name(front: Seq<u8>, name: Seq<u8>, mark: u8)
    requires
        Separators::Either.holds(mark),
        front.len() > 0,
        !Separators::Either.holds(front.last()),
        !windows_prefix(front.push(mark) + name).0.is_verbatim(),
        !ends_within_root(front.push(mark) + name, front),
        name.len() > 0,
        is_normal(name),
        !name.contains(SLASH),
        !name.contains(BACKSLASH),
    ensures
        file_name_of(Platform::Windows, front.push(mark) + name) == Some(name),
{
    lemma_windows_front(front, name, mark);
    lemma_no_either(name, 0);
    assert(name.subrange(0, name.len() as int) =~= name);
    assert(names_from(name, 0, Separators::Either, false) =~= seq![name]);
    assert(names_of(Platform::Windows, front.push(mark) + name).last() == name);
}

/// Where no byte is a separator, none is found.
proof fn lemma_no_either(name: Seq<u8>, from: int)
    requires
        0 <= from <= name.len(),
        !name.contains(SLASH),
        !name.contains(BACKSLASH),
    ensures
        next_separator(name, from, Separators::Either) == name.len(),
    decreases name.len() - from,
{
    if from < name.len() {
        assert(name.contains(name[from]));
        lemma_no_either(name, from + 1);
    }
}

/// A verbatim path that goes on after a backslash below its root has the root of its
/// front, and the names of its front and then those of its back.
proof fn lemma_verbatim_front(front: Seq<u8>, back: Seq<u8>)
    requires
        windows_prefix(front).0.is_verbatim(),
        physical_root(Platform::Windows, front),
    ensures
        ({
            let windows = Platform::Windows;
            let path = front.push(BACKSLASH) + back;
            let (whole, part) = (parts_of(windows, path), parts_of(windows, front));
            &&& same_root(windows, path, front)
            &&& whole.names == part.names + names_from(back, 0, Separators::Backslash, true)
        }),
{
    let backslash = Separators::Backslash;
    let path = front.push(BACKSLASH) + back;
    let (kind, len) = windows_prefix(front);
    assert forall|i: int| 0 <= i < front.len() implies #[trigger] path[i] == front[i] by {}
    assert(verbatim_opening(front));
    lemma_separator_in_front(front, back, BACKSLASH, 4, backslash);
    lemma_next_separator(front, 4, backslash);
    if front.len() >= 8 {
        lemma_separator_in_front(front, back, BACKSLASH, 8, backslash);
        lemma_next_separator(front, 8, backslash);
        let server = next_separator(front, 8, backslash);
        if server < front.len() {
            lemma_separator_in_front(front, back, BACKSLASH, server + 1, backslash);
            lemma_next_separator(front, server + 1, backslash);
        }
    } else if front.len() == 7 && front[4] == 0x55 && front[5] == 0x4e && front[6] == 0x43 {
        reveal_with_fuel(next_separator, 5);
        assert(len == 7);
    }
    if front.len() == 4 || front.len() == 5 {
        reveal_with_fuel(next_separator, 3);
    }
    assert(windows_prefix(path) == (kind, len));
    assert(path.take(len) =~= front.take(len));
    lemma_names_split(front, back, BACKSLASH, len + 1, backslash, true);
}

/// What does not climb out of a verbatim directory below a root that it follows lies
/// under that directory.
pub proof fn law_verbatim_paths_lie_under(base: Seq<u8>, relative: Seq<u8>)
    requires
        windows_prefix(base).0.is_verbatim(),
        physical_root(Platform::Windows, base),
        !climbs_out(names_from(relative, 0, Separators::Backslash, true)),
    ensures
        lies_under(Platform::Windows, base.push(BACKSLASH) + relative, base),
{
    let windows = Platform::Windows;
    let path = base.push(BACKSLASH) + relative;
    lemma_verbatim_front(base, relative);
    lemma_follow_down(
        names_of(windows, base),
        names_from(relative, 0, Separators::Backslash, true),
        parts_of(windows, base).rooted,
    );
    lemma_below(followed(windows, path), followed(windows, base));
}

/// Where names lead that go up once, then to `next`, and then do not climb out.
proof fn lemma_up_and_on(
    names: Seq<Seq<u8>>,
    next: Seq<u8>,
    rest: Seq<Seq<u8>>,
    rooted: bool,
)
    requires
        follow_names(names, rooted).len() > 0,
        is_normal(follow_names(names, rooted).last()),
        is_normal(next),
        !climbs_out(rest),
    ensures
        ({
            let base = follow_names(names, rooted);
            let up = names.push(seq![DOT, DOT]);
            &&& !is_below(follow_names(up, rooted), base)
            &&& is_below(follow_names(up.push(next) + rest, rooted), base) <==> next
                == base.last()
        }),
{
    let base = follow_names(names, rooted);
    let up = names.push(seq![DOT, DOT]);
    assert(up.drop_last() =~= names);
    assert(seq![DOT, DOT].len() == 2 && seq![DOT].len() == 1);
    assert(follow_names(up, rooted) == base.drop_last());
    assert(up.push(next).drop_last() =~= up);
    let there = follow_names(up.push(next), rooted);
    assert(there == base.drop_last().push(next));
    lemma_follow_down(up.push(next), rest, rooted);
    let end = follow_names(up.push(next) + rest, rooted);
    assert(end.take(there.len() as int) =~= there);
    assert(there[base.len() - 1] == next);
    assert(end.take(there.len() as int)[base.len() - 1] == end[base.len() - 1]);
    if next == base.last() {
        assert(there =~= base);
        lemma_below(end, base);
    } else if base.is_prefix_of(end) {
        assert(base[base.len() - 1] == end[base.len() - 1]);
    }
}

/// What goes up once from a directory and then on to another name lies elsewhere, and
/// lies under the directory just where that name is the directory's own; the parent of a
/// directory does not lie under it.
pub proof fn law_what_lies_beside(
    platform: Platform,
    base: Seq<u8>,
    relative: Seq<u8>,
    next: Seq<u8>,
    rest: Seq<Seq<u8>>,
)
    requires
        platform != Platform::Windows,
        base.len() > 0,
        !physical_root(platform, relative),
        followed(platform, base).len() > 0,
        is_normal(followed(platform, base).last()),
        is_normal(next),
        !climbs_out(rest),
    ensures
        ({
            let steps = names_from(relative, 0, Separators::Slash, false);
            let path = join_of(platform, base, relative);
            &&& steps == seq![seq![DOT, DOT]] ==> !lies_under(platform, path, base)
            &&& steps == seq![seq![DOT, DOT], next] + rest ==> (lies_under(platform, path, base)
                <==> next == followed(platform, base).last())
        }),
{
    let names = names_of(platform, base);
    let steps = names_from(relative, 0, Separators::Slash, false);
    let path = join_of(platform, base, relative);
    let rooted = parts_of(platform, base).rooted;
    law_join_appends_names(platform, base, relative);
    lemma_up_and_on(names, next, rest, rooted);
    assert(parts_of(platform, path).prefix =~= parts_of(platform, base).prefix);
    if steps == seq![seq![DOT, DOT]] {
        assert(names + steps =~= names.push(seq![DOT, DOT]));
    }
    if steps == seq![seq![DOT, DOT], next] + rest {
        assert(names + steps =~= names.push(seq![DOT, DOT]).push(next) + rest);
    }
}

/// On Windows too, what goes up once from a directory and then on to another name lies
/// under the directory just where that name is the directory's own.
pub proof fn law_what_lies_beside_on_windows(
    base: Seq<u8>,
    relative: Seq<u8>,
    mark: u8,
    next: Seq<u8>,
    rest: Seq<Seq<u8>>,
)
    requires
        Separators::Either.holds(mark),
        base.len() > 0,
        !Separators::Either.holds(base.last()),
        !windows_prefix(base.push(mark) + relative).0.is_verbatim(),
        !ends_within_root(base.push(mark) + relative, base),
        followed(Platform::Windows, base).len() > 0,
        is_normal(followed(Platform::Windows, base).last()),
        is_normal(next),
        !climbs_out(rest),
    ensures
        ({
            let windows = Platform::Windows;
            let steps = names_from(relative, 0, Separators::Either, false);
            let path = base.push(mark) + relative;
            &&& steps == seq![seq![DOT, DOT]] ==> !lies_under(windows, path, base)
            &&& steps == seq![seq![DOT, DOT], next] + rest ==> (lies_under(windows, path, base)
                <==> next == followed(windows, base).last())
        }),
{
    let windows = Platform::Windows;
    let names = names_of(windows, base);
    let steps = names_from(relative, 0, Separators::Either, false);
    let rooted = parts_of(windows, base).rooted;
    lemma_windows_front(base, relative, mark);
    lemma_up_and_on(names, next, rest, rooted);
    if steps == seq![seq![DOT, DOT]] {
        assert(names + steps =~= names.push(seq![DOT, DOT]));
    }
    if steps == seq![seq![DOT, DOT], next] + rest {
        assert(names + steps =~= names.push(seq![DOT, DOT]).push(next) + rest);
    }
}

/// The bytes of a scalar value hold no surrogate.
proof fn lemma_scalar_is_no_surrogate(scalar: u32)
    by (bit_vector)
    requires
        scalar <= 0xd7ff || 0xe000 <= scalar <= 0x10ffff,
    ensures
        has_width_1_encoding(scalar) ==> leading_byte_width_1(scalar) < 0x80,
        has_width_2_encoding(scalar) ==> leading_byte_width_2(scalar) < 0xed,
        has_width_3_encoding(scalar) && leading_byte_width_3(scalar) == 0xed
            ==> second_last_continuation_byte(scalar) < 0xa0,
        has_width_4_encoding(scalar) ==> leading_byte_width_4(scalar) > 0xed,
        last_continuation_byte(scalar) < 0xc0,
        second_last_continuation_byte(scalar) < 0xc0,
        third_last_continuation_byte(scalar) < 0xc0,
{
}

/// A byte that begins no surrogate stays.
proof fn lemma_byte_stays(byte: u8, rest: Seq<u8>)
    requires
        byte != 0xed || rest.len() < 2 || rest[0] < 0xa0,
    ensures
        without_surrogates(seq![byte] + rest) == seq![byte] + without_surrogates(rest),
{
    let bytes = seq![byte] + rest;
    assert(bytes.skip(1) =~= rest);
    assert(bytes[0] == byte);
    if rest.len() > 0 {
        assert(bytes[1] == rest[0]);
    }
}

/// The bytes of a character stay.
proof fn lemma_char_stays(c: char, rest: Seq<u8>)
    ensures
        without_surrogates(encode_scalar(c as u32) + rest) == encode_scalar(c as u32)
            + without_surrogates(rest),
{
    let scalar = c as u32;
    lemma_scalar_is_no_surrogate(scalar);
    let after = without_surrogates(rest);
    let last = last_continuation_byte(scalar);
    let second = second_last_continuation_byte(scalar);
    let third = third_last_continuation_byte(scalar);
    let one = seq![last] + rest;
    let two = seq![second] + one;
    let three = seq![third] + two;
    lemma_byte_stays(last, rest);
    lemma_byte_stays(second, one);
    lemma_byte_stays(third, two);
    if has_width_1_encoding(scalar) {
        lemma_byte_stays(leading_byte_width_1(scalar), rest);
    } else if has_width_2_encoding(scalar) {
        lemma_byte_stays(leading_byte_width_2(scalar), one);
        assert(encode_scalar(scalar) + rest =~= seq![leading_byte_width_2(scalar)] + one);
        assert(encode_scalar(scalar) + after =~= seq![leading_byte_width_2(scalar)] + (seq![last]
            + after));
    } else if has_width_3_encoding(scalar) {
        lemma_byte_stays(leading_byte_width_3(scalar), two);
        assert(encode_scalar(scalar) + rest =~= seq![leading_byte_width_3(scalar)] + two);
        assert(encode_scalar(scalar) + after =~= seq![leading_byte_width_3(scalar)] + (
        seq![second] + (seq![last] + after)));
    } else {
        lemma_byte_stays(leading_byte_width_4(scalar), three);
        assert(encode_scalar(scalar) + rest =~= seq![leading_byte_width_4(scalar)] + three);
        assert(encode_scalar(scalar) + after =~= seq![leading_byte_width_4(scalar)] + (seq![third]
            + (seq![second] + (seq![last] + after))));
    }
}

/// The bytes of a text stay.
proof fn lemma_text_stays(text: Seq<char>)
    ensures
        without_surrogates(encode_utf8(text)) == encode_utf8(text),
    decreases text.len(),
{
    if text.len() > 0 {
        lemma_char_stays(text[0], encode_utf8(text.drop_first()));
        lemma_text_stays(text.drop_first());
    }
}

/// On every platform the text of a path that a text spells is that text.
pub proof fn law_paths_spell_their_text(platform: Platform, text: Seq<char>)
    ensures
        path_text(platform, encode_utf8(text)) == text,
{
    lemma_text_stays(text);
    encode_utf8_valid_utf8(text);
    encode_utf8_decode_utf8(text);
}

/// On a path from a root only ordinary names stay.
proof fn lemma_rooted_names_are_normal(names: Seq<Seq<u8>>)
    ensures
        forall|i: int|
            0 <= i < follow_names(names, true).len() ==> is_normal(
                #[trigger] follow_names(names, true)[i],
            ),
    decreases names.len(),
{
    if names.len() > 0 {
        lemma_rooted_names_are_normal(names.drop_last());
        let before = follow_names(names.drop_last(), true);
        let after = follow_names(names, true);
        assert forall|i: int| 0 <= i < after.len() implies is_normal(#[trigger] after[i]) by {
            if i < before.len() {
                assert(after[i] == before[i]);
            }
        }
    }
}

/// Nothing leads out of a root: whatever is joined to it lies under it.
pub proof fn law_nothing_leads_out_of_a_root(
    platform: Platform,
    base: Seq<u8>,
    relative: Seq<u8>,
)
    requires
        platform != Platform::Windows,
        base.len() > 0,
        base[0] == SLASH,
        followed(platform, base).len() == 0,
        !physical_root(platform, relative),
    ensures
        lies_under(platform, join_of(platform, base, relative), base),
{
    let path = join_of(platform, base, relative);
    law_join_appends_names(platform, base, relative);
    lemma_rooted_names_are_normal(names_of(platform, path));
    assert(parts_of(platform, path).prefix =~= parts_of(platform, base).prefix);
    assert(followed(platform, base) =~= followed(platform, path).take(0));
    lemma_below(followed(platform, path), followed(platform, base));
}

/// Where a relative directory leads nowhere, one step up leads out of it.
pub proof fn law_a_step_up_leads_out(platform: Platform, base: Seq<u8>)
    requires
        platform != Platform::Windows,
        base.len() > 0,
        base[0] != SLASH,
        followed(platform, base).len() == 0,
    ensures
        !lies_under(platform, join_of(platform, base, seq![DOT, DOT]), base),
{
    let up = seq![DOT, DOT];
    let path = join_of(platform, base, up);
    law_join_appends_names(platform, base, up);
    reveal_with_fuel(next_separator, 4);
    assert(up.subrange(0, 2) =~= up);
    assert(up.len() == 2 && seq![DOT].len() == 1);
    assert(names_from(up, 0, Separators::Slash, false) =~= seq![up]);
    let names = names_of(platform, base);
    assert((names + seq![up]).drop_last() =~= names);
    assert(followed(platform, path) =~= seq![up]);
    assert(followed(platform, path)[0] == up);
}

/// When a Windows path still has its root where another one has ended.
pub proof fn law_ending_within_a_root(path: Seq<u8>, base: Seq<u8>)
    ensures
        ends_within_root(path, base) <==> {
            let (whole, part) = (windows_prefix(path).0, windows_prefix(base).0);
            ||| part == PrefixKind::Absent && whole != PrefixKind::Absent
            ||| {
                &&& part == PrefixKind::Drive
                &&& whole == PrefixKind::Drive
                &&& !(base.len() > 2 && (base[2] == SLASH || base[2] == BACKSLASH))
                &&& path.len() > 2 && (path[2] == SLASH || path[2] == BACKSLASH)
            }
        },
{
}

/// Whether a byte is an ASCII letter.
pub open spec fn is_letter(byte: u8) -> bool {
    0x41 <= byte <= 0x5a || 0x61 <= byte <= 0x7a
}

/// The prefixes of Windows paths: a letter and a colon are a drive, two separators with a
/// server, a separator and a share are a share, and after two backslashes, a question
/// mark and a backslash a letter and a colon are a verbatim drive.
pub proof fn law_windows_prefixes(
    letter: u8,
    rest: Seq<u8>,
    server: Seq<u8>,
    share: Seq<u8>,
    mark: u8,
)
    requires
        is_letter(letter),
        Separators::Either.holds(mark),
        server.len() > 0,
        !server.contains(SLASH) && !server.contains(BACKSLASH),
        server != seq![DOT] && server != seq![QUESTION_MARK],
        share.len() > 0,
        !share.contains(SLASH) && !share.contains(BACKSLASH),
        rest.len() > 0 ==> Separators::Either.holds(rest[0]),
    ensures
        windows_prefix(seq![letter, COLON] + rest) == (PrefixKind::Drive, 2int),
        windows_prefix(
            seq![BACKSLASH, BACKSLASH, QUESTION_MARK, BACKSLASH, letter, COLON] + rest,
        ) == (PrefixKind::VerbatimDrive, 6int),
        windows_prefix(seq![mark, mark] + server + seq![mark] + share + rest) == (
            PrefixKind::Network,
            3int + server.len() + share.len(),
        ),
{
    let either = Separators::Either;
    let path = seq![mark, mark] + server + seq![mark] + share + rest;
    let front = seq![mark, mark] + server;
    assert(path =~= front.push(mark) + (share + rest));
    assert(path[0] == mark && path[1] == mark);
    lemma_separator_in_front(front, share + rest, mark, 2, either);
    lemma_run_without_separator(front, 2);
    let at = front.len() as int;
    assert(path[at] == mark);
    let whole = front.push(mark) + share;
    if rest.len() > 0 {
        assert(path =~= whole.push(rest[0]) + rest.drop_first());
        lemma_separator_in_front(whole, rest.drop_first(), rest[0], at + 1, either);
    } else {
        assert(path =~= whole);
    }
    assert forall|i: int| at + 1 <= i < whole.len() implies !either.holds(#[trigger] whole[i]) by {
        assert(whole[i] == share[i - at - 1]);
        assert(share.contains(share[i - at - 1]));
    }
    lemma_run_without_separator(whole, at + 1);
    if server.len() == 1 {
        assert(server =~= seq![server[0]]);
    } else {
        assert(path[3] == server[1]);
        assert(server.contains(server[1]));
    }
    assert(path[2] == server[0]);
}

/// Where no byte from a position on is a separator, none is found.
proof fn lemma_run_without_separator(path: Seq<u8>, from: int)
    requires
        0 <= from <= path.len(),
        forall|i: int| from <= i < path.len() ==> !Separators::Either.holds(#[trigger] path[i]),
    ensures
        next_separator(path, from, Separators::Either) == path.len(),
    decreases path.len() - from,
{
    if from < path.len() {
        assert(!Separators::Either.holds(path[from]));
        lemma_run_without_separator(path, from + 1);
    }
}

/// Two spellings are one path just where they have the same kind of prefix, the same
/// root and the same names, and prefixes that are the same but for the case of a drive
/// letter and the separators of a share.
pub proof fn law_same_paths(platform: Platform, left: Seq<u8>, right: Seq<u8>)
    ensures
        platform != Platform::Windows ==> (same_path(platform, left, right) <==> (names_of(
            platform,
            left,
        ) == names_of(platform, right) && (left.len() > 0 && left[0] == SLASH) == (right.len() > 0
            && right[0] == SLASH))),
        same_path(platform, left, left),
        same_path(platform, left, right) == same_path(platform, right, left),
{
    if platform != Platform::Windows {
        assert(left.take(0) =~= right.take(0));
        if names_of(platform, left) == names_of(platform, right) && (left.len() > 0 && left[0]
            == SLASH) == (right.len() > 0 && right[0] == SLASH) {
            assert(parts_of(platform, left) =~= parts_of(platform, right));
        }
    }
}

/// Off Windows, a path with a root stands for itself, and any other is put behind the
/// path that it is joined to, with a slash between them unless there is one or nothing.
pub proof fn law_unix_join(platform: Platform, base: Seq<u8>, relative: Seq<u8>)
    requires
        platform != Platform::Windows,
    ensures
        join_of(platform, base, relative) == (if relative.len() > 0 && relative[0] == SLASH {
            relative
        } else if base.len() == 0 || base.last() == SLASH {
            base + relative
        } else {
            base.push(SLASH) + relative
        }),
{
}

/// Ordinary names are taken in one after the other.
proof fn lemma_take_ordinary_names(names: Seq<Seq<u8>>, more: Seq<Seq<u8>>)
    requires
        forall|i: int| 0 <= i < more.len() ==> is_normal(#[trigger] more[i]),
    ensures
        take_names(names, more) == names + more,
    decreases more.len(),
{
    if more.len() == 0 {
        assert(names + more =~= names);
    } else {
        let before = more.drop_last();
        assert forall|i: int| 0 <= i < before.len() implies is_normal(#[trigger] before[i]) by {
            assert(before[i] == more[i]);
        }
        lemma_take_ordinary_names(names, before);
        assert(is_normal(more[more.len() - 1]));
        assert((names + before).push(more.last()) =~= names + more);
    }
}

/// Ordinary names that are joined to a verbatim path go on after its own names, each
/// with a backslash in front.
pub proof fn law_verbatim_join(base: Seq<u8>, relative: Seq<u8>, names: Seq<Seq<u8>>, name: Seq<u8>)
    requires
        windows_prefix(base).0.is_verbatim(),
        windows_prefix(relative).0 is Absent,
        relative.len() > 0,
        !Separators::Either.holds(relative[0]),
        forall|i: int|
            0 <= i < names_of(Platform::Windows, relative).len() ==> is_normal(
                #[trigger] names_of(Platform::Windows, relative)[i],
            ),
    ensures
        names_of(Platform::Windows, relative).len() > 0 ==> join_of(
            Platform::Windows,
            base,
            relative,
        ) == base.take(windows_prefix(base).1) + spell_names(
            names_of(Platform::Windows, base) + names_of(Platform::Windows, relative),
        ),
        spell_names(Seq::empty()).len() == 0,
        spell_names(names.push(name)) == spell_names(names) + seq![BACKSLASH] + name,
{
    let windows = Platform::Windows;
    lemma_take_ordinary_names(names_of(windows, base), names_of(windows, relative));
    assert(names.push(name).drop_last() =~= names);
    assert(spell_names(names).push(BACKSLASH) + name =~= spell_names(names) + seq![BACKSLASH]
        + name);
}

} // verus!
