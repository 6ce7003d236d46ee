//! Walking a directory to find out whether it holds Codex data.
//!
//! The walk is a state machine. [`validate_codex_home`] says what the walk has come
//! to, or what it must be told next; the `report_*` methods tell it.

use crate::bytes::{lower_bytes, lowered, same_bytes};
use crate::path::{
    contains_path, extension_of, holds_path, maybe_bytes, path_bytes, NativePath, Platform,
};
use crate::record::{line_texts, probe_jsonl, probe_log, JsonlProbe};
use crate::validation::CodexHomeValidation;
use vstd::prelude::*;
use vstd::utf8::encode_utf8;

verus! {

/// What has been found below a directory so far.
#[derive(Debug, Clone, Copy, PartialEq, Eq, Structural)]
pub struct DirectoryProbe {
    pub has_data: bool,
    pub has_unsupported_jsonl: bool,
    pub inaccessible: bool,
    pub recursive_cycle: bool,
}

/// Nothing found.
pub open spec fn nothing_found() -> DirectoryProbe {
    DirectoryProbe {
        has_data: false,
        has_unsupported_jsonl: false,
        inaccessible: false,
        recursive_cycle: false,
    }
}

impl DirectoryProbe {
    /// What has been found by either of two walks.
    pub open spec fn or(self, other: DirectoryProbe) -> DirectoryProbe {
        DirectoryProbe {
            has_data: self.has_data || other.has_data,
            has_unsupported_jsonl: self.has_unsupported_jsonl || other.has_unsupported_jsonl,
            inaccessible: self.inaccessible || other.inaccessible,
            recursive_cycle: self.recursive_cycle || other.recursive_cycle,
        }
    }
}

/// Something that could not be read.
pub open spec fn found_inaccessible() -> DirectoryProbe {
    DirectoryProbe { inaccessible: true, ..nothing_found() }
}

/// A directory that was entered before.
pub open spec fn found_cycle() -> DirectoryProbe {
    DirectoryProbe { recursive_cycle: true, ..nothing_found() }
}

/// What one log adds to what was found.
pub open spec fn found_log(probe: JsonlProbe) -> DirectoryProbe {
    DirectoryProbe {
        has_data: probe is Data,
        has_unsupported_jsonl: probe is Unsupported,
        inaccessible: probe is Inaccessible,
        recursive_cycle: false,
    }
}

/// What a walk comes to: trouble on the way outweighs data, and data outweighs logs
/// of another kind.
pub open spec fn classify(probe: DirectoryProbe) -> CodexHomeValidation {
    if probe.inaccessible || probe.recursive_cycle {
        CodexHomeValidation::Inaccessible
    } else if probe.has_data {
        CodexHomeValidation::Data
    } else if probe.has_unsupported_jsonl {
        CodexHomeValidation::Unsupported
    } else {
        CodexHomeValidation::Empty
    }
}

/// What the system tells of the path that is to be walked, links followed.
#[derive(Debug, Clone, Copy, PartialEq, Eq, Structural)]
pub enum RootMetadata {
    /// It could not be told; whether something exists there.
    Unavailable { exists: bool },
    /// There is something; whether it is a directory.
    Present { is_dir: bool },
}

/// One entry of a directory, links not followed.
#[derive(Debug, PartialEq, Eq)]
pub enum DirectoryEntry {
    /// The entry or its type could not be read.
    Unreadable,
    /// A symbolic link.
    Symlink,
    /// A directory.
    Directory(NativePath),
    /// A regular file.
    File(NativePath),
    /// Anything else.
    Other,
}

/// An entry by the bytes of its path.
pub enum EntryView {
    Unreadable,
    Symlink,
    Directory(Seq<u8>),
    File(Seq<u8>),
    Other,
}

impl View for DirectoryEntry {
    type V = EntryView;

    open spec fn view(&self) -> EntryView {
        match self {
            DirectoryEntry::Unreadable => EntryView::Unreadable,
            DirectoryEntry::Symlink => EntryView::Symlink,
            DirectoryEntry::Directory(path) => EntryView::Directory(path@),
            DirectoryEntry::File(path) => EntryView::File(path@),
            DirectoryEntry::Other => EntryView::Other,
        }
    }
}

/// The entries of a directory by the bytes of their paths.
pub open spec fn entry_views(entries: Seq<DirectoryEntry>) -> Seq<EntryView> {
    entries.map_values(|entry: DirectoryEntry| entry@)
}

/// What a walk must be told next.
#[derive(Debug, PartialEq, Eq)]
pub enum WalkQuery {
    /// The metadata of the path that is to be walked.
    Stat(NativePath),
    /// The canonical form of a directory.
    Canonicalize(NativePath),
    /// The entries of a directory.
    List(NativePath),
    /// The first lines of a log.
    Read(NativePath),
}

/// A step of a walk by the bytes of its path.
pub enum WalkTask {
    Stat(Seq<u8>),
    Canonicalize(Seq<u8>),
    List(Seq<u8>),
    Read(Seq<u8>),
}

impl View for WalkQuery {
    type V = WalkTask;

    open spec fn view(&self) -> WalkTask {
        match self {
            WalkQuery::Stat(path) => WalkTask::Stat(path@),
            WalkQuery::Canonicalize(path) => WalkTask::Canonicalize(path@),
            WalkQuery::List(path) => WalkTask::List(path@),
            WalkQuery::Read(path) => WalkTask::Read(path@),
        }
    }
}

/// The steps of a walk by the bytes of their paths.
pub open spec fn task_views(tasks: Seq<WalkQuery>) -> Seq<WalkTask> {
    tasks.map_values(|task: WalkQuery| task@)
}

/// What a walk is told.
pub enum WalkAnswer {
    Metadata(RootMetadata),
    Canonical(Option<Seq<u8>>),
    Entries(Option<Seq<EntryView>>),
    Lines(Option<Seq<Option<Seq<char>>>>),
}

/// Where a walk stands: the steps ahead, the next one last; the directories entered;
/// what was found; and the outcome, where the root already settled it.
#[verifier::ext_equal]
pub struct WalkState {
    pub tasks: Seq<WalkTask>,
    pub visited: Seq<Seq<u8>>,
    pub probe: DirectoryProbe,
    pub verdict: Option<CodexHomeValidation>,
}

/// A walk that is about to begin.
pub open spec fn walk_start(path: Seq<u8>) -> WalkState {
    WalkState {
        tasks: seq![WalkTask::Stat(path)],
        visited: seq![],
        probe: nothing_found(),
        verdict: None,
    }
}

/// Whether a file is a log by its name.
pub open spec fn is_log_path(platform: Platform, path: Seq<u8>) -> bool {
    match extension_of(platform, path) {
        Some(extension) => lower_bytes(extension) == encode_utf8("jsonl"@),
        None => false,
    }
}

/// The step that an entry calls for: directories are entered and logs are read;
/// links and everything else are left alone.
pub open spec fn entry_task(platform: Platform, entry: EntryView) -> Option<WalkTask> {
    match entry {
        EntryView::Directory(path) => Some(WalkTask::Canonicalize(path)),
        EntryView::File(path) => if is_log_path(platform, path) {
            Some(WalkTask::Read(path))
        } else {
            None
        },
        _ => None,
    }
}

/// The steps that the entries call for, in order.
pub open spec fn entry_tasks(platform: Platform, entries: Seq<EntryView>) -> Seq<WalkTask>
    decreases entries.len(),
{
    if entries.len() == 0 {
        seq![]
    } else {
        let rest = entry_tasks(platform, entries.drop_first());
        match entry_task(platform, entries[0]) {
            Some(task) => seq![task] + rest,
            None => rest,
        }
    }
}

/// What unreadable entries add to what was found.
pub open spec fn found_unreadable(entries: Seq<EntryView>) -> DirectoryProbe {
    DirectoryProbe { inaccessible: entries.contains(EntryView::Unreadable), ..nothing_found() }
}

/// Where a walk stands once it has been told what it asked for. An answer to
/// something else changes nothing.
pub open spec fn walk_step(platform: Platform, state: WalkState, answer: WalkAnswer) -> WalkState {
    if state.tasks.len() == 0 {
        state
    } else {
        let rest = state.tasks.drop_last();
        let popped = WalkState { tasks: rest, ..state };
        match (state.tasks.last(), answer) {
            (WalkTask::Stat(path), WalkAnswer::Metadata(metadata)) => match metadata {
                RootMetadata::Unavailable { exists } => WalkState {
                    verdict: Some(
                        if exists {
                            CodexHomeValidation::Inaccessible
                        } else {
                            CodexHomeValidation::Unsupported
                        },
                    ),
                    ..popped
                },
                RootMetadata::Present { is_dir } => if is_dir {
                    WalkState { tasks: rest.push(WalkTask::Canonicalize(path)), ..popped }
                } else {
                    WalkState { verdict: Some(CodexHomeValidation::Unsupported), ..popped }
                },
            },
            (WalkTask::Canonicalize(path), WalkAnswer::Canonical(canonical)) => match canonical {
                Some(canonical) => if holds_path(platform, state.visited, canonical) {
                    WalkState { probe: state.probe.or(found_cycle()), ..popped }
                } else {
                    WalkState {
                        tasks: rest.push(WalkTask::List(path)),
                        visited: state.visited.push(canonical),
                        ..popped
                    }
                },
                None => WalkState { probe: state.probe.or(found_inaccessible()), ..popped },
            },
            (WalkTask::List(_), WalkAnswer::Entries(entries)) => match entries {
                Some(entries) => WalkState {
                    tasks: rest + entry_tasks(platform, entries).reverse(),
                    probe: state.probe.or(found_unreadable(entries)),
                    ..popped
                },
                None => WalkState { probe: state.probe.or(found_inaccessible()), ..popped },
            },
            (WalkTask::Read(_), WalkAnswer::Lines(lines)) => WalkState {
                probe: state.probe.or(found_log(probe_log(lines))),
                ..popped
            },
            _ => state,
        }
    }
}

/// What a walk has come to, once there is no step ahead.
pub open spec fn walk_outcome(state: WalkState) -> CodexHomeValidation {
    match state.verdict {
        Some(verdict) => verdict,
        None => classify(state.probe),
    }
}

/// A walk of a directory.
pub struct HomeInspection {
    platform: Platform,
    tasks: Vec<WalkQuery>,
    visited: Vec<NativePath>,
    probe: DirectoryProbe,
    verdict: Option<CodexHomeValidation>,
}

impl View for HomeInspection {
    type V = WalkState;

    closed spec fn view(&self) -> WalkState {
        WalkState {
            tasks: task_views(self.tasks@),
            visited: path_bytes(self.visited@),
            probe: self.probe,
            verdict: self.verdict,
        }
    }
}

impl HomeInspection {
    /// The platform whose rules the walk follows.
    pub closed spec fn on(&self) -> Platform {
        self.platform
    }

    /// A walk of the directory at a path.
    pub fn new(platform: Platform, path: &NativePath) -> (inspection: HomeInspection)
        ensures
            inspection.on() == platform,
            inspection@ == walk_start(path@),
    {
        let mut tasks: Vec<WalkQuery> = Vec::new();
        tasks.push(WalkQuery::Stat(path.to_path_buf()));
        let probe = DirectoryProbe {
            has_data: false,
            has_unsupported_jsonl: false,
            inaccessible: false,
            recursive_cycle: false,
        };
        let inspection = HomeInspection {
            platform,
            tasks,
            visited: Vec::new(),
            probe,
            verdict: None,
        };
        assert(inspection@ =~= walk_start(path@));
        inspection
    }

    /// Takes the next step off the list.
    fn pop(&mut self) -> (task: Option<WalkQuery>)
        ensures
            final(self).platform == old(self).platform,
            old(self)@.tasks.len() == 0 ==> task is None && final(self)@ == old(self)@,
            old(self)@.tasks.len() > 0 ==> {
                &&& task is Some
                &&& task->0@ == old(self)@.tasks.last()
                &&& final(self)@ == (WalkState {
                    tasks: old(self)@.tasks.drop_last(),
                    ..old(self)@
                })
            },
    {
        let task = self.tasks.pop();
        proof {
            if old(self)@.tasks.len() > 0 {
                assert(self@.tasks =~= old(self)@.tasks.drop_last());
            }
        }
        task
    }

    /// Puts a step in front of all others.
    fn push(&mut self, task: WalkQuery)
        ensures
            final(self).platform == old(self).platform,
            final(self)@ == (WalkState { tasks: old(self)@.tasks.push(task@), ..old(self)@ }),
    {
        self.tasks.push(task);
        assert(self@.tasks =~= old(self)@.tasks.push(task@));
    }

    /// Puts back a step that was taken off the list.
    fn put_back(&mut self, task: Option<WalkQuery>, Ghost(before): Ghost<WalkState>)
        requires
            old(self)@.verdict == before.verdict,
            old(self)@.probe == before.probe,
            old(self)@.visited == before.visited,
            before.tasks.len() == 0 ==> task is None && old(self)@.tasks == before.tasks,
            before.tasks.len() > 0 ==> {
                &&& task is Some
                &&& task->0@ == before.tasks.last()
                &&& old(self)@.tasks == before.tasks.drop_last()
            },
        ensures
            final(self).platform == old(self).platform,
            final(self)@ == before,
    {
        if let Some(task) = task {
            self.push(task);
            assert(self@.tasks =~= before.tasks);
        }
    }

    /// Tells the walk of the path that is to be walked. Where the walk did not ask for
    /// that, nothing changes.
    pub fn report_metadata(&mut self, metadata: RootMetadata)
        ensures
            final(self).on() == old(self).on(),
            final(self)@ == walk_step(old(self).on(), old(self)@, WalkAnswer::Metadata(metadata)),
    {
        match self.pop() {
            Some(WalkQuery::Stat(path)) => match metadata {
                RootMetadata::Unavailable { exists } => {
                    self.verdict = Some(
                        if exists {
                            CodexHomeValidation::Inaccessible
                        } else {
                            CodexHomeValidation::Unsupported
                        },
                    );
                },
                RootMetadata::Present { is_dir } => {
                    if is_dir {
                        self.push(WalkQuery::Canonicalize(path));
                    } else {
                        self.verdict = Some(CodexHomeValidation::Unsupported);
                    }
                },
            },
            task => {
                self.put_back(task, Ghost(old(self)@));
            },
        }
    }

    /// Tells the walk the canonical form of a directory, or that it has none. Where the
    /// walk did not ask for that, nothing changes.
    pub fn report_canonical(&mut self, canonical: Option<NativePath>)
        ensures
            final(self).on() == old(self).on(),
            final(self)@ == walk_step(
                old(self).on(),
                old(self)@,
                WalkAnswer::Canonical(maybe_bytes(canonical)),
            ),
    {
        match self.pop() {
            Some(WalkQuery::Canonicalize(path)) => match canonical {
                Some(canonical) => {
                    if contains_path(self.platform, &self.visited, &canonical) {
                        self.probe.recursive_cycle = true;
                    } else {
                        let ghost before = self@.visited;
                        self.visited.push(canonical);
                        assert(self@.visited =~= before.push(canonical@));
                        self.push(WalkQuery::List(path));
                    }
                },
                None => {
                    self.probe.inaccessible = true;
                },
            },
            task => {
                self.put_back(task, Ghost(old(self)@));
            },
        }
    }

    /// Tells the walk the entries of a directory, or that it cannot be listed. Where the
    /// walk did not ask for that, nothing changes.
    pub fn report_entries(&mut self, entries: Option<Vec<DirectoryEntry>>)
        ensures
            final(self).on() == old(self).on(),
            final(self)@ == walk_step(
                old(self).on(),
                old(self)@,
                WalkAnswer::Entries(
                    match entries {
                        Some(entries) => Some(entry_views(entries@)),
                        None => None,
                    },
                ),
            ),
    {
        match self.pop() {
            Some(WalkQuery::List(_)) => match entries {
                Some(listed) => {
                    self.take_entries(listed);
                },
                None => {
                    self.probe.inaccessible = true;
                },
            },
            task => {
                self.put_back(task, Ghost(old(self)@));
            },
        }
    }

    /// Puts the steps that the entries call for in front of all others, in order.
    fn take_entries(&mut self, entries: Vec<DirectoryEntry>)
        ensures
            final(self).platform == old(self).platform,
            final(self)@ == (WalkState {
                tasks: old(self)@.tasks + entry_tasks(
                    old(self).platform,
                    entry_views(entries@),
                ).reverse(),
                probe: old(self)@.probe.or(found_unreadable(entry_views(entries@))),
                ..old(self)@
            }),
    {
        let ghost views = entry_views(entries@);
        let ghost platform = self.platform;
        let ghost before = self@;
        let mut left = entries;
        let ghost mut taken = Seq::<EntryView>::empty();
        assert(entry_tasks(platform, taken).reverse() =~= Seq::<WalkTask>::empty());
        assert(before.tasks + Seq::<WalkTask>::empty() =~= before.tasks);
        while left.len() > 0
            invariant
                self.platform == platform,
                views == entry_views(left@) + taken,
                self@ == (WalkState {
                    tasks: before.tasks + entry_tasks(platform, taken).reverse(),
                    probe: before.probe.or(found_unreadable(taken)),
                    ..before
                }),
            decreases left@.len(),
        {
            let ghost left_before = left@;
            if let Some(entry) = left.pop() {
                let ghost later = taken;
                proof {
                    taken = seq![entry@] + later;
                    assert(taken.drop_first() =~= later);
                    assert(entry_views(left_before) =~= entry_views(left@).push(entry@));
                    assert(views =~= entry_views(left@) + taken);
                    assert(taken[0] == entry@);
                    assert(later.contains(EntryView::Unreadable) ==> taken.contains(
                        EntryView::Unreadable,
                    )) by {
                        if later.contains(EntryView::Unreadable) {
                            let i = choose|i: int|
                                0 <= i < later.len() && later[i] == EntryView::Unreadable;
                            assert(taken[i + 1] == EntryView::Unreadable);
                        }
                    }
                    assert(taken.contains(EntryView::Unreadable) ==> later.contains(
                        EntryView::Unreadable,
                    ) || entry@ is Unreadable) by {
                        if taken.contains(EntryView::Unreadable) && !(entry@ is Unreadable) {
                            let i = choose|i: int|
                                0 <= i < taken.len() && taken[i] == EntryView::Unreadable;
                            assert(later[i - 1] == EntryView::Unreadable);
                        }
                    }
                }
                let ghost rest = entry_tasks(platform, later);
                match entry {
                    DirectoryEntry::Unreadable => {
                        self.probe.inaccessible = true;
                        assert(taken[0] == EntryView::Unreadable);
                    },
                    DirectoryEntry::Directory(path) => {
                        let task = WalkQuery::Canonicalize(path);
                        assert((seq![task@] + rest).reverse() =~= rest.reverse().push(task@));
                        self.push(task);
                    },
                    DirectoryEntry::File(path) => {
                        if is_log(self.platform, &path) {
                            let task = WalkQuery::Read(path);
                            assert((seq![task@] + rest).reverse() =~= rest.reverse().push(task@));
                            self.push(task);
                        }
                    },
                    DirectoryEntry::Symlink | DirectoryEntry::Other => {},
                }
                assert(self@.tasks =~= before.tasks + entry_tasks(platform, taken).reverse());
            }
        }
        assert(views =~= taken);
    }

    /// Tells the walk the first lines of a log, or that it cannot be opened. Where the
    /// walk did not ask for that, nothing changes.
    pub fn report_lines(&mut self, lines: Option<&Vec<Option<String>>>)
        ensures
            final(self).on() == old(self).on(),
            final(self)@ == walk_step(
                old(self).on(),
                old(self)@,
                WalkAnswer::Lines(
                    match lines {
                        Some(lines) => Some(line_texts(lines@)),
                        None => None,
                    },
                ),
            ),
    {
        match self.pop() {
            Some(WalkQuery::Read(_)) => match probe_jsonl(lines) {
                JsonlProbe::Data => {
                    self.probe.has_data = true;
                },
                JsonlProbe::Unsupported => {
                    self.probe.has_unsupported_jsonl = true;
                },
                JsonlProbe::Inaccessible => {
                    self.probe.inaccessible = true;
                },
                JsonlProbe::Empty => {},
            },
            task => {
                self.put_back(task, Ghost(old(self)@));
            },
        }
    }
}

/// Whether a file is a log by its name.
fn is_log(platform: Platform, path: &NativePath) -> (yes: bool)
    ensures
        yes == is_log_path(platform, path@),
{
    match path.extension(platform) {
        Some(extension) => {
            let lower = lowered(extension.as_slice());
            same_bytes(lower.as_slice(), "jsonl".as_bytes())
        },
        None => false,
    }
}

/// A second copy of a step.
fn copy_task(task: &WalkQuery) -> (copy: WalkQuery)
    ensures
        copy@ == task@,
{
    match task {
        WalkQuery::Stat(path) => WalkQuery::Stat(path.to_path_buf()),
        WalkQuery::Canonicalize(path) => WalkQuery::Canonicalize(path.to_path_buf()),
        WalkQuery::List(path) => WalkQuery::List(path.to_path_buf()),
        WalkQuery::Read(path) => WalkQuery::Read(path.to_path_buf()),
    }
}

/// What a walk has come to, or what it must be told next.
pub fn validate_codex_home(inspection: &HomeInspection) -> (outcome: Result<
    CodexHomeValidation,
    WalkQuery,
>)
    ensures
        match outcome {
            Ok(validation) => inspection@.tasks.len() == 0 && validation == walk_outcome(
                inspection@,
            ),
            Err(query) => inspection@.tasks.len() > 0 && query@ == inspection@.tasks.last(),
        },
{
    let ahead = inspection.tasks.len();
    if ahead > 0 {
        return Err(copy_task(&inspection.tasks[ahead - 1]));
    }
    if let Some(verdict) = inspection.verdict {
        return Ok(verdict);
    }
    let probe = inspection.probe;
    if probe.inaccessible || probe.recursive_cycle {
        Ok(CodexHomeValidation::Inaccessible)
    } else if probe.has_data {
        Ok(CodexHomeValidation::Data)
    } else if probe.has_unsupported_jsonl {
        Ok(CodexHomeValidation::Unsupported)
    } else {
        Ok(CodexHomeValidation::Empty)
    }
}

} // verus!
