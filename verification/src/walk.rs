//! The directory walk as a recursion over a directory tree, and the proof that the
//! state machine of [`crate::inspection`] carries out just that recursion.

use crate::bytes::{lower_byte, lower_bytes};
use crate::inspection::{
    classify, entry_task, entry_tasks, found_cycle, found_inaccessible, found_log,
    found_unreadable, is_log_path, nothing_found, walk_outcome, walk_start, walk_step,
    DirectoryProbe, EntryView, RootMetadata, WalkAnswer, WalkState, WalkTask,
};
use crate::path::{
    are_distinct, file_name_of, holds_path, last_dot, law_extension, lemma_parted_at_last_dot,
    same_path, Platform, DOT,
};
use crate::record::{probe_log, JsonlProbe};
use crate::validation::CodexHomeValidation;
use vstd::prelude::*;
use vstd::utf8::{encode_utf8, is_ascii_chars_encode_utf8};

verus! {

/// A directory as it lies on the disk.
pub enum DirectoryTree {
    /// It has no canonical form.
    Unresolvable,
    /// It has a canonical form but cannot be listed.
    Unlistable(Seq<u8>),
    /// Its canonical form and its entries.
    Listed(Seq<u8>, Seq<TreeEntry>),
}

/// An entry of a directory, with what lies below it.
pub enum TreeEntry {
    Unreadable,
    Symlink,
    Directory(Seq<u8>, DirectoryTree),
    File(Seq<u8>, Option<Seq<Option<Seq<char>>>>),
    Other,
}

/// An entry as a listing shows it.
pub open spec fn listed_entry(entry: TreeEntry) -> EntryView {
    match entry {
        TreeEntry::Unreadable => EntryView::Unreadable,
        TreeEntry::Symlink => EntryView::Symlink,
        TreeEntry::Directory(path, _) => EntryView::Directory(path),
        TreeEntry::File(path, _) => EntryView::File(path),
        TreeEntry::Other => EntryView::Other,
    }
}

/// The entries as a listing shows them.
pub open spec fn listing(entries: Seq<TreeEntry>) -> Seq<EntryView> {
    entries.map_values(|entry: TreeEntry| listed_entry(entry))
}

/// The directories entered, and what was found, once a directory has been inspected.
pub open spec fn inspect_tree(
    platform: Platform,
    tree: DirectoryTree,
    visited: Seq<Seq<u8>>,
) -> (Seq<Seq<u8>>, DirectoryProbe)
    decreases tree,
{
    match tree {
        DirectoryTree::Unresolvable => (visited, found_inaccessible()),
        DirectoryTree::Unlistable(canonical) => if holds_path(platform, visited, canonical) {
            (visited, found_cycle())
        } else {
            (visited.push(canonical), found_inaccessible())
        },
        DirectoryTree::Listed(canonical, entries) => if holds_path(platform, visited, canonical) {
            (visited, found_cycle())
        } else {
            inspect_entries(platform, entries, visited.push(canonical))
        },
    }
}

/// The directories entered, and what was found, once the entries have been inspected
/// one after the other.
pub open spec fn inspect_entries(
    platform: Platform,
    entries: Seq<TreeEntry>,
    visited: Seq<Seq<u8>>,
) -> (Seq<Seq<u8>>, DirectoryProbe)
    decreases entries,
{
    if entries.len() == 0 {
        (visited, nothing_found())
    } else {
        let (after, found) = match entries[0] {
            TreeEntry::Unreadable => (visited, found_inaccessible()),
            TreeEntry::Directory(_, tree) => inspect_tree(platform, tree, visited),
            TreeEntry::File(path, lines) => if is_log_path(platform, path) {
                (visited, found_log(probe_log(lines)))
            } else {
                (visited, nothing_found())
            },
            _ => (visited, nothing_found()),
        };
        let (last, rest) = inspect_entries(platform, entries.drop_first(), after);
        (last, found.or(rest))
    }
}

/// What a walk is told of a directory and all below it, in the order in which it asks.
pub open spec fn tree_answers(
    platform: Platform,
    tree: DirectoryTree,
    visited: Seq<Seq<u8>>,
) -> Seq<WalkAnswer>
    decreases tree,
{
    match tree {
        DirectoryTree::Unresolvable => seq![WalkAnswer::Canonical(None)],
        DirectoryTree::Unlistable(canonical) => if holds_path(platform, visited, canonical) {
            seq![WalkAnswer::Canonical(Some(canonical))]
        } else {
            seq![WalkAnswer::Canonical(Some(canonical)), WalkAnswer::Entries(None)]
        },
        DirectoryTree::Listed(canonical, entries) => if holds_path(platform, visited, canonical) {
            seq![WalkAnswer::Canonical(Some(canonical))]
        } else {
            seq![
                WalkAnswer::Canonical(Some(canonical)),
                WalkAnswer::Entries(Some(listing(entries))),
            ] + entry_answers(platform, entries, visited.push(canonical))
        },
    }
}

/// What a walk is told of the entries of a directory, in the order in which it asks.
pub open spec fn entry_answers(
    platform: Platform,
    entries: Seq<TreeEntry>,
    visited: Seq<Seq<u8>>,
) -> Seq<WalkAnswer>
    decreases entries,
{
    if entries.len() == 0 {
        seq![]
    } else {
        match entries[0] {
            TreeEntry::Directory(_, tree) => tree_answers(platform, tree, visited) + entry_answers(
                platform,
                entries.drop_first(),
                inspect_tree(platform, tree, visited).0,
            ),
            TreeEntry::File(path, lines) => if is_log_path(platform, path) {
                seq![WalkAnswer::Lines(lines)] + entry_answers(
                    platform,
                    entries.drop_first(),
                    visited,
                )
            } else {
                entry_answers(platform, entries.drop_first(), visited)
            },
            _ => entry_answers(platform, entries.drop_first(), visited),
        }
    }
}

/// Where a walk stands once it has been told all the answers, in order.
pub open spec fn walk_run(
    platform: Platform,
    state: WalkState,
    answers: Seq<WalkAnswer>,
) -> WalkState
    decreases answers.len(),
{
    if answers.len() == 0 {
        state
    } else {
        walk_step(platform, walk_run(platform, state, answers.drop_last()), answers.last())
    }
}

/// Answers told in two portions.
proof fn lemma_run_splits(
    platform: Platform,
    state: WalkState,
    first: Seq<WalkAnswer>,
    second: Seq<WalkAnswer>,
)
    ensures
        walk_run(platform, state, first + second) == walk_run(
            platform,
            walk_run(platform, state, first),
            second,
        ),
    decreases second.len(),
{
    if second.len() == 0 {
        assert(first + second =~= first);
    } else {
        lemma_run_splits(platform, state, first, second.drop_last());
        assert((first + second).drop_last() =~= first + second.drop_last());
    }
}

/// One answer is one step.
proof fn lemma_run_one(platform: Platform, state: WalkState, answer: WalkAnswer)
    ensures
        walk_run(platform, state, seq![answer]) == walk_step(platform, state, answer),
{
    assert(seq![answer].drop_last() =~= Seq::<WalkAnswer>::empty());
    assert(walk_run(platform, state, Seq::<WalkAnswer>::empty()) == state);
}

/// A directory that is next is inspected, and only it.
proof fn lemma_run_tree(
    platform: Platform,
    state: WalkState,
    path: Seq<u8>,
    tree: DirectoryTree,
)
    requires
        state.tasks.len() > 0,
        state.tasks.last() == WalkTask::Canonicalize(path),
    ensures
        ({
            let (visited, found) = inspect_tree(platform, tree, state.visited);
            walk_run(platform, state, tree_answers(platform, tree, state.visited)) == (WalkState {
                tasks: state.tasks.drop_last(),
                visited,
                probe: state.probe.or(found),
                ..state
            })
        }),
    decreases tree,
{
    let rest = state.tasks.drop_last();
    match tree {
        DirectoryTree::Unresolvable => {
            lemma_run_one(platform, state, WalkAnswer::Canonical(None));
        },
        DirectoryTree::Unlistable(canonical) => {
            let entered = WalkAnswer::Canonical(Some(canonical));
            lemma_run_one(platform, state, entered);
            if !holds_path(platform, state.visited, canonical) {
                let listed = WalkAnswer::Entries(None);
                let next = walk_step(platform, state, entered);
                lemma_run_splits(platform, state, seq![entered], seq![listed]);
                lemma_run_one(platform, next, listed);
                assert(seq![entered] + seq![listed] =~= seq![entered, listed]);
                assert(next.tasks.drop_last() =~= rest);
            }
        },
        DirectoryTree::Listed(canonical, entries) => {
            let entered = WalkAnswer::Canonical(Some(canonical));
            lemma_run_one(platform, state, entered);
            if !holds_path(platform, state.visited, canonical) {
                let listed = WalkAnswer::Entries(Some(listing(entries)));
                let next = walk_step(platform, state, entered);
                lemma_run_splits(platform, state, seq![entered], seq![listed]);
                lemma_run_one(platform, next, listed);
                assert(seq![entered] + seq![listed] =~= seq![entered, listed]);
                assert(next.tasks.drop_last() =~= rest);
                let ready = walk_step(platform, next, listed);
                let below = entry_answers(platform, entries, state.visited.push(canonical));
                lemma_run_splits(platform, state, seq![entered, listed], below);
                lemma_run_entries(platform, ready, rest, entries);
                lemma_unreadable_counts(platform, entries, state.visited.push(canonical));
            }
        },
    }
}

/// The entries that are next are inspected, and only they.
proof fn lemma_run_entries(
    platform: Platform,
    state: WalkState,
    rest: Seq<WalkTask>,
    entries: Seq<TreeEntry>,
)
    requires
        state.tasks == rest + entry_tasks(platform, listing(entries)).reverse(),
    ensures
        ({
            let (visited, found) = inspect_entries(platform, entries, state.visited);
            let end = walk_run(platform, state, entry_answers(platform, entries, state.visited));
            &&& end.tasks == rest
            &&& end.visited == visited
            &&& end.probe.or(found_unreadable(listing(entries))) == state.probe.or(found)
            &&& end.verdict == state.verdict
            &&& state.probe.or(end.probe) == end.probe
        }),
    decreases entries,
{
    let views = listing(entries);
    if entries.len() == 0 {
        assert(rest + entry_tasks(platform, views).reverse() =~= rest);
    } else {
        let later = entries.drop_first();
        assert(views.drop_first() =~= listing(later));
        assert(views[0] == listed_entry(entries[0]));
        lemma_unreadable_first(entries);
        let tail = entry_tasks(platform, listing(later));
        match entry_task(platform, views[0]) {
            Some(task) => {
                assert((seq![task] + tail).reverse() =~= tail.reverse().push(task));
                assert(state.tasks =~= (rest + tail.reverse()).push(task));
                assert(state.tasks.drop_last() =~= rest + tail.reverse());
            },
            None => {},
        }
        match entries[0] {
            TreeEntry::Directory(path, tree) => {
                let own = tree_answers(platform, tree, state.visited);
                let next = walk_run(platform, state, own);
                lemma_run_tree(platform, state, path, tree);
                lemma_run_splits(
                    platform,
                    state,
                    own,
                    entry_answers(platform, later, next.visited),
                );
                lemma_run_entries(platform, next, rest, later);
            },
            TreeEntry::File(path, lines) => {
                if is_log_path(platform, path) {
                    let own = seq![WalkAnswer::Lines(lines)];
                    let next = walk_run(platform, state, own);
                    lemma_run_one(platform, state, WalkAnswer::Lines(lines));
                    lemma_run_splits(
                        platform,
                        state,
                        own,
                        entry_answers(platform, later, next.visited),
                    );
                    lemma_run_entries(platform, next, rest, later);
                } else {
                    lemma_run_entries(platform, state, rest, later);
                }
            },
            _ => {
                lemma_run_entries(platform, state, rest, later);
            },
        }
    }
}

/// An unreadable entry is the first one or one of the later ones.
proof fn lemma_unreadable_first(entries: Seq<TreeEntry>)
    requires
        entries.len() > 0,
    ensures
        found_unreadable(listing(entries)).inaccessible == (entries[0] is Unreadable
            || found_unreadable(listing(entries.drop_first())).inaccessible),
{
    let views = listing(entries);
    let later = listing(entries.drop_first());
    assert(views[0] == listed_entry(entries[0]));
    if later.contains(EntryView::Unreadable) {
        let i = choose|i: int| 0 <= i < later.len() && later[i] == EntryView::Unreadable;
        assert(views[i + 1] == EntryView::Unreadable);
    }
    if views.contains(EntryView::Unreadable) && !(entries[0] is Unreadable) {
        let i = choose|i: int| 0 <= i < views.len() && views[i] == EntryView::Unreadable;
        assert(later[i - 1] == EntryView::Unreadable);
    }
}

/// What unreadable entries add is part of what is found among the entries.
proof fn lemma_unreadable_counts(
    platform: Platform,
    entries: Seq<TreeEntry>,
    visited: Seq<Seq<u8>>,
)
    ensures
        ({
            let found = inspect_entries(platform, entries, visited).1;
            found_unreadable(listing(entries)).or(found) == found
        }),
    decreases entries,
{
    if entries.len() > 0 {
        lemma_unreadable_first(entries);
        let after = match entries[0] {
            TreeEntry::Directory(_, tree) => inspect_tree(platform, tree, visited).0,
            _ => visited,
        };
        lemma_unreadable_counts(platform, entries.drop_first(), after);
    } else {
        assert(!listing(entries).contains(EntryView::Unreadable));
    }
}

/// A walk that is told of a directory tree, in the order in which it asks, visits the
/// tree depth first and comes to what the recursion over the tree comes to.
pub proof fn law_walk_follows_the_tree(platform: Platform, path: Seq<u8>, tree: DirectoryTree)
    ensures
        ({
            let answers = seq![WalkAnswer::Metadata(RootMetadata::Present { is_dir: true })]
                + tree_answers(platform, tree, seq![]);
            let end = walk_run(platform, walk_start(path), answers);
            &&& end.tasks.len() == 0
            &&& walk_outcome(end) == classify(inspect_tree(platform, tree, seq![]).1)
        }),
{
    let metadata = WalkAnswer::Metadata(RootMetadata::Present { is_dir: true });
    let start = walk_start(path);
    let entered = walk_step(platform, start, metadata);
    lemma_run_one(platform, start, metadata);
    lemma_run_splits(
        platform,
        start,
        seq![metadata],
        tree_answers(platform, tree, seq![]),
    );
    assert(start.tasks.drop_last() =~= Seq::<WalkTask>::empty());
    assert(entered.tasks =~= seq![WalkTask::Canonicalize(path)]);
    assert(entered.visited =~= Seq::<Seq<u8>>::empty());
    lemma_run_tree(platform, entered, path, tree);
    assert(entered.tasks.drop_last().len() == 0);
}

/// Whether an entry is left alone: a link, or neither a file nor a directory.
pub open spec fn is_skipped(entry: TreeEntry) -> bool {
    entry is Symlink || entry is Other
}

/// A directory without the entries that are left alone, at every depth.
pub open spec fn without_skipped(tree: DirectoryTree) -> DirectoryTree
    decreases tree,
{
    match tree {
        DirectoryTree::Listed(canonical, entries) => DirectoryTree::Listed(
            canonical,
            entries_without_skipped(entries),
        ),
        _ => tree,
    }
}

/// Entries without those that are left alone, at every depth.
pub open spec fn entries_without_skipped(entries: Seq<TreeEntry>) -> Seq<TreeEntry>
    decreases entries,
{
    if entries.len() == 0 {
        seq![]
    } else {
        let rest = entries_without_skipped(entries.drop_first());
        match entries[0] {
            TreeEntry::Directory(path, tree) => seq![
                TreeEntry::Directory(path, without_skipped(tree)),
            ] + rest,
            entry => if is_skipped(entry) {
                rest
            } else {
                seq![entry] + rest
            },
        }
    }
}

/// Links, and whatever is neither a file nor a directory, make no difference wherever
/// they lie in a directory tree.
pub proof fn law_links_are_skipped(
    platform: Platform,
    tree: DirectoryTree,
    visited: Seq<Seq<u8>>,
)
    ensures
        inspect_tree(platform, without_skipped(tree), visited) == inspect_tree(
            platform,
            tree,
            visited,
        ),
    decreases tree,
{
    if let DirectoryTree::Listed(canonical, entries) = tree {
        lemma_skipped_entries(platform, entries, visited.push(canonical));
    }
}

/// Entries that are left alone make no difference among the entries of a directory.
proof fn lemma_skipped_entries(
    platform: Platform,
    entries: Seq<TreeEntry>,
    visited: Seq<Seq<u8>>,
)
    ensures
        inspect_entries(platform, entries_without_skipped(entries), visited) == inspect_entries(
            platform,
            entries,
            visited,
        ),
    decreases entries,
{
    if entries.len() > 0 {
        let rest = entries_without_skipped(entries.drop_first());
        let kept = entries_without_skipped(entries);
        let after = match entries[0] {
            TreeEntry::Directory(_, tree) => {
                law_links_are_skipped(platform, tree, visited);
                inspect_tree(platform, tree, visited).0
            },
            _ => visited,
        };
        lemma_skipped_entries(platform, entries.drop_first(), after);
        if !is_skipped(entries[0]) {
            assert(kept.drop_first() =~= rest);
        }
    }
}

/// Whether two directories are one, reached under two spellings: their canonical forms
/// and the contents of their logs are the same, and so are their file names; the paths
/// of their entries may differ in the directory.
pub open spec fn same_directory(
    platform: Platform,
    left: DirectoryTree,
    right: DirectoryTree,
) -> bool
    decreases left,
{
    match (left, right) {
        (DirectoryTree::Unresolvable, DirectoryTree::Unresolvable) => true,
        (DirectoryTree::Unlistable(here), DirectoryTree::Unlistable(there)) => here == there,
        (
            DirectoryTree::Listed(here, entries),
            DirectoryTree::Listed(there, others),
        ) => here == there && same_entries(platform, entries, others),
        _ => false,
    }
}

/// Whether two lists of entries are those of one directory, reached under two
/// spellings.
pub open spec fn same_entries(
    platform: Platform,
    left: Seq<TreeEntry>,
    right: Seq<TreeEntry>,
) -> bool
    decreases left,
{
    if left.len() == 0 || right.len() == 0 {
        left.len() == right.len()
    } else {
        &&& same_entries(platform, left.drop_first(), right.drop_first())
        &&& match (left[0], right[0]) {
            (TreeEntry::Directory(_, tree), TreeEntry::Directory(_, other)) => same_directory(
                platform,
                tree,
                other,
            ),
            (TreeEntry::File(path, lines), TreeEntry::File(other, other_lines)) => file_name_of(
                platform,
                path,
            ) == file_name_of(platform, other) && lines == other_lines,
            (entry, other) => entry == other,
        }
    }
}

/// A directory comes to the same under every spelling of its path: a root that is
/// reached through a link is walked like the root that the link leads to.
pub proof fn law_a_linked_root_comes_to_the_same(
    platform: Platform,
    path: Seq<u8>,
    tree: DirectoryTree,
    link: Seq<u8>,
    linked: DirectoryTree,
)
    requires
        same_directory(platform, tree, linked),
    ensures
        ({
            let metadata = seq![WalkAnswer::Metadata(RootMetadata::Present { is_dir: true })];
            let direct = walk_run(
                platform,
                walk_start(path),
                metadata + tree_answers(platform, tree, seq![]),
            );
            let through = walk_run(
                platform,
                walk_start(link),
                metadata + tree_answers(platform, linked, seq![]),
            );
            &&& direct.tasks.len() == 0
            &&& through.tasks.len() == 0
            &&& walk_outcome(direct) == walk_outcome(through)
        }),
{
    law_walk_follows_the_tree(platform, path, tree);
    law_walk_follows_the_tree(platform, link, linked);
    law_spelling_makes_no_difference(platform, tree, linked, seq![]);
}

/// Inspecting a directory under two spellings finds the same and enters the same.
pub proof fn law_spelling_makes_no_difference(
    platform: Platform,
    left: DirectoryTree,
    right: DirectoryTree,
    visited: Seq<Seq<u8>>,
)
    requires
        same_directory(platform, left, right),
    ensures
        inspect_tree(platform, left, visited) == inspect_tree(platform, right, visited),
    decreases left,
{
    if let DirectoryTree::Listed(canonical, entries) = left {
        if let DirectoryTree::Listed(_, others) = right {
            lemma_same_entries(platform, entries, others, visited.push(canonical));
        }
    }
}

/// Inspecting the entries of a directory under two spellings finds the same.
proof fn lemma_same_entries(
    platform: Platform,
    left: Seq<TreeEntry>,
    right: Seq<TreeEntry>,
    visited: Seq<Seq<u8>>,
)
    requires
        same_entries(platform, left, right),
    ensures
        inspect_entries(platform, left, visited) == inspect_entries(platform, right, visited),
    decreases left,
{
    if left.len() > 0 {
        let after = match left[0] {
            TreeEntry::Directory(_, tree) => {
                if let TreeEntry::Directory(_, other) = right[0] {
                    law_spelling_makes_no_difference(platform, tree, other, visited);
                }
                inspect_tree(platform, tree, visited).0
            },
            _ => visited,
        };
        lemma_same_entries(platform, left.drop_first(), right.drop_first(), after);
    }
}

/// Whatever a walk is told, it enters no directory twice and forgets nothing that it
/// has found.
pub proof fn law_walk_step_invariant(platform: Platform, state: WalkState, answer: WalkAnswer)
    requires
        are_distinct(platform, state.visited),
    ensures
        are_distinct(platform, walk_step(platform, state, answer).visited),
        state.probe.or(walk_step(platform, state, answer).probe) == walk_step(
            platform,
            state,
            answer,
        ).probe,
{
    let next = walk_step(platform, state, answer);
    if next.visited != state.visited {
        assert(next.visited == state.visited.push(next.visited.last()));
        assert forall|i: int, j: int| 0 <= i < j < next.visited.len() implies !same_path(
            platform,
            #[trigger] next.visited[i],
            #[trigger] next.visited[j],
        ) by {
            if j < state.visited.len() {
                assert(!same_path(platform, state.visited[i], state.visited[j]));
            } else {
                assert(!holds_path(platform, state.visited, next.visited[j]));
                assert(!same_path(platform, state.visited[i], next.visited[j]));
            }
        }
    }
}

/// Only a directory is walked: anything else is unsupported, and what is there but
/// tells nothing of itself is inaccessible. Either way nothing more is asked.
pub proof fn law_only_directories_are_walked(platform: Platform, path: Seq<u8>)
    ensures
        ({
            let told = |metadata: RootMetadata|
                walk_step(platform, walk_start(path), WalkAnswer::Metadata(metadata));
            let absent = told(RootMetadata::Unavailable { exists: false });
            let silent = told(RootMetadata::Unavailable { exists: true });
            let other = told(RootMetadata::Present { is_dir: false });
            &&& absent.tasks.len() == 0 && walk_outcome(absent) is Unsupported
            &&& silent.tasks.len() == 0 && walk_outcome(silent) is Inaccessible
            &&& other.tasks.len() == 0 && walk_outcome(other) is Unsupported
        }),
{
}

/// The entry that a walk reaches by going down from the entries of a directory, and
/// the directories that it has entered by then. `steps` are the positions of the
/// directories on the way and of the entry itself, each in its own directory. A
/// directory that was entered before is not gone into again.
pub open spec fn reached(
    platform: Platform,
    entries: Seq<TreeEntry>,
    visited: Seq<Seq<u8>>,
    steps: Seq<int>,
) -> Option<(TreeEntry, Seq<Seq<u8>>)>
    decreases steps.len(),
{
    if steps.len() == 0 || !(0 <= steps[0] < entries.len()) {
        None
    } else {
        let before = inspect_entries(platform, entries.take(steps[0]), visited).0;
        if steps.len() == 1 {
            Some((entries[steps[0]], before))
        } else {
            match entries[steps[0]] {
                TreeEntry::Directory(_, DirectoryTree::Listed(canonical, inner)) => if holds_path(
                    platform,
                    before,
                    canonical,
                ) {
                    None
                } else {
                    reached(platform, inner, before.push(canonical), steps.drop_first())
                },
                _ => None,
            }
        }
    }
}

/// What an entry adds to what is found, given the directories entered before it.
pub open spec fn found_at_entry(
    platform: Platform,
    entry: TreeEntry,
    visited: Seq<Seq<u8>>,
) -> DirectoryProbe {
    match entry {
        TreeEntry::Unreadable => found_inaccessible(),
        TreeEntry::Directory(_, tree) => inspect_tree(platform, tree, visited).1,
        TreeEntry::File(path, lines) => if is_log_path(platform, path) {
            found_log(probe_log(lines))
        } else {
            nothing_found()
        },
        _ => nothing_found(),
    }
}

/// What one of the entries adds is part of what is found among all of them.
proof fn lemma_entry_counts(
    platform: Platform,
    entries: Seq<TreeEntry>,
    at: int,
    visited: Seq<Seq<u8>>,
)
    requires
        0 <= at < entries.len(),
    ensures
        ({
            let found = inspect_entries(platform, entries, visited).1;
            let before = inspect_entries(platform, entries.take(at), visited).0;
            found_at_entry(platform, entries[at], before).or(found) == found
        }),
    decreases at,
{
    if at > 0 {
        let after = match entries[0] {
            TreeEntry::Directory(_, tree) => inspect_tree(platform, tree, visited).0,
            _ => visited,
        };
        assert(entries.take(at).drop_first() =~= entries.drop_first().take(at - 1));
        lemma_entry_counts(platform, entries.drop_first(), at - 1, after);
    } else {
        assert(entries.take(0) =~= Seq::<TreeEntry>::empty());
    }
}

/// Every log that a walk reaches counts, at whatever depth and whatever else lies
/// there, and so does every entry that cannot be read and every directory that cannot
/// be resolved or listed.
pub proof fn law_every_entry_counts(
    platform: Platform,
    entries: Seq<TreeEntry>,
    steps: Seq<int>,
    visited: Seq<Seq<u8>>,
)
    requires
        reached(platform, entries, visited, steps) is Some,
    ensures
        ({
            let found = inspect_entries(platform, entries, visited).1;
            let (entry, before) = reached(platform, entries, visited, steps)->0;
            match entry {
                TreeEntry::Unreadable => found.inaccessible,
                TreeEntry::Directory(_, DirectoryTree::Unresolvable) => found.inaccessible,
                TreeEntry::Directory(_, DirectoryTree::Unlistable(canonical)) => if holds_path(
                    platform,
                    before,
                    canonical,
                ) {
                    found.recursive_cycle
                } else {
                    found.inaccessible
                },
                TreeEntry::Directory(_, DirectoryTree::Listed(canonical, _)) => holds_path(
                    platform,
                    before,
                    canonical,
                ) ==> found.recursive_cycle,
                TreeEntry::File(path, lines) => is_log_path(platform, path) ==> found_log(
                    probe_log(lines),
                ).or(found) == found,
                _ => true,
            }
        }),
    decreases steps.len(),
{
    lemma_entry_counts(platform, entries, steps[0], visited);
    if steps.len() > 1 {
        let before = inspect_entries(platform, entries.take(steps[0]), visited).0;
        if let TreeEntry::Directory(_, DirectoryTree::Listed(canonical, inner)) =
            entries[steps[0]] {
            law_every_entry_counts(
                platform,
                inner,
                steps.drop_first(),
                before.push(canonical),
            );
        }
    }
}

/// Whether something in a directory, at whatever depth, cannot be read: an entry, or a
/// directory that cannot be resolved or listed.
pub open spec fn has_unreadable(tree: DirectoryTree) -> bool
    decreases tree,
{
    match tree {
        DirectoryTree::Unresolvable => true,
        DirectoryTree::Unlistable(_) => true,
        DirectoryTree::Listed(_, entries) => have_unreadable(entries),
    }
}

/// Whether something among the entries, at whatever depth, cannot be read.
pub open spec fn have_unreadable(entries: Seq<TreeEntry>) -> bool
    decreases entries,
{
    if entries.len() == 0 {
        false
    } else {
        ||| match entries[0] {
            TreeEntry::Unreadable => true,
            TreeEntry::Directory(_, tree) => has_unreadable(tree),
            _ => false,
        }
        ||| have_unreadable(entries.drop_first())
    }
}

/// Whether a log in a directory, at whatever depth, comes to a verdict.
pub open spec fn has_log(platform: Platform, tree: DirectoryTree, verdict: JsonlProbe) -> bool
    decreases tree,
{
    match tree {
        DirectoryTree::Listed(_, entries) => have_log(platform, entries, verdict),
        _ => false,
    }
}

/// Whether a log among the entries, at whatever depth, comes to a verdict.
pub open spec fn have_log(
    platform: Platform,
    entries: Seq<TreeEntry>,
    verdict: JsonlProbe,
) -> bool
    decreases entries,
{
    if entries.len() == 0 {
        false
    } else {
        ||| match entries[0] {
            TreeEntry::Directory(_, tree) => has_log(platform, tree, verdict),
            TreeEntry::File(path, lines) => is_log_path(platform, path) && probe_log(lines)
                == verdict,
            _ => false,
        }
        ||| have_log(platform, entries.drop_first(), verdict)
    }
}

/// Where a walk comes upon no cycle, it finds just what lies in the directory at any
/// depth: data where a log has data, logs of another kind where a log is one, and
/// trouble where something cannot be read.
pub proof fn law_everything_below_is_found(
    platform: Platform,
    tree: DirectoryTree,
    visited: Seq<Seq<u8>>,
)
    requires
        !inspect_tree(platform, tree, visited).1.recursive_cycle,
    ensures
        ({
            let found = inspect_tree(platform, tree, visited).1;
            &&& found.has_data == has_log(platform, tree, JsonlProbe::Data)
            &&& found.has_unsupported_jsonl == has_log(platform, tree, JsonlProbe::Unsupported)
            &&& found.inaccessible == (has_unreadable(tree) || has_log(
                platform,
                tree,
                JsonlProbe::Inaccessible,
            ))
        }),
    decreases tree,
{
    if let DirectoryTree::Listed(canonical, entries) = tree {
        lemma_all_entries_found(platform, entries, visited.push(canonical));
    }
}

/// Where the entries hold no cycle, what is found is just what lies among them.
proof fn lemma_all_entries_found(
    platform: Platform,
    entries: Seq<TreeEntry>,
    visited: Seq<Seq<u8>>,
)
    requires
        !inspect_entries(platform, entries, visited).1.recursive_cycle,
    ensures
        ({
            let found = inspect_entries(platform, entries, visited).1;
            &&& found.has_data == have_log(platform, entries, JsonlProbe::Data)
            &&& found.has_unsupported_jsonl == have_log(platform, entries, JsonlProbe::Unsupported)
            &&& found.inaccessible == (have_unreadable(entries) || have_log(
                platform,
                entries,
                JsonlProbe::Inaccessible,
            ))
        }),
    decreases entries,
{
    if entries.len() > 0 {
        let after = match entries[0] {
            TreeEntry::Directory(_, tree) => {
                law_everything_below_is_found(platform, tree, visited);
                inspect_tree(platform, tree, visited).0
            },
            _ => visited,
        };
        lemma_all_entries_found(platform, entries.drop_first(), after);
    }
}

/// Trouble outweighs data: a directory is inaccessible where anything in it, at
/// whatever depth, cannot be read, though it may hold records too.
pub proof fn law_trouble_outweighs_data(
    platform: Platform,
    tree: DirectoryTree,
    visited: Seq<Seq<u8>>,
)
    requires
        has_unreadable(tree) || has_log(platform, tree, JsonlProbe::Inaccessible),
    ensures
        classify(inspect_tree(platform, tree, visited).1) is Inaccessible,
{
    if !inspect_tree(platform, tree, visited).1.recursive_cycle {
        law_everything_below_is_found(platform, tree, visited);
    }
}

/// The canonical forms of a directory and of all directories below it, in the order in
/// which they are come upon.
pub open spec fn canonical_forms(tree: DirectoryTree) -> Seq<Seq<u8>>
    decreases tree,
{
    match tree {
        DirectoryTree::Unresolvable => seq![],
        DirectoryTree::Unlistable(canonical) => seq![canonical],
        DirectoryTree::Listed(canonical, entries) => seq![canonical] + forms_among(entries),
    }
}

/// The canonical forms of all directories among the entries and below them.
pub open spec fn forms_among(entries: Seq<TreeEntry>) -> Seq<Seq<u8>>
    decreases entries,
{
    if entries.len() == 0 {
        seq![]
    } else {
        (match entries[0] {
            TreeEntry::Directory(_, tree) => canonical_forms(tree),
            _ => seq![],
        }) + forms_among(entries.drop_first())
    }
}

/// The first of distinct paths are distinct.
proof fn lemma_distinct_front(platform: Platform, front: Seq<Seq<u8>>, back: Seq<Seq<u8>>)
    requires
        are_distinct(platform, front + back),
    ensures
        are_distinct(platform, front),
{
    assert forall|i: int, j: int| 0 <= i < j < front.len() implies !same_path(
        platform,
        #[trigger] front[i],
        #[trigger] front[j],
    ) by {
        assert((front + back)[i] == front[i]);
        assert((front + back)[j] == front[j]);
    }
}

/// One more path leaves paths distinct just where none of them spells it.
proof fn lemma_distinct_push(platform: Platform, paths: Seq<Seq<u8>>, path: Seq<u8>)
    requires
        are_distinct(platform, paths),
    ensures
        are_distinct(platform, paths.push(path)) == !holds_path(platform, paths, path),
{
    let longer = paths.push(path);
    if holds_path(platform, paths, path) {
        let i = choose|i: int|
            0 <= i < paths.len() && same_path(platform, #[trigger] paths[i], path);
        assert(longer[i] == paths[i]);
        assert(longer[paths.len() as int] == path);
        assert(same_path(platform, longer[i], longer[paths.len() as int]));
    } else {
        assert forall|i: int, j: int| 0 <= i < j < longer.len() implies !same_path(
            platform,
            #[trigger] longer[i],
            #[trigger] longer[j],
        ) by {
            assert(longer[i] == paths[i]);
            if j < paths.len() {
                assert(longer[j] == paths[j]);
            } else {
                assert(!same_path(platform, paths[i], path));
            }
        }
    }
}

/// A walk comes upon a cycle just where a directory has a canonical form that was come
/// upon before.
proof fn lemma_cycles(platform: Platform, tree: DirectoryTree, visited: Seq<Seq<u8>>)
    requires
        are_distinct(platform, visited),
    ensures
        ({
            let (after, found) = inspect_tree(platform, tree, visited);
            let all = visited + canonical_forms(tree);
            &&& found.recursive_cycle == !are_distinct(platform, all)
            &&& !found.recursive_cycle ==> after == all
        }),
    decreases tree,
{
    let all = visited + canonical_forms(tree);
    match tree {
        DirectoryTree::Unresolvable => {
            assert(all =~= visited);
        },
        DirectoryTree::Unlistable(canonical) => {
            assert(all =~= visited.push(canonical));
            lemma_distinct_push(platform, visited, canonical);
        },
        DirectoryTree::Listed(canonical, entries) => {
            let entered = visited.push(canonical);
            assert(all =~= entered + forms_among(entries));
            lemma_distinct_push(platform, visited, canonical);
            if holds_path(platform, visited, canonical) {
                if are_distinct(platform, all) {
                    lemma_distinct_front(platform, entered, forms_among(entries));
                }
            } else {
                lemma_cycles_among(platform, entries, entered);
            }
        },
    }
}

/// The entries of a directory hold a cycle just where a directory among or below them
/// has a canonical form that was come upon before.
proof fn lemma_cycles_among(platform: Platform, entries: Seq<TreeEntry>, visited: Seq<Seq<u8>>)
    requires
        are_distinct(platform, visited),
    ensures
        ({
            let (after, found) = inspect_entries(platform, entries, visited);
            let all = visited + forms_among(entries);
            &&& found.recursive_cycle == !are_distinct(platform, all)
            &&& !found.recursive_cycle ==> after == all
        }),
    decreases entries,
{
    let all = visited + forms_among(entries);
    if entries.len() == 0 {
        assert(all =~= visited);
    } else {
        let rest = entries.drop_first();
        match entries[0] {
            TreeEntry::Directory(_, tree) => {
                let next = visited + canonical_forms(tree);
                assert(all =~= next + forms_among(rest));
                lemma_cycles(platform, tree, visited);
                if are_distinct(platform, all) {
                    lemma_distinct_front(platform, next, forms_among(rest));
                }
                if are_distinct(platform, next) {
                    lemma_cycles_among(platform, rest, next);
                }
            },
            _ => {
                assert(all =~= visited + forms_among(rest));
                lemma_cycles_among(platform, rest, visited);
            },
        }
    }
}

/// What a directory comes to, in terms of what lies in it at any depth: inaccessible
/// where anything cannot be read or a directory is come upon twice; else data where a
/// log has data; else unsupported where a log is of another kind; and else empty.
pub proof fn law_what_a_directory_comes_to(platform: Platform, path: Seq<u8>, tree: DirectoryTree)
    ensures
        ({
            let answers = seq![WalkAnswer::Metadata(RootMetadata::Present { is_dir: true })]
                + tree_answers(platform, tree, seq![]);
            let end = walk_run(platform, walk_start(path), answers);
            &&& end.tasks.len() == 0
            &&& walk_outcome(end) == (if has_unreadable(tree) || has_log(
                platform,
                tree,
                JsonlProbe::Inaccessible,
            ) || !are_distinct(platform, canonical_forms(tree)) {
                CodexHomeValidation::Inaccessible
            } else if has_log(platform, tree, JsonlProbe::Data) {
                CodexHomeValidation::Data
            } else if has_log(platform, tree, JsonlProbe::Unsupported) {
                CodexHomeValidation::Unsupported
            } else {
                CodexHomeValidation::Empty
            })
        }),
{
    let none = Seq::<Seq<u8>>::empty();
    law_walk_follows_the_tree(platform, path, tree);
    lemma_cycles(platform, tree, none);
    assert(none + canonical_forms(tree) =~= canonical_forms(tree));
    if !inspect_tree(platform, tree, none).1.recursive_cycle {
        law_everything_below_is_found(platform, tree, none);
    }
}

/// A file is a log just where its name is something, a dot and `jsonl`, in any case of
/// the ASCII letters.
pub proof fn law_log_names(
    platform: Platform,
    path: Seq<u8>,
    name: Seq<u8>,
    stem: Seq<u8>,
    extension: Seq<u8>,
)
    requires
        file_name_of(platform, path) == Some(name),
    ensures
        name == stem + seq![DOT] + extension && stem.len() > 0 && lower_bytes(extension)
            == encode_utf8("jsonl"@) ==> is_log_path(platform, path),
        is_log_path(platform, path) ==> exists|at: int|
            0 < at < name.len() && name[at] == DOT && lower_bytes(#[trigger] name.skip(at + 1))
                == encode_utf8("jsonl"@),
{
    reveal_strlit("jsonl");
    is_ascii_chars_encode_utf8("jsonl"@);
    if name == stem + seq![DOT] + extension && stem.len() > 0 && lower_bytes(extension)
        == encode_utf8("jsonl"@) {
        assert(extension.len() == 5);
        assert forall|i: int| 0 <= i < 5 implies #[trigger] extension[i] != DOT by {
            assert(lower_bytes(extension)[i] == lower_byte(extension[i]));
        }
        assert(!extension.contains(DOT));
        law_extension(platform, path, name, stem, extension);
    }
    if is_log_path(platform, path) {
        let at = last_dot(name);
        lemma_parted_at_last_dot(name);
        assert(name[at] == (name.take(at) + seq![DOT] + name.skip(at + 1))[at]);
        assert(lower_bytes(name.skip(at + 1)) == encode_utf8("jsonl"@));
    }
}

/// What has no file name is no log.
pub proof fn law_nameless_paths_are_no_logs(platform: Platform, path: Seq<u8>)
    requires
        file_name_of(platform, path) is None,
    ensures
        !is_log_path(platform, path),
{
}

/// What a walk is told without having asked for it changes nothing, nor does anything
/// once the walk is over.
pub proof fn law_unasked_answers_change_nothing(
    platform: Platform,
    state: WalkState,
    answer: WalkAnswer,
)
    requires
        state.tasks.len() > 0 ==> match state.tasks.last() {
            WalkTask::Stat(_) => !(answer is Metadata),
            WalkTask::Canonicalize(_) => !(answer is Canonical),
            WalkTask::List(_) => !(answer is Entries),
            WalkTask::Read(_) => !(answer is Lines),
        },
    ensures
        walk_step(platform, state, answer) == state,
{
}

} // verus!
