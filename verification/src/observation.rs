//! What has been observed of the machine so far, and what to observe next.
//!
//! The library never touches the disk. A search that needs to know more returns the
//! [`Query`] it is stuck on; once the answer has been recorded in the
//! [`Observations`], the same search is asked again and gets further.

use crate::bytes::same_bytes;
use crate::path::{maybe_bytes, NativePath};
use crate::status::{DiscoveryStatus, StatusView};
use crate::validation::CodexHomeValidation;
use vstd::prelude::*;

verus! {

/// What the system tells of a file that exists, links followed.
#[derive(Debug, Clone, Copy, PartialEq, Eq, Structural)]
pub struct FileMetadata {
    pub is_file: bool,
    pub is_dir: bool,
    /// The Unix permission bits; 0 where there are none.
    pub mode: u32,
}

/// Something to find out about the machine.
#[derive(Debug, PartialEq, Eq)]
pub enum Query {
    /// The canonical form of a path.
    Canonicalize(NativePath),
    /// The metadata of the file at a path.
    Inspect(NativePath),
    /// What the directory at a path holds.
    ValidateHome(NativePath),
    /// The application bundles that the system's search index lists.
    FindBundles,
}

/// A query by the bytes of its path.
pub enum Question {
    Canonicalize(Seq<u8>),
    Inspect(Seq<u8>),
    ValidateHome(Seq<u8>),
    FindBundles,
}

impl View for Query {
    type V = Question;

    open spec fn view(&self) -> Question {
        match self {
            Query::Canonicalize(path) => Question::Canonicalize(path@),
            Query::Inspect(path) => Question::Inspect(path@),
            Query::ValidateHome(path) => Question::ValidateHome(path@),
            Query::FindBundles => Question::FindBundles,
        }
    }
}

/// A text, or the question that stands in its way.
pub open spec fn text_answer(answer: Result<String, Query>) -> Result<Seq<char>, Question> {
    match answer {
        Ok(text) => Ok(text@),
        Err(query) => Err(query@),
    }
}

/// A path, or the question that stands in its way.
pub open spec fn path_answer(answer: Result<NativePath, Query>) -> Result<Seq<u8>, Question> {
    match answer {
        Ok(path) => Ok(path@),
        Err(query) => Err(query@),
    }
}

/// A status, or the question that stands in its way.
pub open spec fn status_answer(answer: Result<DiscoveryStatus, Query>) -> Result<
    StatusView,
    Question,
> {
    match answer {
        Ok(status) => Ok(status@),
        Err(query) => Err(query@),
    }
}

/// What a search came to, or the question that stands in its way.
pub open spec fn search_answer(
    answer: Result<(Option<NativePath>, DiscoveryStatus), Query>,
) -> Result<(Option<Seq<u8>>, StatusView), Question> {
    match answer {
        Ok((path, status)) => Ok((maybe_bytes(path), status@)),
        Err(query) => Err(query@),
    }
}

/// The answers there are, by what was asked.
#[verifier::ext_equal]
pub struct Facts {
    pub canonical: Map<Seq<u8>, Option<Seq<u8>>>,
    pub files: Map<Seq<u8>, Option<FileMetadata>>,
    pub homes: Map<Seq<u8>, CodexHomeValidation>,
    pub bundles: Option<Seq<u8>>,
}

impl Facts {
    /// Whether the question has its answer.
    pub open spec fn answers(self, question: Question) -> bool {
        match question {
            Question::Canonicalize(path) => self.canonical.contains_key(path),
            Question::Inspect(path) => self.files.contains_key(path),
            Question::ValidateHome(path) => self.homes.contains_key(path),
            Question::FindBundles => self.bundles is Some,
        }
    }

    /// Whether every answer there is stands in `later` too.
    pub open spec fn is_part_of(self, later: Facts) -> bool {
        &&& self.canonical.submap_of(later.canonical)
        &&& self.files.submap_of(later.files)
        &&& self.homes.submap_of(later.homes)
        &&& self.bundles is Some ==> later.bundles == self.bundles
    }
}

/// The answers recorded so far.
pub struct Observations {
    canonical: Vec<(NativePath, Option<NativePath>)>,
    files: Vec<(NativePath, Option<FileMetadata>)>,
    homes: Vec<(NativePath, CodexHomeValidation)>,
    bundles: Option<Vec<u8>>,
}

/// What a list of recorded answers amounts to: a later answer replaces an earlier one.
pub open spec fn record_map<V>(records: Seq<(NativePath, V)>) -> Map<Seq<u8>, V>
    decreases records.len(),
{
    if records.len() == 0 {
        Map::empty()
    } else {
        record_map(records.drop_last()).insert(records.last().0@, records.last().1)
    }
}

/// The position of the latest record for a path.
fn find_record<V>(records: &Vec<(NativePath, V)>, path: &NativePath) -> (at: Option<usize>)
    ensures
        match at {
            Some(at) => {
                &&& at < records@.len()
                &&& record_map(records@).contains_key(path@)
                &&& record_map(records@)[path@] == records@[at as int].1
            },
            None => !record_map(records@).contains_key(path@),
        },
{
    let mut end: usize = records.len();
    assert(records@.take(end as int) == records@);
    while end > 0
        invariant
            end <= records@.len(),
            record_map(records@).contains_key(path@) == record_map(
                records@.take(end as int),
            ).contains_key(path@),
            record_map(records@)[path@] == record_map(records@.take(end as int))[path@],
        decreases end,
    {
        assert(records@.take(end as int).drop_last() == records@.take(end - 1));
        assert(records@.take(end as int).last() == records@[end - 1]);
        if same_bytes(records[end - 1].0.bytes.as_slice(), path.bytes.as_slice()) {
            return Some(end - 1);
        }
        end -= 1;
    }
    None
}

/// A new record is an insertion.
proof fn lemma_record_push<V>(records: Seq<(NativePath, V)>, path: NativePath, value: V)
    ensures
        record_map(records.push((path, value))) == record_map(records).insert(path@, value),
{
    assert(records.push((path, value)).drop_last() == records);
}

impl View for Observations {
    type V = Facts;

    closed spec fn view(&self) -> Facts {
        Facts {
            canonical: record_map(self.canonical@).map_values(
                |path: Option<NativePath>| maybe_bytes(path),
            ),
            files: record_map(self.files@),
            homes: record_map(self.homes@),
            bundles: match self.bundles {
                Some(bundles) => Some(bundles@),
                None => None,
            },
        }
    }
}

impl Observations {
    /// Nothing observed yet.
    pub fn new() -> (observations: Observations)
        ensures
            observations@ == (Facts {
                canonical: Map::empty(),
                files: Map::empty(),
                homes: Map::empty(),
                bundles: None,
            }),
    {
        let observations = Observations {
            canonical: Vec::new(),
            files: Vec::new(),
            homes: Vec::new(),
            bundles: None,
        };
        assert(observations@.canonical =~= Map::empty());
        observations
    }

    /// Records the canonical form of a path, or that it has none.
    pub fn record_canonical(&mut self, path: NativePath, canonical: Option<NativePath>)
        ensures
            final(self)@ == (Facts {
                canonical: old(self)@.canonical.insert(path@, maybe_bytes(canonical)),
                ..old(self)@
            }),
    {
        proof {
            lemma_record_push(self.canonical@, path, canonical);
        }
        self.canonical.push((path, canonical));
        assert(self@.canonical =~= old(self)@.canonical.insert(path@, maybe_bytes(canonical)));
    }

    /// Records the metadata of the file at a path, or that there is none to be had.
    pub fn record_file(&mut self, path: NativePath, metadata: Option<FileMetadata>)
        ensures
            final(self)@ == (Facts {
                files: old(self)@.files.insert(path@, metadata),
                ..old(self)@
            }),
    {
        proof {
            lemma_record_push(self.files@, path, metadata);
        }
        self.files.push((path, metadata));
    }

    /// Records what the directory at a path holds.
    pub fn record_home(&mut self, path: NativePath, validation: CodexHomeValidation)
        ensures
            final(self)@ == (Facts {
                homes: old(self)@.homes.insert(path@, validation),
                ..old(self)@
            }),
    {
        proof {
            lemma_record_push(self.homes@, path, validation);
        }
        self.homes.push((path, validation));
    }

    /// Records the output of the system's search for application bundles.
    pub fn record_bundles(&mut self, output: Vec<u8>)
        ensures
            final(self)@ == (Facts { bundles: Some(output@), ..old(self)@ }),
    {
        self.bundles = Some(output);
    }

    /// The canonical form of a path where it has one, else the path itself.
    pub fn canonical_or_original(&self, path: &NativePath) -> (known: Result<NativePath, Query>)
        ensures
            path_answer(known) == canonical_spec(self@, path@),
    {
        match find_record(&self.canonical, path) {
            Some(at) => match &self.canonical[at].1 {
                Some(canonical) => Ok(canonical.to_path_buf()),
                None => Ok(path.to_path_buf()),
            },
            None => Err(Query::Canonicalize(path.to_path_buf())),
        }
    }

    /// The metadata of the file at a path, if it has any.
    pub fn metadata(&self, path: &NativePath) -> (known: Result<Option<FileMetadata>, Query>)
        ensures
            match known {
                Ok(metadata) => self@.files.contains_key(path@) && self@.files[path@] == metadata,
                Err(query) => !self@.files.contains_key(path@) && query@ == Question::Inspect(
                    path@,
                ),
            },
    {
        match find_record(&self.files, path) {
            Some(at) => Ok(self.files[at].1),
            None => Err(Query::Inspect(path.to_path_buf())),
        }
    }

    /// What the directory at a path holds.
    pub fn validation(&self, path: &NativePath) -> (known: Result<CodexHomeValidation, Query>)
        ensures
            match known {
                Ok(validation) => self@.homes.contains_key(path@) && self@.homes[path@]
                    == validation,
                Err(query) => !self@.homes.contains_key(path@) && query@ == Question::ValidateHome(
                    path@,
                ),
            },
    {
        match find_record(&self.homes, path) {
            Some(at) => Ok(self.homes[at].1),
            None => Err(Query::ValidateHome(path.to_path_buf())),
        }
    }

    /// The output of the system's search for application bundles.
    pub fn found_bundles(&self) -> (known: Result<&Vec<u8>, Query>)
        ensures
            match known {
                Ok(output) => self@.bundles == Some(output@),
                Err(query) => self@.bundles is None && query@ == Question::FindBundles,
            },
    {
        match &self.bundles {
            Some(output) => Ok(output),
            None => Err(Query::FindBundles),
        }
    }
}

/// The canonical form of a path where it has one, else the path itself.
pub open spec fn canonical_spec(facts: Facts, path: Seq<u8>) -> Result<Seq<u8>, Question> {
    if facts.canonical.contains_key(path) {
        match facts.canonical[path] {
            Some(canonical) => Ok(canonical),
            None => Ok(path),
        }
    } else {
        Err(Question::Canonicalize(path))
    }
}

} // verus!
