//! The history of a repository: its tags, and how to find one.
//!
//! The history is published as an SQLite file. Whoever opens the file hands
//! its rows to a `History`, which keeps them and finds tags by name, by
//! revision and by time.

use vstd::prelude::*;
use vstd::string::StringExecFns;
use crate::common::{CvmfsError, CvmfsResult};
use crate::revision_tag::RevisionTag;
use crate::text::str_eq;

verus! {

/// The only schema of a history that this client reads.
pub const HISTORY_SCHEMA: &'static str = "1.0";

/// What the `properties` table says of a history.
pub struct HistoryProperties {
    pub schema: Seq<char>,
    pub fqrn: Seq<char>,
}

/// The properties after one more row of the table. A second `schema` or
/// `fqrn` is written behind the first; other keys are passed over.
pub open spec fn with_history_property(
    properties: HistoryProperties,
    key: Seq<char>,
    value: Seq<char>,
) -> HistoryProperties {
    if key == "schema"@ {
        HistoryProperties { schema: properties.schema + value, ..properties }
    } else if key == "fqrn"@ {
        HistoryProperties { fqrn: properties.fqrn + value, ..properties }
    } else {
        properties
    }
}

/// The properties after the first `n` rows of the table.
pub open spec fn history_properties(rows: Seq<(String, String)>, n: int) -> HistoryProperties
    decreases n,
{
    if n <= 0 {
        HistoryProperties { schema: Seq::empty(), fqrn: Seq::empty() }
    } else {
        with_history_property(history_properties(rows, n - 1), rows[n - 1].0@, rows[n - 1].1@)
    }
}

/// The index of the first tag with the name `name`, or the number of tags
/// where none has it.
pub open spec fn position_of_name(tags: Seq<RevisionTag>, name: Seq<char>) -> int
    decreases tags.len(),
{
    if tags.len() == 0 {
        0
    } else if tags[0].name@ == name {
        0
    } else {
        1 + position_of_name(tags.drop_first(), name)
    }
}

/// The index of the first tag of the revision `revision`, or the number of
/// tags where none is of it.
pub open spec fn position_of_revision(tags: Seq<RevisionTag>, revision: u32) -> int
    decreases tags.len(),
{
    if tags.len() == 0 {
        0
    } else if tags[0].revision == revision {
        0
    } else {
        1 + position_of_revision(tags.drop_first(), revision)
    }
}

/// The tag at index `i` is the earliest after the time `timestamp`: it is
/// later than that time, no tag later than that time is earlier than it,
/// and no tag before it in the table is as early.
pub open spec fn is_earliest_after(tags: Seq<RevisionTag>, timestamp: u64, i: int) -> bool {
    &&& 0 <= i < tags.len()
    &&& tags[i].timestamp > timestamp
    &&& forall|j: int|
        0 <= j < tags.len() && (#[trigger] tags[j]).timestamp > timestamp ==> tags[i].timestamp
            <= tags[j].timestamp && (j < i ==> tags[i].timestamp < tags[j].timestamp)
}

/// No tag is later than the time `timestamp`.
pub open spec fn none_after(tags: Seq<RevisionTag>, timestamp: u64) -> bool {
    forall|j: int| 0 <= j < tags.len() ==> (#[trigger] tags[j]).timestamp <= timestamp
}

/// The position of a name is the index of the first tag that has it.
pub proof fn lemma_position_of_name(tags: Seq<RevisionTag>, name: Seq<char>)
    ensures
        0 <= position_of_name(tags, name) <= tags.len(),
        position_of_name(tags, name) < tags.len() ==> tags[position_of_name(tags, name)].name@
            == name,
        forall|j: int| 0 <= j < position_of_name(tags, name) ==> (#[trigger] tags[j]).name@ != name,
    decreases tags.len(),
{
    if tags.len() > 0 && tags[0].name@ != name {
        let rest = tags.drop_first();
        lemma_position_of_name(rest, name);
        assert forall|j: int| 0 <= j < position_of_name(tags, name) implies (
        #[trigger] tags[j]).name@ != name by {
            if j > 0 {
                assert(rest[j - 1] == tags[j]);
            }
        }
    }
}

/// The position of a revision is the index of the first tag that is of it.
pub proof fn lemma_position_of_revision(tags: Seq<RevisionTag>, revision: u32)
    ensures
        0 <= position_of_revision(tags, revision) <= tags.len(),
        position_of_revision(tags, revision) < tags.len() ==> tags[position_of_revision(
            tags,
            revision,
        )].revision == revision,
        forall|j: int|
            0 <= j < position_of_revision(tags, revision) ==> (#[trigger] tags[j]).revision
                != revision,
    decreases tags.len(),
{
    if tags.len() > 0 && tags[0].revision != revision {
        let rest = tags.drop_first();
        lemma_position_of_revision(rest, revision);
        assert forall|j: int| 0 <= j < position_of_revision(tags, revision) implies (
        #[trigger] tags[j]).revision != revision by {
            if j > 0 {
                assert(rest[j - 1] == tags[j]);
            }
        }
    }
}

/// The tags of a repository.
#[derive(Debug)]
pub struct History {
    /// The schema of the history; always `1.0`.
    pub schema: String,
    /// The fully qualified name of the repository.
    pub fqrn: String,
    /// The rows of the `tags` table.
    pub tags: Vec<RevisionTag>,
}

impl History {
    /// A history with the properties that the rows of its `properties`
    /// table state, and no tags yet. A history of another schema than `1.0`
    /// is refused.
    pub fn new(properties: &Vec<(String, String)>) -> (history: CvmfsResult<History>)
        ensures
            match history {
                Ok(h) => {
                    &&& h.schema@ == history_properties(properties@, properties@.len() as int).schema
                    &&& h.fqrn@ == history_properties(properties@, properties@.len() as int).fqrn
                    &&& h.schema@ == HISTORY_SCHEMA@
                    &&& h.tags@.len() == 0
                },
                Err(e) => {
                    &&& history_properties(properties@, properties@.len() as int).schema
                        != HISTORY_SCHEMA@
                    &&& e matches CvmfsError::Generic(text) && text@ == "Invalid schema "@
                        + history_properties(properties@, properties@.len() as int).schema
                },
            },
    {
        let mut schema = String::new();
        let mut fqrn = String::new();
        let mut i: usize = 0;
        assert(schema@ =~= history_properties(properties@, 0).schema);
        assert(fqrn@ =~= history_properties(properties@, 0).fqrn);
        while i < properties.len()
            invariant
                i <= properties@.len(),
                schema@ == history_properties(properties@, i as int).schema,
                fqrn@ == history_properties(properties@, i as int).fqrn,
            decreases properties@.len() - i,
        {
            let row = &properties[i];
            if str_eq(row.0.as_str(), "schema") {
                schema.append(row.1.as_str());
            } else if str_eq(row.0.as_str(), "fqrn") {
                fqrn.append(row.1.as_str());
            }
            i += 1;
        }
        if !str_eq(schema.as_str(), HISTORY_SCHEMA) {
            return Err(CvmfsError::Generic(String::from_str("Invalid schema ").concat(schema.as_str())));
        }
        Ok(History { schema, fqrn, tags: Vec::new() })
    }

    /// Adds a row of the `tags` table.
    pub fn add_tag(&mut self, tag: RevisionTag)
        ensures
            final(self).tags@ == old(self).tags@.push(tag),
            final(self).schema == old(self).schema,
            final(self).fqrn == old(self).fqrn,
    {
        self.tags.push(tag);
    }

    /// The first tag with the name `name`.
    pub fn get_tag_by_name(&self, name: &str) -> (tag: Option<&RevisionTag>)
        ensures
            match tag {
                Some(t) => position_of_name(self.tags@, name@) < self.tags@.len() && *t
                    == self.tags@[position_of_name(self.tags@, name@)],
                None => position_of_name(self.tags@, name@) == self.tags@.len(),
            },
    {
        let mut i: usize = 0;
        assert(self.tags@.skip(0) =~= self.tags@);
        while i < self.tags.len()
            invariant
                i <= self.tags@.len(),
                position_of_name(self.tags@, name@) == i + position_of_name(
                    self.tags@.skip(i as int),
                    name@,
                ),
            decreases self.tags@.len() - i,
        {
            let ghost rest = self.tags@.skip(i as int);
            assert(rest[0] == self.tags@[i as int]);
            if str_eq(self.tags[i].name.as_str(), name) {
                return Some(&self.tags[i]);
            }
            assert(rest.drop_first() =~= self.tags@.skip(i + 1));
            i += 1;
        }
        None
    }

    /// The first tag of the revision `revision`.
    pub fn get_tag_by_revision(&self, revision: u32) -> (tag: Option<&RevisionTag>)
        ensures
            match tag {
                Some(t) => position_of_revision(self.tags@, revision) < self.tags@.len() && *t
                    == self.tags@[position_of_revision(self.tags@, revision)],
                None => position_of_revision(self.tags@, revision) == self.tags@.len(),
            },
    {
        let mut i: usize = 0;
        assert(self.tags@.skip(0) =~= self.tags@);
        while i < self.tags.len()
            invariant
                i <= self.tags@.len(),
                position_of_revision(self.tags@, revision) == i + position_of_revision(
                    self.tags@.skip(i as int),
                    revision,
                ),
            decreases self.tags@.len() - i,
        {
            let ghost rest = self.tags@.skip(i as int);
            assert(rest[0] == self.tags@[i as int]);
            let tag_revision = self.tags[i].revision;
            if tag_revision >= 0 && tag_revision as u32 == revision {
                return Some(&self.tags[i]);
            }
            assert(rest.drop_first() =~= self.tags@.skip(i + 1));
            i += 1;
        }
        None
    }

    /// The earliest tag that is later than `timestamp`; a tag of exactly
    /// that time does not count. Of several tags of the earliest time the
    /// first in the table is given.
    pub fn get_tag_by_date(&self, timestamp: u64) -> (tag: Option<&RevisionTag>)
        ensures
            match tag {
                Some(t) => exists|i: int|
                    is_earliest_after(self.tags@, timestamp, i) && self.tags@[i] == *t,
                None => none_after(self.tags@, timestamp),
            },
    {
        let mut best: Option<usize> = None;
        let mut i: usize = 0;
        while i < self.tags.len()
            invariant
                i <= self.tags@.len(),
                match best {
                    Some(b) => {
                        &&& b < i
                        &&& self.tags@[b as int].timestamp > timestamp
                        &&& forall|j: int|
                            0 <= j < i && (#[trigger] self.tags@[j]).timestamp > timestamp
                                ==> self.tags@[b as int].timestamp <= self.tags@[j].timestamp && (j
                                < b ==> self.tags@[b as int].timestamp < self.tags@[j].timestamp)
                    },
                    None => forall|j: int|
                        0 <= j < i ==> (#[trigger] self.tags@[j]).timestamp <= timestamp,
                },
            decreases self.tags@.len() - i,
        {
            let time = self.tags[i].timestamp;
            if time > timestamp {
                match best {
                    Some(b) => {
                        if time < self.tags[b].timestamp {
                            best = Some(i);
                        }
                    },
                    None => {
                        best = Some(i);
                    },
                }
            }
            i += 1;
        }
        match best {
            Some(b) => {
                let tag = &self.tags[b];
                assert(is_earliest_after(self.tags@, timestamp, b as int) && self.tags@[b as int]
                    == *tag);
                Some(tag)
            },
            None => None,
        }
    }
}

} // verus!
