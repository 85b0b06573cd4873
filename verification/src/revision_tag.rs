//! Revision tags: the named snapshots of a repository.

use vstd::prelude::*;

verus! {

/// Reads all tags, the newest first.
pub const SQL_QUERY_ALL: &'static str =
    "SELECT name, hash, revision, timestamp, channel, description FROM tags ORDER BY timestamp DESC";

/// Reads the tag with a given name.
pub const SQL_QUERY_NAME: &'static str =
    "SELECT name, hash, revision, timestamp, channel, description FROM tags WHERE name = ? LIMIT 1";

/// Reads the tag of a given revision.
pub const SQL_QUERY_REVISION: &'static str =
    "SELECT name, hash, revision, timestamp, channel, description FROM tags WHERE revision = ? LIMIT 1";

/// Reads the earliest tag after a given time.
pub const SQL_QUERY_DATE: &'static str =
    "SELECT name, hash, revision, timestamp, channel, description FROM tags WHERE timestamp > ? ORDER BY timestamp ASC LIMIT 1";

/// A named snapshot of the repository.
#[derive(Debug, Clone)]
pub struct RevisionTag {
    /// The name of the tag.
    pub name: String,
    /// The content hash of the root catalog of the snapshot.
    pub hash: String,
    /// The number of the revision.
    pub revision: i32,
    /// The time of the snapshot in seconds since the epoch.
    pub timestamp: u64,
    /// The channel of the tag.
    pub channel: i32,
    /// What the tag is for, in words.
    pub description: String,
}

impl RevisionTag {
    /// The tag that a row of the `tags` table describes.
    pub fn new(
        name: String,
        hash: String,
        revision: i32,
        timestamp: u64,
        channel: i32,
        description: String,
    ) -> (tag: RevisionTag)
        ensures
            tag == (RevisionTag { name, hash, revision, timestamp, channel, description }),
    {
        RevisionTag { name, hash, revision, timestamp, channel, description }
    }

    /// A copy of the tag.
    pub fn duplicate(&self) -> (tag: RevisionTag)
        ensures
            tag == *self,
    {
        RevisionTag {
            name: self.name.clone(),
            hash: self.hash.clone(),
            revision: self.revision,
            timestamp: self.timestamp,
            channel: self.channel,
            description: self.description.clone(),
        }
    }
}

} // verus!
