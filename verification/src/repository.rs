//! A repository: its manifest, its current tag and the catalogs that have
//! been opened so far.
//!
//! The repository answers questions about paths from the catalogs that it
//! holds. Where it lacks a catalog it says which one; getting the catalog,
//! opening it and handing it in is the caller's work.

use vstd::prelude::*;
use vstd::utf8::{encode_utf8, is_char_boundary};
use crate::catalog::{
    is_best_mount, mount_point, mounts, Catalog, CatalogReference, Statistics,
};
use crate::chunked_file::{extents_of, ChunkedFile};
use crate::common::{
    catalog_path, catalog_path_of, compose_object_path, is_object_hash, object_path, path_key,
    CvmfsError, CvmfsResult,
};
use crate::directory_entry::{
    chunk_extents, is_cover, suffix_of, Chunk, ContentHashTypes, DirectoryEntry,
};
use crate::fetcher::Fetcher;
use crate::history::{position_of_revision, History};
use crate::manifest::{manifest_of, Manifest, ManifestFields};
use crate::revision_tag::RevisionTag;
use crate::root_file::{read_outcome, RootFile};
use crate::cache::Cache;
use crate::text::str_eq;
use crate::time::{date_in_text, parse_replication_date, REPLICATION_DATE_FORMAT};

verus! {

/// Suffix of the object that is the history of a repository.
pub const HISTORY_SUFFIX: &'static str = "H";

/// Name of the tag of a repository that keeps no history.
pub const DEFAULT_TAG_NAME: &'static str = "trunk";

/// Where the content of a file is found.
#[derive(Debug)]
pub enum FileSource {
    /// In one object, with this path in the repository and in the cache.
    Object(String),
    /// In the chunks of this file.
    Chunked(ChunkedFile),
}

/// Where the search for the catalog of a path ends.
#[derive(Debug)]
pub enum CatalogSearch<'a> {
    /// At this catalog, which holds the path.
    Held(&'a Catalog),
    /// At a catalog that has not been opened; this is its content hash.
    Missing(String),
}

/// Where the walk down the catalogs ends: at the catalog with this index,
/// or at the content hash of a catalog that has not been opened.
pub enum WalkEnd {
    Held(int),
    Missing(Seq<char>),
}

/// The index of the first catalog with the content hash `hash`, or the
/// number of catalogs where none has it.
pub open spec fn position_of_catalog(catalogs: Seq<Catalog>, hash: Seq<char>) -> int
    decreases catalogs.len(),
{
    if catalogs.len() == 0 {
        0
    } else if catalogs[0].content_hash() == hash {
        0
    } else {
        1 + position_of_catalog(catalogs.drop_first(), hash)
    }
}

/// No two of the catalogs have the same content hash.
pub open spec fn distinct_hashes(catalogs: Seq<Catalog>) -> bool {
    forall|i: int, j: int|
        0 <= i < j < catalogs.len() ==> (#[trigger] catalogs[i]).content_hash() != (
        #[trigger] catalogs[j]).content_hash()
}

/// The walk from the catalog with the content hash `hash` down to the
/// catalog that holds the path `needle`. From each catalog the walk goes on
/// to the nested catalog that takes the path over with the longest mount
/// point; it ends where no nested catalog takes the path over, or where the
/// mount point would be no longer than `floor`, the one that led here. So
/// every step matches more of the path than the one before, and the walk
/// comes to an end whatever the catalogs hold.
pub open spec fn walk(catalogs: Seq<Catalog>, hash: Seq<char>, needle: Seq<u8>, floor: int) -> WalkEnd
    decreases needle.len() - floor,
{
    let at = position_of_catalog(catalogs, hash);
    if at >= catalogs.len() {
        WalkEnd::Missing(hash)
    } else {
        let references = catalogs[at].references();
        if exists|i: int| is_best_mount(references, needle, i) {
            let next = choose|i: int| is_best_mount(references, needle, i);
            if mount_point(references[next]).len() > floor {
                walk(
                    catalogs,
                    references[next].catalog_hash@,
                    needle,
                    mount_point(references[next]).len() as int,
                )
            } else {
                WalkEnd::Held(at)
            }
        } else {
            WalkEnd::Held(at)
        }
    }
}

/// Only one reference can be the best for a path.
pub proof fn lemma_best_mount_is_unique(
    references: Seq<CatalogReference>,
    needle: Seq<u8>,
    i: int,
    j: int,
)
    requires
        is_best_mount(references, needle, i),
        is_best_mount(references, needle, j),
    ensures
        i == j,
{
    if i < j {
        assert(mounts(mount_point(references[i]), needle));
    }
    if j < i {
        assert(mounts(mount_point(references[j]), needle));
    }
}

/// The position of a content hash is the index of the first catalog that
/// has it.
pub proof fn lemma_position_of_catalog(catalogs: Seq<Catalog>, hash: Seq<char>)
    ensures
        0 <= position_of_catalog(catalogs, hash) <= catalogs.len(),
        position_of_catalog(catalogs, hash) < catalogs.len() ==> catalogs[position_of_catalog(
            catalogs,
            hash,
        )].content_hash() == hash,
        forall|j: int|
            0 <= j < position_of_catalog(catalogs, hash) ==> (#[trigger] catalogs[j]).content_hash()
                != hash,
    decreases catalogs.len(),
{
    if catalogs.len() > 0 && catalogs[0].content_hash() != hash {
        let rest = catalogs.drop_first();
        lemma_position_of_catalog(rest, hash);
        assert forall|j: int| 0 <= j < position_of_catalog(catalogs, hash) implies (
        #[trigger] catalogs[j]).content_hash() != hash by {
            if j > 0 {
                assert(rest[j - 1] == catalogs[j]);
            }
        }
    }
}

/// The hash of a chunk with the suffix of its algorithm, as bytes.
pub open spec fn chunk_hash(chunk: Chunk) -> Seq<u8> {
    encode_utf8(chunk.content_hash@ + suffix_of(chunk.content_hash_type))
}

/// The chunks of `file` are those of the entry, each with the path of its
/// object, and the file gets its chunks where `fetcher` gets them.
pub open spec fn has_parts_of(file: ChunkedFile, entry: DirectoryEntry, fetcher: Fetcher) -> bool {
    &&& file.source() == fetcher
    &&& file.total() == entry.size
    &&& file.offset() == 0
    &&& file.parts().len() == entry.chunks@.len()
    &&& forall|i: int|
        0 <= i < entry.chunks@.len() ==> (#[trigger] file.parts()[i]).1 == entry.chunks@[i]
            && encode_utf8(file.parts()[i].0@) == object_path(
            chunk_hash(entry.chunks@[i]),
            Seq::empty(),
        )
}

/// The chunks of a file that was made from an entry cover the file, as the
/// chunks of the entry do. So what holds of reading a cover holds of
/// reading the file.
pub proof fn lemma_parts_cover_the_file(file: ChunkedFile, entry: DirectoryEntry, fetcher: Fetcher)
    requires
        has_parts_of(file, entry, fetcher),
        entry.well_formed(),
        entry.chunks@.len() > 0,
    ensures
        is_cover(extents_of(file.parts()), file.total() as int),
{
    assert(extents_of(file.parts()) =~= chunk_extents(entry.chunks@));
}

/// `source` is where the content of the file that `entry` describes is
/// found by a repository with the fetcher `fetcher`. A file with a content
/// hash of its own lies in the object of that hash; a file without lies in
/// its chunks, which are fetched as the repository fetches. A file whose hash algorithm is
/// not known is refused with a generic error, and a hash that names no
/// object is a parse error.
pub open spec fn is_source_of(
    entry: DirectoryEntry,
    fetcher: Fetcher,
    source: CvmfsResult<FileSource>,
) -> bool {
    if entry.content_hash_type == ContentHashTypes::Unknown {
        source matches Err(CvmfsError::Generic(text)) && text@
            == "unknown content hash algorithm"@
    } else {
        match entry.content_hash {
            Some(hash) => {
                let full = encode_utf8(hash@ + suffix_of(entry.content_hash_type));
                if is_char_boundary(full, 2) {
                    source matches Ok(FileSource::Object(path)) && encode_utf8(path@)
                        == object_path(full, Seq::empty())
                } else {
                    source == Err::<FileSource, _>(CvmfsError::ParseError)
                }
            },
            None => {
                if forall|i: int|
                    0 <= i < entry.chunks@.len() ==> is_char_boundary(
                        #[trigger] chunk_hash(entry.chunks@[i]),
                        2,
                    ) {
                    source matches Ok(FileSource::Chunked(file)) && has_parts_of(
                        file,
                        entry,
                        fetcher,
                    )
                } else {
                    source == Err::<FileSource, _>(CvmfsError::ParseError)
                }
            },
        }
    }
}

/// The tag of a repository that keeps no history, made up from its
/// manifest: it is named `trunk`, points at the root catalog and carries
/// the revision and the time of publication, in seconds, of the manifest.
pub open spec fn is_tag_of_manifest(tag: RevisionTag, manifest: Manifest) -> bool {
    &&& tag.name@ == DEFAULT_TAG_NAME@
    &&& tag.hash == manifest.root_catalog
    &&& tag.revision == if manifest.revision <= i32::MAX {
        manifest.revision as int
    } else {
        i32::MAX as int
    }
    &&& tag.timestamp == if manifest.last_modified < 0 {
        0
    } else {
        manifest.last_modified as int / 1000
    }
    &&& tag.channel == 0
    &&& tag.description@ == Seq::<char>::empty()
}

/// The date that an optional text of a server spells.
pub open spec fn replication_date(text: Option<&str>) -> Option<i64> {
    match text {
        Some(t) => date_in_text(t@, REPLICATION_DATE_FORMAT@),
        None => None,
    }
}

/// A repository as far as it has been read.
#[derive(Debug)]
pub struct Repository {
    /// The catalogs that have been opened, each under its content hash,
    /// and none with the hash of another.
    pub opened_catalogs: Vec<Catalog>,
    /// The manifest of the repository.
    pub manifest: Manifest,
    /// The fully qualified name of the repository.
    pub fqrn: String,
    /// The kind of server that publishes the repository.
    pub repo_type: String,
    /// Since when the server has been taking a snapshot, if it is.
    pub replicating_since: Option<i64>,
    /// When the server took its last snapshot, if that is known.
    pub last_replication: Option<i64>,
    /// The server is taking a snapshot.
    pub replicating: bool,
    /// How the objects of the repository are fetched.
    pub fetcher: Fetcher,
    /// The tag whose snapshot is read.
    pub tag: Option<RevisionTag>,
}

impl Repository {
    /// The opened catalogs are a map from content hashes to catalogs: no
    /// content hash occurs twice. A repository is made so, and taking in
    /// catalogs keeps it so.
    pub open spec fn holds_each_catalog_once(&self) -> bool {
        distinct_hashes(self.opened_catalogs@)
    }

    /// Where the walk for `needle` ends, starting at the root catalog of the
    /// current tag.
    pub open spec fn walk_from_root(&self, needle: Seq<u8>) -> WalkEnd
        recommends
            self.tag is Some,
    {
        walk(self.opened_catalogs@, self.tag->0.hash@, needle, 0)
    }

    /// What a published manifest and the replication dates of its server
    /// make a repository: the manifest is read from the root file, the
    /// repository is named as the manifest says, and it is replicating if
    /// the server states since when. A repository with a history has no
    /// current tag until one is set; one without is given the tag made up
    /// from its manifest.
    pub fn new(
        fetcher: Fetcher,
        manifest_file: &[u8],
        last_replication: Option<&str>,
        replicating_since: Option<&str>,
    ) -> (repository: CvmfsResult<Repository>)
        ensures
            match repository {
                Ok(r) => {
                    &&& read_outcome(manifest_file@) matches Ok(file)
                    &&& r.manifest.root_file.body() == file.0
                    &&& (r.manifest.root_file.checksum() is Some) == file.1
                    &&& r.manifest.root_file.well_formed()
                    &&& manifest_of(file.0) == Ok::<_, CvmfsError>(r.manifest.fields())
                    &&& r.opened_catalogs@.len() == 0
                    &&& r.holds_each_catalog_once()
                    &&& r.fqrn == r.manifest.repository_name
                    &&& r.repo_type@ == "stratum1"@
                    &&& r.last_replication == replication_date(last_replication)
                    &&& r.replicating_since == replication_date(replicating_since)
                    &&& r.replicating == (r.replicating_since is Some)
                    &&& r.fetcher == fetcher
                    &&& match r.tag {
                        Some(tag) => r.manifest.history_database is None && is_tag_of_manifest(
                            tag,
                            r.manifest,
                        ),
                        None => r.manifest.history_database is Some,
                    }
                },
                Err(e) => match read_outcome(manifest_file@) {
                    Err(reason) => e == reason,
                    Ok(file) => manifest_of(file.0) == Err::<ManifestFields, _>(e),
                },
            },
    {
        let root_file = match RootFile::new(manifest_file) {
            Ok(file) => file,
            Err(e) => {
                return Err(e);
            },
        };
        let manifest = match Manifest::new(root_file) {
            Ok(manifest) => manifest,
            Err(e) => {
                return Err(e);
            },
        };
        let last_replication = Self::get_replication_date(last_replication);
        let replicating_since = Self::get_replication_date(replicating_since);
        let tag = if manifest.has_history() {
            None
        } else {
            Some(Self::tag_of_manifest(&manifest))
        };
        Ok(
            Repository {
                opened_catalogs: Vec::new(),
                fqrn: manifest.repository_name.clone(),
                manifest,
                repo_type: "stratum1".to_owned(),
                replicating: replicating_since.is_some(),
                replicating_since,
                last_replication,
                fetcher,
                tag,
            },
        )
    }

    /// The date that a server left in one of its replication files, where
    /// the file was there and holds a date.
    pub fn get_replication_date(text: Option<&str>) -> (date: Option<i64>)
        ensures
            date == replication_date(text),
    {
        match text {
            Some(date_string) => parse_replication_date(date_string),
            None => None,
        }
    }

    /// The tag for a repository that keeps no history.
    pub fn tag_of_manifest(manifest: &Manifest) -> (tag: RevisionTag)
        ensures
            is_tag_of_manifest(tag, *manifest),
    {
        proof {
            reveal_strlit("");
        }
        let revision: i32 = if manifest.revision <= 0x7fff_ffff {
            manifest.revision as i32
        } else {
            0x7fff_ffff
        };
        let timestamp: u64 = if manifest.last_modified < 0 {
            0
        } else {
            (manifest.last_modified / 1000) as u64
        };
        let tag = RevisionTag {
            name: DEFAULT_TAG_NAME.to_owned(),
            hash: manifest.root_catalog.clone(),
            revision,
            timestamp,
            channel: 0,
            description: "".to_owned(),
        };
        assert(tag.description@ =~= Seq::<char>::empty());
        tag
    }

    /// The path of the object with the hash `object_hash` and the suffix of
    /// its kind, by which to ask the fetcher for it. A hash that cannot be
    /// cut behind its second byte names no object; that is a parse error.
    pub fn retrieve_object_with_suffix(&self, object_hash: &str, hash_suffix: &str) -> (path:
        CvmfsResult<String>)
        ensures
            match path {
                Ok(p) => {
                    &&& is_char_boundary(encode_utf8(object_hash@), 2)
                    &&& encode_utf8(p@) == object_path(
                        encode_utf8(object_hash@),
                        encode_utf8(hash_suffix@),
                    )
                },
                Err(e) => !is_char_boundary(encode_utf8(object_hash@), 2) && e
                    == CvmfsError::ParseError,
            },
    {
        if !is_object_hash(object_hash) {
            return Err(CvmfsError::ParseError);
        }
        Ok(compose_object_path(object_hash, hash_suffix))
    }

    /// Where the content of the file that an entry describes is found. A
    /// file with a content hash of its own lies in one object; a file
    /// without lies in its chunks, each an object of its own. A file whose
    /// hash algorithm is not known is refused, and so is one with a hash
    /// that names no object.
    pub fn retrieve_object(&self, dirent: &DirectoryEntry) -> (source: CvmfsResult<FileSource>)
        ensures
            is_source_of(*dirent, self.fetcher, source),
    {
        proof {
            crate::common::lemma_path_literals();
        }
        match dirent.content_hash_type {
            ContentHashTypes::Unknown => {
                return Err(CvmfsError::Generic("unknown content hash algorithm".to_owned()));
            },
            _ => {},
        }
        match dirent.content_hash_string() {
            Some(hash) => {
                match self.retrieve_object_with_suffix(hash.as_str(), "") {
                    Ok(path) => Ok(FileSource::Object(path)),
                    Err(e) => Err(e),
                }
            },
            None => {
                let mut chunks: Vec<(String, Chunk)> = Vec::new();
                let mut i: usize = 0;
                while i < dirent.chunks.len()
                    invariant
                        i <= dirent.chunks@.len(),
                        chunks@.len() == i,
                        dirent.content_hash_type != ContentHashTypes::Unknown,
                        encode_utf8(""@) == Seq::<u8>::empty(),
                        dirent.content_hash is None,
                        forall|k: int|
                            0 <= k < i ==> is_char_boundary(
                                #[trigger] chunk_hash(dirent.chunks@[k]),
                                2,
                            ),
                        forall|k: int|
                            0 <= k < i ==> (#[trigger] chunks@[k]).1 == dirent.chunks@[k]
                                && encode_utf8(chunks@[k].0@) == object_path(
                                chunk_hash(dirent.chunks@[k]),
                                Seq::empty(),
                            ),
                    decreases dirent.chunks@.len() - i,
                {
                    let chunk = &dirent.chunks[i];
                    let hash = chunk.content_hash_string();
                    let path = match self.retrieve_object_with_suffix(hash.as_str(), "") {
                        Ok(path) => path,
                        Err(e) => {
                            assert(!is_char_boundary(chunk_hash(dirent.chunks@[i as int]), 2));
                            return Err(e);
                        },
                    };
                    let copy = Chunk {
                        offset: chunk.offset,
                        size: chunk.size,
                        content_hash: chunk.content_hash.clone(),
                        content_hash_type: chunk.content_hash_type,
                    };
                    chunks.push((path, copy));
                    i += 1;
                }
                let fetcher = Fetcher {
                    cache: Cache { cache_directory: self.fetcher.cache.cache_directory.clone() },
                    source: self.fetcher.source.clone(),
                };
                let file = ChunkedFile::new(chunks, dirent.size, fetcher);
                assert(has_parts_of(file, *dirent, self.fetcher));
                Ok(FileSource::Chunked(file))
            },
        }
    }

    /// The catalog with the content hash `catalog_hash`, if it has been
    /// opened.
    pub fn retrieve_catalog(&self, catalog_hash: &str) -> (catalog: CvmfsResult<&Catalog>)
        ensures
            match catalog {
                Ok(c) => position_of_catalog(self.opened_catalogs@, catalog_hash@)
                    < self.opened_catalogs@.len() && *c == self.opened_catalogs@[position_of_catalog(
                    self.opened_catalogs@,
                    catalog_hash@,
                )],
                Err(e) => position_of_catalog(self.opened_catalogs@, catalog_hash@)
                    == self.opened_catalogs@.len() && e == CvmfsError::CatalogNotFound,
            },
    {
        let mut i: usize = 0;
        assert(self.opened_catalogs@.skip(0) =~= self.opened_catalogs@);
        while i < self.opened_catalogs.len()
            invariant
                i <= self.opened_catalogs@.len(),
                position_of_catalog(self.opened_catalogs@, catalog_hash@) == i
                    + position_of_catalog(self.opened_catalogs@.skip(i as int), catalog_hash@),
            decreases self.opened_catalogs@.len() - i,
        {
            let ghost rest = self.opened_catalogs@.skip(i as int);
            assert(rest[0] == self.opened_catalogs@[i as int]);
            if str_eq(self.opened_catalogs[i].hash(), catalog_hash) {
                return Ok(&self.opened_catalogs[i]);
            }
            assert(rest.drop_first() =~= self.opened_catalogs@.skip(i + 1));
            i += 1;
        }
        Err(CvmfsError::CatalogNotFound)
    }

    /// Takes in a catalog that was fetched and opened. It takes the place
    /// of a catalog with the same content hash, if there is one, and else
    /// comes behind the others; so no content hash comes to occur twice.
    /// Nothing else of the repository changes.
    pub fn retrieve_and_open_catalog(&mut self, catalog: Catalog)
        ensures
            final(self).opened_catalogs@ == if position_of_catalog(
                old(self).opened_catalogs@,
                catalog.content_hash(),
            ) < old(self).opened_catalogs@.len() {
                old(self).opened_catalogs@.update(
                    position_of_catalog(old(self).opened_catalogs@, catalog.content_hash()),
                    catalog,
                )
            } else {
                old(self).opened_catalogs@.push(catalog)
            },
            *final(self) == (Repository {
                opened_catalogs: final(self).opened_catalogs,
                ..*old(self)
            }),
            old(self).holds_each_catalog_once() ==> final(self).holds_each_catalog_once(),
    {
        let ghost before = self.opened_catalogs@;
        proof {
            lemma_position_of_catalog(before, catalog.content_hash());
        }
        let mut i: usize = 0;
        assert(self.opened_catalogs@.skip(0) =~= self.opened_catalogs@);
        while i < self.opened_catalogs.len()
            invariant
                *self == *old(self),
                before == self.opened_catalogs@,
                i <= self.opened_catalogs@.len(),
                position_of_catalog(before, catalog.content_hash()) <= before.len(),
                forall|j: int|
                    0 <= j < position_of_catalog(before, catalog.content_hash()) ==> (
                    #[trigger] before[j]).content_hash() != catalog.content_hash(),
                position_of_catalog(self.opened_catalogs@, catalog.content_hash()) == i
                    + position_of_catalog(
                    self.opened_catalogs@.skip(i as int),
                    catalog.content_hash(),
                ),
            decreases self.opened_catalogs@.len() - i,
        {
            let ghost rest = self.opened_catalogs@.skip(i as int);
            assert(rest[0] == self.opened_catalogs@[i as int]);
            if str_eq(self.opened_catalogs[i].hash(), catalog.hash()) {
                self.opened_catalogs.set(i, catalog);
                proof {
                    let after = self.opened_catalogs@;
                    if distinct_hashes(before) {
                        assert forall|a: int, b: int| 0 <= a < b < after.len() implies (
                        #[trigger] after[a]).content_hash() != (
                        #[trigger] after[b]).content_hash() by {
                            assert(before[a].content_hash() != before[b].content_hash());
                        }
                    }
                }
                return ;
            }
            assert(rest.drop_first() =~= self.opened_catalogs@.skip(i + 1));
            i += 1;
        }
        self.opened_catalogs.push(catalog);
        proof {
            let after = self.opened_catalogs@;
            if distinct_hashes(before) {
                assert forall|a: int, b: int| 0 <= a < b < after.len() implies (
                #[trigger] after[a]).content_hash() != (#[trigger] after[b]).content_hash() by {
                    if b < before.len() {
                        assert(before[a].content_hash() != before[b].content_hash());
                    } else {
                        assert(before[a].content_hash() != catalog.content_hash());
                    }
                }
            }
        }
    }

    /// Does the repository keep a history?
    pub fn has_history(&self) -> (yes: bool)
        ensures
            yes == (self.manifest.history_database is Some),
    {
        self.manifest.has_history()
    }

    /// The path of the object that is the history of the repository.
    pub fn retrieve_history(&self) -> (path: CvmfsResult<String>)
        ensures
            match path {
                Ok(p) => {
                    &&& self.manifest.history_database matches Some(hash)
                    &&& is_char_boundary(encode_utf8(hash@), 2)
                    &&& encode_utf8(p@) == object_path(
                        encode_utf8(hash@),
                        encode_utf8(HISTORY_SUFFIX@),
                    )
                },
                Err(e) => match self.manifest.history_database {
                    None => e == CvmfsError::HistoryNotFound,
                    Some(hash) => !is_char_boundary(encode_utf8(hash@), 2) && e
                        == CvmfsError::ParseError,
                },
            },
    {
        match &self.manifest.history_database {
            None => Err(CvmfsError::HistoryNotFound),
            Some(hash) => self.retrieve_object_with_suffix(hash.as_str(), HISTORY_SUFFIX),
        }
    }

    /// The tag of the revision `number` in the history.
    pub fn get_tag(&self, history: &History, number: u32) -> (tag: CvmfsResult<RevisionTag>)
        ensures
            match tag {
                Ok(t) => position_of_revision(history.tags@, number) < history.tags@.len() && t
                    == history.tags@[position_of_revision(history.tags@, number)],
                Err(e) => position_of_revision(history.tags@, number) == history.tags@.len() && e
                    == CvmfsError::RevisionNotFound,
            },
    {
        match history.get_tag_by_revision(number) {
            None => Err(CvmfsError::RevisionNotFound),
            Some(tag) => Ok(tag.duplicate()),
        }
    }

    /// The tag whose snapshot is read.
    pub fn current_tag(&self) -> (tag: CvmfsResult<&RevisionTag>)
        ensures
            match tag {
                Ok(t) => self.tag == Some(*t),
                Err(e) => self.tag is None && e == CvmfsError::TagNotFound,
            },
    {
        match &self.tag {
            Some(tag) => Ok(tag),
            None => Err(CvmfsError::TagNotFound),
        }
    }

    /// Makes the tag of the revision `number` the current tag. Where the
    /// history has no such revision the current tag stays.
    pub fn set_current_tag(&mut self, history: &History, number: u32) -> (done: CvmfsResult<()>)
        ensures
            *final(self) == (Repository { tag: final(self).tag, ..*old(self) }),
            match done {
                Ok(_) => position_of_revision(history.tags@, number) < history.tags@.len()
                    && final(self).tag == Some(
                    history.tags@[position_of_revision(history.tags@, number)],
                ),
                Err(e) => position_of_revision(history.tags@, number) == history.tags@.len() && e
                    == CvmfsError::RevisionNotFound && final(self).tag == old(self).tag,
            },
    {
        match self.get_tag(history, number) {
            Ok(tag) => {
                self.tag = Some(tag);
                Ok(())
            },
            Err(e) => Err(e),
        }
    }

    /// The tag of the revision that the manifest publishes.
    pub fn get_last_tag(&self, history: &History) -> (tag: CvmfsResult<RevisionTag>)
        ensures
            match tag {
                Ok(t) => position_of_revision(history.tags@, self.manifest.revision)
                    < history.tags@.len() && t == history.tags@[position_of_revision(
                    history.tags@,
                    self.manifest.revision,
                )],
                Err(e) => position_of_revision(history.tags@, self.manifest.revision)
                    == history.tags@.len() && e == CvmfsError::RevisionNotFound,
            },
    {
        self.get_tag(history, self.manifest.revision)
    }

    /// The number of the revision that is read.
    pub fn get_revision_number(&self) -> (number: CvmfsResult<i32>)
        ensures
            match number {
                Ok(n) => self.tag matches Some(tag) && n == tag.revision,
                Err(e) => self.tag is None && e == CvmfsError::TagNotFound,
            },
    {
        match self.current_tag() {
            Ok(tag) => Ok(tag.revision),
            Err(e) => Err(e),
        }
    }

    /// The content hash of the root catalog of the revision that is read.
    pub fn get_root_hash(&self) -> (hash: CvmfsResult<&str>)
        ensures
            match hash {
                Ok(h) => self.tag matches Some(tag) && h@ == tag.hash@,
                Err(e) => self.tag is None && e == CvmfsError::TagNotFound,
            },
    {
        match self.current_tag() {
            Ok(tag) => Ok(tag.hash.as_str()),
            Err(e) => Err(e),
        }
    }

    /// The name of the tag that is read.
    pub fn get_name(&self) -> (name: CvmfsResult<&str>)
        ensures
            match name {
                Ok(n) => self.tag matches Some(tag) && n@ == tag.name@,
                Err(e) => self.tag is None && e == CvmfsError::TagNotFound,
            },
    {
        match self.current_tag() {
            Ok(tag) => Ok(tag.name.as_str()),
            Err(e) => Err(e),
        }
    }

    /// The time of the revision that is read, in seconds since the epoch.
    pub fn get_timestamp(&self) -> (time: CvmfsResult<u64>)
        ensures
            match time {
                Ok(t) => self.tag matches Some(tag) && t == tag.timestamp,
                Err(e) => self.tag is None && e == CvmfsError::TagNotFound,
            },
    {
        match self.current_tag() {
            Ok(tag) => Ok(tag.timestamp),
            Err(e) => Err(e),
        }
    }

    /// The root catalog of the revision that is read, if it has been
    /// opened.
    pub fn retrieve_current_root_catalog(&self) -> (catalog: CvmfsResult<&Catalog>)
        ensures
            match catalog {
                Ok(c) => self.tag matches Some(tag) && position_of_catalog(
                    self.opened_catalogs@,
                    tag.hash@,
                ) < self.opened_catalogs@.len() && *c == self.opened_catalogs@[position_of_catalog(
                    self.opened_catalogs@,
                    tag.hash@,
                )],
                Err(e) => match self.tag {
                    None => e == CvmfsError::TagNotFound,
                    Some(tag) => position_of_catalog(self.opened_catalogs@, tag.hash@)
                        == self.opened_catalogs@.len() && e == CvmfsError::CatalogNotFound,
                },
            },
    {
        match self.get_root_hash() {
            Ok(root_hash) => self.retrieve_catalog(root_hash),
            Err(e) => Err(e),
        }
    }

    /// Where the walk for `needle` ends, starting at the catalog with the
    /// content hash `root`.
    pub open spec fn walk_from(&self, root: Seq<char>, needle: Seq<u8>) -> WalkEnd {
        walk(self.opened_catalogs@, root, needle, 0)
    }

    /// `result` is what looking up `path` below the root catalog `root`
    /// gives: what the catalog that holds the path finds under the key of
    /// the path. Where a catalog on the way has not been opened there is no
    /// catalog to ask.
    pub open spec fn is_lookup_result_from(
        &self,
        root: Seq<char>,
        path: Seq<u8>,
        result: CvmfsResult<DirectoryEntry>,
    ) -> bool {
        match self.walk_from(root, catalog_path(path)) {
            WalkEnd::Missing(_) => result == Err::<DirectoryEntry, _>(CvmfsError::CatalogNotFound),
            WalkEnd::Held(at) => 0 <= at < self.opened_catalogs@.len()
                && self.opened_catalogs@[at].is_lookup_result(path_key(path), result),
        }
    }

    /// `source` is what asking for the file at `path` below the root
    /// catalog `root` gives: the error of the lookup where that fails, not
    /// a file where the entry is none, and else the place where the content
    /// of the entry is found.
    pub open spec fn is_file_result_from(
        &self,
        root: Seq<char>,
        path: Seq<u8>,
        source: CvmfsResult<FileSource>,
    ) -> bool {
        exists|found: CvmfsResult<DirectoryEntry>| #[trigger]
            self.is_lookup_result_from(root, path, found) && match found {
                Err(e) => source == Err::<FileSource, _>(e),
                Ok(entry) => if entry.flags & 4 != 0 {
                    is_source_of(entry, self.fetcher, source)
                } else {
                    source == Err::<FileSource, _>(CvmfsError::NotAFile)
                },
            }
    }

    /// `list` is what listing the directory at `path` below the root
    /// catalog `root` gives: the error of the lookup where that fails, no
    /// such file where the entry is no directory, and else the listing of
    /// the catalog that holds the path.
    pub open spec fn is_directory_listing_from(
        &self,
        root: Seq<char>,
        path: Seq<u8>,
        list: CvmfsResult<Vec<DirectoryEntry>>,
    ) -> bool {
        exists|found: CvmfsResult<DirectoryEntry>| #[trigger]
            self.is_lookup_result_from(root, path, found) && match found {
                Err(e) => list == Err::<Vec<DirectoryEntry>, _>(e),
                Ok(entry) => if entry.flags & 1 == 0 {
                    list == Err::<Vec<DirectoryEntry>, _>(CvmfsError::FileNotFound)
                } else {
                    &&& self.walk_from(root, catalog_path(path)) matches WalkEnd::Held(at)
                    &&& 0 <= at < self.opened_catalogs@.len()
                    &&& self.opened_catalogs@[at].is_listing_result(path_key(path), list)
                },
            }
    }

    /// `result` is what looking up `path` gives: without a current tag
    /// there is no tag to read, and else the lookup goes down from the root
    /// catalog of the tag.
    pub open spec fn is_lookup_result(
        &self,
        path: Seq<u8>,
        result: CvmfsResult<DirectoryEntry>,
    ) -> bool {
        match self.tag {
            None => result == Err::<DirectoryEntry, _>(CvmfsError::TagNotFound),
            Some(tag) => self.is_lookup_result_from(tag.hash@, path, result),
        }
    }

    /// `source` is what asking for the file at `path` gives.
    pub open spec fn is_file_result(&self, path: Seq<u8>, source: CvmfsResult<FileSource>) -> bool {
        match self.tag {
            None => source == Err::<FileSource, _>(CvmfsError::TagNotFound),
            Some(tag) => self.is_file_result_from(tag.hash@, path, source),
        }
    }

    /// `list` is what listing the directory at `path` gives.
    pub open spec fn is_directory_listing(
        &self,
        path: Seq<u8>,
        list: CvmfsResult<Vec<DirectoryEntry>>,
    ) -> bool {
        match self.tag {
            None => list == Err::<Vec<DirectoryEntry>, _>(CvmfsError::TagNotFound),
            Some(tag) => self.is_directory_listing_from(tag.hash@, path, list),
        }
    }

    /// Walks down the catalogs from the one with the content hash
    /// `root_hash` to the one that holds `needle_path`, and says where the
    /// walk ends: at that catalog, or at a catalog on the way that has not
    /// been opened.
    pub fn search_catalog_from(&self, root_hash: &str, needle_path: &str) -> (search:
        CatalogSearch<'_>)
        ensures
            match search {
                CatalogSearch::Held(c) => {
                    &&& self.walk_from(root_hash@, encode_utf8(needle_path@)) matches WalkEnd::Held(
                        at,
                    )
                    &&& 0 <= at < self.opened_catalogs@.len()
                    &&& *c == self.opened_catalogs@[at]
                },
                CatalogSearch::Missing(hash) => self.walk_from(
                    root_hash@,
                    encode_utf8(needle_path@),
                ) == WalkEnd::Missing(hash@),
            },
    {
        let ghost needle = encode_utf8(needle_path@);
        let ghost catalogs = self.opened_catalogs@;
        let needle_length = needle_path.as_bytes().len();
        let mut hash: String = root_hash.to_owned();
        let mut floor: usize = 0;
        loop
            invariant
                needle == encode_utf8(needle_path@),
                needle_length == needle.len(),
                catalogs == self.opened_catalogs@,
                floor <= needle_length,
                self.walk_from(root_hash@, needle) == walk(catalogs, hash@, needle, floor as int),
            decreases needle_length - floor,
        {
            proof {
                lemma_position_of_catalog(catalogs, hash@);
            }
            let catalog = match self.retrieve_catalog(hash.as_str()) {
                Ok(catalog) => catalog,
                Err(_) => {
                    return CatalogSearch::Missing(hash);
                },
            };
            let ghost references = catalog.references();
            match catalog.find_nested_for_path(needle_path) {
                None => {
                    assert(!exists|i: int| is_best_mount(references, needle, i)) by {
                        if exists|i: int| is_best_mount(references, needle, i) {
                            let i = choose|i: int| is_best_mount(references, needle, i);
                            assert(mounts(mount_point(references[i]), needle));
                        }
                    }
                    return CatalogSearch::Held(catalog);
                },
                Some(nested_reference) => {
                    let ghost found = choose|i: int|
                        is_best_mount(references, needle, i) && references[i] == *nested_reference;
                    let ghost next = choose|i: int| is_best_mount(references, needle, i);
                    proof {
                        lemma_best_mount_is_unique(references, needle, found, next);
                    }
                    let length = nested_reference.root_path.as_str().as_bytes().len();
                    if length <= floor {
                        return CatalogSearch::Held(catalog);
                    }
                    floor = length;
                    hash = nested_reference.catalog_hash.clone();
                },
            }
        }
    }

    /// Walks down the catalogs from the root catalog of the current tag to
    /// the one that holds `needle_path`.
    pub fn search_catalog_for_path(&self, needle_path: &str) -> (search: CvmfsResult<
        CatalogSearch<'_>,
    >)
        ensures
            match search {
                Ok(CatalogSearch::Held(c)) => {
                    &&& self.tag is Some
                    &&& self.walk_from_root(encode_utf8(needle_path@)) matches WalkEnd::Held(at)
                    &&& 0 <= at < self.opened_catalogs@.len()
                    &&& *c == self.opened_catalogs@[at]
                },
                Ok(CatalogSearch::Missing(hash)) => self.tag is Some && self.walk_from_root(
                    encode_utf8(needle_path@),
                ) == WalkEnd::Missing(hash@),
                Err(e) => self.tag is None && e == CvmfsError::TagNotFound,
            },
    {
        match self.get_root_hash() {
            Ok(root_hash) => Ok(self.search_catalog_from(root_hash, needle_path)),
            Err(e) => Err(e),
        }
    }

    /// The catalog that holds `needle_path`, if every catalog on the way to
    /// it has been opened.
    pub fn retrieve_catalog_for_path(&self, needle_path: &str) -> (catalog: CvmfsResult<&Catalog>)
        ensures
            match catalog {
                Ok(c) => {
                    &&& self.tag is Some
                    &&& self.walk_from_root(encode_utf8(needle_path@)) matches WalkEnd::Held(at)
                    &&& 0 <= at < self.opened_catalogs@.len()
                    &&& *c == self.opened_catalogs@[at]
                },
                Err(e) => if self.tag is None {
                    e == CvmfsError::TagNotFound
                } else {
                    self.walk_from_root(encode_utf8(needle_path@)) is Missing && e
                        == CvmfsError::CatalogNotFound
                },
            },
    {
        match self.search_catalog_for_path(needle_path) {
            Ok(CatalogSearch::Held(catalog)) => Ok(catalog),
            Ok(CatalogSearch::Missing(_)) => Err(CvmfsError::CatalogNotFound),
            Err(e) => Err(e),
        }
    }

    /// The content hash of the catalog that has to be opened next before
    /// `path` can be looked up, or nothing where no catalog is missing.
    pub fn missing_catalog(&self, path: &str) -> (missing: CvmfsResult<Option<String>>)
        ensures
            match missing {
                Ok(Some(hash)) => self.tag is Some && self.walk_from_root(
                    catalog_path(encode_utf8(path@)),
                ) == WalkEnd::Missing(hash@),
                Ok(None) => self.tag is Some && self.walk_from_root(
                    catalog_path(encode_utf8(path@)),
                ) is Held,
                Err(e) => self.tag is None && e == CvmfsError::TagNotFound,
            },
    {
        match self.search_catalog_for_path(catalog_path_of(path)) {
            Ok(CatalogSearch::Held(_)) => Ok(None),
            Ok(CatalogSearch::Missing(hash)) => Ok(Some(hash)),
            Err(e) => Err(e),
        }
    }

    /// Looks up the entry of `path` below the root catalog with the content
    /// hash `root_hash`: in the catalog that holds the path, under the key
    /// of the path.
    pub fn lookup_from(&self, root_hash: &str, path: &str) -> (entry: CvmfsResult<DirectoryEntry>)
        ensures
            self.is_lookup_result_from(root_hash@, encode_utf8(path@), entry),
    {
        let filed = catalog_path_of(path);
        proof {
            let bytes = encode_utf8(path@);
            assert(catalog_path(catalog_path(bytes)) == catalog_path(bytes)) by {
                assert(Seq::<u8>::empty().len() != seq![47u8].len());
            }
        }
        match self.search_catalog_from(root_hash, filed) {
            CatalogSearch::Held(best_fit) => best_fit.find_directory_entry(filed),
            CatalogSearch::Missing(_) => Err(CvmfsError::CatalogNotFound),
        }
    }

    /// Where the content of the file at `path` below the root catalog with
    /// the content hash `root_hash` is found.
    pub fn get_file_from(&self, root_hash: &str, path: &str) -> (source: CvmfsResult<FileSource>)
        ensures
            self.is_file_result_from(root_hash@, encode_utf8(path@), source),
    {
        let found = self.lookup_from(root_hash, path);
        let ghost looked = found;
        let source = match found {
            Ok(directory_entry) => {
                if !directory_entry.is_file() {
                    Err(CvmfsError::NotAFile)
                } else {
                    self.retrieve_object(&directory_entry)
                }
            },
            Err(e) => Err(e),
        };
        assert(self.is_lookup_result_from(root_hash@, encode_utf8(path@), looked));
        source
    }

    /// Lists the directory at `path` below the root catalog with the
    /// content hash `root_hash`.
    pub fn list_directory_from(&self, root_hash: &str, path: &str) -> (list: CvmfsResult<
        Vec<DirectoryEntry>,
    >)
        ensures
            self.is_directory_listing_from(root_hash@, encode_utf8(path@), list),
    {
        let found = self.lookup_from(root_hash, path);
        let ghost looked = found;
        assert(self.is_lookup_result_from(root_hash@, encode_utf8(path@), looked));
        let dirent = match found {
            Ok(entry) => entry,
            Err(e) => {
                return Err(e);
            },
        };
        if !dirent.is_directory() {
            return Err(CvmfsError::FileNotFound);
        }
        let filed = catalog_path_of(path);
        proof {
            let bytes = encode_utf8(path@);
            assert(catalog_path(catalog_path(bytes)) == catalog_path(bytes)) by {
                assert(Seq::<u8>::empty().len() != seq![47u8].len());
            }
        }
        match self.search_catalog_from(root_hash, filed) {
            CatalogSearch::Held(best_fit) => best_fit.list_directory(filed),
            CatalogSearch::Missing(_) => Err(CvmfsError::CatalogNotFound),
        }
    }

    /// Looks up the entry of `path`: in the catalog that holds the path,
    /// under the key of the path.
    pub fn lookup(&self, path: &str) -> (entry: CvmfsResult<DirectoryEntry>)
        ensures
            self.is_lookup_result(encode_utf8(path@), entry),
    {
        match self.get_root_hash() {
            Ok(root_hash) => self.lookup_from(root_hash, path),
            Err(e) => Err(e),
        }
    }

    /// Where the content of the file at `path` is found. A path that names
    /// something else than a file is refused as not a file.
    pub fn get_file(&self, path: &str) -> (source: CvmfsResult<FileSource>)
        ensures
            self.is_file_result(encode_utf8(path@), source),
    {
        match self.get_root_hash() {
            Ok(root_hash) => self.get_file_from(root_hash, path),
            Err(e) => Err(e),
        }
    }

    /// Lists the directory at `path`: the entries that the catalog which
    /// holds the path has under it, in the order of their names. A path
    /// that names something else than a directory is not found.
    pub fn list_directory(&self, path: &str) -> (list: CvmfsResult<Vec<DirectoryEntry>>)
        ensures
            self.is_directory_listing(encode_utf8(path@), list),
    {
        match self.get_root_hash() {
            Ok(root_hash) => self.list_directory_from(root_hash, path),
            Err(e) => Err(e),
        }
    }

    /// The counters of the root catalog of the revision that is read.
    pub fn get_statistics(&self) -> (statistics: CvmfsResult<Statistics>)
        ensures
            match statistics {
                Ok(s) => self.tag matches Some(tag) && position_of_catalog(
                    self.opened_catalogs@,
                    tag.hash@,
                ) < self.opened_catalogs@.len() && s == crate::catalog::with_counters(
                    self.opened_catalogs@[position_of_catalog(
                        self.opened_catalogs@,
                        tag.hash@,
                    )].statistics_rows(),
                    self.opened_catalogs@[position_of_catalog(
                        self.opened_catalogs@,
                        tag.hash@,
                    )].statistics_rows().len() as int,
                ),
                Err(e) => match self.tag {
                    None => e == CvmfsError::TagNotFound,
                    Some(tag) => position_of_catalog(self.opened_catalogs@, tag.hash@)
                        == self.opened_catalogs@.len() && e == CvmfsError::CatalogNotFound,
                },
            },
    {
        match self.retrieve_current_root_catalog() {
            Ok(catalog) => Ok(catalog.get_statistics()),
            Err(e) => Err(e),
        }
    }
}

} // verus!
