//! One revision of a repository: the repository as one of its tags shows
//! it.

use vstd::prelude::*;
use vstd::utf8::encode_utf8;
use crate::catalog::Catalog;
use crate::common::{CvmfsError, CvmfsResult};
use crate::directory_entry::DirectoryEntry;
use crate::repository::{position_of_catalog, CatalogSearch, FileSource, Repository, WalkEnd};
use crate::revision_tag::RevisionTag;

verus! {

/// A repository read at the snapshot of one tag, which need not be the
/// current one.
#[derive(Debug)]
pub struct Revision<'repo> {
    repository: &'repo Repository,
    tag: RevisionTag,
}

impl<'repo> Revision<'repo> {
    /// The repository that the revision belongs to.
    pub closed spec fn source(&self) -> Repository {
        *self.repository
    }

    /// The tag of the revision.
    pub closed spec fn label(&self) -> RevisionTag {
        self.tag
    }

    /// The revision of `repository` that `tag` names.
    pub fn new(repository: &'repo Repository, tag: RevisionTag) -> (revision: Self)
        ensures
            revision.source() == *repository,
            revision.label() == tag,
    {
        Revision { repository, tag }
    }

    /// The number of the revision.
    pub fn get_revision_number(&self) -> (number: i32)
        ensures
            number == self.label().revision,
    {
        self.tag.revision
    }

    /// The content hash of the root catalog of the revision.
    pub fn get_root_hash(&self) -> (hash: &str)
        ensures
            hash@ == self.label().hash@,
    {
        self.tag.hash.as_str()
    }

    /// The name of the tag.
    pub fn get_name(&self) -> (name: &str)
        ensures
            name@ == self.label().name@,
    {
        self.tag.name.as_str()
    }

    /// The time of the revision in seconds since the epoch.
    pub fn get_timestamp(&self) -> (time: u64)
        ensures
            time == self.label().timestamp,
    {
        self.tag.timestamp
    }

    /// The root catalog of the revision, if it has been opened.
    pub fn retrieve_root_catalog(&self) -> (catalog: CvmfsResult<&Catalog>)
        ensures
            match catalog {
                Ok(c) => position_of_catalog(self.source().opened_catalogs@, self.label().hash@)
                    < self.source().opened_catalogs@.len() && *c
                    == self.source().opened_catalogs@[position_of_catalog(
                    self.source().opened_catalogs@,
                    self.label().hash@,
                )],
                Err(e) => position_of_catalog(self.source().opened_catalogs@, self.label().hash@)
                    == self.source().opened_catalogs@.len() && e == CvmfsError::CatalogNotFound,
            },
    {
        self.repository.retrieve_catalog(self.tag.hash.as_str())
    }

    /// The catalog with the content hash `catalog_hash`, if it has been
    /// opened.
    pub fn retrieve_catalog(&self, catalog_hash: &str) -> (catalog: CvmfsResult<&Catalog>)
        ensures
            match catalog {
                Ok(c) => position_of_catalog(self.source().opened_catalogs@, catalog_hash@)
                    < self.source().opened_catalogs@.len() && *c
                    == self.source().opened_catalogs@[position_of_catalog(
                    self.source().opened_catalogs@,
                    catalog_hash@,
                )],
                Err(e) => position_of_catalog(self.source().opened_catalogs@, catalog_hash@)
                    == self.source().opened_catalogs@.len() && e == CvmfsError::CatalogNotFound,
            },
    {
        self.repository.retrieve_catalog(catalog_hash)
    }

    /// The catalog of the revision that holds `needle_path`, if every
    /// catalog on the way to it has been opened.
    pub fn retrieve_catalog_for_path(&self, needle_path: &str) -> (catalog: CvmfsResult<&Catalog>)
        ensures
            match catalog {
                Ok(c) => {
                    &&& self.source().walk_from(
                        self.label().hash@,
                        encode_utf8(needle_path@),
                    ) matches WalkEnd::Held(at)
                    &&& 0 <= at < self.source().opened_catalogs@.len()
                    &&& *c == self.source().opened_catalogs@[at]
                },
                Err(e) => self.source().walk_from(self.label().hash@, encode_utf8(needle_path@))
                    is Missing && e == CvmfsError::CatalogNotFound,
            },
    {
        match self.repository.search_catalog_from(self.tag.hash.as_str(), needle_path) {
            CatalogSearch::Held(catalog) => Ok(catalog),
            CatalogSearch::Missing(_) => Err(CvmfsError::CatalogNotFound),
        }
    }

    /// Looks up the entry of `path` in the revision.
    pub fn lookup(&self, path: &str) -> (entry: CvmfsResult<DirectoryEntry>)
        ensures
            self.source().is_lookup_result_from(self.label().hash@, encode_utf8(path@), entry),
    {
        self.repository.lookup_from(self.tag.hash.as_str(), path)
    }

    /// Where the content of the file at `path` in the revision is found.
    pub fn get_file(&self, path: &str) -> (source: CvmfsResult<FileSource>)
        ensures
            self.source().is_file_result_from(self.label().hash@, encode_utf8(path@), source),
    {
        self.repository.get_file_from(self.tag.hash.as_str(), path)
    }

    /// Lists the directory at `path` in the revision.
    pub fn list_directory(&self, path: &str) -> (list: CvmfsResult<Vec<DirectoryEntry>>)
        ensures
            self.source().is_directory_listing_from(self.label().hash@, encode_utf8(path@), list),
    {
        self.repository.list_directory_from(self.tag.hash.as_str(), path)
    }
}

} // verus!
