//! Getting the files of a repository.
//!
//! A fetcher knows where a repository is published and where its objects
//! are cached. It decides whether a file has to be downloaded and names the
//! address to download from and the place to store at; the download itself
//! is the caller's work.

use vstd::prelude::*;
use vstd::string::StringExecFns;
use vstd::utf8::encode_utf8;
use crate::cache::Cache;
use crate::common::{join_path, join_paths, CvmfsError, CvmfsResult};

verus! {

/// What to do to have a file at hand.
#[derive(Debug, Clone, PartialEq, Eq)]
pub enum Retrieval {
    /// The file is in the cache, at this path.
    Cached(String),
    /// The file has to be downloaded.
    Download {
        /// The address to get it from.
        url: String,
        /// The path in the cache to store it at.
        target: String,
        /// The file is published in zlib compression and is stored
        /// decompressed; otherwise its bytes are stored as they come.
        compressed: bool,
    },
}

/// Where repositories are found and where their objects are kept.
#[derive(Debug, Clone)]
pub struct Fetcher {
    /// The local cache.
    pub cache: Cache,
    /// The address under which the repository is published.
    pub source: String,
}

/// The address of a repository that lies in a local directory.
pub open spec fn local_source(directory: Seq<char>) -> Seq<char> {
    "file://"@ + directory
}

impl Fetcher {
    /// The address of the repository as bytes.
    pub open spec fn source_bytes(&self) -> Seq<u8> {
        encode_utf8(self.source@)
    }

    /// The address of the file `file_name`.
    pub open spec fn url_of(&self, file_name: Seq<u8>) -> Seq<u8> {
        join_path(self.source_bytes(), file_name)
    }

    /// The request to download the file `file_name`.
    pub open spec fn is_download(
        &self,
        retrieval: Retrieval,
        file_name: Seq<u8>,
        zipped: bool,
    ) -> bool {
        retrieval matches Retrieval::Download { url, target, compressed } && encode_utf8(url@)
            == self.url_of(file_name) && encode_utf8(target@) == join_path(
            self.cache.root(),
            file_name,
        ) && compressed == zipped
    }

    /// A fetcher for the repository at `source` with its cache below
    /// `cache_directory`. A source that is a local directory is addressed
    /// as `file://` and its path; whether it is one is for the caller to
    /// find out and to say in `source_is_directory`.
    pub fn new(source: &str, cache_directory: &str, source_is_directory: bool) -> (fetcher:
        CvmfsResult<Fetcher>)
        ensures
            fetcher matches Ok(f) && f.cache.cache_directory@ == cache_directory@ && f.source@
                == if source_is_directory {
                local_source(source@)
            } else {
                source@
            },
    {
        let source = if source_is_directory {
            String::from_str("file://").concat(source)
        } else {
            source.to_owned()
        };
        match Cache::new(cache_directory.to_owned()) {
            Ok(cache) => Ok(Fetcher { cache, source }),
            Err(e) => Err(e),
        }
    }

    /// The address under which the file `file_name` is published.
    pub fn make_file_url(&self, file_name: &str) -> (url: String)
        ensures
            encode_utf8(url@) == self.url_of(encode_utf8(file_name@)),
    {
        join_paths(self.source.as_str(), file_name)
    }

    /// What to do to have the file `file_name` as it is published, without
    /// decompression: download it, whether the cache has it or not.
    pub fn retrieve_raw_file(&self, file_name: &str) -> (retrieval: Retrieval)
        ensures
            self.is_download(retrieval, encode_utf8(file_name@), false),
    {
        Retrieval::Download {
            url: self.make_file_url(file_name),
            target: self.cache.add(file_name),
            compressed: false,
        }
    }

    /// What to do to have the object `file_name`: nothing where the cache
    /// has it, and else download and decompress it. Whether the cache has it
    /// is for the caller to find out and to say in `cached`.
    pub fn retrieve_file(&self, file_name: &str, cached: bool) -> (retrieval: Retrieval)
        ensures
            cached ==> (retrieval matches Retrieval::Cached(path) && encode_utf8(path@)
                == join_path(self.cache.root(), encode_utf8(file_name@))),
            !cached ==> self.is_download(retrieval, encode_utf8(file_name@), true),
    {
        match self.cache.get(file_name, cached) {
            Some(cached_file) => Retrieval::Cached(cached_file),
            None => self.retrieve_file_from_source(file_name),
        }
    }

    /// What to do to have the object `file_name` from the repository.
    pub fn retrieve_file_from_source(&self, file_name: &str) -> (retrieval: Retrieval)
        ensures
            self.is_download(retrieval, encode_utf8(file_name@), true),
    {
        Retrieval::Download {
            url: self.make_file_url(file_name),
            target: self.cache.add(file_name),
            compressed: true,
        }
    }

    /// The outcome of a download: the path of the file in the cache if it
    /// is there now, as the caller says in `present`, and no such file if
    /// it is not.
    pub fn retrieved(&self, file_name: &str, present: bool) -> (path: CvmfsResult<String>)
        ensures
            present ==> (path matches Ok(p) && encode_utf8(p@) == join_path(
                self.cache.root(),
                encode_utf8(file_name@),
            )),
            !present ==> path == Err::<String, _>(CvmfsError::FileNotFound),
    {
        match self.cache.get(file_name, present) {
            Some(file) => Ok(file),
            None => Err(CvmfsError::FileNotFound),
        }
    }
}

} // verus!
