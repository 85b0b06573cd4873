//! The local object cache.
//!
//! The cache mirrors the `data/` tree of a repository under a directory of
//! its own: `data/` holds 256 directories named `00` to `ff`, and each object
//! lies in the directory named by the first two digits of its hash. This
//! module names the paths; creating and removing them is the caller's work.

use vstd::prelude::*;
use vstd::utf8::encode_utf8;
use crate::common::{join_path, join_paths, CvmfsResult};
use crate::digest::{hex_bytes, to_hex};

verus! {

/// The name of the directory that holds the objects, as bytes.
pub open spec fn data_name() -> Seq<u8> {
    seq![100u8, 97u8, 116u8, 97u8]
}

/// The directory that holds the objects of a cache.
pub open spec fn data_path(root: Seq<u8>) -> Seq<u8> {
    join_path(root, data_name())
}

/// The directory for the objects whose hash begins with the byte `first`.
pub open spec fn bucket_path(root: Seq<u8>, first: u8) -> Seq<u8> {
    join_path(data_path(root), hex_bytes(seq![first]))
}

/// `directories` are the directories that a cache under `root` consists of:
/// `data` first, then the 256 directories `data/00` to `data/ff` in
/// ascending order.
pub open spec fn is_cache_layout(root: Seq<u8>, directories: Seq<String>) -> bool {
    &&& directories.len() == 257
    &&& encode_utf8(directories[0]@) == data_path(root)
    &&& forall|i: int|
        0 <= i < 256 ==> encode_utf8(#[trigger] directories[i + 1]@) == bucket_path(root, i as u8)
}

/// Different first bytes have different directory names, so the layout
/// names each of its 256 directories once.
pub proof fn lemma_bucket_names_differ(a: u8, b: u8)
    requires
        a != b,
    ensures
        hex_bytes(seq![a]) != hex_bytes(seq![b]),
{
    let x = hex_bytes(seq![a]);
    let y = hex_bytes(seq![b]);
    assert(seq![a][0] == a && seq![b][0] == b);
    assert(x[0] == crate::digest::hex_digit(a as int / 16));
    assert(x[1] == crate::digest::hex_digit(a as int % 16));
    assert(y[0] == crate::digest::hex_digit(b as int / 16));
    assert(y[1] == crate::digest::hex_digit(b as int % 16));
    if x == y {
        assert(a as int / 16 == b as int / 16);
        assert(a as int % 16 == b as int % 16);
    }
}

/// A cache of repository objects below one directory.
#[derive(Debug, Clone)]
pub struct Cache {
    /// The directory that holds the cache.
    pub cache_directory: String,
}

impl Cache {
    /// The directory of the cache as bytes.
    pub open spec fn root(&self) -> Seq<u8> {
        encode_utf8(self.cache_directory@)
    }

    /// A cache below `cache_directory`.
    pub fn new(cache_directory: String) -> (cache: CvmfsResult<Cache>)
        ensures
            cache matches Ok(c) && c.cache_directory == cache_directory,
    {
        Ok(Cache { cache_directory })
    }

    /// The directories that make up the cache, in the order in which to
    /// create them. Creating them again changes nothing.
    pub fn initialize(&self) -> (directories: Vec<String>)
        ensures
            is_cache_layout(self.root(), directories@),
    {
        proof {
            reveal_strlit("data");
            crate::text::lemma_ascii_encoding(data_name());
            assert("data"@ =~= crate::text::ascii_chars(data_name()));
        }
        let base_path = join_paths(self.cache_directory.as_str(), "data");
        let mut directories: Vec<String> = Vec::new();
        directories.push(base_path.clone());
        let mut i: usize = 0;
        while i < 256
            invariant
                i <= 256,
                directories@.len() == i + 1,
                encode_utf8(base_path@) == data_path(self.root()),
                encode_utf8(directories@[0]@) == data_path(self.root()),
                forall|k: int|
                    0 <= k < i ==> encode_utf8(#[trigger] directories@[k + 1]@) == bucket_path(
                        self.root(),
                        k as u8,
                    ),
            decreases 256 - i,
        {
            let first: Vec<u8> = vec![i as u8];
            assert(first@ =~= seq![i as u8]);
            let new_folder = to_hex(first.as_slice());
            let new_file = join_paths(base_path.as_str(), new_folder.as_str());
            directories.push(new_file);
            i += 1;
        }
        directories
    }

    /// Where the file `file_name` lies in the cache, whether it is there or
    /// not.
    pub fn add(&self, file_name: &str) -> (path: String)
        ensures
            encode_utf8(path@) == join_path(self.root(), encode_utf8(file_name@)),
    {
        join_paths(self.cache_directory.as_str(), file_name)
    }

    /// The path of the file `file_name` if the cache has it. Whether the
    /// file is there is for the caller to find out and to say in `present`.
    pub fn get(&self, file_name: &str, present: bool) -> (path: Option<String>)
        ensures
            path is Some <==> present,
            path matches Some(p) ==> encode_utf8(p@) == join_path(
                self.root(),
                encode_utf8(file_name@),
            ),
    {
        if present {
            Some(self.add(file_name))
        } else {
            None
        }
    }

    /// What it takes to empty the cache: the directory to remove with all
    /// that it holds, and the directories to create afterwards. The
    /// directories are created after every eviction, so that the cache is
    /// whole again; there is something to remove only where `data` is a
    /// directory, as the caller says in `data_is_directory`.
    pub fn evict(&self, data_is_directory: bool) -> (plan: (Option<String>, Vec<String>))
        ensures
            plan.0 is Some <==> data_is_directory,
            plan.0 matches Some(remove) ==> encode_utf8(remove@) == data_path(self.root()),
            is_cache_layout(self.root(), plan.1@),
    {
        let create = self.initialize();
        let remove = if data_is_directory {
            Some(create[0].clone())
        } else {
            None
        };
        (remove, create)
    }
}

} // verus!
