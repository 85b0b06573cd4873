//! Error type, file names and path helpers shared by the whole client.

use vstd::prelude::*;
use vstd::utf8::{
    encode_utf8, encode_utf8_valid_utf8, is_ascii_chars, is_ascii_chars_encode_utf8,
    is_char_boundary, is_char_boundary_iff_not_is_continuation_byte,
    is_char_boundary_start_end_of_seq, is_continuation_byte, utf8_byte_ranges_bitwise,
};
use vstd::string::StringExecFns;
pub use crate::chunked_file::{ChunkedFile, FileLike};
use crate::digest::{md5_compute, md5_digest};
use crate::text::{lemma_ascii_encoding, lemma_encoding_of_concat, str_eq};

verus! {

/// Path to repository configuration files.
pub const REPO_CONFIG_PATH: &'static str = "/etc/cvmfs/repositories.d";

/// Name of the server configuration file.
pub const SERVER_CONFIG_NAME: &'static str = "server.conf";

/// REST API endpoint name for control operations.
pub const REST_CONNECTOR: &'static str = "control";

/// Name of the repository whitelist file.
pub const WHITELIST_NAME: &'static str = ".cvmfswhitelist";

/// Name of the repository manifest file.
pub const MANIFEST_NAME: &'static str = ".cvmfspublished";

/// Name of the file containing the last replication timestamp.
pub const LAST_REPLICATION_NAME: &'static str = ".cvmfs_last_snapshot";

/// Name of the file indicating ongoing replication.
pub const REPLICATING_NAME: &'static str = ".cvmfs_is_snapshotting";

/// Everything that can go wrong while a repository is read.
#[derive(Clone, Debug, PartialEq)]
pub enum CvmfsError {
    Certificate,
    IO(String),
    IncompleteRootFileSignature,
    InvalidRootFileSignature,
    CacheDirectoryNotFound,
    DatabaseError(String),
    CatalogInitialization,
    FileNotFound,
    HistoryNotFound,
    RevisionNotFound,
    InvalidTimestamp,
    ParseError,
    Sync,
    CatalogNotFound,
    TagNotFound,
    Generic(String),
    NotAFile,
}

pub type CvmfsResult<R> = Result<R, CvmfsError>;

impl CvmfsError {
    /// The fixed text that describes each kind of error.
    pub open spec fn message_text(self) -> Seq<char> {
        match self {
            CvmfsError::Certificate => "Invalid Certificate"@,
            CvmfsError::IO(_) => "IO error"@,
            CvmfsError::IncompleteRootFileSignature => "Incomplete root file signature"@,
            CvmfsError::InvalidRootFileSignature => "Invalid root file signature"@,
            CvmfsError::CacheDirectoryNotFound => "Cache directory not found"@,
            CvmfsError::DatabaseError(_) => "DatabaseError"@,
            CvmfsError::CatalogInitialization => "Catalog initialization"@,
            CvmfsError::FileNotFound => "File not found"@,
            CvmfsError::HistoryNotFound => "History not found"@,
            CvmfsError::RevisionNotFound => "Revision not found"@,
            CvmfsError::InvalidTimestamp => "Invalid timestamp"@,
            CvmfsError::ParseError => "Parse error"@,
            CvmfsError::Sync => "Synchronization error"@,
            CvmfsError::CatalogNotFound => "Catalog not found"@,
            CvmfsError::TagNotFound => "Tag not found"@,
            CvmfsError::Generic(_) => "Generic error"@,
            CvmfsError::NotAFile => "The path is not a file"@,
        }
    }

    /// Human-readable description of the error.
    pub fn message(&self) -> (text: String)
        ensures
            text@ == self.message_text(),
    {
        let text: &str = match self {
            CvmfsError::Certificate => "Invalid Certificate",
            CvmfsError::IO(_) => "IO error",
            CvmfsError::IncompleteRootFileSignature => "Incomplete root file signature",
            CvmfsError::InvalidRootFileSignature => "Invalid root file signature",
            CvmfsError::CacheDirectoryNotFound => "Cache directory not found",
            CvmfsError::DatabaseError(_) => "DatabaseError",
            CvmfsError::CatalogInitialization => "Catalog initialization",
            CvmfsError::FileNotFound => "File not found",
            CvmfsError::HistoryNotFound => "History not found",
            CvmfsError::RevisionNotFound => "Revision not found",
            CvmfsError::InvalidTimestamp => "Invalid timestamp",
            CvmfsError::ParseError => "Parse error",
            CvmfsError::Sync => "Synchronization error",
            CvmfsError::CatalogNotFound => "Catalog not found",
            CvmfsError::TagNotFound => "Tag not found",
            CvmfsError::Generic(_) => "Generic error",
            CvmfsError::NotAFile => "The path is not a file",
        };
        text.to_owned()
    }
}

impl From<String> for CvmfsError {
    fn from(value: String) -> (error: Self) {
        CvmfsError::Generic(value)
    }
}

impl vstd::std_specs::convert::FromSpecImpl<String> for CvmfsError {
    open spec fn obeys_from_spec() -> bool {
        true
    }

    open spec fn from_spec(value: String) -> Self {
        CvmfsError::Generic(value)
    }
}

impl From<&str> for CvmfsError {
    fn from(value: &str) -> (error: Self)
        ensures
            error matches CvmfsError::Generic(text) && text@ == value@,
    {
        CvmfsError::Generic(value.to_owned())
    }
}

impl vstd::std_specs::convert::FromSpecImpl<&str> for CvmfsError {
    open spec fn obeys_from_spec() -> bool {
        false
    }

    open spec fn from_spec(value: &str) -> Self {
        arbitrary()
    }
}

/// The two halves of the MD5 digest of a path, by which a catalog finds
/// its entries.
#[derive(Debug, Clone, Copy, PartialEq, Eq, Structural)]
pub struct PathHash {
    /// Bytes 0 to 7 of the digest, read as a little-endian number.
    pub hash1: i64,
    /// Bytes 8 to 15 of the digest, read as a little-endian number.
    pub hash2: i64,
}

/// The number that eight bytes write, the lowest byte first.
pub open spec fn little_endian(bytes: Seq<u8>) -> u64 {
    (bytes[0] as u64) | ((bytes[1] as u64) << 8) | ((bytes[2] as u64) << 16) | ((bytes[3] as u64)
        << 24) | ((bytes[4] as u64) << 32) | ((bytes[5] as u64) << 40) | ((bytes[6] as u64) << 48)
        | ((bytes[7] as u64) << 56)
}

/// The number that eight bytes write is the sum of the bytes, each counted
/// in its place: the first once, the second 256 times, and so on.
pub proof fn lemma_little_endian_value(bytes: Seq<u8>)
    requires
        bytes.len() == 8,
    ensures
        little_endian(bytes) == bytes[0] + 0x100 * bytes[1] + 0x1_0000 * bytes[2] + 0x100_0000
            * bytes[3] + 0x1_0000_0000 * bytes[4] + 0x100_0000_0000 * bytes[5]
            + 0x1_0000_0000_0000 * bytes[6] + 0x100_0000_0000_0000 * bytes[7],
{
    let a = bytes[0];
    let b = bytes[1];
    let c = bytes[2];
    let d = bytes[3];
    let e = bytes[4];
    let f = bytes[5];
    let g = bytes[6];
    let h = bytes[7];
    assert((a as u64) | ((b as u64) << 8) | ((c as u64) << 16) | ((d as u64) << 24) | ((e as u64)
        << 32) | ((f as u64) << 40) | ((g as u64) << 48) | ((h as u64) << 56) == a + 0x100 * b
        + 0x1_0000 * c + 0x100_0000 * d + 0x1_0000_0000 * e + 0x100_0000_0000 * f
        + 0x1_0000_0000_0000 * g + 0x100_0000_0000_0000 * h) by (bit_vector);
}

/// A digest of sixteen bytes as two signed numbers of 64 bits. The bits of
/// each half are kept as they are, so a half with its highest bit set is a
/// negative number.
pub open spec fn split_digest(digest: Seq<u8>) -> PathHash {
    PathHash {
        hash1: little_endian(digest.subrange(0, 8)) as i64,
        hash2: little_endian(digest.subrange(8, 16)) as i64,
    }
}

/// The path under which a catalog files an entry: the root directory `/` is
/// filed under the empty path, every other path under itself.
pub open spec fn catalog_path(path: Seq<u8>) -> Seq<u8> {
    if path == seq![47u8] {
        Seq::empty()
    } else {
        path
    }
}

/// The key under which a catalog files the entry of a path.
pub open spec fn path_key(path: Seq<u8>) -> PathHash {
    split_digest(md5_digest(catalog_path(path)))
}

/// The directory that holds every object.
pub open spec fn data_directory() -> Seq<u8> {
    seq![100u8, 97u8, 116u8, 97u8, 47u8]
}

/// Where an object is kept: under `data/`, in the directory named by the
/// first two bytes of its hash, in the file named by the rest of the hash
/// and the suffix of its kind.
pub open spec fn object_path(hash: Seq<u8>, suffix: Seq<u8>) -> Seq<u8> {
    data_directory() + hash.subrange(0, 2) + seq![47u8] + hash.subrange(2, hash.len() as int)
        + suffix
}

/// The path with a `/` between directory and name, as `join` of the standard
/// library puts it on Unix: a name that begins with `/` stands for itself,
/// and no second `/` is put behind a directory that ends with one.
pub open spec fn join_path(directory: Seq<u8>, name: Seq<u8>) -> Seq<u8> {
    if name.len() > 0 && name[0] == 47 {
        name
    } else if directory.len() == 0 || directory.last() == 47 {
        directory + name
    } else {
        directory + seq![47u8] + name
    }
}

/// What the text literals that paths are built from hold.
pub proof fn lemma_path_literals()
    ensures
        encode_utf8("data/"@) == data_directory(),
        encode_utf8("/"@) == seq![47u8],
        encode_utf8(""@) == Seq::<u8>::empty(),
{
    reveal_strlit("data/");
    reveal_strlit("/");
    reveal_strlit("");
    let data = data_directory();
    assert("data/"@ =~= crate::text::ascii_chars(data));
    lemma_ascii_encoding(data);
    let slash = seq![47u8];
    assert("/"@ =~= crate::text::ascii_chars(slash));
    lemma_ascii_encoding(slash);
    let none = Seq::<u8>::empty();
    assert(""@ =~= crate::text::ascii_chars(none));
    lemma_ascii_encoding(none);
}

/// A hash in ASCII of at least two characters, as every hash in hexadecimal
/// notation is, can be cut behind its second byte, and the path of its
/// object is `data/`, its first two characters, `/`, the rest of it and the
/// suffix.
pub proof fn lemma_object_path_of_ascii_hash(hash: Seq<char>, suffix: Seq<char>)
    requires
        is_ascii_chars(hash),
        hash.len() >= 2,
    ensures
        is_char_boundary(encode_utf8(hash), 2),
        object_path(encode_utf8(hash), encode_utf8(suffix)) == encode_utf8(
            "data/"@ + hash.subrange(0, 2) + "/"@ + hash.subrange(2, hash.len() as int) + suffix,
        ),
{
    let bytes = encode_utf8(hash);
    let head = hash.subrange(0, 2);
    let tail = hash.subrange(2, hash.len() as int);
    is_ascii_chars_encode_utf8(hash);
    is_ascii_chars_encode_utf8(head);
    is_ascii_chars_encode_utf8(tail);
    assert(encode_utf8(head) =~= bytes.subrange(0, 2)) by {
        assert forall|i: int| 0 <= i < 2 implies encode_utf8(head)[i] == bytes[i] by {
            assert(head[i] == hash[i]);
        }
    }
    assert(encode_utf8(tail) =~= bytes.subrange(2, bytes.len() as int)) by {
        assert forall|i: int| 0 <= i < tail.len() implies encode_utf8(tail)[i] == bytes[i + 2] by {
            assert(tail[i] == hash[i + 2]);
        }
    }
    encode_utf8_valid_utf8(hash);
    if bytes.len() == 2 {
        is_char_boundary_start_end_of_seq(bytes);
    } else {
        assert(hash[2] as u8 == bytes[2]);
        assert(bytes[2] < 128);
        assert(!is_continuation_byte(bytes[2])) by {
            utf8_byte_ranges_bitwise(bytes[2]);
        }
        is_char_boundary_iff_not_is_continuation_byte(bytes, 2);
    }
    lemma_path_literals();
    let a = "data/"@;
    let c = "/"@;
    lemma_encoding_of_concat(a + head + c + tail, suffix);
    lemma_encoding_of_concat(a + head + c, tail);
    lemma_encoding_of_concat(a + head, c);
    lemma_encoding_of_concat(a, head);
}

/// The canonical form of a path. Resolving a path against the file system is
/// left to the caller, who hands in what came of it: the resolved path is
/// the canonical form, and where there is none the path stands for itself.
pub fn canonicalize_path(path: &str, resolved: Option<String>) -> (canonical: String)
    ensures
        canonical@ == match resolved {
            Some(found) => found@,
            None => path@,
        },
{
    match resolved {
        Some(found) => found,
        None => path.to_owned(),
    }
}

/// Splits an MD5 digest into the two numbers that catalogs are keyed by.
pub fn split_md5(md5_digest: &[u8; 16]) -> (hash: PathHash)
    ensures
        hash == split_digest(md5_digest@),
{
    let d = md5_digest;
    let lo: u64 = (d[0] as u64) | ((d[1] as u64) << 8) | ((d[2] as u64) << 16) | ((d[3] as u64)
        << 24) | ((d[4] as u64) << 32) | ((d[5] as u64) << 40) | ((d[6] as u64) << 48) | ((
    d[7] as u64) << 56);
    let hi: u64 = (d[8] as u64) | ((d[9] as u64) << 8) | ((d[10] as u64) << 16) | ((d[11] as u64)
        << 24) | ((d[12] as u64) << 32) | ((d[13] as u64) << 40) | ((d[14] as u64) << 48) | ((
    d[15] as u64) << 56);
    PathHash { hash1: lo as i64, hash2: hi as i64 }
}

/// The path as a catalog files it: empty for the root directory.
pub fn catalog_path_of(path: &str) -> (filed: &str)
    ensures
        encode_utf8(filed@) == catalog_path(encode_utf8(path@)),
{
    proof {
        lemma_path_literals();
    }
    if str_eq(path, "/") {
        ""
    } else {
        proof {
            if encode_utf8(path@) == seq![47u8] {
                crate::text::lemma_encoding_is_injective(path@, "/"@);
            }
        }
        path
    }
}

/// The key under which a catalog files the entry of `path`.
pub fn hash_path(path: &str) -> (key: PathHash)
    ensures
        key == path_key(encode_utf8(path@)),
{
    let filed = catalog_path_of(path);
    let digest = md5_compute(filed.as_bytes());
    split_md5(&digest)
}

/// Composes the path under which an object is kept from its hash and the
/// suffix of its kind. The hash has to be one that can be cut behind its
/// second byte, as every hash in hexadecimal notation can.
pub fn compose_object_path(object_hash: &str, hash_suffix: &str) -> (path: String)
    requires
        is_char_boundary(encode_utf8(object_hash@), 2),
    ensures
        encode_utf8(path@) == object_path(encode_utf8(object_hash@), encode_utf8(hash_suffix@)),
{
    let (first, second) = object_hash.split_at(2);
    let mut path = String::from_str("data/");
    path.append(first);
    path.append("/");
    path.append(second);
    path.append(hash_suffix);
    proof {
        lemma_path_literals();
        let a = "data/"@;
        let b = first@;
        let c = "/"@;
        let d = second@;
        let e = hash_suffix@;
        assert(path@ =~= a + b + c + d + e);
        lemma_encoding_of_concat(a + b + c + d, e);
        lemma_encoding_of_concat(a + b + c, d);
        lemma_encoding_of_concat(a + b, c);
        lemma_encoding_of_concat(a, b);
    }
    path
}

/// Does the hash allow `compose_object_path`: can it be cut behind its
/// second byte?
pub fn is_object_hash(object_hash: &str) -> (yes: bool)
    ensures
        yes == is_char_boundary(encode_utf8(object_hash@), 2),
{
    object_hash.is_char_boundary(2)
}

/// Joins a directory and a name to a path.
pub fn join_paths(directory: &str, name: &str) -> (path: String)
    ensures
        encode_utf8(path@) == join_path(encode_utf8(directory@), encode_utf8(name@)),
{
    let directory_bytes = directory.as_bytes();
    let name_bytes = name.as_bytes();
    if name_bytes.len() > 0 && name_bytes[0] == 47 {
        return name.to_owned();
    }
    let mut path = String::from_str(directory);
    if directory_bytes.len() > 0 && directory_bytes[directory_bytes.len() - 1] != 47 {
        path.append("/");
        proof {
            lemma_path_literals();
            lemma_encoding_of_concat(directory@, "/"@);
        }
    }
    let ghost before = path@;
    path.append(name);
    proof {
        lemma_encoding_of_concat(before, name@);
    }
    path
}

} // verus!
