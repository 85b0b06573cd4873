//! Directory entries: the files, directories and symbolic links of a
//! repository, as its catalogs describe them.

use vstd::prelude::*;
use vstd::string::StringExecFns;
pub use crate::common::PathHash;
use crate::common::{CvmfsError, CvmfsResult};
use crate::digest::{hex_chars, to_hex};

verus! {

/// The algorithms by which content is hashed.
#[derive(Debug, Copy, Clone, PartialEq, Eq, Structural)]
pub enum ContentHashTypes {
    /// An algorithm that this client does not know.
    Unknown,
    /// SHA-1, the default.
    Sha1,
    /// RIPEMD-160.
    Ripemd160,
    /// The first number that names no algorithm.
    UpperBound,
}

/// The algorithm that a number names.
pub open spec fn algorithm_of(value: u32) -> ContentHashTypes {
    if value == 1 {
        ContentHashTypes::Sha1
    } else if value == 2 {
        ContentHashTypes::Ripemd160
    } else if value == 3 {
        ContentHashTypes::UpperBound
    } else {
        ContentHashTypes::Unknown
    }
}

/// What is written behind a hash to name its algorithm: `-rmd160` for
/// RIPEMD-160 and nothing for the others.
pub open spec fn suffix_of(algorithm: ContentHashTypes) -> Seq<char> {
    if algorithm == ContentHashTypes::Ripemd160 {
        seq!['-', 'r', 'm', 'd', '1', '6', '0']
    } else {
        Seq::empty()
    }
}

impl ContentHashTypes {
    /// The number that names the algorithm in a catalog, and -1 for an
    /// algorithm that is not known.
    pub fn code(&self) -> (number: i32)
        ensures
            number == match *self {
                ContentHashTypes::Unknown => -1i32,
                ContentHashTypes::Sha1 => 1i32,
                ContentHashTypes::Ripemd160 => 2i32,
                ContentHashTypes::UpperBound => 3i32,
            },
    {
        match self {
            ContentHashTypes::Unknown => -1,
            ContentHashTypes::Sha1 => 1,
            ContentHashTypes::Ripemd160 => 2,
            ContentHashTypes::UpperBound => 3,
        }
    }

    /// The suffix that marks a hash of this algorithm.
    pub fn hash_suffix(obj: &Self) -> (suffix: String)
        ensures
            suffix@ == suffix_of(*obj),
    {
        match obj {
            ContentHashTypes::Ripemd160 => {
                proof {
                    reveal_strlit("-rmd160");
                }
                assert("-rmd160"@ =~= suffix_of(*obj));
                "-rmd160".to_owned()
            },
            _ => {
                proof {
                    reveal_strlit("");
                }
                assert(""@ =~= suffix_of(*obj));
                "".to_owned()
            },
        }
    }

    /// The suffix that marks a hash of this algorithm.
    pub fn to_suffix(obj: &Self) -> (suffix: String)
        ensures
            suffix@ == suffix_of(*obj),
    {
        Self::hash_suffix(obj)
    }
}

impl From<u32> for ContentHashTypes {
    fn from(value: u32) -> (algorithm: Self) {
        if value == 1 {
            ContentHashTypes::Sha1
        } else if value == 2 {
            ContentHashTypes::Ripemd160
        } else if value == 3 {
            ContentHashTypes::UpperBound
        } else {
            ContentHashTypes::Unknown
        }
    }
}

impl vstd::std_specs::convert::FromSpecImpl<u32> for ContentHashTypes {
    open spec fn obeys_from_spec() -> bool {
        true
    }

    open spec fn from_spec(value: u32) -> Self {
        algorithm_of(value)
    }
}

/// The bits of the flags field of a directory entry.
#[derive(Debug, Copy, Clone, PartialEq, Eq, Structural)]
pub enum Flags {
    /// The entry is a directory.
    Directory,
    /// The entry is the point at which a nested catalog is mounted.
    NestedCatalogMountpoint,
    /// The entry is a regular file.
    File,
    /// The entry is a symbolic link.
    Link,
    /// The entry has file statistics.
    FileStat,
    /// The entry is the root of a nested catalog.
    NestedCatalogRoot,
    /// The entry is a file that is kept in chunks.
    FileChunk,
    /// The three bits that hold the algorithm of the content hash.
    ContentHashTypes,
}

impl Flags {
    /// The bits that the flag stands for.
    pub open spec fn mask(self) -> u32 {
        match self {
            Flags::Directory => 1,
            Flags::NestedCatalogMountpoint => 2,
            Flags::File => 4,
            Flags::Link => 8,
            Flags::FileStat => 16,
            Flags::NestedCatalogRoot => 32,
            Flags::FileChunk => 64,
            Flags::ContentHashTypes => 0x700,
        }
    }

    /// The bits that the flag stands for.
    pub fn bits(self) -> (bits: u32)
        ensures
            bits == self.mask(),
    {
        match self {
            Flags::Directory => 1,
            Flags::NestedCatalogMountpoint => 2,
            Flags::File => 4,
            Flags::Link => 8,
            Flags::FileStat => 16,
            Flags::NestedCatalogRoot => 32,
            Flags::FileChunk => 64,
            Flags::ContentHashTypes => 0x700,
        }
    }
}

impl core::ops::BitAnd<Flags> for Flags {
    type Output = u32;

    fn bitand(self, rhs: Flags) -> (bits: u32) {
        self.bits() & rhs.bits()
    }
}

impl vstd::std_specs::ops::BitAndSpecImpl<Flags> for Flags {
    open spec fn obeys_bitand_spec() -> bool {
        true
    }

    open spec fn bitand_req(self, rhs: Flags) -> bool {
        true
    }

    open spec fn bitand_spec(self, rhs: Flags) -> u32 {
        self.mask() & rhs.mask()
    }
}

impl core::ops::BitAnd<u32> for Flags {
    type Output = u32;

    fn bitand(self, rhs: u32) -> (bits: u32) {
        self.bits() & rhs
    }
}

impl vstd::std_specs::ops::BitAndSpecImpl<u32> for Flags {
    open spec fn obeys_bitand_spec() -> bool {
        true
    }

    open spec fn bitand_req(self, rhs: u32) -> bool {
        true
    }

    open spec fn bitand_spec(self, rhs: u32) -> u32 {
        self.mask() & rhs
    }
}

impl core::ops::BitAnd<Flags> for u32 {
    type Output = u32;

    fn bitand(self, rhs: Flags) -> (bits: u32) {
        self & rhs.bits()
    }
}

impl vstd::std_specs::ops::BitAndSpecImpl<Flags> for u32 {
    open spec fn obeys_bitand_spec() -> bool {
        true
    }

    open spec fn bitand_req(self, rhs: Flags) -> bool {
        true
    }

    open spec fn bitand_spec(self, rhs: Flags) -> u32 {
        self & rhs.mask()
    }
}

/// The algorithm that the flags of an entry name: the three bits of
/// `Flags::ContentHashTypes`, moved down to the lowest place, plus one.
pub open spec fn algorithm_in_flags(flags: u32) -> ContentHashTypes {
    algorithm_of((((flags & 0x700) >> 8) + 1) as u32)
}

/// One piece of a file that is kept in chunks.
#[derive(Debug, Clone)]
pub struct Chunk {
    /// Where in the file the chunk begins.
    pub offset: u64,
    /// The number of bytes in the chunk.
    pub size: u64,
    /// The hash of the chunk's content in hexadecimal notation.
    pub content_hash: String,
    /// The algorithm of the hash.
    pub content_hash_type: ContentHashTypes,
}

impl Chunk {
    /// A chunk of `size` bytes at `offset`.
    pub fn new(
        offset: u64,
        size: u64,
        content_hash: String,
        content_hash_type: ContentHashTypes,
    ) -> (chunk: Chunk)
        ensures
            chunk == (Chunk { offset, size, content_hash, content_hash_type }),
    {
        Chunk { offset, size, content_hash, content_hash_type }
    }

    /// The columns of the `chunks` table that describe a chunk.
    pub fn catalog_database_fields() -> (columns: &'static str)
        ensures
            columns@ == "md5path_1, md5path_2, offset, size, hash"@,
    {
        "md5path_1, md5path_2, offset, size, hash"
    }

    /// The hash with the suffix of its algorithm, by which the chunk is
    /// found in the object store.
    pub fn content_hash_string(&self) -> (text: String)
        ensures
            text@ == self.content_hash@ + suffix_of(self.content_hash_type),
    {
        let suffix = ContentHashTypes::hash_suffix(&self.content_hash_type);
        self.content_hash.clone().concat(suffix.as_str())
    }
}

/// A stretch of a file: where it begins and how long it is.
pub struct Extent {
    pub offset: int,
    pub size: int,
}

/// The stretch at index `i` begins where the one before it ends.
pub open spec fn adjoins(extents: Seq<Extent>, i: int) -> bool {
    extents[i].offset == extents[i - 1].offset + extents[i - 1].size
}

/// The stretches lie one behind the other without gap or overlap, the first
/// begins at 0 and the last ends at `total`.
pub open spec fn is_cover(extents: Seq<Extent>, total: int) -> bool {
    &&& extents.len() > 0
    &&& extents[0].offset == 0
    &&& forall|i: int| 0 < i < extents.len() ==> #[trigger] adjoins(extents, i)
    &&& forall|i: int| 0 <= i < extents.len() ==> (#[trigger] extents[i]).size >= 0
    &&& extents.last().offset + extents.last().size == total
}

/// The stretches that chunks take up.
pub open spec fn chunk_extents(chunks: Seq<Chunk>) -> Seq<Extent> {
    Seq::new(
        chunks.len(),
        |i: int| Extent { offset: chunks[i].offset as int, size: chunks[i].size as int },
    )
}

/// The sizes of the first `n` stretches together.
pub open spec fn total_size(extents: Seq<Extent>, n: int) -> int
    decreases n,
{
    if n <= 0 {
        0
    } else {
        total_size(extents, n - 1) + extents[n - 1].size
    }
}

/// In a cover every stretch begins where the sizes before it end, the
/// stretches are in ascending order, and all sizes together are the total.
pub proof fn lemma_cover(extents: Seq<Extent>, total: int)
    requires
        is_cover(extents, total),
    ensures
        forall|i: int|
            0 <= i < extents.len() ==> (#[trigger] extents[i]).offset == total_size(extents, i),
        forall|i: int, j: int|
            0 <= i <= j < extents.len() ==> (#[trigger] extents[i]).offset <= (
            #[trigger] extents[j]).offset,
        total_size(extents, extents.len() as int) == total,
{
    lemma_cover_offsets(extents, total, extents.len() - 1);
    assert forall|i: int| 0 <= i < extents.len() implies (#[trigger] extents[i]).offset
        == total_size(extents, i) by {
        lemma_cover_offsets(extents, total, i);
    }
    assert forall|i: int, j: int| 0 <= i <= j < extents.len() implies (
    #[trigger] extents[i]).offset <= (#[trigger] extents[j]).offset by {
        lemma_cover_order(extents, total, i, j);
    }
}

/// In a cover a stretch begins where the sizes before it end.
pub proof fn lemma_cover_offsets(extents: Seq<Extent>, total: int, i: int)
    requires
        is_cover(extents, total),
        0 <= i < extents.len(),
    ensures
        extents[i].offset == total_size(extents, i),
        extents[i].offset + extents[i].size == total_size(extents, i + 1),
    decreases i,
{
    if i > 0 {
        lemma_cover_offsets(extents, total, i - 1);
        assert(adjoins(extents, i));
    }
}

/// In a cover the stretches are in ascending order.
pub proof fn lemma_cover_order(extents: Seq<Extent>, total: int, i: int, j: int)
    requires
        is_cover(extents, total),
        0 <= i <= j < extents.len(),
    ensures
        extents[i].offset <= extents[j].offset,
    decreases j - i,
{
    if i < j {
        lemma_cover_order(extents, total, i, j - 1);
        assert(extents[j - 1].size >= 0);
        assert(adjoins(extents, j));
    }
}

/// A row of the `catalog` table.
#[derive(Debug, Clone)]
pub struct EntryRow {
    pub md5path_1: i64,
    pub md5path_2: i64,
    pub parent_1: i64,
    pub parent_2: i64,
    /// The content hash as the catalog holds it, not yet in hexadecimal
    /// notation.
    pub hash: Option<Vec<u8>>,
    pub flags: u32,
    pub size: u64,
    pub mode: u16,
    pub mtime: i64,
    pub name: String,
    pub symlink: Option<String>,
}

/// A row of the `chunks` table.
#[derive(Debug, Clone)]
pub struct ChunkRow {
    pub md5path_1: i64,
    pub md5path_2: i64,
    pub offset: u64,
    pub size: u64,
    /// The content hash as the catalog holds it.
    pub hash: Vec<u8>,
}

/// The stretches that the rows of the `chunks` table describe.
pub open spec fn row_extents(rows: Seq<ChunkRow>) -> Seq<Extent> {
    Seq::new(
        rows.len(),
        |i: int| Extent { offset: rows[i].offset as int, size: rows[i].size as int },
    )
}

/// The chunk that a row describes, for a file hashed by `algorithm`.
pub open spec fn is_chunk_of_row(chunk: Chunk, row: ChunkRow, algorithm: ContentHashTypes) -> bool {
    &&& chunk.offset == row.offset
    &&& chunk.size == row.size
    &&& chunk.content_hash@ == hex_chars(row.hash@)
    &&& chunk.content_hash_type == algorithm
}

/// The rows can be the chunks of a file of `size` bytes: there are none, or
/// they cover the file.
pub open spec fn rows_fit(rows: Seq<ChunkRow>, size: u64) -> bool {
    rows.len() == 0 || is_cover(row_extents(rows), size as int)
}

/// The error of chunks that do not cover their file.
pub open spec fn is_cover_error(e: CvmfsError) -> bool {
    e matches CvmfsError::DatabaseError(text) && text@ == "chunks do not cover the file"@
}

/// The key of the path that a row of the `chunks` table belongs to.
pub open spec fn chunk_row_key(row: ChunkRow) -> PathHash {
    PathHash { hash1: row.md5path_1, hash2: row.md5path_2 }
}

/// The rows of the `chunks` table that belong to the path with the key
/// `key`, in the order of the table.
pub open spec fn chunk_rows_of(table: Seq<ChunkRow>, key: PathHash) -> Seq<ChunkRow>
    decreases table.len(),
{
    if table.len() == 0 {
        Seq::empty()
    } else if chunk_row_key(table.last()) == key {
        chunk_rows_of(table.drop_last(), key).push(table.last())
    } else {
        chunk_rows_of(table.drop_last(), key)
    }
}

/// The key of the path that a row of the `catalog` table describes.
pub open spec fn entry_row_key(row: EntryRow) -> PathHash {
    PathHash { hash1: row.md5path_1, hash2: row.md5path_2 }
}

/// The key of the directory that holds what a row of the `catalog` table
/// describes.
pub open spec fn entry_row_parent(row: EntryRow) -> PathHash {
    PathHash { hash1: row.parent_1, hash2: row.parent_2 }
}

/// The entry says what the row says: the numbers and texts are those of the
/// row, the hash is in hexadecimal notation and the algorithm is the one
/// that the flags name.
pub open spec fn describes(entry: DirectoryEntry, row: EntryRow) -> bool {
    &&& entry.md5_path_1 == row.md5path_1
    &&& entry.md5_path_2 == row.md5path_2
    &&& entry.parent_1 == row.parent_1
    &&& entry.parent_2 == row.parent_2
    &&& match row.hash {
        Some(hash) => entry.content_hash matches Some(text) && text@ == hex_chars(hash@),
        None => entry.content_hash is None,
    }
    &&& entry.flags == row.flags
    &&& entry.size == row.size
    &&& entry.mode == row.mode
    &&& entry.mtime == row.mtime
    &&& entry.name == row.name
    &&& entry.symlink == row.symlink
    &&& entry.content_hash_type == algorithm_in_flags(row.flags)
}

/// The chunks of the entry are those that the rows describe, in their
/// order.
pub open spec fn has_chunks_of(entry: DirectoryEntry, rows: Seq<ChunkRow>) -> bool {
    &&& entry.chunks@.len() == rows.len()
    &&& forall|i: int|
        0 <= i < rows.len() ==> is_chunk_of_row(
            #[trigger] entry.chunks@[i],
            rows[i],
            entry.content_hash_type,
        )
}

/// Do the chunks, in their order, cover a file of `size` bytes?
pub fn chunks_cover(chunks: &Vec<Chunk>, size: u64) -> (yes: bool)
    ensures
        yes == is_cover(chunk_extents(chunks@), size as int),
{
    if chunks.len() == 0 {
        return false;
    }
    let ghost extents = chunk_extents(chunks@);
    assert(extents[0].offset == chunks@[0].offset);
    if chunks[0].offset != 0 {
        return false;
    }
    let mut i: usize = 1;
    while i < chunks.len()
        invariant
            1 <= i <= chunks@.len(),
            extents == chunk_extents(chunks@),
            forall|k: int| 0 < k < i ==> #[trigger] adjoins(extents, k),
        decreases chunks@.len() - i,
    {
        let before = &chunks[i - 1];
        assert(extents[i - 1].offset == before.offset && extents[i - 1].size == before.size);
        assert(extents[i as int].offset == chunks@[i as int].offset);
        match before.offset.checked_add(before.size) {
            Some(end) => {
                if chunks[i].offset != end {
                    assert(!adjoins(extents, i as int));
                    return false;
                }
            },
            None => {
                assert(!adjoins(extents, i as int));
                return false;
            },
        }
        assert(adjoins(extents, i as int));
        i += 1;
    }
    let last = &chunks[chunks.len() - 1];
    assert(extents.last().offset == last.offset && extents.last().size == last.size);
    match last.offset.checked_add(last.size) {
        Some(end) => end == size,
        None => false,
    }
}

/// An entry together with its full path.
#[derive(Debug)]
pub struct DirectoryEntryWrapper {
    pub directory_entry: DirectoryEntry,
    pub path: String,
}

/// A file, a directory or a symbolic link of the repository.
#[derive(Debug, Clone)]
pub struct DirectoryEntry {
    /// First half of the MD5 digest of the entry's path.
    pub md5_path_1: i64,
    /// Second half of the MD5 digest of the entry's path.
    pub md5_path_2: i64,
    /// First half of the MD5 digest of the parent directory's path.
    pub parent_1: i64,
    /// Second half of the MD5 digest of the parent directory's path.
    pub parent_2: i64,
    /// The content hash in hexadecimal notation; a file that is kept in
    /// chunks has none.
    pub content_hash: Option<String>,
    /// What kind of entry this is, as the bits of `Flags`.
    pub flags: u32,
    /// Size of the file in bytes.
    pub size: u64,
    /// Unix file mode; the low twelve bits are the permissions.
    pub mode: u16,
    /// Time of the last modification in seconds since the epoch.
    pub mtime: i64,
    /// Name of the entry within its directory.
    pub name: String,
    /// Where a symbolic link points.
    pub symlink: Option<String>,
    /// The algorithm of the content hash.
    pub content_hash_type: ContentHashTypes,
    /// The chunks of a file that is kept in chunks, in the order of their
    /// offsets.
    pub chunks: Vec<Chunk>,
}

impl DirectoryEntry {
    /// The key of the entry's own path.
    pub open spec fn key(&self) -> PathHash {
        PathHash { hash1: self.md5_path_1, hash2: self.md5_path_2 }
    }

    /// The key of the directory that holds the entry.
    pub open spec fn parent_key(&self) -> PathHash {
        PathHash { hash1: self.parent_1, hash2: self.parent_2 }
    }

    /// The entry either has no chunks or chunks that cover it.
    pub open spec fn well_formed(&self) -> bool {
        self.chunks@.len() == 0 || is_cover(chunk_extents(self.chunks@), self.size as int)
    }

    /// The entry that a row of the `catalog` table describes. The hash is
    /// put in hexadecimal notation and the algorithm is read from the flags;
    /// chunks are attached by `add_chunks`.
    pub fn new(row: &EntryRow) -> (entry: DirectoryEntry)
        ensures
            describes(entry, *row),
            entry.chunks@.len() == 0,
            entry.well_formed(),
    {
        let content_hash = match &row.hash {
            Some(hash) => Some(to_hex(hash.as_slice())),
            None => None,
        };
        let symlink = match &row.symlink {
            Some(target) => Some(target.clone()),
            None => None,
        };
        DirectoryEntry {
            md5_path_1: row.md5path_1,
            md5_path_2: row.md5path_2,
            parent_1: row.parent_1,
            parent_2: row.parent_2,
            content_hash,
            flags: row.flags,
            size: row.size,
            mode: row.mode,
            mtime: row.mtime,
            name: row.name.clone(),
            symlink,
            content_hash_type: Self::read_content_hash_type(row.flags),
            chunks: Vec::new(),
        }
    }

    /// Attaches the chunks of the entry: the rows of the `chunks` table that
    /// belong to the entry's path, in the order of the table, each with the
    /// entry's algorithm. Rows that do not cover the file from its first
    /// byte to its last are refused as a database error, and the entry is
    /// left as it was.
    pub fn add_chunks(&mut self, rows: &Vec<ChunkRow>) -> (done: CvmfsResult<()>)
        ensures
            match done {
                Ok(_) => {
                    &&& rows_fit(
                        chunk_rows_of(rows@, old(self).key()),
                        old(self).size,
                    )
                    &&& has_chunks_of(*final(self), chunk_rows_of(rows@, old(self).key()))
                    &&& *final(self) == (DirectoryEntry {
                        chunks: final(self).chunks,
                        ..*old(self)
                    })
                    &&& final(self).well_formed()
                },
                Err(e) => {
                    &&& !rows_fit(
                        chunk_rows_of(rows@, old(self).key()),
                        old(self).size,
                    )
                    &&& is_cover_error(e)
                    &&& *final(self) == *old(self)
                },
            },
    {
        let key = self.path_hash();
        let mut own: Vec<&ChunkRow> = Vec::new();
        let mut chunks: Vec<Chunk> = Vec::new();
        let mut i: usize = 0;
        while i < rows.len()
            invariant
                i <= rows@.len(),
                key == self.key(),
                own@.len() == chunks@.len(),
                own@.len() == chunk_rows_of(rows@.subrange(0, i as int), key).len(),
                forall|k: int|
                    0 <= k < own@.len() ==> *(#[trigger] own@[k]) == chunk_rows_of(
                        rows@.subrange(0, i as int),
                        key,
                    )[k],
                forall|k: int|
                    0 <= k < chunks@.len() ==> is_chunk_of_row(
                        #[trigger] chunks@[k],
                        *own@[k],
                        self.content_hash_type,
                    ),
            decreases rows@.len() - i,
        {
            let row = &rows[i];
            assert(rows@.subrange(0, i + 1).drop_last() =~= rows@.subrange(0, i as int));
            assert(rows@.subrange(0, i + 1).last() == *row);
            if row.md5path_1 == key.hash1 && row.md5path_2 == key.hash2 {
                own.push(row);
                chunks.push(
                    Chunk {
                        offset: row.offset,
                        size: row.size,
                        content_hash: to_hex(row.hash.as_slice()),
                        content_hash_type: self.content_hash_type,
                    },
                );
            }
            i += 1;
        }
        assert(rows@.subrange(0, i as int) =~= rows@);
        let ghost selected = chunk_rows_of(rows@, key);
        assert(chunk_extents(chunks@) =~= row_extents(selected));
        if chunks.len() > 0 && !chunks_cover(&chunks, self.size) {
            return Err(CvmfsError::DatabaseError("chunks do not cover the file".to_owned()));
        }
        self.chunks = chunks;
        Ok(())
    }

    /// Is the entry a directory?
    pub fn is_directory(&self) -> (yes: bool)
        ensures
            yes == (self.flags & 1 != 0),
    {
        self.flags & 1 != 0
    }

    /// Is the entry the point at which a nested catalog is mounted?
    pub fn is_nested_catalog_mountpoint(&self) -> (yes: bool)
        ensures
            yes == (self.flags & 2 != 0),
    {
        self.flags & 2 != 0
    }

    /// Is the entry the root of a nested catalog?
    pub fn is_nested_catalog_root(&self) -> (yes: bool)
        ensures
            yes == (self.flags & 32 != 0),
    {
        self.flags & 32 != 0
    }

    /// Is the entry a regular file?
    pub fn is_file(&self) -> (yes: bool)
        ensures
            yes == (self.flags & 4 != 0),
    {
        self.flags & 4 != 0
    }

    /// Is the entry a symbolic link?
    pub fn is_symlink(&self) -> (yes: bool)
        ensures
            yes == (self.flags & 8 != 0),
    {
        self.flags & 8 != 0
    }

    /// The key of the entry's own path.
    pub fn path_hash(&self) -> (hash: PathHash)
        ensures
            hash == self.key(),
    {
        PathHash { hash1: self.md5_path_1, hash2: self.md5_path_2 }
    }

    /// The key of the path of the directory that holds the entry.
    pub fn parent_hash(&self) -> (hash: PathHash)
        ensures
            hash == self.parent_key(),
    {
        PathHash { hash1: self.parent_1, hash2: self.parent_2 }
    }

    /// Is the file kept in chunks? It is when it has no content hash of its
    /// own.
    pub fn has_chunks(&self) -> (yes: bool)
        ensures
            yes == (self.content_hash is None),
    {
        self.content_hash.is_none()
    }

    /// The content hash with the suffix of its algorithm, by which the
    /// content is found in the object store; nothing for a file that is kept
    /// in chunks.
    pub fn content_hash_string(&self) -> (text: Option<String>)
        ensures
            match self.content_hash {
                Some(hash) => text matches Some(t) && t@ == hash@ + suffix_of(
                    self.content_hash_type,
                ),
                None => text is None,
            },
    {
        match &self.content_hash {
            Some(hash) => {
                let suffix = ContentHashTypes::hash_suffix(&self.content_hash_type);
                Some(hash.clone().concat(suffix.as_str()))
            },
            None => None,
        }
    }

    /// Reads the algorithm of the content hash from the flags: the bits of
    /// `Flags::ContentHashTypes` are moved down by as many places as the
    /// mask has zeros at its low end, and one is added.
    pub fn read_content_hash_type(flags: u32) -> (algorithm: ContentHashTypes)
        ensures
            algorithm == algorithm_in_flags(flags),
    {
        let mut bit_mask: u32 = Flags::ContentHashTypes.bits();
        let mut right_shifts: u32 = 0;
        assert(0x700u32 >> 0u32 == 0x700u32) by (bit_vector);
        while (bit_mask & 1) == 0
            invariant
                right_shifts <= 8,
                bit_mask == 0x700u32 >> right_shifts,
            decreases 8 - right_shifts,
        {
            assert(right_shifts < 8) by (bit_vector)
                requires
                    right_shifts <= 8,
                    ((0x700u32 >> right_shifts) & 1) == 0,
            ;
            assert((0x700u32 >> right_shifts) >> 1u32 == 0x700u32 >> ((right_shifts + 1) as u32))
                by (bit_vector)
                requires
                    right_shifts < 8,
            ;
            bit_mask = bit_mask >> 1;
            right_shifts = right_shifts + 1;
        }
        assert(right_shifts == 8) by (bit_vector)
            requires
                right_shifts <= 8,
                ((0x700u32 >> right_shifts) & 1) != 0,
        ;
        let field: u32 = (flags & Flags::ContentHashTypes.bits()) >> right_shifts;
        assert(field <= 7) by (bit_vector)
            requires
                field == (flags & 0x700u32) >> 8u32,
        ;
        ContentHashTypes::from(field + 1)
    }
}

} // verus!
