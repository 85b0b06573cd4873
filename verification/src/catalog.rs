//! Catalogs: the tables that describe one subtree of a repository.
//!
//! A catalog is published as an SQLite file. Whoever opens the file hands
//! its rows to a `Catalog`, which keeps them and answers every question
//! about the subtree from them: which entry a path names, what a directory
//! holds, and which nested catalog takes over below a path.

use vstd::prelude::*;
use vstd::utf8::encode_utf8;
use crate::common::{
    catalog_path, hash_path, path_key, split_digest, split_md5, CvmfsError, CvmfsResult, PathHash,
};
use crate::decimal::{parse_decimal, Decimal};
use crate::digest::md5_digest;
use crate::directory_entry::{
    chunk_rows_of, describes, entry_row_key, entry_row_parent, has_chunks_of, is_cover_error,
    rows_fit, ChunkRow,
    DirectoryEntry, EntryRow,
};
use vstd::string::StringExecFns;
use crate::text::{
    bytes_le, has_prefix, is_prefix, lemma_lex_total, lemma_lex_transitive, lex_le, parse_i32,
    parse_i64, parse_signed, str_eq,
};
use crate::time::{calendar_has_seconds, checked_timestamp, seconds_in_calendar};

verus! {

/// Suffix of the objects that are catalogs.
pub const CATALOG_ROOT_PREFIX: &'static str = "C";

/// Reads the `properties` table.
pub const PROPERTIES_QUERY: &'static str = "SELECT key, value FROM properties;";

/// Reads the `catalog` table in the order of the names.
pub const ENTRIES_QUERY: &'static str =
    "SELECT md5path_1, md5path_2, parent_1, parent_2, hash, flags, size, mode, mtime, name, symlink FROM catalog ORDER BY name ASC";

/// Reads the `chunks` table, the chunks of each file in the order of their
/// offsets.
pub const CHUNKS_QUERY: &'static str =
    "SELECT md5path_1, md5path_2, offset, size, hash FROM chunks ORDER BY offset ASC";

/// Reads the `nested_catalogs` table of a schema that records sizes.
pub const NESTED_WITH_SIZE_QUERY: &'static str = "SELECT path, sha1, size FROM nested_catalogs";

/// Reads the `nested_catalogs` table of a schema that records no sizes.
pub const NESTED_QUERY: &'static str = "SELECT path, sha1 FROM nested_catalogs";

/// Reads the `statistics` table.
pub const READ_STATISTICS: &'static str = "SELECT * FROM statistics ORDER BY counter;";

/// A nested catalog: the path at which it takes over, and where to get it.
#[derive(Debug, Clone)]
pub struct CatalogReference {
    /// The path in the repository at which the nested catalog is mounted.
    pub root_path: String,
    /// The content hash of the nested catalog.
    pub catalog_hash: String,
    /// The size of the nested catalog in bytes; 0 where the schema records
    /// none.
    pub catalog_size: u32,
}

/// A row of the `nested_catalogs` table. The size is there only where it
/// was asked for.
#[derive(Debug, Clone)]
pub struct NestedRow {
    pub path: String,
    pub sha1: String,
    pub size: Option<u32>,
}

/// A row of the `statistics` table.
#[derive(Debug, Clone)]
pub struct StatisticsRow {
    pub counter: String,
    pub value: u64,
}

/// The counters of a subtree.
#[derive(Debug, Clone, Copy, PartialEq, Eq, Structural)]
pub struct Statistics {
    /// Number of files that are kept in chunks.
    pub chunked: u64,
    /// Size of the files that are kept in chunks.
    pub chunked_size: u64,
    /// Number of chunks.
    pub chunks: u64,
    /// Number of directories.
    pub dir: u64,
    /// Number of external files.
    pub external: u64,
    /// Size of the external files.
    pub external_file_size: u64,
    /// Size of all files; no counter of the table feeds it.
    pub file_size: u64,
    /// Number of nested catalogs.
    pub nested: u64,
    /// Number of regular files.
    pub regular: u64,
    /// Number of special files.
    pub special: u64,
    /// Number of symbolic links.
    pub symlink: u64,
    /// Number of files with extended attributes.
    pub xattr: u64,
}

/// Counters that are all zero.
pub open spec fn no_statistics() -> Statistics {
    Statistics {
        chunked: 0,
        chunked_size: 0,
        chunks: 0,
        dir: 0,
        external: 0,
        external_file_size: 0,
        file_size: 0,
        nested: 0,
        regular: 0,
        special: 0,
        symlink: 0,
        xattr: 0,
    }
}

impl Default for Statistics {
    fn default() -> (statistics: Self)
        ensures
            statistics == no_statistics(),
    {
        Statistics {
            chunked: 0,
            chunked_size: 0,
            chunks: 0,
            dir: 0,
            external: 0,
            external_file_size: 0,
            file_size: 0,
            nested: 0,
            regular: 0,
            special: 0,
            symlink: 0,
            xattr: 0,
        }
    }
}

/// The counters after one more row of the `statistics` table: a row of a
/// `subtree_` counter sets it, any other row changes nothing.
pub open spec fn with_counter(statistics: Statistics, counter: Seq<char>, value: u64) -> Statistics {
    if counter == "subtree_chunked"@ {
        Statistics { chunked: value, ..statistics }
    } else if counter == "subtree_chunked_size"@ {
        Statistics { chunked_size: value, ..statistics }
    } else if counter == "subtree_chunks"@ {
        Statistics { chunks: value, ..statistics }
    } else if counter == "subtree_dir"@ {
        Statistics { dir: value, ..statistics }
    } else if counter == "subtree_external"@ {
        Statistics { external: value, ..statistics }
    } else if counter == "subtree_external_file_size"@ {
        Statistics { external_file_size: value, ..statistics }
    } else if counter == "subtree_nested"@ {
        Statistics { nested: value, ..statistics }
    } else if counter == "subtree_regular"@ {
        Statistics { regular: value, ..statistics }
    } else if counter == "subtree_special"@ {
        Statistics { special: value, ..statistics }
    } else if counter == "subtree_symlink"@ {
        Statistics { symlink: value, ..statistics }
    } else if counter == "subtree_xattr"@ {
        Statistics { xattr: value, ..statistics }
    } else {
        statistics
    }
}

/// The counters after the first `n` rows of the `statistics` table.
pub open spec fn with_counters(rows: Seq<StatisticsRow>, n: int) -> Statistics
    decreases n,
{
    if n <= 0 {
        no_statistics()
    } else {
        with_counter(with_counters(rows, n - 1), rows[n - 1].counter@, rows[n - 1].value)
    }
}

/// What the `properties` table says of a catalog.
pub struct CatalogProperties {
    pub revision: i32,
    pub previous_revision: Seq<char>,
    pub schema: Decimal,
    pub schema_revision: Decimal,
    pub root_prefix: Seq<char>,
    pub last_modified: i64,
}

/// The properties of a catalog of which no row has been read: it is mounted
/// at `/` and everything else is zero or empty.
pub open spec fn default_properties() -> CatalogProperties {
    CatalogProperties {
        revision: 0,
        previous_revision: Seq::empty(),
        schema: Decimal { negative: false, digits: 0, scale: 0 },
        schema_revision: Decimal { negative: false, digits: 0, scale: 0 },
        root_prefix: "/"@,
        last_modified: 0,
    }
}

/// The properties after one more row of the table. A value that cannot be
/// read as the kind of number that its key asks for is a parse error, and a
/// time of last modification for which the calendar has no date is an
/// invalid timestamp. A second `previous_revision` is written behind the
/// first; of the other keys the last row counts.
pub open spec fn with_property(
    properties: CatalogProperties,
    key: Seq<char>,
    value: Seq<char>,
) -> Result<CatalogProperties, CvmfsError> {
    if key == "revision"@ {
        match parse_signed(encode_utf8(value), i32::MIN as int, i32::MAX as int) {
            Some(n) => Ok(CatalogProperties { revision: n as i32, ..properties }),
            None => Err(CvmfsError::ParseError),
        }
    } else if key == "schema"@ {
        match parse_decimal(encode_utf8(value)) {
            Some(d) => Ok(CatalogProperties { schema: d, ..properties }),
            None => Err(CvmfsError::ParseError),
        }
    } else if key == "schema_revision"@ {
        match parse_decimal(encode_utf8(value)) {
            Some(d) => Ok(CatalogProperties { schema_revision: d, ..properties }),
            None => Err(CvmfsError::ParseError),
        }
    } else if key == "last_modified"@ {
        match parse_signed(encode_utf8(value), i64::MIN as int, i64::MAX as int) {
            None => Err(CvmfsError::ParseError),
            Some(n) => if seconds_in_calendar(n as i64) {
                Ok(CatalogProperties { last_modified: n as i64, ..properties })
            } else {
                Err(CvmfsError::InvalidTimestamp)
            },
        }
    } else if key == "previous_revision"@ {
        Ok(
            CatalogProperties {
                previous_revision: properties.previous_revision + value,
                ..properties
            },
        )
    } else if key == "root_prefix"@ {
        Ok(CatalogProperties { root_prefix: value, ..properties })
    } else {
        Ok(properties)
    }
}

/// The properties after all rows from index `from` on, read in order; the
/// first row that cannot be read ends the reading with its error.
pub open spec fn with_properties(
    properties: CatalogProperties,
    rows: Seq<(String, String)>,
    from: int,
) -> Result<CatalogProperties, CvmfsError>
    decreases rows.len() - from,
{
    if from < 0 || from >= rows.len() {
        Ok(properties)
    } else {
        match with_property(properties, rows[from].0@, rows[from].1@) {
            Ok(next) => with_properties(next, rows, from + 1),
            Err(e) => Err(e),
        }
    }
}

/// What a `properties` table says of a catalog. A catalog needs a revision
/// and a schema version that are not zero.
pub open spec fn properties_of(rows: Seq<(String, String)>) -> Result<
    CatalogProperties,
    CvmfsError,
> {
    match with_properties(default_properties(), rows, 0) {
        Err(e) => Err(e),
        Ok(properties) => if properties.revision == 0 || properties.schema.is_zero_value() {
            Err(CvmfsError::CatalogInitialization)
        } else {
            Ok(properties)
        },
    }
}

/// The name of an entry as bytes.
pub open spec fn name_of(row: EntryRow) -> Seq<u8> {
    encode_utf8(row.name@)
}

/// The rows are in the order of their names.
pub open spec fn sorted_by_name(rows: Seq<EntryRow>) -> bool {
    forall|i: int, j: int|
        0 <= i <= j < rows.len() ==> lex_le(#[trigger] name_of(rows[i]), #[trigger] name_of(rows[j]))
}

/// Where a row with the name `name` goes into rows that are in the order of
/// their names: behind the last row whose name does not come after it.
pub open spec fn insertion_point(rows: Seq<EntryRow>, name: Seq<u8>) -> int
    decreases rows.len(),
{
    if rows.len() == 0 {
        0
    } else if lex_le(name_of(rows.last()), name) {
        rows.len() as int
    } else {
        insertion_point(rows.drop_last(), name)
    }
}

/// The rows of a directory: those whose parent has the key `parent`, in the
/// order of the table.
pub open spec fn rows_under(rows: Seq<EntryRow>, parent: PathHash) -> Seq<EntryRow>
    decreases rows.len(),
{
    if rows.len() == 0 {
        Seq::empty()
    } else if entry_row_parent(rows.last()) == parent {
        rows_under(rows.drop_last(), parent).push(rows.last())
    } else {
        rows_under(rows.drop_last(), parent)
    }
}

/// The index of the first row with the key `key`, or the number of rows
/// where none has it.
pub open spec fn position_of_key(rows: Seq<EntryRow>, key: PathHash) -> int
    decreases rows.len(),
{
    if rows.len() == 0 {
        0
    } else if entry_row_key(rows[0]) == key {
        0
    } else {
        1 + position_of_key(rows.drop_first(), key)
    }
}

/// A path is cut cleanly by the mount point of a catalog: it ends there, or
/// it goes on with a `/`. So `/foo` cuts `/foo/bar` and not `/foobar`.
pub open spec fn path_is_sanitized(needle: Seq<u8>, catalog_path: Seq<u8>) -> bool {
    needle.len() == catalog_path.len() || (needle.len() > catalog_path.len()
        && needle[catalog_path.len() as int] == 47)
}

/// The nested catalog mounted at `root` takes over the path `needle`: the
/// path begins with the mount point and is cut cleanly by it.
pub open spec fn mounts(root: Seq<u8>, needle: Seq<u8>) -> bool {
    &&& is_prefix(root, needle)
    &&& path_is_sanitized(needle, root)
}

/// The mount point of a nested catalog as bytes.
pub open spec fn mount_point(reference: CatalogReference) -> Seq<u8> {
    encode_utf8(reference.root_path@)
}

/// The reference at index `i` is the one to follow for `needle`: it takes
/// over the path, no reference that does has a longer mount point, and none
/// before it has one as long.
pub open spec fn is_best_mount(references: Seq<CatalogReference>, needle: Seq<u8>, i: int) -> bool {
    &&& 0 <= i < references.len()
    &&& mounts(mount_point(references[i]), needle)
    &&& forall|j: int|
        0 <= j < references.len() && mounts(#[trigger] mount_point(references[j]), needle)
            ==> mount_point(references[j]).len() <= mount_point(references[i]).len() && (j < i
            ==> mount_point(references[j]).len() < mount_point(references[i]).len())
}

/// No nested catalog takes over the path.
pub open spec fn no_mount(references: Seq<CatalogReference>, needle: Seq<u8>) -> bool {
    forall|j: int|
        0 <= j < references.len() ==> !mounts(#[trigger] mount_point(references[j]), needle)
}

/// Rows that are in the order of their names stay so when a row goes in at
/// its insertion point.
pub proof fn lemma_insertion_keeps_order(rows: Seq<EntryRow>, row: EntryRow)
    requires
        sorted_by_name(rows),
    ensures
        0 <= insertion_point(rows, name_of(row)) <= rows.len(),
        sorted_by_name(rows.insert(insertion_point(rows, name_of(row)), row)),
{
    let name = name_of(row);
    let p = insertion_point(rows, name);
    lemma_insertion_point(rows, name);
    let after = rows.insert(p, row);
    assert forall|i: int, j: int| 0 <= i <= j < after.len() implies lex_le(
        #[trigger] name_of(after[i]),
        #[trigger] name_of(after[j]),
    ) by {
        if i == j {
            lemma_lex_total(name_of(after[i]), name_of(after[i]));
        } else if j < p {
            assert(after[i] == rows[i] && after[j] == rows[j]);
        } else if j == p {
            assert(after[i] == rows[i]);
            assert(lex_le(name_of(rows[i]), name_of(rows[p - 1])));
            lemma_lex_transitive(name_of(rows[i]), name_of(rows[p - 1]), name);
        } else if i < p {
            assert(after[i] == rows[i] && after[j] == rows[j - 1]);
        } else if i == p {
            assert(after[j] == rows[j - 1]);
            assert(lex_le(name_of(rows[p]), name_of(rows[j - 1])));
            lemma_lex_total(name_of(rows[p]), name);
            lemma_lex_transitive(name, name_of(rows[p]), name_of(rows[j - 1]));
        } else {
            assert(after[i] == rows[i - 1] && after[j] == rows[j - 1]);
        }
    }
}

/// The insertion point lies behind a row that does not come after the name
/// and before a row that does.
pub proof fn lemma_insertion_point(rows: Seq<EntryRow>, name: Seq<u8>)
    ensures
        0 <= insertion_point(rows, name) <= rows.len(),
        insertion_point(rows, name) > 0 ==> lex_le(
            name_of(rows[insertion_point(rows, name) - 1]),
            name,
        ),
        insertion_point(rows, name) < rows.len() ==> !lex_le(
            name_of(rows[insertion_point(rows, name)]),
            name,
        ),
    decreases rows.len(),
{
    if rows.len() > 0 && !lex_le(name_of(rows.last()), name) {
        lemma_insertion_point(rows.drop_last(), name);
    }
}

/// Every row of a directory is a row of the table with that parent, and the
/// rows of a directory are in the order of the table.
pub proof fn lemma_rows_under(rows: Seq<EntryRow>, parent: PathHash)
    ensures
        rows_under(rows, parent).len() <= rows.len(),
        forall|k: int|
            0 <= k < rows_under(rows, parent).len() ==> entry_row_parent(
                #[trigger] rows_under(rows, parent)[k],
            ) == parent,
        sorted_by_name(rows) ==> sorted_by_name(rows_under(rows, parent)),
        forall|k: int|
            0 <= k < rows_under(rows, parent).len() ==> exists|i: int|
                0 <= i < rows.len() && rows[i] == #[trigger] rows_under(rows, parent)[k],
    decreases rows.len(),
{
    if rows.len() > 0 {
        let shorter = rows.drop_last();
        lemma_rows_under(shorter, parent);
        lemma_rows_under_bound(rows, parent);
        let under = rows_under(rows, parent);
        let before = rows_under(shorter, parent);
        assert forall|k: int| 0 <= k < under.len() implies exists|i: int|
            0 <= i < rows.len() && rows[i] == #[trigger] under[k] by {
            if k < before.len() {
                let i = choose|i: int| 0 <= i < shorter.len() && shorter[i] == before[k];
                assert(rows[i] == under[k]);
            } else {
                assert(rows[rows.len() - 1] == under[k]);
            }
        }
        if sorted_by_name(rows) {
            assert(sorted_by_name(shorter)) by {
                assert forall|i: int, j: int| 0 <= i <= j < shorter.len() implies lex_le(
                    #[trigger] name_of(shorter[i]),
                    #[trigger] name_of(shorter[j]),
                ) by {
                    assert(shorter[i] == rows[i] && shorter[j] == rows[j]);
                }
            }
            assert forall|i: int, j: int| 0 <= i <= j < under.len() implies lex_le(
                #[trigger] name_of(under[i]),
                #[trigger] name_of(under[j]),
            ) by {
                if j < before.len() {
                    assert(under[i] == before[i] && under[j] == before[j]);
                } else if i < before.len() {
                    let a = choose|a: int| 0 <= a < shorter.len() && shorter[a] == before[i];
                    assert(rows[a] == under[i]);
                    assert(lex_le(name_of(rows[a]), name_of(rows[rows.len() - 1])));
                } else {
                    lemma_lex_total(name_of(under[i]), name_of(under[i]));
                }
            }
        }
    }
}

proof fn lemma_rows_under_bound(rows: Seq<EntryRow>, parent: PathHash)
    ensures
        rows_under(rows, parent).len() <= rows.len(),
    decreases rows.len(),
{
    if rows.len() > 0 {
        lemma_rows_under_bound(rows.drop_last(), parent);
    }
}

/// The position of a key is the index of the first row that has it.
pub proof fn lemma_position_of_key(rows: Seq<EntryRow>, key: PathHash)
    ensures
        0 <= position_of_key(rows, key) <= rows.len(),
        position_of_key(rows, key) < rows.len() ==> entry_row_key(
            rows[position_of_key(rows, key)],
        ) == key,
        forall|j: int|
            0 <= j < position_of_key(rows, key) ==> entry_row_key(#[trigger] rows[j]) != key,
    decreases rows.len(),
{
    if rows.len() > 0 && entry_row_key(rows[0]) != key {
        let rest = rows.drop_first();
        lemma_position_of_key(rest, key);
        assert forall|j: int| 0 <= j < position_of_key(rows, key) implies entry_row_key(
            #[trigger] rows[j],
        ) != key by {
            if j > 0 {
                assert(rest[j - 1] == rows[j]);
            }
        }
    }
}

/// One more row of the table adds itself to the rows of a directory if the
/// directory is its parent, and nothing if not.
pub proof fn lemma_rows_under_grows(rows: Seq<EntryRow>, parent: PathHash, i: int)
    requires
        0 <= i < rows.len(),
    ensures
        rows_under(rows.subrange(0, i + 1), parent) == if entry_row_parent(rows[i]) == parent {
            rows_under(rows.subrange(0, i), parent).push(rows[i])
        } else {
            rows_under(rows.subrange(0, i), parent)
        },
        rows_under(rows.subrange(0, i), parent) =~= rows_under(rows, parent).subrange(
            0,
            rows_under(rows.subrange(0, i), parent).len() as int,
        ),
        rows_under(rows.subrange(0, i + 1), parent) =~= rows_under(rows, parent).subrange(
            0,
            rows_under(rows.subrange(0, i + 1), parent).len() as int,
        ),
        rows_under(rows.subrange(0, i + 1), parent).len() <= rows_under(rows, parent).len(),
{
    assert(rows.subrange(0, i + 1).drop_last() =~= rows.subrange(0, i));
    lemma_rows_under_prefix(rows, parent, i);
    lemma_rows_under_prefix(rows, parent, i + 1);
}

/// The rows of a directory among the first `n` rows of the table are the
/// first of the rows of the directory.
pub proof fn lemma_rows_under_prefix(rows: Seq<EntryRow>, parent: PathHash, n: int)
    requires
        0 <= n <= rows.len(),
    ensures
        rows_under(rows.subrange(0, n), parent).len() <= rows_under(rows, parent).len(),
        rows_under(rows.subrange(0, n), parent) =~= rows_under(rows, parent).subrange(
            0,
            rows_under(rows.subrange(0, n), parent).len() as int,
        ),
    decreases rows.len() - n,
{
    if n == rows.len() {
        assert(rows.subrange(0, n) =~= rows);
    } else {
        lemma_rows_under_prefix(rows, parent, n + 1);
        assert(rows.subrange(0, n + 1).drop_last() =~= rows.subrange(0, n));
    }
}

/// The chunks of a row's file are sound: there are none or they cover it.
pub open spec fn row_is_sound(row: EntryRow, chunk_table: Seq<ChunkRow>) -> bool {
    rows_fit(chunk_rows_of(chunk_table, entry_row_key(row)), row.size)
}

/// The entry is what a catalog makes of a row: it says what the row says
/// and has the chunks that the `chunks` table holds for it.
pub open spec fn is_entry_of(entry: DirectoryEntry, row: EntryRow, chunk_table: Seq<ChunkRow>) -> bool {
    &&& describes(entry, row)
    &&& has_chunks_of(entry, chunk_rows_of(chunk_table, entry_row_key(row)))
    &&& entry.well_formed()
}

/// An entry that a catalog files under a key is found under that key: the
/// lookup does not miss it, and what it finds has the key.
pub proof fn lemma_lookup_finds_key(
    catalog: Catalog,
    key: PathHash,
    i: int,
    result: CvmfsResult<DirectoryEntry>,
)
    requires
        0 <= i < catalog.entry_rows().len(),
        entry_row_key(catalog.entry_rows()[i]) == key,
        catalog.is_lookup_result(key, result),
    ensures
        result != Err::<DirectoryEntry, _>(CvmfsError::FileNotFound),
        result matches Ok(entry) ==> entry.key() == key,
{
    lemma_position_of_key(catalog.entry_rows(), key);
}

/// The root directory is looked up under the empty path: `/` and the empty
/// path have one key, and what one of them finds the other finds.
pub proof fn lemma_root_is_filed_under_the_empty_path(
    catalog: Catalog,
    result: CvmfsResult<DirectoryEntry>,
)
    ensures
        path_key(seq![47u8]) == path_key(Seq::<u8>::empty()),
        catalog.is_lookup_result(path_key(seq![47u8]), result) == catalog.is_lookup_result(
            path_key(Seq::<u8>::empty()),
            result,
        ),
{
    assert(seq![47u8].len() == 1);
    assert(catalog_path(seq![47u8]) == Seq::<u8>::empty());
    assert(catalog_path(Seq::<u8>::empty()) == Seq::<u8>::empty());
}

/// Looking an entry up by its path is looking it up by the two halves of
/// the MD5 digest of the path: whoever has computed the key of a path
/// beforehand finds with it what the path finds.
pub proof fn lemma_lookup_by_path_is_lookup_by_key(
    catalog: Catalog,
    path: Seq<u8>,
    digest: Seq<u8>,
    result: CvmfsResult<DirectoryEntry>,
)
    requires
        digest == md5_digest(catalog_path(path)),
    ensures
        catalog.is_lookup_result(path_key(path), result) == catalog.is_lookup_result(
            split_digest(digest),
            result,
        ),
{
}

/// A catalog with its tables.
#[derive(Debug)]
pub struct Catalog {
    schema: Decimal,
    schema_revision: Decimal,
    revision: i32,
    previous_revision: String,
    hash: String,
    last_modified: i64,
    root_prefix: String,
    entries: Vec<EntryRow>,
    chunks: Vec<ChunkRow>,
    nested: Vec<CatalogReference>,
    statistics: Vec<StatisticsRow>,
}

impl Catalog {
    #[verifier::type_invariant]
    spec fn holds(&self) -> bool {
        &&& self.schema.well_formed()
        &&& self.schema_revision.well_formed()
        &&& sorted_by_name(self.entries@)
    }

    /// What the `properties` table said of the catalog.
    pub closed spec fn properties(&self) -> CatalogProperties {
        CatalogProperties {
            revision: self.revision,
            previous_revision: self.previous_revision@,
            schema: self.schema,
            schema_revision: self.schema_revision,
            root_prefix: self.root_prefix@,
            last_modified: self.last_modified,
        }
    }

    /// The content hash under which the catalog was found.
    pub closed spec fn content_hash(&self) -> Seq<char> {
        self.hash@
    }

    /// The rows of the `catalog` table, in the order of their names.
    pub closed spec fn entry_rows(&self) -> Seq<EntryRow> {
        self.entries@
    }

    /// The rows of the `chunks` table.
    pub closed spec fn chunk_rows(&self) -> Seq<ChunkRow> {
        self.chunks@
    }

    /// The nested catalogs.
    pub closed spec fn references(&self) -> Seq<CatalogReference> {
        self.nested@
    }

    /// The rows of the `statistics` table.
    pub closed spec fn statistics_rows(&self) -> Seq<StatisticsRow> {
        self.statistics@
    }

    /// The schema records the sizes of nested catalogs: its version is at
    /// most 1.2 and its revision is greater than zero.
    pub open spec fn records_sizes(&self) -> bool {
        self.properties().schema.is_at_most(12, 1)
            && self.properties().schema_revision.is_positive_value()
    }

    /// Takes one row of the `properties` table into the catalog.
    fn set_property(&mut self, key: &str, value: &str) -> (done: CvmfsResult<()>)
        ensures
            match done {
                Ok(_) => {
                    &&& with_property(old(self).properties(), key@, value@) == Ok::<_, CvmfsError>(
                        final(self).properties(),
                    )
                    &&& final(self).hash == old(self).hash
                    &&& final(self).entries == old(self).entries
                    &&& final(self).chunks == old(self).chunks
                    &&& final(self).nested == old(self).nested
                    &&& final(self).statistics == old(self).statistics
                },
                Err(e) => with_property(old(self).properties(), key@, value@) == Err::<
                    CatalogProperties,
                    _,
                >(e),
            },
    {
        proof {
            use_type_invariant(&*self);
        }
        if str_eq(key, "revision") {
            match parse_i32(value.as_bytes()) {
                Some(number) => {
                    self.revision = number;
                },
                None => {
                    return Err(CvmfsError::ParseError);
                },
            }
        } else if str_eq(key, "schema") {
            match Decimal::parse(value.as_bytes()) {
                Some(version) => {
                    self.schema = version;
                },
                None => {
                    return Err(CvmfsError::ParseError);
                },
            }
        } else if str_eq(key, "schema_revision") {
            match Decimal::parse(value.as_bytes()) {
                Some(version) => {
                    self.schema_revision = version;
                },
                None => {
                    return Err(CvmfsError::ParseError);
                },
            }
        } else if str_eq(key, "last_modified") {
            match parse_i64(value.as_bytes()) {
                Some(seconds) => {
                    let in_calendar = calendar_has_seconds(seconds);
                    self.last_modified = match checked_timestamp(Some(seconds), in_calendar) {
                        Ok(time) => time,
                        Err(e) => {
                            return Err(e);
                        },
                    };
                },
                None => {
                    return Err(CvmfsError::ParseError);
                },
            }
        } else if str_eq(key, "previous_revision") {
            let mut text = self.previous_revision.clone();
            text.append(value);
            self.previous_revision = text;
        } else if str_eq(key, "root_prefix") {
            self.root_prefix = value.to_owned();
        }
        Ok(())
    }

    /// A catalog with the properties that the rows of its `properties`
    /// table state, found under the content hash `hash`. Its other tables
    /// are empty until their rows are added.
    ///
    /// The keys `revision`, `schema`, `schema_revision`, `last_modified`,
    /// `previous_revision` and `root_prefix` are read, all others passed
    /// over. Without a revision and a schema version that are not zero the
    /// catalog cannot be set up.
    ///
    /// The versions of the schema are read as decimal fractions and kept
    /// exactly: an optional sign, digits, and optionally a point with more
    /// digits. What is written otherwise is a parse error: a number with an
    /// exponent, `inf` and `nan`, more than 18 digits behind the point, and
    /// digits that together are no number of 64 bits.
    pub fn new(properties: &Vec<(String, String)>, hash: String) -> (catalog: CvmfsResult<Catalog>)
        ensures
            match catalog {
                Ok(c) => {
                    &&& properties_of(properties@) == Ok::<_, CvmfsError>(c.properties())
                    &&& c.content_hash() == hash@
                    &&& c.entry_rows().len() == 0
                    &&& c.chunk_rows().len() == 0
                    &&& c.references().len() == 0
                    &&& c.statistics_rows().len() == 0
                },
                Err(e) => properties_of(properties@) == Err::<CatalogProperties, _>(e),
            },
    {
        let mut catalog = Catalog {
            schema: Decimal::zero(),
            schema_revision: Decimal::zero(),
            revision: 0,
            previous_revision: String::new(),
            hash,
            last_modified: 0,
            root_prefix: "/".to_owned(),
            entries: Vec::new(),
            chunks: Vec::new(),
            nested: Vec::new(),
            statistics: Vec::new(),
        };
        assert(catalog.properties().previous_revision =~= Seq::<char>::empty());
        let mut i: usize = 0;
        while i < properties.len()
            invariant
                i <= properties@.len(),
                catalog.hash@ == hash@,
                catalog.entries@.len() == 0,
                catalog.chunks@.len() == 0,
                catalog.nested@.len() == 0,
                catalog.statistics@.len() == 0,
                with_properties(default_properties(), properties@, 0) == with_properties(
                    catalog.properties(),
                    properties@,
                    i as int,
                ),
            decreases properties@.len() - i,
        {
            let row = &properties[i];
            match catalog.set_property(row.0.as_str(), row.1.as_str()) {
                Ok(_) => {},
                Err(e) => {
                    return Err(e);
                },
            }
            i += 1;
        }
        if catalog.revision == 0 || catalog.schema.is_zero() {
            return Err(CvmfsError::CatalogInitialization);
        }
        Ok(catalog)
    }

    /// The content hash under which the catalog was found.
    pub fn hash(&self) -> (hash: &str)
        ensures
            hash@ == self.content_hash(),
    {
        self.hash.as_str()
    }

    /// The revision of the catalog.
    pub fn revision(&self) -> (revision: i32)
        ensures
            revision == self.properties().revision,
    {
        self.revision
    }

    /// The version of the schema.
    pub fn schema(&self) -> (schema: Decimal)
        ensures
            schema == self.properties().schema,
            schema.well_formed(),
    {
        proof {
            use_type_invariant(self);
        }
        self.schema
    }

    /// The revision of the schema.
    pub fn schema_revision(&self) -> (revision: Decimal)
        ensures
            revision == self.properties().schema_revision,
            revision.well_formed(),
    {
        proof {
            use_type_invariant(self);
        }
        self.schema_revision
    }

    /// The content hash of the revision before this one.
    pub fn previous_revision(&self) -> (hash: &str)
        ensures
            hash@ == self.properties().previous_revision,
    {
        self.previous_revision.as_str()
    }

    /// The time of the last modification in seconds since the epoch.
    pub fn last_modified(&self) -> (seconds: i64)
        ensures
            seconds == self.properties().last_modified,
    {
        self.last_modified
    }

    /// The path at which the catalog is mounted.
    pub fn root_prefix(&self) -> (path: &str)
        ensures
            path@ == self.properties().root_prefix,
    {
        self.root_prefix.as_str()
    }

    /// Is this the root catalog of its repository, mounted at `/`?
    pub fn is_root(&self) -> (yes: bool)
        ensures
            yes == (self.properties().root_prefix == "/"@),
    {
        str_eq(self.root_prefix.as_str(), "/")
    }

    /// Does the schema record the sizes of nested catalogs?
    pub fn nested_has_size(&self) -> (yes: bool)
        ensures
            yes == self.records_sizes(),
    {
        proof {
            use_type_invariant(self);
        }
        self.schema.at_most(12, 1) && self.schema_revision.is_positive()
    }

    /// The query that reads the `nested_catalogs` table of this schema.
    pub fn nested_query(&self) -> (sql: &'static str)
        ensures
            sql@ == if self.records_sizes() {
                NESTED_WITH_SIZE_QUERY@
            } else {
                NESTED_QUERY@
            },
    {
        if self.nested_has_size() {
            NESTED_WITH_SIZE_QUERY
        } else {
            NESTED_QUERY
        }
    }

    /// Adds a row of the `catalog` table. It goes behind the rows whose
    /// names do not come after its own, so that the table stays in the
    /// order of the names.
    pub fn add_entry(&mut self, row: EntryRow)
        ensures
            final(self).entry_rows() == old(self).entry_rows().insert(
                insertion_point(old(self).entry_rows(), name_of(row)),
                row,
            ),
            final(self).properties() == old(self).properties(),
            final(self).content_hash() == old(self).content_hash(),
            final(self).chunk_rows() == old(self).chunk_rows(),
            final(self).references() == old(self).references(),
            final(self).statistics_rows() == old(self).statistics_rows(),
    {
        proof {
            use_type_invariant(&*self);
            lemma_insertion_keeps_order(self.entries@, row);
        }
        let ghost name = name_of(row);
        let mut p: usize = self.entries.len();
        assert(self.entries@.subrange(0, p as int) =~= self.entries@);
        while p > 0 && !bytes_le(
            self.entries[p - 1].name.as_str().as_bytes(),
            row.name.as_str().as_bytes(),
        )
            invariant
                p <= self.entries@.len(),
                name == name_of(row),
                insertion_point(self.entries@, name) == insertion_point(
                    self.entries@.subrange(0, p as int),
                    name,
                ),
            decreases p,
        {
            assert(self.entries@.subrange(0, p as int).drop_last() =~= self.entries@.subrange(
                0,
                p - 1,
            ));
            p -= 1;
        }
        assert(self.entries@.subrange(0, self.entries@.len() as int) =~= self.entries@);
        let mut entries: Vec<EntryRow> = Vec::new();
        core::mem::swap(&mut self.entries, &mut entries);
        entries.insert(p, row);
        self.entries = entries;
    }

    /// Adds a row of the `chunks` table.
    pub fn add_chunk(&mut self, row: ChunkRow)
        ensures
            final(self).chunk_rows() == old(self).chunk_rows().push(row),
            final(self).properties() == old(self).properties(),
            final(self).content_hash() == old(self).content_hash(),
            final(self).entry_rows() == old(self).entry_rows(),
            final(self).references() == old(self).references(),
            final(self).statistics_rows() == old(self).statistics_rows(),
    {
        proof {
            use_type_invariant(&*self);
        }
        let mut chunks: Vec<ChunkRow> = Vec::new();
        core::mem::swap(&mut self.chunks, &mut chunks);
        chunks.push(row);
        self.chunks = chunks;
    }

    /// Adds a row of the `statistics` table.
    pub fn add_statistic(&mut self, row: StatisticsRow)
        ensures
            final(self).statistics_rows() == old(self).statistics_rows().push(row),
            final(self).properties() == old(self).properties(),
            final(self).content_hash() == old(self).content_hash(),
            final(self).entry_rows() == old(self).entry_rows(),
            final(self).chunk_rows() == old(self).chunk_rows(),
            final(self).references() == old(self).references(),
    {
        proof {
            use_type_invariant(&*self);
        }
        let mut statistics: Vec<StatisticsRow> = Vec::new();
        core::mem::swap(&mut self.statistics, &mut statistics);
        statistics.push(row);
        self.statistics = statistics;
    }

    /// Adds a row of the `nested_catalogs` table. Where the schema records
    /// sizes the row has to have one; where it records none the size counts
    /// as 0.
    pub fn add_nested(&mut self, row: NestedRow) -> (done: CvmfsResult<()>)
        ensures
            match done {
                Ok(_) => {
                    &&& !(old(self).records_sizes() && row.size is None)
                    &&& final(self).references() == old(self).references().push(
                        CatalogReference {
                            root_path: row.path,
                            catalog_hash: row.sha1,
                            catalog_size: if old(self).records_sizes() {
                                row.size->0
                            } else {
                                0
                            },
                        },
                    )
                },
                Err(e) => {
                    &&& old(self).records_sizes() && row.size is None
                    &&& e matches CvmfsError::DatabaseError(text) && text@
                        == "nested catalog without size"@
                    &&& final(self).references() == old(self).references()
                },
            },
            final(self).properties() == old(self).properties(),
            final(self).content_hash() == old(self).content_hash(),
            final(self).entry_rows() == old(self).entry_rows(),
            final(self).chunk_rows() == old(self).chunk_rows(),
            final(self).statistics_rows() == old(self).statistics_rows(),
    {
        proof {
            use_type_invariant(&*self);
        }
        let catalog_size: u32 = if self.nested_has_size() {
            match row.size {
                Some(size) => size,
                None => {
                    return Err(
                        CvmfsError::DatabaseError("nested catalog without size".to_owned()),
                    );
                },
            }
        } else {
            0
        };
        let mut nested: Vec<CatalogReference> = Vec::new();
        core::mem::swap(&mut self.nested, &mut nested);
        nested.push(CatalogReference { root_path: row.path, catalog_hash: row.sha1, catalog_size });
        self.nested = nested;
        Ok(())
    }

    /// Does the catalog have nested catalogs?
    pub fn has_nested(&self) -> (yes: bool)
        ensures
            yes == (self.references().len() > 0),
    {
        self.nested.len() > 0
    }

    /// The number of nested catalogs.
    pub fn nested_count(&self) -> (count: usize)
        ensures
            count == self.references().len(),
    {
        self.nested.len()
    }

    /// The nested catalogs, in the order of the table.
    pub fn list_nested(&self) -> (references: &Vec<CatalogReference>)
        ensures
            references@ == self.references(),
    {
        &self.nested
    }

    /// Is `needle_path` cut cleanly by `catalog_path`: does it end there or
    /// go on with a `/`?
    pub fn path_sanitized(needle_path: &str, catalog_path: &str) -> (yes: bool)
        ensures
            yes == path_is_sanitized(encode_utf8(needle_path@), encode_utf8(catalog_path@)),
    {
        let needle = needle_path.as_bytes();
        let catalog = catalog_path.as_bytes();
        needle.len() == catalog.len() || (needle.len() > catalog.len() && needle[catalog.len()]
            == 47)
    }

    /// The nested catalog to follow for a path: the one with the longest
    /// mount point among those that take the path over, and the first of
    /// them in the table. Where none takes it over this catalog holds the
    /// path itself.
    pub fn find_nested_for_path(&self, needle_path: &str) -> (found: Option<&CatalogReference>)
        ensures
            match found {
                Some(reference) => exists|i: int|
                    is_best_mount(self.references(), encode_utf8(needle_path@), i)
                        && self.references()[i] == *reference,
                None => no_mount(self.references(), encode_utf8(needle_path@)),
            },
    {
        let needle = needle_path.as_bytes();
        let mut best: Option<usize> = None;
        let mut best_score: usize = 0;
        let mut i: usize = 0;
        while i < self.nested.len()
            invariant
                i <= self.nested@.len(),
                needle@ == encode_utf8(needle_path@),
                match best {
                    Some(b) => {
                        &&& b < i
                        &&& mounts(mount_point(self.nested@[b as int]), needle@)
                        &&& mount_point(self.nested@[b as int]).len() == best_score
                        &&& forall|j: int|
                            0 <= j < i && mounts(#[trigger] mount_point(self.nested@[j]), needle@)
                                ==> mount_point(self.nested@[j]).len() <= best_score && (j < b
                                ==> mount_point(self.nested@[j]).len() < best_score)
                    },
                    None => forall|j: int|
                        0 <= j < i ==> !mounts(#[trigger] mount_point(self.nested@[j]), needle@),
                },
            decreases self.nested@.len() - i,
        {
            let root_path = self.nested[i].root_path.as_str();
            let root = root_path.as_bytes();
            if has_prefix(needle, root) && (best.is_none() || root.len() > best_score)
                && Self::path_sanitized(needle_path, root_path) {
                best_score = root.len();
                best = Some(i);
            }
            i += 1;
        }
        match best {
            Some(b) => {
                let reference = &self.nested[b];
                assert(is_best_mount(self.references(), encode_utf8(needle_path@), b as int)
                    && self.references()[b as int] == *reference);
                Some(reference)
            },
            None => {
                assert(no_mount(self.references(), encode_utf8(needle_path@)));
                None
            },
        }
    }

    /// `result` is what looking up the key `key` gives: the entry made of the
    /// first row with that key; no such file where no row has the key; a
    /// database error where the chunks of the row's file do not cover it.
    pub open spec fn is_lookup_result(
        &self,
        key: PathHash,
        result: CvmfsResult<DirectoryEntry>,
    ) -> bool {
        let rows = self.entry_rows();
        let at = position_of_key(rows, key);
        if at >= rows.len() {
            result == Err::<DirectoryEntry, _>(CvmfsError::FileNotFound)
        } else if row_is_sound(rows[at], self.chunk_rows()) {
            result matches Ok(entry) && is_entry_of(entry, rows[at], self.chunk_rows())
        } else {
            result matches Err(e) && is_cover_error(e)
        }
    }

    /// `result` is what listing the directory with the key `parent` gives:
    /// the entries made of the rows with that parent, in the order of their
    /// names; a database error where the chunks of one of the files do not
    /// cover it.
    pub open spec fn is_listing_result(
        &self,
        parent: PathHash,
        result: CvmfsResult<Vec<DirectoryEntry>>,
    ) -> bool {
        let rows = rows_under(self.entry_rows(), parent);
        match result {
            Ok(list) => {
                &&& list@.len() == rows.len()
                &&& forall|k: int|
                    0 <= k < rows.len() ==> is_entry_of(
                        #[trigger] list@[k],
                        rows[k],
                        self.chunk_rows(),
                    )
                &&& forall|i: int, j: int|
                    0 <= i <= j < list@.len() ==> lex_le(
                        encode_utf8((#[trigger] list@[i]).name@),
                        encode_utf8((#[trigger] list@[j]).name@),
                    )
            },
            Err(e) => {
                &&& is_cover_error(e)
                &&& exists|k: int|
                    0 <= k < rows.len() && !row_is_sound(#[trigger] rows[k], self.chunk_rows())
            },
        }
    }

    /// Finds the chunks of an entry in the `chunks` table and attaches
    /// them.
    pub fn read_chunks(&self, directory_entry: &mut DirectoryEntry) -> (done: CvmfsResult<()>)
        ensures
            match done {
                Ok(_) => {
                    &&& rows_fit(
                        chunk_rows_of(self.chunk_rows(), old(directory_entry).key()),
                        old(directory_entry).size,
                    )
                    &&& has_chunks_of(
                        *final(directory_entry),
                        chunk_rows_of(self.chunk_rows(), old(directory_entry).key()),
                    )
                    &&& *final(directory_entry) == (DirectoryEntry {
                        chunks: final(directory_entry).chunks,
                        ..*old(directory_entry)
                    })
                    &&& final(directory_entry).well_formed()
                },
                Err(e) => {
                    &&& !rows_fit(
                        chunk_rows_of(self.chunk_rows(), old(directory_entry).key()),
                        old(directory_entry).size,
                    )
                    &&& is_cover_error(e)
                    &&& *final(directory_entry) == *old(directory_entry)
                },
            },
    {
        directory_entry.add_chunks(&self.chunks)
    }

    /// Makes the entry that a row of the `catalog` table describes, with
    /// its chunks.
    pub fn make_directory_entry(&self, row: &EntryRow) -> (entry: CvmfsResult<DirectoryEntry>)
        ensures
            match entry {
                Ok(made) => {
                    &&& row_is_sound(*row, self.chunk_rows())
                    &&& is_entry_of(made, *row, self.chunk_rows())
                },
                Err(e) => !row_is_sound(*row, self.chunk_rows()) && is_cover_error(e),
            },
    {
        let mut directory_entry = DirectoryEntry::new(row);
        match self.read_chunks(&mut directory_entry) {
            Ok(_) => Ok(directory_entry),
            Err(e) => Err(e),
        }
    }

    /// Lists the directory whose path has the two halves `parent_1` and
    /// `parent_2` as its key.
    pub fn list_directory_split_md5(&self, parent_1: i64, parent_2: i64) -> (list: CvmfsResult<
        Vec<DirectoryEntry>,
    >)
        ensures
            self.is_listing_result(PathHash { hash1: parent_1, hash2: parent_2 }, list),
    {
        let ghost parent = PathHash { hash1: parent_1, hash2: parent_2 };
        let ghost all = rows_under(self.entries@, parent);
        proof {
            use_type_invariant(self);
            lemma_rows_under(self.entries@, parent);
        }
        let mut result: Vec<DirectoryEntry> = Vec::new();
        let mut i: usize = 0;
        assert(self.entries@.subrange(0, 0) =~= Seq::<EntryRow>::empty());
        while i < self.entries.len()
            invariant
                i <= self.entries@.len(),
                parent == (PathHash { hash1: parent_1, hash2: parent_2 }),
                all == rows_under(self.entries@, parent),
                sorted_by_name(all),
                result@.len() == rows_under(self.entries@.subrange(0, i as int), parent).len(),
                forall|k: int|
                    0 <= k < result@.len() ==> is_entry_of(
                        #[trigger] result@[k],
                        rows_under(self.entries@.subrange(0, i as int), parent)[k],
                        self.chunks@,
                    ),
                rows_under(self.entries@.subrange(0, i as int), parent) =~= all.subrange(
                    0,
                    result@.len() as int,
                ),
                result@.len() <= all.len(),
            decreases self.entries@.len() - i,
        {
            let row = &self.entries[i];
            let ghost before = self.entries@.subrange(0, i as int);
            let ghost now = self.entries@.subrange(0, i + 1);
            assert(now.drop_last() =~= before);
            assert(now.last() == *row);
            proof {
                lemma_rows_under_grows(self.entries@, parent, i as int);
            }
            if row.parent_1 == parent_1 && row.parent_2 == parent_2 {
                proof {
                    let longer = rows_under(now, parent);
                    assert(entry_row_parent(*row) == parent);
                    assert(longer == rows_under(before, parent).push(*row));
                    assert(longer[result@.len() as int] == *row);
                    assert(longer =~= all.subrange(0, longer.len() as int));
                    assert(all[result@.len() as int] == longer[result@.len() as int]);
                }
                match self.make_directory_entry(row) {
                    Ok(entry) => {
                        result.push(entry);
                    },
                    Err(e) => {
                        assert(!row_is_sound(all[result@.len() as int], self.chunk_rows()));
                        assert(all == rows_under(
                            self.entry_rows(),
                            PathHash { hash1: parent_1, hash2: parent_2 },
                        ));
                        let failed: CvmfsResult<Vec<DirectoryEntry>> = Err(e);
                        assert(self.is_listing_result(
                            PathHash { hash1: parent_1, hash2: parent_2 },
                            failed,
                        ));
                        return failed;
                    },
                }
            }
            i += 1;
        }
        assert(self.entries@.subrange(0, i as int) =~= self.entries@);
        assert forall|a: int, b: int| 0 <= a <= b < result@.len() implies lex_le(
            encode_utf8((#[trigger] result@[a]).name@),
            encode_utf8((#[trigger] result@[b]).name@),
        ) by {
            assert(is_entry_of(result@[a], all[a], self.chunks@));
            assert(is_entry_of(result@[b], all[b], self.chunks@));
            assert(lex_le(name_of(all[a]), name_of(all[b])));
        }
        Ok(result)
    }

    /// Lists the directory at `path`: its entries in the order of their
    /// names. The root directory `/` is listed under the empty path.
    pub fn list_directory(&self, path: &str) -> (list: CvmfsResult<Vec<DirectoryEntry>>)
        ensures
            self.is_listing_result(path_key(encode_utf8(path@)), list),
    {
        let parent_hash = hash_path(path);
        self.list_directory_split_md5(parent_hash.hash1, parent_hash.hash2)
    }

    /// Finds the entry of `root_path`.
    pub fn find_directory_entry(&self, root_path: &str) -> (entry: CvmfsResult<DirectoryEntry>)
        ensures
            self.is_lookup_result(path_key(encode_utf8(root_path@)), entry),
    {
        self.find_directory_entry_split_md5(hash_path(root_path))
    }

    /// Finds the entry whose path has the MD5 digest `md5_path`.
    pub fn find_directory_entry_md5(&self, md5_path: &[u8; 16]) -> (entry: CvmfsResult<
        DirectoryEntry,
    >)
        ensures
            self.is_lookup_result(split_digest(md5_path@), entry),
    {
        let path_hash = split_md5(md5_path);
        self.find_directory_entry_split_md5(path_hash)
    }

    /// Finds the entry whose path has the key `path_hash`.
    pub fn find_directory_entry_split_md5(&self, path_hash: PathHash) -> (entry: CvmfsResult<
        DirectoryEntry,
    >)
        ensures
            self.is_lookup_result(path_hash, entry),
    {
        let mut i: usize = 0;
        assert(self.entries@.skip(0) =~= self.entries@);
        while i < self.entries.len()
            invariant
                i <= self.entries@.len(),
                position_of_key(self.entries@, path_hash) == i + position_of_key(
                    self.entries@.skip(i as int),
                    path_hash,
                ),
            decreases self.entries@.len() - i,
        {
            let row = &self.entries[i];
            let ghost rest = self.entries@.skip(i as int);
            assert(rest[0] == *row);
            if row.md5path_1 == path_hash.hash1 && row.md5path_2 == path_hash.hash2 {
                return self.make_directory_entry(row);
            }
            assert(rest.drop_first() =~= self.entries@.skip(i + 1));
            i += 1;
        }
        Err(CvmfsError::FileNotFound)
    }

    /// The counters of the subtree: every row of a `subtree_` counter sets
    /// its counter, later rows over earlier ones.
    pub fn get_statistics(&self) -> (statistics: Statistics)
        ensures
            statistics == with_counters(
                self.statistics_rows(),
                self.statistics_rows().len() as int,
            ),
    {
        let mut statistics = Statistics::default();
        let mut i: usize = 0;
        while i < self.statistics.len()
            invariant
                i <= self.statistics@.len(),
                statistics == with_counters(self.statistics@, i as int),
            decreases self.statistics@.len() - i,
        {
            let row = &self.statistics[i];
            let name = row.counter.as_str();
            if str_eq(name, "subtree_chunked") {
                statistics.chunked = row.value;
            } else if str_eq(name, "subtree_chunked_size") {
                statistics.chunked_size = row.value;
            } else if str_eq(name, "subtree_chunks") {
                statistics.chunks = row.value;
            } else if str_eq(name, "subtree_dir") {
                statistics.dir = row.value;
            } else if str_eq(name, "subtree_external") {
                statistics.external = row.value;
            } else if str_eq(name, "subtree_external_file_size") {
                statistics.external_file_size = row.value;
            } else if str_eq(name, "subtree_nested") {
                statistics.nested = row.value;
            } else if str_eq(name, "subtree_regular") {
                statistics.regular = row.value;
            } else if str_eq(name, "subtree_special") {
                statistics.special = row.value;
            } else if str_eq(name, "subtree_symlink") {
                statistics.symlink = row.value;
            } else if str_eq(name, "subtree_xattr") {
                statistics.xattr = row.value;
            }
            i += 1;
        }
        statistics
    }
}

} // verus!
