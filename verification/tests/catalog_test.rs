use cvmfs::catalog::{
    Catalog, CatalogReference, NestedRow, Statistics, StatisticsRow, CATALOG_ROOT_PREFIX,
    NESTED_QUERY, NESTED_WITH_SIZE_QUERY,
};
use cvmfs::common::{hash_path, CvmfsError, PathHash};
use cvmfs::decimal::Decimal;
use cvmfs::directory_entry::{ChunkRow, DirectoryEntry, EntryRow};

fn properties(pairs: &[(&str, &str)]) -> Vec<(String, String)> {
    pairs.iter().map(|(key, value)| (key.to_string(), value.to_string())).collect()
}

fn catalog_with(pairs: &[(&str, &str)]) -> Catalog {
    Catalog::new(&properties(pairs), String::from("cafe")).unwrap()
}

fn plain_catalog() -> Catalog {
    catalog_with(&[("revision", "5"), ("schema", "2.5")])
}

fn error_of(pairs: &[(&str, &str)]) -> CvmfsError {
    match Catalog::new(&properties(pairs), String::from("cafe")) {
        Ok(_) => panic!("the catalog should have been refused"),
        Err(e) => e,
    }
}

fn entry_row(path: &str, parent: &str, name: &str, flags: u32) -> EntryRow {
    let key = hash_path(path);
    let parent_key = hash_path(parent);
    EntryRow {
        md5path_1: key.hash1,
        md5path_2: key.hash2,
        parent_1: parent_key.hash1,
        parent_2: parent_key.hash2,
        hash: Some(vec![0xaa, 0xaa]),
        flags,
        size: 3,
        mode: 0o644,
        mtime: 17,
        name: String::from(name),
        symlink: None,
    }
}

fn nested(path: &str, hash: &str, size: Option<u32>) -> NestedRow {
    NestedRow { path: String::from(path), sha1: String::from(hash), size }
}

fn names(entries: &[DirectoryEntry]) -> Vec<String> {
    entries.iter().map(|entry| entry.name.clone()).collect()
}

fn nested_hash(catalog: &Catalog, path: &str) -> Option<String> {
    catalog.find_nested_for_path(path).map(|reference| reference.catalog_hash.clone())
}

#[test]
fn a_catalog_has_the_properties_of_its_table() {
    let catalog = catalog_with(&[
        ("revision", "42"),
        ("schema", "2.5"),
        ("schema_revision", "1"),
        ("last_modified", "1700000000"),
        ("previous_revision", "abc"),
        ("root_prefix", "/software"),
        ("fancy", "ignored"),
    ]);
    assert_eq!(catalog.revision(), 42);
    assert_eq!(catalog.schema(), Decimal { negative: false, digits: 25, scale: 1 });
    assert_eq!(catalog.schema_revision(), Decimal { negative: false, digits: 1, scale: 0 });
    assert_eq!(catalog.last_modified(), 1_700_000_000);
    assert_eq!(catalog.previous_revision(), "abc");
    assert_eq!(catalog.root_prefix(), "/software");
    assert_eq!(catalog.hash(), "cafe");
    assert!(!catalog.is_root());
    assert!(!catalog.has_nested());
    assert_eq!(catalog.nested_count(), 0);
    assert_eq!(CATALOG_ROOT_PREFIX, "C");
}

#[test]
fn a_catalog_is_mounted_at_the_root_unless_it_says_otherwise() {
    let catalog = plain_catalog();
    assert_eq!(catalog.root_prefix(), "/");
    assert!(catalog.is_root());
    assert_eq!(catalog.last_modified(), 0);
    assert_eq!(catalog.previous_revision(), "");
    assert!(catalog.schema_revision().is_zero());
    let moved = catalog_with(&[("revision", "1"), ("schema", "1"), ("root_prefix", "/a"), ("root_prefix", "/")]);
    assert!(moved.is_root());
}

#[test]
fn a_repeated_previous_revision_is_written_behind_the_first() {
    let catalog = catalog_with(&[
        ("previous_revision", "ab"),
        ("revision", "1"),
        ("revision", "2"),
        ("schema", "1"),
        ("previous_revision", "cd"),
    ]);
    assert_eq!(catalog.previous_revision(), "abcd");
    assert_eq!(catalog.revision(), 2);
}

#[test]
fn a_catalog_needs_a_revision_and_a_schema() {
    assert_eq!(error_of(&[]), CvmfsError::CatalogInitialization);
    assert_eq!(error_of(&[("revision", "5")]), CvmfsError::CatalogInitialization);
    assert_eq!(error_of(&[("schema", "2.5")]), CvmfsError::CatalogInitialization);
    assert_eq!(error_of(&[("revision", "0"), ("schema", "2.5")]), CvmfsError::CatalogInitialization);
    assert_eq!(error_of(&[("revision", "5"), ("schema", "0.0")]), CvmfsError::CatalogInitialization);
    assert_eq!(error_of(&[("revision", "5"), ("schema", "-0")]), CvmfsError::CatalogInitialization);
    assert_eq!(catalog_with(&[("revision", "-1"), ("schema", "0.1")]).revision(), -1);
}

#[test]
fn malformed_properties_are_parse_errors() {
    assert_eq!(error_of(&[("revision", "five"), ("schema", "2.5")]), CvmfsError::ParseError);
    assert_eq!(error_of(&[("revision", "2147483648"), ("schema", "2.5")]), CvmfsError::ParseError);
    assert_eq!(error_of(&[("revision", "5"), ("schema", "two")]), CvmfsError::ParseError);
    assert_eq!(error_of(&[("revision", "5"), ("schema", "2.5"), ("schema_revision", "")]), CvmfsError::ParseError);
    assert_eq!(error_of(&[("revision", "5"), ("schema", "2.5"), ("last_modified", "soon")]), CvmfsError::ParseError);
    assert_eq!(error_of(&[("last_modified", "soon"), ("revision", "x")]), CvmfsError::ParseError);
}

#[test]
fn a_last_modification_beyond_the_calendar_is_an_invalid_timestamp() {
    assert_eq!(
        error_of(&[("revision", "5"), ("schema", "2.5"), ("last_modified", "9223372036854775807")]),
        CvmfsError::InvalidTimestamp
    );
    assert_eq!(
        error_of(&[("last_modified", "-9223372036854775808"), ("revision", "x")]),
        CvmfsError::InvalidTimestamp
    );
    let at = |seconds: &str| {
        Catalog::new(
            &properties(&[("revision", "5"), ("schema", "2.5"), ("last_modified", seconds)]),
            String::from("cafe"),
        )
        .map(|catalog| catalog.last_modified())
    };
    assert_eq!(at("8210266876799"), Ok(8_210_266_876_799));
    assert_eq!(at("8210266876800"), Err(CvmfsError::InvalidTimestamp));
    assert_eq!(at("-8334601228800"), Ok(-8_334_601_228_800));
    assert_eq!(at("-8334601228801"), Err(CvmfsError::InvalidTimestamp));
}

#[test]
fn old_schemas_with_a_revision_record_the_sizes_of_nested_catalogs() {
    let sized = |schema: &str, revision: &str| {
        catalog_with(&[("revision", "1"), ("schema", schema), ("schema_revision", revision)])
            .nested_has_size()
    };
    assert!(sized("1.2", "1"));
    assert!(sized("1.20", "0.5"));
    assert!(sized("1.0", "2"));
    assert!(sized("0.9", "1"));
    assert!(!sized("1.2", "0"));
    assert!(!sized("1.2", "-1"));
    assert!(!sized("1.21", "1"));
    assert!(!sized("2.5", "1"));
    assert!(!sized("2.5", "0"));
    let old = catalog_with(&[("revision", "1"), ("schema", "1.2"), ("schema_revision", "1")]);
    assert_eq!(old.nested_query(), NESTED_WITH_SIZE_QUERY);
    assert_eq!(old.nested_query(), "SELECT path, sha1, size FROM nested_catalogs");
    assert_eq!(plain_catalog().nested_query(), NESTED_QUERY);
    assert_eq!(plain_catalog().nested_query(), "SELECT path, sha1 FROM nested_catalogs");
}

#[test]
fn nested_catalogs_have_a_size_only_where_the_schema_records_one() {
    let mut new_schema = plain_catalog();
    assert_eq!(new_schema.add_nested(nested("/a", "h1", None)), Ok(()));
    assert_eq!(new_schema.add_nested(nested("/b", "h2", Some(77))), Ok(()));
    let listed: &Vec<CatalogReference> = new_schema.list_nested();
    assert_eq!(listed.len(), 2);
    assert_eq!(listed[0].root_path, "/a");
    assert_eq!(listed[0].catalog_hash, "h1");
    assert_eq!(listed[0].catalog_size, 0);
    assert_eq!(listed[1].catalog_size, 0);
    assert!(new_schema.has_nested());
    assert_eq!(new_schema.nested_count(), 2);

    let mut old_schema =
        catalog_with(&[("revision", "1"), ("schema", "1.2"), ("schema_revision", "1")]);
    assert_eq!(old_schema.add_nested(nested("/b", "h2", Some(77))), Ok(()));
    assert_eq!(
        old_schema.add_nested(nested("/a", "h1", None)),
        Err(CvmfsError::DatabaseError(String::from("nested catalog without size")))
    );
    assert_eq!(old_schema.nested_count(), 1);
    assert_eq!(old_schema.list_nested()[0].catalog_size, 77);
}

#[test]
fn a_path_is_sanitized_where_it_ends_or_goes_on_with_a_slash() {
    assert!(Catalog::path_sanitized("/foo", "/foo"));
    assert!(Catalog::path_sanitized("/foo/bar", "/foo"));
    assert!(!Catalog::path_sanitized("/foobar", "/foo"));
    assert!(!Catalog::path_sanitized("/fo", "/foo"));
    assert!(Catalog::path_sanitized("", ""));
    assert!(Catalog::path_sanitized("/", ""));
    assert!(!Catalog::path_sanitized("a", ""));
    assert!(Catalog::path_sanitized("abc", "xyz"));
}

#[test]
fn the_longest_sanitized_prefix_chooses_the_nested_catalog() {
    let mut catalog = plain_catalog();
    for (path, hash) in [("/a", "H-a"), ("/a/b", "H-ab"), ("/a/b/c/d", "H-abcd"), ("/x/y", "H-xy"), ("", "H-empty")] {
        catalog.add_nested(nested(path, hash, None)).unwrap();
    }
    assert_eq!(nested_hash(&catalog, "/a/b/c"), Some(String::from("H-ab")));
    assert_eq!(nested_hash(&catalog, "/a/b"), Some(String::from("H-ab")));
    assert_eq!(nested_hash(&catalog, "/a/b/c/d"), Some(String::from("H-abcd")));
    assert_eq!(nested_hash(&catalog, "/a/b/c/d/e/f"), Some(String::from("H-abcd")));
    assert_eq!(nested_hash(&catalog, "/a/b/c/dx"), Some(String::from("H-ab")));
    assert_eq!(nested_hash(&catalog, "/a/bx"), Some(String::from("H-a")));
    assert_eq!(nested_hash(&catalog, "/a"), Some(String::from("H-a")));
    assert_eq!(nested_hash(&catalog, "/ab"), Some(String::from("H-empty")));
    assert_eq!(nested_hash(&catalog, "/x"), Some(String::from("H-empty")));
    assert_eq!(nested_hash(&catalog, "/x/yz"), Some(String::from("H-empty")));
    assert_eq!(nested_hash(&catalog, "/"), Some(String::from("H-empty")));
    assert_eq!(nested_hash(&catalog, ""), Some(String::from("H-empty")));
    assert_eq!(nested_hash(&catalog, "relative"), None);
    assert_eq!(nested_hash(&plain_catalog(), "/a/b"), None);
}

#[test]
fn without_a_sanitized_prefix_the_catalog_holds_the_path_itself() {
    let mut catalog = plain_catalog();
    for (path, hash) in [("/a/b", "H-ab"), ("/x/y", "H-xy")] {
        catalog.add_nested(nested(path, hash, None)).unwrap();
    }
    assert_eq!(nested_hash(&catalog, "/a/bx"), None);
    assert_eq!(nested_hash(&catalog, "/a"), None);
    assert_eq!(nested_hash(&catalog, "/x"), None);
    assert_eq!(nested_hash(&catalog, "/x/yz"), None);
    assert_eq!(nested_hash(&catalog, "/"), None);
    assert_eq!(nested_hash(&catalog, ""), None);
    assert_eq!(nested_hash(&catalog, "/a/b/c"), Some(String::from("H-ab")));
}

#[test]
fn of_two_nested_catalogs_at_one_mount_point_the_first_is_chosen() {
    let mut catalog = plain_catalog();
    catalog.add_nested(nested("/a", "first", None)).unwrap();
    catalog.add_nested(nested("/a", "second", None)).unwrap();
    assert_eq!(nested_hash(&catalog, "/a/b"), Some(String::from("first")));
}

#[test]
fn a_directory_is_listed_in_the_order_of_the_names() {
    let mut catalog = plain_catalog();
    catalog.add_entry(entry_row("", "", "", 1));
    catalog.add_entry(entry_row("/foo", "", "foo", 4));
    catalog.add_entry(entry_row("/bar", "", "bar", 1));
    catalog.add_entry(entry_row("/Zed", "", "Zed", 4));
    catalog.add_entry(entry_row("/foo2", "", "foo2", 4));
    catalog.add_entry(entry_row("/bar/inner", "/bar", "inner", 4));
    catalog.add_entry(entry_row("/fo", "", "fo", 4));
    let listed = catalog.list_directory("/").unwrap();
    assert_eq!(names(&listed), vec!["", "Zed", "bar", "fo", "foo", "foo2"]);
    assert_eq!(names(&catalog.list_directory("").unwrap()), vec!["", "Zed", "bar", "fo", "foo", "foo2"]);
    assert_eq!(names(&catalog.list_directory("/bar").unwrap()), vec!["inner"]);
    assert!(catalog.list_directory("/foo").unwrap().is_empty());
    assert!(catalog.list_directory("/nothing").unwrap().is_empty());
    let root = hash_path("");
    assert_eq!(
        names(&catalog.list_directory_split_md5(root.hash1, root.hash2).unwrap()),
        vec!["", "Zed", "bar", "fo", "foo", "foo2"]
    );
}

#[test]
fn entries_with_one_name_stay_in_the_order_of_their_rows() {
    let mut catalog = plain_catalog();
    let mut first = entry_row("/one", "/dir", "same", 4);
    first.size = 1;
    let mut second = entry_row("/two", "/dir", "same", 4);
    second.size = 2;
    catalog.add_entry(first);
    catalog.add_entry(entry_row("/zzz", "/dir", "zzz", 4));
    catalog.add_entry(second);
    let listed = catalog.list_directory("/dir").unwrap();
    assert_eq!(names(&listed), vec!["same", "same", "zzz"]);
    assert_eq!(listed[0].size, 1);
    assert_eq!(listed[1].size, 2);
}

#[test]
fn an_entry_is_found_by_path_by_digest_and_by_key() {
    let mut catalog = plain_catalog();
    catalog.add_entry(entry_row("/foo", "", "foo", 4));
    catalog.add_entry(entry_row("/bar", "", "bar", 1));
    catalog.add_entry(entry_row("", "", "", 1));
    let by_path = catalog.find_directory_entry("/foo").unwrap();
    assert_eq!(by_path.name, "foo");
    assert!(by_path.is_file());
    assert_eq!(by_path.size, 3);
    assert_eq!(by_path.content_hash, Some(String::from("aaaa")));
    let digest: [u8; 16] = [
        0x1e, 0xff, 0xb2, 0x47, 0x5f, 0xcf, 0xba, 0x4f, 0x9e, 0x8b, 0x8a, 0x1d, 0xbc, 0x8f, 0x3c,
        0xaf,
    ];
    assert_eq!(catalog.find_directory_entry_md5(&digest).unwrap().name, "foo");
    let key = PathHash { hash1: 5745132282796244766, hash2: -5819618580357280866 };
    let by_key = catalog.find_directory_entry_split_md5(key).unwrap();
    assert_eq!(by_key.name, "foo");
    assert_eq!(by_key.path_hash(), by_path.path_hash());
    assert_eq!(by_key.path_hash(), key);
    assert_eq!(catalog.find_directory_entry("/").unwrap().name, "");
    assert_eq!(catalog.find_directory_entry("").unwrap().name, "");
    assert!(catalog.find_directory_entry("/bar").unwrap().is_directory());
}

#[test]
fn a_path_without_entry_is_not_found() {
    let mut catalog = plain_catalog();
    catalog.add_entry(entry_row("/foo", "", "foo", 4));
    assert_eq!(catalog.find_directory_entry("/fo").err(), Some(CvmfsError::FileNotFound));
    assert_eq!(catalog.find_directory_entry("/foo/").err(), Some(CvmfsError::FileNotFound));
    assert_eq!(catalog.find_directory_entry("").err(), Some(CvmfsError::FileNotFound));
    assert_eq!(
        catalog.find_directory_entry_split_md5(PathHash { hash1: 0, hash2: 0 }).err(),
        Some(CvmfsError::FileNotFound)
    );
    assert_eq!(plain_catalog().find_directory_entry("/foo").err(), Some(CvmfsError::FileNotFound));
}

#[test]
fn the_chunks_of_a_file_are_attached_by_its_key() {
    let mut catalog = plain_catalog();
    let mut big = entry_row("/big", "", "big", 4 | 64);
    big.hash = None;
    big.size = 10;
    catalog.add_entry(big);
    catalog.add_entry(entry_row("/small", "", "small", 4));
    let key = hash_path("/big");
    let other = hash_path("/other");
    catalog.add_chunk(ChunkRow { md5path_1: key.hash1, md5path_2: key.hash2, offset: 0, size: 4, hash: vec![0xc0] });
    catalog.add_chunk(ChunkRow { md5path_1: other.hash1, md5path_2: other.hash2, offset: 0, size: 9, hash: vec![0xee] });
    catalog.add_chunk(ChunkRow { md5path_1: key.hash1, md5path_2: key.hash2, offset: 4, size: 6, hash: vec![0xc1] });
    let entry = catalog.find_directory_entry("/big").unwrap();
    assert!(entry.has_chunks());
    assert_eq!(entry.chunks.len(), 2);
    assert_eq!(entry.chunks[0].content_hash, "c0");
    assert_eq!(entry.chunks[1].content_hash, "c1");
    assert_eq!(entry.chunks[1].offset, 4);
    assert!(catalog.find_directory_entry("/small").unwrap().chunks.is_empty());
    let listed = catalog.list_directory("/").unwrap();
    assert_eq!(names(&listed), vec!["big", "small"]);
    assert_eq!(listed[0].chunks.len(), 2);
    let mut again = catalog.find_directory_entry("/small").unwrap();
    assert_eq!(catalog.read_chunks(&mut again), Ok(()));
    assert!(again.chunks.is_empty());
    let made = catalog.make_directory_entry(&entry_row("/other", "", "other", 4));
    assert!(matches!(made, Err(CvmfsError::DatabaseError(_))));
}

#[test]
fn chunks_that_do_not_cover_their_file_fail_the_lookup() {
    let mut catalog = plain_catalog();
    let mut big = entry_row("/big", "", "big", 4);
    big.hash = None;
    big.size = 10;
    catalog.add_entry(big);
    catalog.add_entry(entry_row("/fine", "/sub", "fine", 4));
    let key = hash_path("/big");
    catalog.add_chunk(ChunkRow { md5path_1: key.hash1, md5path_2: key.hash2, offset: 0, size: 4, hash: vec![0xc0] });
    assert_eq!(
        catalog.find_directory_entry("/big").err(),
        Some(CvmfsError::DatabaseError(String::from("chunks do not cover the file")))
    );
    assert!(matches!(catalog.list_directory("/"), Err(CvmfsError::DatabaseError(_))));
    assert_eq!(names(&catalog.list_directory("/sub").unwrap()), vec!["fine"]);
}

#[test]
fn statistics_are_read_from_the_subtree_counters() {
    let mut catalog = plain_catalog();
    assert_eq!(catalog.get_statistics(), Statistics::default());
    let rows = [
        ("self_regular", 1),
        ("subtree_chunked", 2),
        ("subtree_chunked_size", 3),
        ("subtree_chunks", 4),
        ("subtree_dir", 5),
        ("subtree_external", 6),
        ("subtree_external_file_size", 7),
        ("subtree_file_size", 8),
        ("subtree_nested", 9),
        ("subtree_regular", 10),
        ("subtree_special", 11),
        ("subtree_symlink", 12),
        ("subtree_xattr", 13),
        ("subtree_dir", 50),
    ];
    for (counter, value) in rows {
        catalog.add_statistic(StatisticsRow { counter: String::from(counter), value });
    }
    assert_eq!(
        catalog.get_statistics(),
        Statistics {
            chunked: 2,
            chunked_size: 3,
            chunks: 4,
            dir: 50,
            external: 6,
            external_file_size: 7,
            file_size: 0,
            nested: 9,
            regular: 10,
            special: 11,
            symlink: 12,
            xattr: 13,
        }
    );
}
