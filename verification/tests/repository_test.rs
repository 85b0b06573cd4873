use cvmfs::catalog::{Catalog, NestedRow, Statistics, StatisticsRow};
use cvmfs::chunked_file::ChunkRead;
use cvmfs::common::{hash_path, CvmfsError, CvmfsResult};
use cvmfs::directory_entry::{ChunkRow, ContentHashTypes, DirectoryEntry, EntryRow};
use cvmfs::fetcher::Fetcher;
use cvmfs::history::History;
use cvmfs::repository::{CatalogSearch, FileSource, Repository};
use cvmfs::revision::Revision;
use cvmfs::revision_tag::RevisionTag;

const TEST_CACHE_PATH: &str = "/tmp/cvmfs_test_cache";
const ROOT_HASH: &str = "00aa000000000000000000000000000000000000";
const NESTED_HASH: &str = "11bb000000000000000000000000000000000000";
const DEEP_HASH: &str = "22cc000000000000000000000000000000000000";

fn fetcher() -> Fetcher {
    Fetcher::new("http://cvmfs-stratum-one.cern.ch/opt/boss", TEST_CACHE_PATH, false).unwrap()
}

fn manifest(extra: &str) -> Vec<u8> {
    format!("C{}\nB42\nT1700000000123\nS7\nNboss.cern.ch\n{}", ROOT_HASH, extra).into_bytes()
}

fn repository() -> Repository {
    Repository::new(fetcher(), &manifest(""), None, None).unwrap()
}

fn catalog(hash: &str, prefix: &str) -> Catalog {
    let properties = vec![
        (String::from("revision"), String::from("7")),
        (String::from("schema"), String::from("2.5")),
        (String::from("root_prefix"), String::from(prefix)),
    ];
    Catalog::new(&properties, String::from(hash)).unwrap()
}

fn row(path: &str, parent: &str, name: &str, flags: u32, hash: Option<Vec<u8>>) -> EntryRow {
    let key = hash_path(path);
    let parent_key = hash_path(parent);
    EntryRow {
        md5path_1: key.hash1,
        md5path_2: key.hash2,
        parent_1: parent_key.hash1,
        parent_2: parent_key.hash2,
        hash,
        flags,
        size: 3,
        mode: 0o644,
        mtime: 17,
        name: String::from(name),
        symlink: None,
    }
}

fn root_row() -> EntryRow {
    let mut root = row("", "", "", 1, None);
    root.parent_1 = 0;
    root.parent_2 = 0;
    root
}

fn nested(path: &str, hash: &str) -> NestedRow {
    NestedRow { path: String::from(path), sha1: String::from(hash), size: None }
}

fn names(entries: &[DirectoryEntry]) -> Vec<String> {
    entries.iter().map(|entry| entry.name.clone()).collect()
}

fn single_catalog() -> Repository {
    let mut repo = repository();
    let mut root = catalog(ROOT_HASH, "/");
    root.add_entry(root_row());
    root.add_entry(row("/foo", "", "foo", 4, Some(vec![0xaa, 0xaa, 0xaa, 0xaa])));
    root.add_entry(row("/bar", "", "bar", 1, None));
    repo.retrieve_and_open_catalog(root);
    repo
}

fn root_with_nested() -> Catalog {
    let mut root = catalog(ROOT_HASH, "/");
    root.add_entry(root_row());
    root.add_entry(row("/a", "", "a", 1, None));
    root.add_entry(row("/a/b", "/a", "b", 1 | 2, None));
    root.add_entry(row("/a/bx", "/a", "bx", 4, Some(vec![0x0b])));
    root.add_nested(nested("/a/b", NESTED_HASH)).unwrap();
    root
}

fn nested_catalog() -> Catalog {
    let mut inner = catalog(NESTED_HASH, "/a/b");
    inner.add_entry(row("/a/b", "/a", "b", 1 | 32, None));
    inner.add_entry(row("/a/b/c", "/a/b", "c", 4, Some(vec![0x0c])));
    inner
}

#[test]
fn test_initialization() -> CvmfsResult<()> {
    let fetcher = Fetcher::new("http://cvmfs-stratum-one.cern.ch/opt/boss", TEST_CACHE_PATH, false)?;
    let mut repo = Repository::new(fetcher, &manifest(""), None, None)?;
    assert_eq!(0, repo.opened_catalogs.len());
    assert_eq!("boss.cern.ch", repo.fqrn);
    let root_hash = String::from(repo.get_root_hash()?);
    repo.retrieve_and_open_catalog(catalog(&root_hash, "/"));
    repo.retrieve_current_root_catalog()?;
    Ok(())
}

#[test]
fn a_repository_is_what_its_manifest_says() {
    let repo = repository();
    assert_eq!(repo.fqrn, "boss.cern.ch");
    assert_eq!(repo.repo_type, "stratum1");
    assert_eq!(repo.manifest.revision, 7);
    assert_eq!(repo.manifest.root_catalog, ROOT_HASH);
    assert_eq!(repo.last_replication, None);
    assert_eq!(repo.replicating_since, None);
    assert!(!repo.replicating);
    assert!(!repo.has_history());
    assert_eq!(repo.fetcher.source, "http://cvmfs-stratum-one.cern.ch/opt/boss");
    assert_eq!(repo.fetcher.cache.cache_directory, TEST_CACHE_PATH);
    assert!(repo.opened_catalogs.is_empty());
}

#[test]
fn a_repository_without_history_reads_the_tag_of_its_manifest() {
    let repo = repository();
    let tag = repo.current_tag().unwrap();
    assert_eq!(tag.name, "trunk");
    assert_eq!(tag.hash, ROOT_HASH);
    assert_eq!(tag.revision, 7);
    assert_eq!(tag.timestamp, 1_700_000_000);
    assert_eq!(tag.channel, 0);
    assert_eq!(tag.description, "");
    assert_eq!(repo.get_revision_number(), Ok(7));
    assert_eq!(repo.get_root_hash(), Ok(ROOT_HASH));
    assert_eq!(repo.get_name(), Ok("trunk"));
    assert_eq!(repo.get_timestamp(), Ok(1_700_000_000));
    assert_eq!(repo.retrieve_history(), Err(CvmfsError::HistoryNotFound));
}

#[test]
fn the_tag_of_a_manifest_fits_its_numbers() {
    let early = Repository::new(fetcher(), b"Caa\nS4294967295\nT-1\n", None, None).unwrap();
    let tag = early.current_tag().unwrap();
    assert_eq!(tag.revision, i32::MAX);
    assert_eq!(tag.timestamp, 0);
    assert_eq!(tag.hash, "aa");
}

#[test]
fn a_repository_knows_whether_its_manifest_was_signed() {
    assert!(!repository().manifest.root_file.has_signature());
    let mut data = b"Caa\nS7\n".to_vec();
    data.extend_from_slice(b"--\n");
    data.extend_from_slice(b"e0084b56f3e713ff35cfc746eb15eff92c40d36e");
    data.extend_from_slice(b"\nsignature");
    let signed = Repository::new(fetcher(), &data, None, None).unwrap();
    assert!(signed.manifest.root_file.has_signature());
    assert_eq!(
        signed.manifest.root_file.checksum_string(),
        Some(String::from("e0084b56f3e713ff35cfc746eb15eff92c40d36e"))
    );
    assert_eq!(signed.manifest.root_file.contents(), b"Caa\nS7\n");
    assert_eq!(signed.manifest.revision, 7);
}

#[test]
fn a_manifest_that_cannot_be_read_makes_no_repository() {
    let error_of = |data: &[u8]| match Repository::new(fetcher(), data, None, None) {
        Ok(_) => panic!("the manifest should have been refused"),
        Err(e) => e,
    };
    assert_eq!(error_of(b"S7\n--\n"), CvmfsError::IncompleteRootFileSignature);
    assert_eq!(
        error_of(b"S7\n--\n0000000000000000000000000000000000000000\n"),
        CvmfsError::InvalidRootFileSignature
    );
    assert_eq!(error_of(b"Sx\n"), CvmfsError::ParseError);
    assert_eq!(error_of(b"Tx\n"), CvmfsError::InvalidTimestamp);
}

#[test]
fn replication_files_that_hold_no_date_are_no_error() {
    let repo = Repository::new(
        fetcher(),
        &manifest(""),
        Some("Mon 15 Jan 12:00:00 UTC 2024"),
        Some("nonsense"),
    )
    .unwrap();
    assert_eq!(repo.last_replication, Some(1_705_320_000));
    assert_eq!(repo.replicating_since, None);
    assert!(!repo.replicating);
    let busy = Repository::new(
        fetcher(),
        &manifest(""),
        Some("no date"),
        Some("Mon 15 Jan 12:00:01 UTC 2024"),
    )
    .unwrap();
    assert_eq!(busy.last_replication, None);
    assert_eq!(busy.replicating_since, Some(1_705_320_001));
    assert!(busy.replicating);
    assert_eq!(
        Repository::get_replication_date(Some("Mon 15 Jan 12:00:00 UTC 2024")),
        Some(1_705_320_000)
    );
    assert_eq!(Repository::get_replication_date(None), None);
    assert_eq!(Repository::get_replication_date(Some("")), None);
}

#[test]
fn a_repository_with_history_has_no_tag_until_one_is_set() {
    let mut repo = Repository::new(fetcher(), &manifest("H33dd0000\n"), None, None).unwrap();
    assert!(repo.has_history());
    assert_eq!(repo.current_tag().err(), Some(CvmfsError::TagNotFound));
    assert_eq!(repo.get_root_hash(), Err(CvmfsError::TagNotFound));
    assert_eq!(repo.get_revision_number(), Err(CvmfsError::TagNotFound));
    assert_eq!(repo.get_name(), Err(CvmfsError::TagNotFound));
    assert_eq!(repo.get_timestamp(), Err(CvmfsError::TagNotFound));
    assert_eq!(repo.lookup("/foo").err(), Some(CvmfsError::TagNotFound));
    assert_eq!(repo.missing_catalog("/foo"), Err(CvmfsError::TagNotFound));
    assert_eq!(repo.get_statistics(), Err(CvmfsError::TagNotFound));
    assert_eq!(repo.retrieve_history(), Ok(String::from("data/33/dd0000H")));

    let properties = vec![(String::from("schema"), String::from("1.0"))];
    let mut history = History::new(&properties).unwrap();
    history.add_tag(RevisionTag::new(
        String::from("old"),
        String::from(DEEP_HASH),
        6,
        1_600_000_000,
        1,
        String::from("the revision before"),
    ));
    history.add_tag(RevisionTag::new(
        String::from("current"),
        String::from(ROOT_HASH),
        7,
        1_700_000_000,
        1,
        String::new(),
    ));
    assert_eq!(repo.get_tag(&history, 6).unwrap().name, "old");
    assert_eq!(repo.get_tag(&history, 8).err(), Some(CvmfsError::RevisionNotFound));
    assert_eq!(repo.get_last_tag(&history).unwrap().name, "current");
    assert_eq!(repo.set_current_tag(&history, 8), Err(CvmfsError::RevisionNotFound));
    assert_eq!(repo.current_tag().err(), Some(CvmfsError::TagNotFound));
    assert_eq!(repo.set_current_tag(&history, 7), Ok(()));
    assert_eq!(repo.get_name(), Ok("current"));
    assert_eq!(repo.get_root_hash(), Ok(ROOT_HASH));
    assert_eq!(repo.set_current_tag(&history, 6), Ok(()));
    assert_eq!(repo.get_root_hash(), Ok(DEEP_HASH));
    assert_eq!(repo.get_revision_number(), Ok(6));
    assert_eq!(repo.get_timestamp(), Ok(1_600_000_000));
    assert_eq!(repo.set_current_tag(&history, 99), Err(CvmfsError::RevisionNotFound));
    assert_eq!(repo.get_revision_number(), Ok(6));
}

#[test]
fn a_history_hash_that_names_no_object_is_a_parse_error() {
    let repo = Repository::new(fetcher(), &manifest("Hx\n"), None, None).unwrap();
    assert_eq!(repo.retrieve_history(), Err(CvmfsError::ParseError));
    assert_eq!(repo.retrieve_object_with_suffix("", "C"), Err(CvmfsError::ParseError));
    assert_eq!(
        repo.retrieve_object_with_suffix(ROOT_HASH, "C"),
        Ok(String::from("data/00/aa000000000000000000000000000000000000C"))
    );
}

#[test]
fn a_single_catalog_answers_lookups_and_listings() {
    let repo = single_catalog();
    let foo = repo.lookup("/foo").unwrap();
    assert!(foo.is_file());
    assert_eq!(foo.size, 3);
    assert_eq!(foo.name, "foo");
    assert_eq!(foo.content_hash, Some(String::from("aaaaaaaa")));
    assert_eq!(repo.list_directory("/bar").unwrap().len(), 0);
    assert_eq!(names(&repo.list_directory("/").unwrap()), vec!["bar", "foo"]);
    assert_eq!(names(&repo.list_directory("").unwrap()), vec!["bar", "foo"]);
    assert!(repo.lookup("/").unwrap().is_directory());
    assert_eq!(repo.lookup("/baz").err(), Some(CvmfsError::FileNotFound));
    assert_eq!(repo.list_directory("/baz").err(), Some(CvmfsError::FileNotFound));
    assert_eq!(repo.list_directory("/foo").err(), Some(CvmfsError::FileNotFound));
    assert_eq!(repo.missing_catalog("/foo"), Ok(None));
}

#[test]
fn a_directory_is_not_a_file() {
    let repo = single_catalog();
    assert!(matches!(repo.get_file("/bar"), Err(CvmfsError::NotAFile)));
    assert!(matches!(repo.get_file("/"), Err(CvmfsError::NotAFile)));
    assert!(matches!(repo.get_file("/baz"), Err(CvmfsError::FileNotFound)));
    match repo.get_file("/foo") {
        Ok(FileSource::Object(path)) => assert_eq!(path, "data/aa/aaaaaa"),
        other => panic!("a file with one object was expected, not {:?}", other),
    }
}

#[test]
fn a_catalog_that_was_not_opened_is_asked_for() {
    let mut repo = repository();
    assert_eq!(repo.missing_catalog("/a/b/c"), Ok(Some(String::from(ROOT_HASH))));
    assert_eq!(repo.lookup("/a/b/c").err(), Some(CvmfsError::CatalogNotFound));
    assert_eq!(repo.list_directory("/").err(), Some(CvmfsError::CatalogNotFound));
    assert!(matches!(repo.get_file("/a/b/c"), Err(CvmfsError::CatalogNotFound)));
    assert_eq!(repo.get_statistics(), Err(CvmfsError::CatalogNotFound));
    assert!(matches!(repo.retrieve_catalog(ROOT_HASH), Err(CvmfsError::CatalogNotFound)));
    assert!(matches!(
        repo.retrieve_current_root_catalog(),
        Err(CvmfsError::CatalogNotFound)
    ));

    repo.retrieve_and_open_catalog(root_with_nested());
    assert_eq!(repo.missing_catalog("/a/b/c"), Ok(Some(String::from(NESTED_HASH))));
    assert_eq!(repo.missing_catalog("/a/bx"), Ok(None));
    assert_eq!(repo.lookup("/a/b/c").err(), Some(CvmfsError::CatalogNotFound));
    assert!(matches!(
        repo.search_catalog_for_path("/a/b/c"),
        Ok(CatalogSearch::Missing(hash)) if hash == NESTED_HASH
    ));

    repo.retrieve_and_open_catalog(nested_catalog());
    assert_eq!(repo.missing_catalog("/a/b/c"), Ok(None));
    assert_eq!(repo.opened_catalogs.len(), 2);
    assert_eq!(repo.lookup("/a/b/c").unwrap().name, "c");
}

#[test]
fn a_nested_catalog_takes_over_below_its_mount_point() {
    let mut repo = repository();
    repo.retrieve_and_open_catalog(root_with_nested());
    repo.retrieve_and_open_catalog(nested_catalog());

    let c = repo.lookup("/a/b/c").unwrap();
    assert_eq!(c.name, "c");
    assert_eq!(c.content_hash, Some(String::from("0c")));
    assert_eq!(repo.retrieve_catalog_for_path("/a/b/c").unwrap().hash(), NESTED_HASH);

    let bx = repo.lookup("/a/bx").unwrap();
    assert_eq!(bx.name, "bx");
    assert_eq!(bx.content_hash, Some(String::from("0b")));
    assert_eq!(repo.retrieve_catalog_for_path("/a/bx").unwrap().hash(), ROOT_HASH);

    let mount = repo.lookup("/a/b").unwrap();
    assert!(mount.is_nested_catalog_root());
    assert!(!mount.is_nested_catalog_mountpoint());
    assert_eq!(names(&repo.list_directory("/a/b").unwrap()), vec!["c"]);
    assert_eq!(names(&repo.list_directory("/a").unwrap()), vec!["b", "bx"]);
    assert_eq!(repo.retrieve_catalog_for_path("/a").unwrap().hash(), ROOT_HASH);
    assert_eq!(repo.retrieve_catalog_for_path("").unwrap().hash(), ROOT_HASH);
    assert_eq!(repo.lookup("/a/b/missing").err(), Some(CvmfsError::FileNotFound));
}

#[test]
fn the_walk_ends_where_the_mount_points_stop_growing() {
    let mut repo = repository();
    let mut root = catalog(ROOT_HASH, "/");
    root.add_nested(nested("/a", NESTED_HASH)).unwrap();
    let mut circular = catalog(NESTED_HASH, "/a");
    circular.add_nested(nested("/a", ROOT_HASH)).unwrap();
    circular.add_entry(row("/a/x", "/a", "x", 4, Some(vec![0x01])));
    repo.retrieve_and_open_catalog(root);
    repo.retrieve_and_open_catalog(circular);
    assert_eq!(repo.retrieve_catalog_for_path("/a/x").unwrap().hash(), NESTED_HASH);
    assert_eq!(repo.lookup("/a/x").unwrap().name, "x");
}

#[test]
fn a_nested_catalog_at_the_empty_path_leads_nowhere() {
    let mut repo = repository();
    let mut root = catalog(ROOT_HASH, "/");
    root.add_nested(nested("", "never-opened")).unwrap();
    root.add_entry(row("/x", "", "x", 4, Some(vec![0x01])));
    repo.retrieve_and_open_catalog(root);
    assert_eq!(repo.missing_catalog("/x"), Ok(None));
    assert_eq!(repo.lookup("/x").unwrap().name, "x");
}

#[test]
fn a_revision_reads_the_snapshot_of_its_tag() {
    let mut repo = repository();
    let mut current = catalog(ROOT_HASH, "/");
    current.add_entry(root_row());
    current.add_entry(row("/new", "", "new", 4, Some(vec![0x0a, 0x0a])));
    let mut old = catalog(DEEP_HASH, "/");
    old.add_entry(root_row());
    old.add_entry(row("/old", "", "old", 4, Some(vec![0x0b, 0x0b])));
    old.add_entry(row("/dir", "", "dir", 1, None));
    repo.retrieve_and_open_catalog(current);
    repo.retrieve_and_open_catalog(old);
    let tag = RevisionTag::new(
        String::from("before"),
        String::from(DEEP_HASH),
        6,
        1_600_000_000,
        0,
        String::new(),
    );
    let revision = Revision::new(&repo, tag);
    assert_eq!(revision.get_revision_number(), 6);
    assert_eq!(revision.get_root_hash(), DEEP_HASH);
    assert_eq!(revision.get_name(), "before");
    assert_eq!(revision.get_timestamp(), 1_600_000_000);
    assert_eq!(revision.retrieve_root_catalog().unwrap().hash(), DEEP_HASH);
    assert_eq!(revision.retrieve_catalog(ROOT_HASH).unwrap().hash(), ROOT_HASH);
    assert_eq!(revision.retrieve_catalog_for_path("/old").unwrap().hash(), DEEP_HASH);
    assert_eq!(revision.lookup("/old").unwrap().name, "old");
    assert_eq!(revision.lookup("/new").err(), Some(CvmfsError::FileNotFound));
    assert_eq!(repo.lookup("/new").unwrap().name, "new");
    assert_eq!(names(&revision.list_directory("/").unwrap()), vec!["dir", "old"]);
    assert_eq!(revision.list_directory("/old").err(), Some(CvmfsError::FileNotFound));
    assert!(matches!(revision.get_file("/dir"), Err(CvmfsError::NotAFile)));
    match revision.get_file("/old") {
        Ok(FileSource::Object(path)) => assert_eq!(path, "data/0b/0b"),
        other => panic!("a file with one object was expected, not {:?}", other),
    }
    let unopened = Revision::new(
        &repo,
        RevisionTag::new(String::from("x"), String::from("ffff"), 1, 1, 0, String::new()),
    );
    assert!(matches!(unopened.retrieve_root_catalog(), Err(CvmfsError::CatalogNotFound)));
    assert_eq!(unopened.lookup("/old").err(), Some(CvmfsError::CatalogNotFound));
}

#[test]
fn three_catalogs_are_walked_down_in_turn() {
    let mut repo = repository();
    let mut root = catalog(ROOT_HASH, "/");
    root.add_nested(nested("/a", NESTED_HASH)).unwrap();
    root.add_nested(nested("/a/b/c", "never-opened")).unwrap();
    let mut middle = catalog(NESTED_HASH, "/a");
    middle.add_nested(nested("/a/b", DEEP_HASH)).unwrap();
    let mut deep = catalog(DEEP_HASH, "/a/b");
    deep.add_entry(row("/a/b/file", "/a/b", "file", 4, Some(vec![0x02])));
    repo.retrieve_and_open_catalog(deep);
    repo.retrieve_and_open_catalog(root);
    repo.retrieve_and_open_catalog(middle);
    assert_eq!(repo.lookup("/a/b/file").unwrap().name, "file");
    assert_eq!(repo.missing_catalog("/a/b/c/d"), Ok(Some(String::from("never-opened"))));
    assert_eq!(repo.retrieve_catalog_for_path("/a/zzz").unwrap().hash(), NESTED_HASH);
}

#[test]
fn a_catalog_that_is_opened_again_takes_the_place_of_the_first() {
    let mut repo = single_catalog();
    assert_eq!(repo.opened_catalogs.len(), 1);
    let mut replacement = catalog(ROOT_HASH, "/");
    replacement.add_entry(row("/new", "", "new", 4, Some(vec![0x03])));
    repo.retrieve_and_open_catalog(replacement);
    assert_eq!(repo.opened_catalogs.len(), 1);
    assert_eq!(repo.lookup("/new").unwrap().name, "new");
    assert_eq!(repo.lookup("/foo").err(), Some(CvmfsError::FileNotFound));
    repo.retrieve_and_open_catalog(catalog(NESTED_HASH, "/n"));
    assert_eq!(repo.opened_catalogs.len(), 2);
    repo.retrieve_and_open_catalog(catalog(NESTED_HASH, "/m"));
    assert_eq!(repo.opened_catalogs.len(), 2);
    assert_eq!(repo.retrieve_catalog(NESTED_HASH).unwrap().root_prefix(), "/m");
    repo.retrieve_and_open_catalog(catalog(NESTED_HASH, "/n"));
    let hashes: Vec<&str> = repo.opened_catalogs.iter().map(|opened| opened.hash()).collect();
    assert_eq!(hashes, vec![ROOT_HASH, NESTED_HASH]);
    assert_eq!(repo.fqrn, "boss.cern.ch");
    assert_eq!(repo.repo_type, "stratum1");
    assert_eq!(repo.retrieve_catalog(NESTED_HASH).unwrap().root_prefix(), "/n");
    assert_eq!(repo.retrieve_catalog(ROOT_HASH).unwrap().root_prefix(), "/");
}

#[test]
fn a_chunked_file_is_read_from_its_chunks() {
    let mut repo = repository();
    let mut root = catalog(ROOT_HASH, "/");
    let mut big = row("/big", "", "big", 4 | 64 | 0x100, None);
    big.size = 10;
    root.add_entry(big);
    let key = hash_path("/big");
    root.add_chunk(ChunkRow { md5path_1: key.hash1, md5path_2: key.hash2, offset: 0, size: 4, hash: vec![0xc0, 0x01] });
    root.add_chunk(ChunkRow { md5path_1: key.hash1, md5path_2: key.hash2, offset: 4, size: 6, hash: vec![0xc1, 0x02] });
    repo.retrieve_and_open_catalog(root);
    let file = match repo.get_file("/big") {
        Ok(FileSource::Chunked(file)) => file,
        other => panic!("a chunked file was expected, not {:?}", other),
    };
    assert_eq!(file.size(), 10);
    assert_eq!(file.position(), 0);
    assert_eq!(file.chunks().len(), 2);
    assert_eq!(file.chunks()[0].0, "data/c0/01-rmd160");
    assert_eq!(file.chunks()[1].0, "data/c1/02-rmd160");
    assert_eq!(file.chunks()[1].1.offset, 4);
    assert_eq!(file.chunks()[1].1.content_hash, "c102");
    assert_eq!(file.chunks()[1].1.content_hash_type, ContentHashTypes::Ripemd160);
    assert_eq!(file.read(10), Some(ChunkRead { index: 0, offset: 0, length: 4 }));
    assert_eq!(file.fetcher().source, repo.fetcher.source);
    assert_eq!(file.fetcher().cache.cache_directory, TEST_CACHE_PATH);
}

#[test]
fn content_of_an_unknown_algorithm_is_refused() {
    let repo = repository();
    let unknown = DirectoryEntry::new(&row("/u", "", "u", 4 | 0x300, Some(vec![0xab, 0xcd])));
    match repo.retrieve_object(&unknown) {
        Err(e) => assert_eq!(e, CvmfsError::Generic(String::from("unknown content hash algorithm"))),
        Ok(other) => panic!("the content should have been refused, not {:?}", other),
    }
    let chunked = DirectoryEntry::new(&row("/u", "", "u", 4 | 0x700, None));
    assert!(matches!(repo.retrieve_object(&chunked), Err(CvmfsError::Generic(_))));
    let empty_hash = DirectoryEntry::new(&row("/e", "", "e", 4, Some(Vec::new())));
    assert!(matches!(repo.retrieve_object(&empty_hash), Err(CvmfsError::ParseError)));
    let rmd = DirectoryEntry::new(&row("/r", "", "r", 4 | 0x100, Some(vec![0xab, 0xcd])));
    match repo.retrieve_object(&rmd) {
        Ok(FileSource::Object(path)) => assert_eq!(path, "data/ab/cd-rmd160"),
        other => panic!("a file with one object was expected, not {:?}", other),
    }
}

#[test]
fn statistics_come_from_the_root_catalog() {
    let mut repo = repository();
    let mut root = catalog(ROOT_HASH, "/");
    root.add_statistic(StatisticsRow { counter: String::from("subtree_regular"), value: 12 });
    root.add_statistic(StatisticsRow { counter: String::from("subtree_dir"), value: 3 });
    let mut other = catalog(NESTED_HASH, "/a");
    other.add_statistic(StatisticsRow { counter: String::from("subtree_regular"), value: 99 });
    repo.retrieve_and_open_catalog(other);
    repo.retrieve_and_open_catalog(root);
    let statistics = repo.get_statistics().unwrap();
    assert_eq!(statistics, Statistics { regular: 12, dir: 3, ..Statistics::default() });
}
