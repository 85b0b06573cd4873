use std::path::Path;

use cvmfs::common::{
    canonicalize_path, catalog_path_of, compose_object_path, hash_path, is_object_hash, join_paths,
    split_md5, CvmfsError, PathHash, MANIFEST_NAME, WHITELIST_NAME,
};

#[test]
fn split_md5_reads_both_halves_little_endian() {
    let digest: [u8; 16] = [0, 1, 2, 3, 4, 5, 6, 7, 8, 9, 10, 11, 12, 13, 14, 15];
    assert_eq!(
        split_md5(&digest),
        PathHash { hash1: 506097522914230528, hash2: 1084818905618843912 }
    );
}

#[test]
fn split_md5_keeps_the_sign_bit() {
    let all_ones: [u8; 16] = [0xff, 0xff, 0xff, 0xff, 0xff, 0xff, 0xff, 0xff, 0x80, 0, 0, 0, 0, 0, 0, 0];
    assert_eq!(split_md5(&all_ones), PathHash { hash1: -1, hash2: 128 });
    let top_bit: [u8; 16] = [0, 0, 0, 0, 0, 0, 0, 0x80, 1, 2, 3, 4, 5, 6, 7, 8];
    assert_eq!(
        split_md5(&top_bit),
        PathHash { hash1: i64::MIN, hash2: 578437695752307201 }
    );
}

#[test]
fn path_keys_are_the_halves_of_the_md5_digest() {
    assert_eq!(
        hash_path(""),
        PathHash { hash1: 338333539836370388, hash2: 9098107892288553193 }
    );
    assert_eq!(
        hash_path("/foo"),
        PathHash { hash1: 5745132282796244766, hash2: -5819618580357280866 }
    );
    assert_eq!(
        hash_path("/a/b/c"),
        PathHash { hash1: -7557420259138280585, hash2: 4999427473226304554 }
    );
}

#[test]
fn the_root_directory_is_filed_under_the_empty_path() {
    assert_eq!(hash_path("/"), hash_path(""));
    assert_eq!(catalog_path_of("/"), "");
    assert_eq!(catalog_path_of(""), "");
    assert_eq!(catalog_path_of("/a"), "/a");
    assert_eq!(catalog_path_of("//"), "//");
}

#[test]
fn object_paths_are_composed_from_hash_and_suffix() {
    assert_eq!(compose_object_path("abcdef", ""), "data/ab/cdef");
    assert_eq!(compose_object_path("abcdef", "C"), "data/ab/cdefC");
    assert_eq!(compose_object_path("abcdef", "H"), "data/ab/cdefH");
    assert_eq!(compose_object_path("abcdef", "X"), "data/ab/cdefX");
    assert_eq!(compose_object_path("ab", ""), "data/ab/");
    assert_eq!(compose_object_path("0123-rmd160", ""), "data/01/23-rmd160");
    assert_eq!(
        compose_object_path("da39a3ee5e6b4b0d3255bfef95601890afd80709", "C"),
        "data/da/39a3ee5e6b4b0d3255bfef95601890afd80709C"
    );
}

#[test]
fn object_paths_agree_with_the_path_type_of_the_standard_library() {
    let hash = "0123456789abcdef";
    let (first, second) = hash.split_at(2);
    let expected = Path::new("data").join(first).join(second.to_owned() + "C");
    assert_eq!(compose_object_path(hash, "C"), expected.to_str().unwrap());
}

#[test]
fn a_hash_must_allow_a_cut_behind_its_second_byte() {
    assert!(is_object_hash("ab"));
    assert!(is_object_hash("abc"));
    assert!(!is_object_hash("a"));
    assert!(!is_object_hash(""));
    assert!(!is_object_hash("a\u{e9}"));
    assert!(is_object_hash("\u{e9}a"));
    assert_eq!(compose_object_path("\u{e9}a", ""), "data/\u{e9}/a");
}

#[test]
fn paths_are_joined_as_the_standard_library_joins_them() {
    let cases = [
        ("/tmp/cache", "data/ab/cd"),
        ("/tmp/cache/", "x"),
        ("", "x"),
        ("/a", "/b"),
        ("/a", ""),
        ("", ""),
        ("http://host/repo", ".cvmfspublished"),
        ("file:///srv/repo", "data/00/ff"),
        ("rel", "name"),
    ];
    for (directory, name) in cases {
        let expected = Path::new(directory).join(name);
        assert_eq!(join_paths(directory, name), expected.to_str().unwrap());
    }
    assert_eq!(join_paths("/tmp/cache", "data/ab/cd"), "/tmp/cache/data/ab/cd");
    assert_eq!(join_paths("/a", "/b"), "/b");
    assert_eq!(join_paths("/a", ""), "/a/");
}

#[test]
fn a_path_without_resolution_is_its_own_canonical_form() {
    assert_eq!(canonicalize_path("/x/y", None), "/x/y");
    assert_eq!(canonicalize_path("", None), "");
    assert_eq!(canonicalize_path("/x/y", Some(String::from("/real/y"))), "/real/y");
}

#[test]
fn errors_describe_themselves() {
    assert_eq!(CvmfsError::NotAFile.message(), "The path is not a file");
    assert_eq!(CvmfsError::IO(String::from("x")).message(), "IO error");
    assert_eq!(CvmfsError::FileNotFound.message(), "File not found");
    assert_eq!(CvmfsError::InvalidRootFileSignature.message(), "Invalid root file signature");
    assert_eq!(
        CvmfsError::IncompleteRootFileSignature.message(),
        "Incomplete root file signature"
    );
    assert_eq!(CvmfsError::Certificate.message(), "Invalid Certificate");
    assert_eq!(CvmfsError::DatabaseError(String::new()).message(), "DatabaseError");
    assert_eq!(CvmfsError::Generic(String::from("g")).message(), "Generic error");
    assert_eq!(CvmfsError::CatalogNotFound.message(), "Catalog not found");
}

#[test]
fn a_text_becomes_a_generic_error() {
    assert_eq!(
        CvmfsError::from(String::from("boom")),
        CvmfsError::Generic(String::from("boom"))
    );
    assert_eq!(CvmfsError::from("bang"), CvmfsError::Generic(String::from("bang")));
}

#[test]
fn the_root_files_have_their_names() {
    assert_eq!(MANIFEST_NAME, ".cvmfspublished");
    assert_eq!(WHITELIST_NAME, ".cvmfswhitelist");
}
