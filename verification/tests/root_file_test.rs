use cvmfs::common::CvmfsError;
use cvmfs::root_file::RootFile;

const BODY: &[u8] = b"C0123456789abcdef0123456789abcdef01234567\nR4567456745674567456745674567456745674567\nB42\nT1700000000000\nS7\nNexample.org\n";
const BODY_SHA1: &[u8] = b"8f6213258ef92878200c231d45d4edbff2c13cde";
const EMPTY_SHA1: &[u8] = b"da39a3ee5e6b4b0d3255bfef95601890afd80709";

fn signed(body: &[u8], checksum: &[u8], rest: &[u8]) -> Vec<u8> {
    let mut data = body.to_vec();
    data.extend_from_slice(b"--\n");
    data.extend_from_slice(checksum);
    data.extend_from_slice(b"\n");
    data.extend_from_slice(rest);
    data
}

fn error_of(data: &[u8]) -> CvmfsError {
    match RootFile::new(data) {
        Ok(_) => panic!("the file should have been refused"),
        Err(e) => e,
    }
}

#[test]
fn a_file_without_terminator_is_read_whole() {
    let file = RootFile::new(b"Cabc\nNname\n").unwrap();
    assert!(!file.has_signature());
    assert_eq!(file.checksum_string(), None);
    assert_eq!(file.contents(), b"Cabc\nNname\n");
    assert_eq!(file.lines(), vec![b"Cabc".to_vec(), b"Nname".to_vec(), Vec::new()]);
}

#[test]
fn an_empty_file_has_one_empty_line() {
    let file = RootFile::new(b"").unwrap();
    assert!(!file.has_signature());
    assert_eq!(file.contents(), b"");
    assert_eq!(file.lines(), vec![Vec::<u8>::new()]);
}

#[test]
fn a_last_line_without_newline_is_a_line() {
    let file = RootFile::new(b"Ca\nNb").unwrap();
    assert_eq!(file.lines(), vec![b"Ca".to_vec(), b"Nb".to_vec()]);
    let blank = RootFile::new(b"\n\nX\n").unwrap();
    assert_eq!(blank.lines(), vec![Vec::new(), Vec::new(), b"X".to_vec(), Vec::new()]);
}

#[test]
fn a_matching_checksum_is_accepted() {
    let data = signed(BODY, BODY_SHA1, &[0xff, 0x00, 0xfe, 0x0a, 0x80]);
    let file = RootFile::new(&data).unwrap();
    assert!(file.has_signature());
    assert_eq!(
        file.checksum_string(),
        Some(String::from("8f6213258ef92878200c231d45d4edbff2c13cde"))
    );
    assert_eq!(file.contents(), BODY);
}

#[test]
fn an_empty_list_can_be_signed() {
    let data = signed(b"", EMPTY_SHA1, b"");
    let file = RootFile::new(&data).unwrap();
    assert!(file.has_signature());
    assert_eq!(file.contents(), b"");
}

#[test]
fn a_wrong_checksum_is_an_invalid_signature() {
    let data = signed(BODY, b"8f6213258ef92878200c231d45d4edbff2c13cdf", b"");
    assert_eq!(error_of(&data), CvmfsError::InvalidRootFileSignature);
    let upper = signed(BODY, b"8F6213258EF92878200C231D45D4EDBFF2C13CDE", b"");
    assert_eq!(error_of(&upper), CvmfsError::InvalidRootFileSignature);
    let other_body = signed(b"Cabc\n", BODY_SHA1, b"");
    assert_eq!(error_of(&other_body), CvmfsError::InvalidRootFileSignature);
    let not_hex = signed(BODY, &[0xff; 40], b"");
    assert_eq!(error_of(&not_hex), CvmfsError::InvalidRootFileSignature);
}

#[test]
fn a_checksum_line_of_another_length_is_an_incomplete_signature() {
    let short = signed(BODY, &BODY_SHA1[..39], b"");
    assert_eq!(error_of(&short), CvmfsError::IncompleteRootFileSignature);
    let long = signed(BODY, b"8f6213258ef92878200c231d45d4edbff2c13cde0", b"");
    assert_eq!(error_of(&long), CvmfsError::IncompleteRootFileSignature);
    let mut no_newline = BODY.to_vec();
    no_newline.extend_from_slice(b"--\n");
    no_newline.extend_from_slice(BODY_SHA1);
    assert_eq!(error_of(&no_newline), CvmfsError::IncompleteRootFileSignature);
    let mut nothing = BODY.to_vec();
    nothing.extend_from_slice(b"--\n");
    assert_eq!(error_of(&nothing), CvmfsError::IncompleteRootFileSignature);
    let mut bare = BODY.to_vec();
    bare.extend_from_slice(b"--");
    assert_eq!(error_of(&bare), CvmfsError::IncompleteRootFileSignature);
}

#[test]
fn forty_one_bytes_at_the_end_of_the_file_are_a_checksum_line() {
    let mut data = BODY.to_vec();
    data.extend_from_slice(b"--\n");
    data.extend_from_slice(BODY_SHA1);
    data.push(b'X');
    let file = RootFile::new(&data).unwrap();
    assert!(file.has_signature());
    assert_eq!(file.contents(), BODY);
}

#[test]
fn the_terminator_is_any_line_that_begins_with_two_dashes() {
    let mut data = BODY.to_vec();
    data.extend_from_slice(b"-- end of list\n");
    data.extend_from_slice(BODY_SHA1);
    data.extend_from_slice(b"\nsignature");
    let file = RootFile::new(&data).unwrap();
    assert!(file.has_signature());
    assert_eq!(file.contents(), BODY);
}

#[test]
fn dashes_inside_a_line_end_nothing() {
    let file = RootFile::new(b"N--name\nCa--\n-\n").unwrap();
    assert!(!file.has_signature());
    assert_eq!(file.contents(), b"N--name\nCa--\n-\n");
    let single = RootFile::new(b"Ca\n-").unwrap();
    assert!(!single.has_signature());
    assert_eq!(single.lines(), vec![b"Ca".to_vec(), b"-".to_vec()]);
}

#[test]
fn the_first_terminator_counts() {
    let mut data = b"Ca\n".to_vec();
    data.extend_from_slice(b"--\n");
    data.extend_from_slice(b"--\n");
    data.extend_from_slice(BODY_SHA1);
    data.extend_from_slice(b"\n");
    assert_eq!(error_of(&data), CvmfsError::IncompleteRootFileSignature);
}
