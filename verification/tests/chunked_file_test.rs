use cvmfs::chunked_file::{ChunkRead, SeekFrom};
use cvmfs::common::{ChunkedFile, CvmfsError, FileLike};
use cvmfs::directory_entry::{Chunk, ContentHashTypes};
use cvmfs::fetcher::Fetcher;

const CHUNK_0: [u8; 4] = [10, 11, 12, 13];
const CHUNK_1: [u8; 6] = [20, 21, 22, 23, 24, 25];

fn fetcher() -> Fetcher {
    Fetcher::new("http://example.org/repo", "/tmp/cache", false).unwrap()
}

fn two_chunks() -> ChunkedFile {
    let chunks = vec![
        (String::from("data/c0/c0"), Chunk::new(0, 4, String::from("c0c0"), ContentHashTypes::Sha1)),
        (String::from("data/c1/c1"), Chunk::new(4, 6, String::from("c1c1"), ContentHashTypes::Sha1)),
    ];
    ChunkedFile::new(chunks, 10, fetcher())
}

fn read(file: &mut ChunkedFile, wanted: usize) -> Vec<u8> {
    let contents: [&[u8]; 2] = [&CHUNK_0, &CHUNK_1];
    let mut out = Vec::new();
    while out.len() < wanted {
        let stretch = match file.read((wanted - out.len()) as u64) {
            Some(stretch) => stretch,
            None => break,
        };
        let from = stretch.offset as usize;
        let to = from + stretch.length as usize;
        out.extend_from_slice(&contents[stretch.index][from..to]);
        file.advance(stretch.length);
    }
    out
}

#[test]
fn reading_a_file_gives_its_chunks_one_after_the_other() {
    let mut file = two_chunks();
    assert_eq!(file.size(), 10);
    assert_eq!(file.position(), 0);
    assert_eq!(read(&mut file, 10), vec![10, 11, 12, 13, 20, 21, 22, 23, 24, 25]);
    assert_eq!(file.position(), 10);
    assert_eq!(read(&mut file, 10), Vec::<u8>::new());
}

#[test]
fn reading_after_a_seek_starts_inside_a_chunk() {
    let mut file = two_chunks();
    assert_eq!(file.seek(SeekFrom::Start(5)), Ok(5));
    assert_eq!(read(&mut file, 3), vec![21, 22, 23]);
    assert_eq!(file.position(), 8);
    assert_eq!(read(&mut file, 100), vec![24, 25]);
}

#[test]
fn every_seek_pattern_reads_the_bytes_of_the_file() {
    let whole: Vec<u8> = CHUNK_0.iter().chain(CHUNK_1.iter()).copied().collect();
    for start in 0..=10usize {
        for wanted in 0..=12usize {
            let mut file = two_chunks();
            file.seek(SeekFrom::Start(start as u64)).unwrap();
            let end = (start + wanted).min(10);
            assert_eq!(read(&mut file, wanted), whole[start..end].to_vec());
            assert_eq!(file.position(), end as u64);
        }
    }
}

#[test]
fn a_stretch_never_leaves_its_chunk() {
    let mut file = two_chunks();
    assert_eq!(file.read(10), Some(ChunkRead { index: 0, offset: 0, length: 4 }));
    assert_eq!(file.read(3), Some(ChunkRead { index: 0, offset: 0, length: 3 }));
    assert_eq!(file.read(0), None);
    file.advance(3);
    assert_eq!(file.read(10), Some(ChunkRead { index: 0, offset: 3, length: 1 }));
    file.advance(1);
    assert_eq!(file.read(10), Some(ChunkRead { index: 1, offset: 0, length: 6 }));
    file.advance(6);
    assert_eq!(file.read(10), None);
}

#[test]
fn a_position_that_no_chunk_holds_has_nothing_to_read() {
    let chunks = vec![
        (String::from("a"), Chunk::new(0, 4, String::from("aa"), ContentHashTypes::Sha1)),
        (String::from("b"), Chunk::new(6, 4, String::from("bb"), ContentHashTypes::Sha1)),
        (String::from("c"), Chunk::new(2, 8, String::from("cc"), ContentHashTypes::Sha1)),
    ];
    let mut file = ChunkedFile::new(chunks, 10, fetcher());
    file.seek(SeekFrom::Start(3)).unwrap();
    assert_eq!(file.read(5), Some(ChunkRead { index: 0, offset: 3, length: 1 }));
    file.seek(SeekFrom::Start(4)).unwrap();
    assert_eq!(file.read(5), Some(ChunkRead { index: 2, offset: 2, length: 5 }));
    file.seek(SeekFrom::Start(7)).unwrap();
    assert_eq!(file.read(50), Some(ChunkRead { index: 1, offset: 1, length: 3 }));
    file.seek(SeekFrom::Start(10)).unwrap();
    assert_eq!(file.read(5), None);
    let mut empty = ChunkedFile::new(Vec::new(), 10, fetcher());
    assert_eq!(empty.read(5), None);
    assert_eq!(empty.seek(SeekFrom::End(0)), Ok(10));
}

#[test]
fn seeking_counts_from_start_end_and_position() {
    let mut file = two_chunks();
    assert_eq!(file.seek(SeekFrom::Start(7)), Ok(7));
    assert_eq!(file.seek(SeekFrom::Current(2)), Ok(9));
    assert_eq!(file.seek(SeekFrom::Current(-9)), Ok(0));
    assert_eq!(file.seek(SeekFrom::End(-3)), Ok(7));
    assert_eq!(file.seek(SeekFrom::End(0)), Ok(10));
    assert_eq!(file.seek(SeekFrom::End(5)), Ok(15));
    assert_eq!(file.position(), 15);
    assert_eq!(file.read(1), None);
    assert_eq!(file.seek(SeekFrom::Start(u64::MAX)), Ok(u64::MAX));
    assert_eq!(file.seek(SeekFrom::Start(0)), Ok(0));
}

#[test]
fn seeking_before_the_start_is_refused() {
    let mut file = two_chunks();
    file.seek(SeekFrom::Start(4)).unwrap();
    assert_eq!(
        file.seek(SeekFrom::Current(-5)),
        Err(CvmfsError::IO(String::from("unexpected end of file")))
    );
    assert_eq!(file.position(), 4);
    assert!(matches!(file.seek(SeekFrom::End(-11)), Err(CvmfsError::IO(_))));
    assert!(matches!(file.seek(SeekFrom::End(i64::MIN)), Err(CvmfsError::IO(_))));
    assert_eq!(file.position(), 4);
    file.seek(SeekFrom::Start(u64::MAX)).unwrap();
    assert!(matches!(file.seek(SeekFrom::Current(1)), Err(CvmfsError::IO(_))));
    assert_eq!(file.position(), u64::MAX);
}

#[test]
fn the_position_stops_at_the_largest_number() {
    let mut file = two_chunks();
    file.seek(SeekFrom::Start(u64::MAX - 1)).unwrap();
    file.advance(5);
    assert_eq!(file.position(), u64::MAX);
}

#[test]
fn the_handle_of_a_file_is_drawn_from_the_hashes_of_its_chunks() {
    assert_eq!(two_chunks().as_raw_fd(), 10015340831966877815);
    assert_eq!(ChunkedFile::new(Vec::new(), 0, fetcher()).as_raw_fd(), 338333539836370388);
    let digest: [u8; 16] = [1, 0, 0, 0, 0, 0, 0, 0x80, 9, 9, 9, 9, 9, 9, 9, 9];
    assert_eq!(ChunkedFile::descriptor(&digest), 0x8000_0000_0000_0001);
}

#[test]
fn a_chunked_file_is_file_like() {
    fn handle_of(file: &dyn FileLike) -> u64 {
        file.as_raw_fd()
    }
    fn rewind(file: &mut dyn FileLike) -> u64 {
        file.seek(SeekFrom::Start(0)).unwrap()
    }
    let mut file = two_chunks();
    file.advance(3);
    assert_eq!(handle_of(&file), 10015340831966877815);
    assert_eq!(rewind(&mut file), 0);
    assert_eq!(file.position(), 0);
    assert_eq!(file.chunks().len(), 2);
    assert_eq!(file.chunks()[1].0, "data/c1/c1");
    assert_eq!(file.fetcher().source, "http://example.org/repo");
}
