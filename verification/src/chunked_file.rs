//! Files that are kept in chunks.
//!
//! A large file is published as a list of chunks, each an object of its
//! own. A `ChunkedFile` keeps the list and a position in the file. It says
//! which stretch of which chunk to read next; getting the chunk and reading
//! its bytes is the caller's work.

use vstd::prelude::*;
use vstd::utf8::encode_utf8;
use crate::common::{little_endian, CvmfsError, CvmfsResult};
use crate::digest::{md5_compute, md5_digest};
use crate::directory_entry::{
    adjoins, is_cover, lemma_cover_offsets, total_size, Chunk, Extent,
};
use crate::fetcher::Fetcher;

verus! {

/// From where a position in a file is counted.
#[derive(Debug, Clone, Copy, PartialEq, Eq, Structural)]
pub enum SeekFrom {
    /// From the first byte of the file.
    Start(u64),
    /// From behind the last byte of the file.
    End(i64),
    /// From the current position.
    Current(i64),
}

/// The stretch of a chunk to read next.
#[derive(Debug, Clone, Copy, PartialEq, Eq, Structural)]
pub struct ChunkRead {
    /// The index of the chunk in the list of the file.
    pub index: usize,
    /// The first byte to read, counted from the start of the chunk.
    pub offset: u64,
    /// The number of bytes to read.
    pub length: u64,
}

/// The stretches that the chunks of a file take up.
pub open spec fn extents_of(chunks: Seq<(String, Chunk)>) -> Seq<Extent> {
    Seq::new(
        chunks.len(),
        |i: int| Extent { offset: chunks[i].1.offset as int, size: chunks[i].1.size as int },
    )
}

/// The chunk at index `i` holds the byte at `position`.
pub open spec fn holds_position(chunks: Seq<(String, Chunk)>, i: int, position: int) -> bool {
    &&& 0 <= i < chunks.len()
    &&& chunks[i].1.offset <= position
    &&& position < chunks[i].1.offset + chunks[i].1.size
}

/// The index of the first chunk that holds the byte at `position`, or the
/// number of chunks where none holds it.
pub open spec fn chunk_at(chunks: Seq<(String, Chunk)>, position: int) -> int
    decreases chunks.len(),
{
    if chunks.len() == 0 {
        0
    } else if holds_position(chunks, 0, position) {
        0
    } else {
        1 + chunk_at(chunks.drop_first(), position)
    }
}

/// The stretch to read next at `position` for a reader who wants `wanted`
/// bytes: from the position to the end of the chunk that holds it, and
/// no more than is wanted. Nothing is left to read where no byte is wanted
/// or no chunk holds the position.
pub open spec fn next_stretch(chunks: Seq<(String, Chunk)>, position: u64, wanted: u64) -> Option<
    ChunkRead,
> {
    let i = chunk_at(chunks, position as int);
    if wanted == 0 || i >= chunks.len() {
        None
    } else {
        let offset = position - chunks[i].1.offset;
        let left = chunks[i].1.size - offset;
        Some(
            ChunkRead {
                index: i as usize,
                offset: offset as u64,
                length: if wanted <= left {
                    wanted
                } else {
                    left as u64
                },
            },
        )
    }
}

/// The position that a seek asks for.
pub open spec fn seek_target(size: u64, position: u64, from: SeekFrom) -> int {
    match from {
        SeekFrom::Start(p) => p as int,
        SeekFrom::End(p) => size + p,
        SeekFrom::Current(p) => position + p,
    }
}

/// The contents of the first `n` chunks, one after the other.
pub open spec fn joined(contents: Seq<Seq<u8>>, n: int) -> Seq<u8>
    decreases n,
{
    if n <= 0 {
        Seq::empty()
    } else {
        joined(contents, n - 1) + contents[n - 1]
    }
}

/// The content of a file: the contents of all its chunks, one after the
/// other.
pub open spec fn file_content(contents: Seq<Seq<u8>>) -> Seq<u8> {
    joined(contents, contents.len() as int)
}

/// Each content is as long as its chunk says.
pub open spec fn contents_fit(chunks: Seq<(String, Chunk)>, contents: Seq<Seq<u8>>) -> bool {
    &&& contents.len() == chunks.len()
    &&& forall|i: int| 0 <= i < chunks.len() ==> (#[trigger] contents[i]).len() == chunks[i].1.size
}

/// The content hashes of the first `n` chunks, one after the other.
pub open spec fn joined_hashes(chunks: Seq<(String, Chunk)>, n: int) -> Seq<u8>
    decreases n,
{
    if n <= 0 {
        Seq::empty()
    } else {
        joined_hashes(chunks, n - 1) + encode_utf8(chunks[n - 1].1.content_hash@)
    }
}

/// The number that stands for an open file: the first eight bytes of a
/// digest, read as a little-endian number.
pub open spec fn descriptor_of(digest: Seq<u8>) -> u64 {
    little_endian(digest.subrange(0, 8))
}

/// The index of the chunk that holds a position is that of the first chunk
/// that does.
pub proof fn lemma_chunk_at(chunks: Seq<(String, Chunk)>, position: int)
    ensures
        0 <= chunk_at(chunks, position) <= chunks.len(),
        chunk_at(chunks, position) < chunks.len() ==> holds_position(
            chunks,
            chunk_at(chunks, position),
            position,
        ),
        forall|j: int|
            0 <= j < chunk_at(chunks, position) ==> !holds_position(chunks, j, position),
    decreases chunks.len(),
{
    if chunks.len() > 0 && !holds_position(chunks, 0, position) {
        let rest = chunks.drop_first();
        lemma_chunk_at(rest, position);
        let at = chunk_at(rest, position);
        if at < rest.len() {
            assert(rest[at] == chunks[at + 1]);
        }
        assert forall|j: int| 0 <= j < chunk_at(chunks, position) implies !holds_position(
            chunks,
            j,
            position,
        ) by {
            if j > 0 {
                assert(rest[j - 1] == chunks[j]);
                assert(!holds_position(rest, j - 1, position));
            }
        }
    }
}

/// The joined contents are as long as the chunks before say, and hold each
/// content at the place of its chunk.
pub proof fn lemma_joined(chunks: Seq<(String, Chunk)>, contents: Seq<Seq<u8>>, n: int, i: int)
    requires
        contents_fit(chunks, contents),
        0 <= i < n <= chunks.len(),
    ensures
        joined(contents, n).len() == total_size(extents_of(chunks), n),
        total_size(extents_of(chunks), i) + contents[i].len() <= joined(contents, n).len(),
        joined(contents, n).subrange(
            total_size(extents_of(chunks), i),
            total_size(extents_of(chunks), i) + contents[i].len(),
        ) == contents[i],
    decreases n,
{
    lemma_joined_length(chunks, contents, n);
    lemma_joined_length(chunks, contents, n - 1);
    lemma_joined_length(chunks, contents, i);
    assert(extents_of(chunks)[n - 1].size == contents[n - 1].len());
    if i == n - 1 {
        assert(joined(contents, n).subrange(
            total_size(extents_of(chunks), i),
            total_size(extents_of(chunks), i) + contents[i].len(),
        ) =~= contents[i]);
    } else {
        lemma_joined(chunks, contents, n - 1, i);
        let start = total_size(extents_of(chunks), i);
        assert(joined(contents, n).subrange(start, start + contents[i].len()) =~= joined(
            contents,
            n - 1,
        ).subrange(start, start + contents[i].len()));
    }
}

proof fn lemma_joined_length(chunks: Seq<(String, Chunk)>, contents: Seq<Seq<u8>>, n: int)
    requires
        contents_fit(chunks, contents),
        0 <= n <= chunks.len(),
    ensures
        joined(contents, n).len() == total_size(extents_of(chunks), n),
    decreases n,
{
    if n > 0 {
        lemma_joined_length(chunks, contents, n - 1);
        assert(extents_of(chunks)[n - 1].size == contents[n - 1].len());
    }
}

/// Reading a file in chunks gives the bytes of the file. Where the chunks
/// cover the file and each content is as long as its chunk says, every
/// position in the file has a stretch to read next; the stretch is not
/// empty; and the bytes of that stretch in the chunk's content are the
/// bytes of the file from the position on. So whoever reads stretch after
/// stretch from any position reads the file from there.
pub proof fn lemma_stretch_reads_file(
    chunks: Seq<(String, Chunk)>,
    contents: Seq<Seq<u8>>,
    size: u64,
    position: u64,
    wanted: u64,
)
    requires
        chunks.len() <= usize::MAX,
        is_cover(extents_of(chunks), size as int),
        contents_fit(chunks, contents),
        position < size,
        wanted > 0,
    ensures
        file_content(contents).len() == size,
        next_stretch(chunks, position, wanted) matches Some(read) && {
            &&& read.index < chunks.len()
            &&& 0 < read.length <= wanted
            &&& position + read.length <= size
            &&& read.offset + read.length <= contents[read.index as int].len()
            &&& contents[read.index as int].subrange(
                read.offset as int,
                read.offset + read.length,
            ) == file_content(contents).subrange(position as int, position + read.length)
        },
{
    let extents = extents_of(chunks);
    let count = chunks.len() as int;
    lemma_joined_length(chunks, contents, count);
    lemma_cover_offsets(extents, size as int, count - 1);
    lemma_position_is_held(chunks, size as int, position as int, count - 1);
    lemma_chunk_at(chunks, position as int);
    let i = chunk_at(chunks, position as int);
    let read = next_stretch(chunks, position, wanted)->0;
    assert(0 <= i < count);
    assert(holds_position(chunks, i, position as int));
    lemma_cover_offsets(extents, size as int, i);
    lemma_cover_end(extents, size as int, i);
    lemma_joined(chunks, contents, count, i);
    assert(extents[i].offset == chunks[i].1.offset && extents[i].size == chunks[i].1.size);
    assert(contents[i].len() == chunks[i].1.size);
    assert(read.index == i);
    assert(read.offset == position - chunks[i].1.offset);
    assert(read.offset + read.length <= contents[i].len());
    assert(position + read.length <= size);
    lemma_stretch_is_part(file_content(contents), contents[i], extents[i].offset, read);
    assert(extents[i].offset + read.offset == position);
}

/// A stretch of a part of a text is a stretch of the text.
proof fn lemma_stretch_is_part(whole: Seq<u8>, part: Seq<u8>, start: int, read: ChunkRead)
    requires
        0 <= start,
        start + part.len() <= whole.len(),
        whole.subrange(start, start + part.len()) == part,
        read.offset + read.length <= part.len(),
    ensures
        part.subrange(read.offset as int, read.offset + read.length) == whole.subrange(
            start + read.offset,
            start + read.offset + read.length,
        ),
{
    let piece = whole.subrange(start, start + part.len());
    assert(piece.subrange(read.offset as int, read.offset + read.length) =~= whole.subrange(
        start + read.offset,
        start + read.offset + read.length,
    ));
}

/// What a reader gets who wants `wanted` bytes from `position` on and
/// reads stretch after stretch, each from the content of its chunk, until
/// nothing is left to read.
pub open spec fn bytes_read(
    chunks: Seq<(String, Chunk)>,
    contents: Seq<Seq<u8>>,
    position: u64,
    wanted: u64,
) -> Seq<u8>
    decreases wanted,
{
    match next_stretch(chunks, position, wanted) {
        None => Seq::empty(),
        Some(read) => if 0 < read.length <= wanted {
            contents[read.index as int].subrange(read.offset as int, read.offset + read.length)
                + bytes_read(
                chunks,
                contents,
                (position + read.length) as u64,
                (wanted - read.length) as u64,
            )
        } else {
            Seq::empty()
        },
    }
}

/// Reading a file in chunks from any position gives the bytes of the file
/// from that position on: as many as are wanted, or as many as are left.
pub proof fn lemma_reading_gives_the_file(
    chunks: Seq<(String, Chunk)>,
    contents: Seq<Seq<u8>>,
    size: u64,
    position: u64,
    wanted: u64,
)
    requires
        chunks.len() <= usize::MAX,
        is_cover(extents_of(chunks), size as int),
        contents_fit(chunks, contents),
        position <= size,
    ensures
        file_content(contents).len() == size,
        bytes_read(chunks, contents, position, wanted) == file_content(contents).subrange(
            position as int,
            if position + wanted <= size {
                position + wanted
            } else {
                size as int
            },
        ),
    decreases wanted,
{
    let whole = file_content(contents);
    lemma_joined_length(chunks, contents, chunks.len() as int);
    lemma_cover_offsets(extents_of(chunks), size as int, chunks.len() - 1);
    if wanted == 0 {
        assert(whole.subrange(position as int, position as int) =~= Seq::<u8>::empty());
    } else if position == size {
        lemma_chunk_at(chunks, position as int);
        let at = chunk_at(chunks, position as int);
        if at < chunks.len() {
            assert(extents_of(chunks)[at].offset == chunks[at].1.offset);
            assert(extents_of(chunks)[at].size == chunks[at].1.size);
            lemma_cover_end(extents_of(chunks), size as int, at);
        }
        assert(whole.subrange(position as int, size as int) =~= Seq::<u8>::empty());
    } else {
        lemma_stretch_reads_file(chunks, contents, size, position, wanted);
        let read = next_stretch(chunks, position, wanted)->0;
        let next = (position + read.length) as u64;
        let left = (wanted - read.length) as u64;
        lemma_reading_gives_the_file(chunks, contents, size, next, left);
        let end = if position + wanted <= size {
            position + wanted
        } else {
            size as int
        };
        assert(whole.subrange(position as int, end) =~= whole.subrange(
            position as int,
            position + read.length,
        ) + whole.subrange(next as int, end));
    }
}

/// In a cover every chunk ends within the file.
proof fn lemma_cover_end(extents: Seq<Extent>, total: int, i: int)
    requires
        is_cover(extents, total),
        0 <= i < extents.len(),
    ensures
        extents[i].offset + extents[i].size <= total,
    decreases extents.len() - i,
{
    if i < extents.len() - 1 {
        lemma_cover_end(extents, total, i + 1);
        assert(extents[i + 1].size >= 0);
        assert(adjoins(extents, i + 1));
    }
}

/// In a cover every position of the file is held by a chunk.
proof fn lemma_position_is_held(chunks: Seq<(String, Chunk)>, size: int, position: int, last: int)
    requires
        is_cover(extents_of(chunks), size),
        0 <= last < chunks.len(),
        0 <= position < extents_of(chunks)[last].offset + extents_of(chunks)[last].size,
    ensures
        exists|i: int| holds_position(chunks, i, position),
        chunk_at(chunks, position) < chunks.len(),
    decreases last,
{
    let extents = extents_of(chunks);
    assert(extents[last].offset == chunks[last].1.offset);
    assert(extents[last].size == chunks[last].1.size);
    if extents[last].offset <= position {
        assert(holds_position(chunks, last, position));
    } else {
        assert(last > 0);
        assert(adjoins(extents, last));
        lemma_position_is_held(chunks, size, position, last - 1);
    }
    lemma_chunk_at(chunks, position);
}

/// What every open file of a repository can do, whether it lies in one
/// object or in chunks.
pub trait FileLike {
    /// Moves the position from which the next byte is read.
    fn seek(&mut self, pos: SeekFrom) -> CvmfsResult<u64>;

    /// A number that stands for the open file towards the host.
    fn as_raw_fd(&self) -> u64;
}

/// A file kept in chunks, with a position to read from.
#[derive(Debug)]
pub struct ChunkedFile {
    size: u64,
    chunks: Vec<(String, Chunk)>,
    position: u64,
    fetcher: Fetcher,
}

impl ChunkedFile {
    /// The size of the file in bytes.
    pub closed spec fn total(&self) -> u64 {
        self.size
    }

    /// The chunks of the file, each with the path of its object.
    pub closed spec fn parts(&self) -> Seq<(String, Chunk)> {
        self.chunks@
    }

    /// The position from which the next byte is read.
    pub closed spec fn offset(&self) -> u64 {
        self.position
    }

    /// The fetcher that gets the chunks.
    pub closed spec fn source(&self) -> Fetcher {
        self.fetcher
    }

    /// A file of `size` bytes in the chunks `chunks`, each with the path of
    /// its object, read from its first byte on.
    pub fn new(chunks: Vec<(String, Chunk)>, size: u64, fetcher: Fetcher) -> (file: ChunkedFile)
        ensures
            file.parts() == chunks@,
            file.total() == size,
            file.offset() == 0,
            file.source() == fetcher,
    {
        ChunkedFile { chunks, position: 0, size, fetcher }
    }

    /// The size of the file in bytes.
    pub fn size(&self) -> (size: u64)
        ensures
            size == self.total(),
    {
        self.size
    }

    /// The position from which the next byte is read.
    pub fn position(&self) -> (position: u64)
        ensures
            position == self.offset(),
    {
        self.position
    }

    /// The chunks of the file, each with the path of its object.
    pub fn chunks(&self) -> (chunks: &Vec<(String, Chunk)>)
        ensures
            chunks@ == self.parts(),
    {
        &self.chunks
    }

    /// The fetcher that gets the chunks.
    pub fn fetcher(&self) -> (fetcher: &Fetcher)
        ensures
            *fetcher == self.source(),
    {
        &self.fetcher
    }

    /// Moves the position. A position before the first byte of the file
    /// cannot be had, nor one that is no number of 64 bits; asking for one
    /// is the I/O error of an unexpected end of file and leaves the position
    /// where it was.
    pub fn seek(&mut self, pos: SeekFrom) -> (position: CvmfsResult<u64>)
        ensures
            final(self).parts() == old(self).parts(),
            final(self).total() == old(self).total(),
            final(self).source() == old(self).source(),
            match position {
                Ok(p) => {
                    &&& p == seek_target(old(self).total(), old(self).offset(), pos)
                    &&& final(self).offset() == p
                },
                Err(e) => {
                    &&& e matches CvmfsError::IO(text) && text@ == "unexpected end of file"@
                    &&& !(0 <= seek_target(old(self).total(), old(self).offset(), pos)
                        <= u64::MAX)
                    &&& final(self).offset() == old(self).offset()
                },
            },
    {
        let target: i128 = match pos {
            SeekFrom::Start(p) => p as i128,
            SeekFrom::End(p) => self.size as i128 + p as i128,
            SeekFrom::Current(p) => self.position as i128 + p as i128,
        };
        if target < 0 || target > u64::MAX as i128 {
            return Err(CvmfsError::IO("unexpected end of file".to_owned()));
        }
        self.position = target as u64;
        Ok(self.position)
    }

    /// The stretch to read next for a reader who wants `wanted` more bytes,
    /// or nothing where the file is at its end or no byte is wanted.
    pub fn read(&self, wanted: u64) -> (stretch: Option<ChunkRead>)
        ensures
            stretch == next_stretch(self.parts(), self.offset(), wanted),
            stretch matches Some(read) ==> read.index < self.parts().len() && read.length > 0,
    {
        proof {
            lemma_chunk_at(self.chunks@, self.position as int);
        }
        if wanted == 0 {
            return None;
        }
        let mut i: usize = 0;
        assert(self.chunks@.skip(0) =~= self.chunks@);
        while i < self.chunks.len()
            invariant
                wanted > 0,
                i <= self.chunks@.len(),
                chunk_at(self.chunks@, self.position as int) == i + chunk_at(
                    self.chunks@.skip(i as int),
                    self.position as int,
                ),
            decreases self.chunks@.len() - i,
        {
            let chunk = &self.chunks[i].1;
            let ghost rest = self.chunks@.skip(i as int);
            assert(rest[0] == self.chunks@[i as int]);
            if chunk.offset <= self.position && self.position - chunk.offset < chunk.size {
                assert(holds_position(rest, 0, self.position as int));
                let offset = self.position - chunk.offset;
                let left = chunk.size - offset;
                let length = if wanted <= left {
                    wanted
                } else {
                    left
                };
                return Some(ChunkRead { index: i, offset, length });
            }
            assert(!holds_position(rest, 0, self.position as int));
            assert(rest.drop_first() =~= self.chunks@.skip(i + 1));
            i += 1;
        }
        None
    }

    /// Takes note that `count` bytes were read: the position moves on by as
    /// many, and stops at the largest number of 64 bits.
    pub fn advance(&mut self, count: u64)
        ensures
            final(self).offset() == if old(self).offset() + count <= u64::MAX {
                old(self).offset() + count
            } else {
                u64::MAX as int
            },
            final(self).parts() == old(self).parts(),
            final(self).total() == old(self).total(),
            final(self).source() == old(self).source(),
    {
        self.position = match self.position.checked_add(count) {
            Some(position) => position,
            None => u64::MAX,
        };
    }

    /// The number that stands for a digest as the handle of a file.
    pub fn descriptor(digest: &[u8; 16]) -> (handle: u64)
        ensures
            handle == descriptor_of(digest@),
    {
        let d = digest;
        let ghost first = digest@.subrange(0, 8);
        assert(first[0] == d@[0] && first[1] == d@[1] && first[2] == d@[2] && first[3] == d@[3]
            && first[4] == d@[4] && first[5] == d@[5] && first[6] == d@[6] && first[7] == d@[7]);
        (d[0] as u64) | ((d[1] as u64) << 8) | ((d[2] as u64) << 16) | ((d[3] as u64) << 24) | ((
        d[4] as u64) << 32) | ((d[5] as u64) << 40) | ((d[6] as u64) << 48) | ((d[7] as u64) << 56)
    }

    /// A number that stands for the open file towards the host: drawn from
    /// the MD5 digest of the content hashes of all chunks, one after the
    /// other. It is no descriptor of the operating system.
    pub fn as_raw_fd(&self) -> (handle: u64)
        ensures
            handle == descriptor_of(
                md5_digest(joined_hashes(self.parts(), self.parts().len() as int)),
            ),
    {
        let mut hash_concat: Vec<u8> = Vec::new();
        let mut i: usize = 0;
        while i < self.chunks.len()
            invariant
                i <= self.chunks@.len(),
                hash_concat@ == joined_hashes(self.chunks@, i as int),
            decreases self.chunks@.len() - i,
        {
            let hash = self.chunks[i].1.content_hash.as_str().as_bytes();
            hash_concat.extend_from_slice(hash);
            i += 1;
        }
        let digest = md5_compute(hash_concat.as_slice());
        Self::descriptor(&digest)
    }
}

impl FileLike for ChunkedFile {
    /// Moves the position of a file in chunks, as `ChunkedFile::seek` does:
    /// to the position asked for where that is a number of 64 bits that is
    /// not negative, and nowhere, with an I/O error, where it is not.
    fn seek(&mut self, pos: SeekFrom) -> (position: CvmfsResult<u64>)
        ensures
            final(self).parts() == old(self).parts(),
            final(self).total() == old(self).total(),
            final(self).source() == old(self).source(),
            match position {
                Ok(p) => {
                    &&& p == seek_target(old(self).total(), old(self).offset(), pos)
                    &&& final(self).offset() == p
                },
                Err(e) => {
                    &&& e matches CvmfsError::IO(text) && text@ == "unexpected end of file"@
                    &&& !(0 <= seek_target(old(self).total(), old(self).offset(), pos)
                        <= u64::MAX)
                    &&& final(self).offset() == old(self).offset()
                },
            },
    {
        ChunkedFile::seek(self, pos)
    }

    /// The handle of a file in chunks, as `ChunkedFile::as_raw_fd` draws it
    /// from the MD5 digest of the content hashes of its chunks.
    fn as_raw_fd(&self) -> (handle: u64)
        ensures
            handle == descriptor_of(
                md5_digest(joined_hashes(self.parts(), self.parts().len() as int)),
            ),
    {
        ChunkedFile::as_raw_fd(self)
    }
}

} // verus!
