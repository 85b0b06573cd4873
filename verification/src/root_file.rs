//! Signed root files.
//!
//! A repository publishes a few files with fixed names that serve as entry
//! points: the manifest (`.cvmfspublished`) and the whitelist
//! (`.cvmfswhitelist`). Each is a list of lines, every line a key of one
//! character directly followed by its value. The list ends at the end of the
//! file or at a line that begins with `--`. After such a line comes the SHA-1
//! checksum of the list in hexadecimal notation, a newline, and a binary
//! signature that this module does not read.

use vstd::prelude::*;
use vstd::slice::slice_subrange;
use crate::common::{CvmfsError, CvmfsResult};
use crate::digest::{digest_matches, hex_bytes, hex_chars, sha1_compute, sha1_digest, to_hex};
use crate::text::{byte_strings, copy_range};

verus! {

/// The byte that ends a line.
pub const NEWLINE: u8 = 10;

/// The byte that a terminator line begins with, twice.
pub const DASH: u8 = 45;

/// Length of a checksum line: forty hexadecimal digits and a newline.
pub const CHECKSUM_LINE_LENGTH: usize = 41;

/// A line that begins with `--` starts at index `i`.
pub open spec fn terminator_at(data: Seq<u8>, i: int) -> bool {
    &&& 0 <= i
    &&& i + 1 < data.len()
    &&& (i == 0 || data[i - 1] == NEWLINE)
    &&& data[i] == DASH
    &&& data[i + 1] == DASH
}

/// `n` is where the key-value list ends: the start of the first line that
/// begins with `--`, or the end of the data where there is no such line.
pub open spec fn is_body_end(data: Seq<u8>, n: int) -> bool {
    &&& 0 <= n <= data.len()
    &&& n < data.len() ==> terminator_at(data, n)
    &&& forall|j: int| 0 <= j < n ==> !terminator_at(data, j)
}

/// Where the key-value list ends.
pub open spec fn body_end(data: Seq<u8>) -> int {
    choose|n: int| is_body_end(data, n)
}

/// The index just behind the first newline at or after `start`, or the end of
/// the data where no newline follows.
pub open spec fn line_end(data: Seq<u8>, start: int) -> int
    decreases data.len() - start,
{
    if start < 0 || start >= data.len() {
        data.len() as int
    } else if data[start] == NEWLINE {
        start + 1
    } else {
        line_end(data, start + 1)
    }
}

/// The key-value list of a root file.
pub open spec fn body_of(data: Seq<u8>) -> Seq<u8> {
    data.subrange(0, body_end(data))
}

/// The file has a line that begins with `--`.
pub open spec fn has_terminator(data: Seq<u8>) -> bool {
    body_end(data) < data.len()
}

/// The line behind the terminator line, with its newline.
pub open spec fn checksum_line(data: Seq<u8>) -> Seq<u8> {
    let start = line_end(data, body_end(data));
    data.subrange(start, line_end(data, start))
}

/// The checksum that a root file has to state: the SHA-1 digest of its
/// key-value list in hexadecimal notation.
pub open spec fn expected_checksum(body: Seq<u8>) -> Seq<u8> {
    hex_bytes(sha1_digest(body))
}

/// What reading a root file gives: the error, or the key-value list
/// and whether a checksum vouches for it.
pub open spec fn read_outcome(data: Seq<u8>) -> Result<(Seq<u8>, bool), CvmfsError> {
    if !has_terminator(data) {
        Ok((body_of(data), false))
    } else if checksum_line(data).len() != CHECKSUM_LINE_LENGTH {
        Err(CvmfsError::IncompleteRootFileSignature)
    } else if checksum_line(data).subrange(0, 40) != expected_checksum(body_of(data)) {
        Err(CvmfsError::InvalidRootFileSignature)
    } else {
        Ok((body_of(data), true))
    }
}

/// The lines of a text: the pieces between its newlines. A text that ends
/// with a newline has an empty last line.
pub open spec fn split_lines(text: Seq<u8>) -> Seq<Seq<u8>>
    decreases text.len(),
{
    if text.len() == 0 {
        seq![Seq::<u8>::empty()]
    } else if text.last() == NEWLINE {
        split_lines(text.drop_last()).push(Seq::<u8>::empty())
    } else {
        let lines = split_lines(text.drop_last());
        lines.drop_last().push(lines.last().push(text.last()))
    }
}

/// The text that lines make, each with a newline behind it.
pub open spec fn joined_lines(lines: Seq<Seq<u8>>) -> Seq<u8>
    decreases lines.len(),
{
    if lines.len() == 0 {
        Seq::empty()
    } else {
        joined_lines(lines.drop_last()) + lines.last() + seq![NEWLINE]
    }
}

/// A text has at least one line.
pub proof fn lemma_text_has_a_line(text: Seq<u8>)
    ensures
        split_lines(text).len() >= 1,
    decreases text.len(),
{
    if text.len() > 0 {
        lemma_text_has_a_line(text.drop_last());
    }
}

/// Bytes behind a text that hold no newline go on with its last line.
pub proof fn lemma_line_goes_on(text: Seq<u8>, more: Seq<u8>)
    requires
        forall|k: int| 0 <= k < more.len() ==> more[k] != NEWLINE,
    ensures
        split_lines(text).len() >= 1,
        split_lines(text + more) == split_lines(text).drop_last().push(
            split_lines(text).last() + more,
        ),
    decreases more.len(),
{
    lemma_text_has_a_line(text);
    let lines = split_lines(text);
    if more.len() == 0 {
        assert(text + more =~= text);
        assert(lines.last() + more =~= lines.last());
        assert(lines.drop_last().push(lines.last()) =~= lines);
    } else {
        let shorter = more.drop_last();
        lemma_line_goes_on(text, shorter);
        assert((text + more).drop_last() =~= text + shorter);
        assert((text + more).last() == more.last());
        let before = split_lines(text + shorter);
        assert(before.last() == lines.last() + shorter);
        assert(before.drop_last() =~= lines.drop_last());
        assert(lines.last() + shorter + seq![more.last()] =~= lines.last() + more);
        assert(before.last().push(more.last()) =~= lines.last() + more);
    }
}

/// The lines of a text that was made of lines are those lines, and an empty
/// line behind the last newline.
pub proof fn lemma_lines_of_joined_lines(lines: Seq<Seq<u8>>)
    requires
        forall|i: int, k: int|
            0 <= i < lines.len() && 0 <= k < lines[i].len() ==> (#[trigger] lines[i][k])
                != NEWLINE,
    ensures
        split_lines(joined_lines(lines)) == lines.push(Seq::<u8>::empty()),
    decreases lines.len(),
{
    if lines.len() == 0 {
        assert(split_lines(joined_lines(lines)) =~= lines.push(Seq::<u8>::empty()));
    } else {
        let shorter = lines.drop_last();
        let line = lines.last();
        assert forall|i: int, k: int|
            0 <= i < shorter.len() && 0 <= k < shorter[i].len() implies (
        #[trigger] shorter[i][k]) != NEWLINE by {
            assert(shorter[i] == lines[i]);
            assert(lines[i][k] != NEWLINE);
        }
        lemma_lines_of_joined_lines(shorter);
        let text = joined_lines(shorter);
        assert forall|k: int| 0 <= k < line.len() implies line[k] != NEWLINE by {
            assert(lines[lines.len() - 1][k] != NEWLINE);
        }
        lemma_line_goes_on(text, line);
        let whole = joined_lines(lines);
        assert(whole.drop_last() =~= text + line);
        assert(whole.last() == NEWLINE);
        let open = split_lines(text + line);
        assert(split_lines(text).drop_last() =~= shorter);
        assert(split_lines(text).last() + line =~= line);
        assert(open =~= shorter.push(line));
        assert(shorter.push(line) =~= lines);
    }
}

/// The line begins with `--`.
pub open spec fn begins_with_dashes(line: Seq<u8>) -> bool {
    line.len() >= 2 && line[0] == DASH && line[1] == DASH
}

/// A text made of lines of which none begins with `--` is a key-value list
/// as a signed file holds it.
pub proof fn lemma_joined_lines_are_a_list(lines: Seq<Seq<u8>>)
    requires
        forall|i: int, k: int|
            0 <= i < lines.len() && 0 <= k < lines[i].len() ==> (#[trigger] lines[i][k])
                != NEWLINE,
        forall|i: int| 0 <= i < lines.len() ==> !begins_with_dashes(#[trigger] lines[i]),
    ensures
        is_list_of_lines(joined_lines(lines)),
    decreases lines.len(),
{
    if lines.len() > 0 {
        let shorter = lines.drop_last();
        let line = lines.last();
        assert forall|i: int, k: int|
            0 <= i < shorter.len() && 0 <= k < shorter[i].len() implies (
        #[trigger] shorter[i][k]) != NEWLINE by {
            assert(shorter[i] == lines[i]);
            assert(lines[i][k] != NEWLINE);
        }
        assert forall|i: int| 0 <= i < shorter.len() implies !begins_with_dashes(
            #[trigger] shorter[i],
        ) by {
            assert(shorter[i] == lines[i]);
        }
        lemma_joined_lines_are_a_list(shorter);
        let before = joined_lines(shorter);
        let body = joined_lines(lines);
        let n = before.len() as int;
        assert(!begins_with_dashes(lines[lines.len() - 1]));
        assert forall|k: int| 0 <= k < line.len() implies body[n + k] == line[k] && line[k]
            != NEWLINE by {
            assert(lines[lines.len() - 1][k] != NEWLINE);
        }
        assert(body[n + line.len()] == NEWLINE);
        assert forall|j: int| 0 <= j < body.len() implies !terminator_at(body, j) by {
            if terminator_at(body, j) {
                if j + 1 < n {
                    assert(body[j] == before[j] && body[j + 1] == before[j + 1]);
                    if j > 0 {
                        assert(body[j - 1] == before[j - 1]);
                    }
                    assert(terminator_at(before, j));
                } else if j + 1 == n {
                    assert(body[j] == before[n - 1]);
                } else if j == n {
                    if line.len() >= 2 {
                        assert(body[n] == line[0] && body[n + 1] == line[1]);
                    } else if line.len() == 1 {
                        assert(body[n + 1] == NEWLINE);
                    }
                } else {
                    assert(body[j - 1] == line[j - 1 - n]);
                }
            }
        }
    }
}

/// Only one index can be the end of the key-value list.
pub proof fn lemma_body_end_is_unique(data: Seq<u8>, n: int)
    requires
        is_body_end(data, n),
    ensures
        body_end(data) == n,
{
    let m = body_end(data);
    assert(is_body_end(data, m));
    if m < n {
        assert(!terminator_at(data, m));
    }
    if n < m {
        assert(!terminator_at(data, n));
    }
}

/// The end of a line lies behind its start and within the data, and the line
/// holds no newline but at its end.
pub proof fn lemma_line_end(data: Seq<u8>, start: int)
    requires
        0 <= start <= data.len(),
    ensures
        start <= line_end(data, start) <= data.len(),
        start < data.len() ==> start < line_end(data, start),
        forall|k: int| start <= k < line_end(data, start) - 1 ==> data[k] != NEWLINE,
        line_end(data, start) < data.len() ==> data[line_end(data, start) - 1] == NEWLINE,
    decreases data.len() - start,
{
    if start < data.len() && data[start] != NEWLINE {
        lemma_line_end(data, start + 1);
    }
}

/// A line that holds no newline before the index `end` and one at `end`
/// ends just behind `end`.
pub proof fn lemma_line_ends_at(data: Seq<u8>, start: int, end: int)
    requires
        0 <= start <= end < data.len(),
        data[end] == NEWLINE,
        forall|k: int| start <= k < end ==> data[k] != NEWLINE,
    ensures
        line_end(data, start) == end + 1,
    decreases end - start,
{
    if start < end {
        lemma_line_ends_at(data, start + 1, end);
    }
}

/// A key-value list as a signed file holds it: every line is complete, and
/// none begins with `--`.
pub open spec fn is_list_of_lines(body: Seq<u8>) -> bool {
    &&& body.len() == 0 || body.last() == NEWLINE
    &&& forall|j: int| 0 <= j < body.len() ==> !terminator_at(body, j)
}

/// The line that ends a key-value list.
pub open spec fn terminator_line() -> Seq<u8> {
    seq![DASH, DASH, NEWLINE]
}

/// A signed file: a key-value list, the terminator line, a checksum of
/// forty bytes on a line of its own, and the signature.
pub open spec fn signed_file(body: Seq<u8>, stated: Seq<u8>, signature: Seq<u8>) -> Seq<u8> {
    body + terminator_line() + stated + seq![NEWLINE] + signature
}

/// In a file that goes on with a terminator line behind a list of lines,
/// the list is the key-value list.
pub proof fn lemma_list_ends_at_terminator(body: Seq<u8>, tail: Seq<u8>)
    requires
        is_list_of_lines(body),
    ensures
        body_end(body + terminator_line() + tail) == body.len(),
        body_of(body + terminator_line() + tail) == body,
        has_terminator(body + terminator_line() + tail),
        line_end(body + terminator_line() + tail, body.len() as int) == body.len() + 3,
{
    let file = body + terminator_line() + tail;
    let n = body.len() as int;
    assert(file[n] == DASH && file[n + 1] == DASH && file[n + 2] == NEWLINE);
    assert forall|j: int| 0 <= j < n implies file[j] == body[j] by {}
    assert(terminator_at(file, n)) by {
        if n > 0 {
            assert(file[n - 1] == body[n - 1]);
        }
    }
    assert forall|j: int| 0 <= j < n implies !terminator_at(file, j) by {
        if terminator_at(file, j) {
            if j + 1 < n {
                assert(file[j] == body[j] && file[j + 1] == body[j + 1]);
                if j > 0 {
                    assert(file[j - 1] == body[j - 1]);
                }
                assert(terminator_at(body, j));
            } else {
                assert(file[j] == body[n - 1]);
            }
        }
    }
    assert(is_body_end(file, n));
    lemma_body_end_is_unique(file, n);
    assert(file.subrange(0, n) =~= body);
    lemma_line_ends_at(file, n, n + 2);
}

/// A signed file is read if and only if the checksum that it states is the
/// SHA-1 checksum of its key-value list; what is read is that list. A file
/// that states another checksum has an invalid signature.
pub proof fn lemma_signed_file(body: Seq<u8>, stated: Seq<u8>, signature: Seq<u8>)
    requires
        is_list_of_lines(body),
        stated.len() == 40,
        forall|k: int| 0 <= k < 40 ==> stated[k] != NEWLINE,
    ensures
        read_outcome(signed_file(body, stated, signature)) == if stated == expected_checksum(body) {
            Ok::<_, CvmfsError>((body, true))
        } else {
            Err::<(Seq<u8>, bool), _>(CvmfsError::InvalidRootFileSignature)
        },
{
    let tail = stated + seq![NEWLINE] + signature;
    let file = signed_file(body, stated, signature);
    assert(file =~= body + terminator_line() + tail);
    lemma_list_ends_at_terminator(body, tail);
    let start: int = body.len() as int + 3;
    assert forall|k: int| start <= k < start + 40 implies file[k] != NEWLINE by {
        assert(file[k] == stated[k - start]);
    }
    assert(file[start + 40] == NEWLINE);
    lemma_line_ends_at(file, start, start + 40);
    assert(checksum_line(file) =~= stated + seq![NEWLINE]);
    assert(checksum_line(file).subrange(0, 40) =~= stated);
}

/// A file whose terminator line is followed by fewer than 41 bytes has an
/// incomplete signature.
pub proof fn lemma_short_signature(body: Seq<u8>, tail: Seq<u8>)
    requires
        is_list_of_lines(body),
        tail.len() < CHECKSUM_LINE_LENGTH,
    ensures
        read_outcome(body + terminator_line() + tail) == Err::<(Seq<u8>, bool), _>(
            CvmfsError::IncompleteRootFileSignature,
        ),
{
    let file = body + terminator_line() + tail;
    lemma_list_ends_at_terminator(body, tail);
    lemma_line_end(file, body.len() as int + 3);
}

/// A file without a line that begins with `--` is read whole, and no
/// checksum is asked of it.
pub proof fn lemma_unsigned_file(data: Seq<u8>)
    requires
        forall|j: int| 0 <= j < data.len() ==> !terminator_at(data, j),
    ensures
        read_outcome(data) == Ok::<_, CvmfsError>((data, false)),
{
    assert(is_body_end(data, data.len() as int));
    lemma_body_end_is_unique(data, data.len() as int);
    assert(data.subrange(0, data.len() as int) =~= data);
}

/// The index just behind the line that starts at `start`.
fn find_line_end(data: &[u8], start: usize) -> (end: usize)
    requires
        start <= data@.len(),
    ensures
        end == line_end(data@, start as int),
        start <= end <= data@.len(),
{
    let mut i: usize = start;
    while i < data.len() && data[i] != NEWLINE
        invariant
            start <= i <= data@.len(),
            line_end(data@, start as int) == line_end(data@, i as int),
        decreases data@.len() - i,
    {
        i += 1;
    }
    if i < data.len() {
        i + 1
    } else {
        i
    }
}

/// The index at which the key-value list ends.
fn find_body_end(data: &[u8]) -> (end: usize)
    ensures
        is_body_end(data@, end as int),
{
    let mut start: usize = 0;
    while start < data.len()
        invariant
            start <= data@.len(),
            start < data@.len() ==> (start == 0 || data@[start - 1] == NEWLINE),
            forall|j: int| 0 <= j < start ==> !terminator_at(data@, j),
        decreases data@.len() - start,
    {
        if start + 1 < data.len() && data[start] == DASH && data[start + 1] == DASH {
            return start;
        }
        let end = find_line_end(data, start);
        proof {
            lemma_line_end(data@, start as int);
            assert forall|j: int| start <= j < end implies !terminator_at(data@, j) by {
                if j > start {
                    assert(data@[j - 1] != NEWLINE);
                }
            }
        }
        start = end;
    }
    start
}

/// A signed root file: its key-value list and, where the file carries one,
/// the checksum that was found to match it.
#[derive(Debug)]
pub struct RootFile {
    checksum: Option<String>,
    contents: Vec<u8>,
}

impl RootFile {
    /// The bytes of the key-value list, without terminator and checksum.
    pub closed spec fn body(&self) -> Seq<u8> {
        self.contents@
    }

    /// The checksum that vouches for the list, if there is one.
    pub closed spec fn checksum(&self) -> Option<Seq<char>> {
        match self.checksum {
            Some(text) => Some(text@),
            None => None,
        }
    }

    /// A file either has no checksum or the one that fits its list.
    pub open spec fn well_formed(&self) -> bool {
        self.checksum() matches Some(text) ==> text == hex_chars(sha1_digest(self.body()))
    }

    /// Reads a root file from the bytes of the published file.
    ///
    /// The key-value list runs up to the first line that begins with `--`.
    /// Without such a line the whole file is the list and no checksum is
    /// asked for. With one, the next line has to be forty digits and a
    /// newline, or the signature is incomplete; and the digits have to be the
    /// SHA-1 checksum of the list, or the signature is invalid.
    pub fn new(data: &[u8]) -> (file: CvmfsResult<RootFile>)
        ensures
            match file {
                Ok(f) => {
                    &&& read_outcome(data@) == Ok::<_, CvmfsError>((f.body(), f.checksum() is Some))
                    &&& f.well_formed()
                },
                Err(e) => read_outcome(data@) == Err::<(Seq<u8>, bool), _>(e),
            },
    {
        let end = find_body_end(data);
        proof {
            lemma_body_end_is_unique(data@, end as int);
        }
        let contents = copy_range(data, 0, end);
        if end == data.len() {
            return Ok(RootFile { checksum: None, contents });
        }
        let line_start = find_line_end(data, end);
        let line_stop = find_line_end(data, line_start);
        if line_stop - line_start != CHECKSUM_LINE_LENGTH {
            return Err(CvmfsError::IncompleteRootFileSignature);
        }
        let stated = slice_subrange(data, line_start, line_start + 40);
        assert(stated@ =~= checksum_line(data@).subrange(0, 40));
        let digest = sha1_compute(contents.as_slice());
        if !digest_matches(digest.as_slice(), stated) {
            return Err(CvmfsError::InvalidRootFileSignature);
        }
        let checksum = to_hex(digest.as_slice());
        Ok(RootFile { checksum: Some(checksum), contents })
    }

    /// Was the file signed, and did its checksum match?
    pub fn has_signature(&self) -> (signed: bool)
        ensures
            signed == (self.checksum() is Some),
    {
        self.checksum.is_some()
    }

    /// The checksum in hexadecimal notation, where the file was signed.
    pub fn checksum_string(&self) -> (text: Option<String>)
        ensures
            match text {
                Some(t) => self.checksum() == Some(t@),
                None => self.checksum() is None,
            },
    {
        match &self.checksum {
            Some(text) => Some(text.clone()),
            None => None,
        }
    }

    /// The bytes of the key-value list.
    pub fn contents(&self) -> (bytes: &[u8])
        ensures
            bytes@ == self.body(),
    {
        self.contents.as_slice()
    }

    /// The lines of the key-value list, without their newlines.
    pub fn lines(&self) -> (lines: Vec<Vec<u8>>)
        ensures
            byte_strings(lines@) == split_lines(self.body()),
    {
        let mut lines: Vec<Vec<u8>> = Vec::new();
        let mut current: Vec<u8> = Vec::new();
        let mut i: usize = 0;
        while i < self.contents.len()
            invariant
                i <= self.contents@.len(),
                byte_strings(lines@).push(current@) == split_lines(self.contents@.subrange(0, i as int)),
            decreases self.contents@.len() - i,
        {
            let byte = self.contents[i];
            let ghost before = self.contents@.subrange(0, i as int);
            let ghost now = self.contents@.subrange(0, i + 1);
            assert(now.drop_last() =~= before);
            assert(now.last() == byte);
            let ghost done = byte_strings(lines@);
            let ghost open = current@;
            assert(done.push(open).drop_last() =~= done);
            if byte == NEWLINE {
                lines.push(current);
                current = Vec::new();
                assert(byte_strings(lines@) =~= done.push(open));
            } else {
                current.push(byte);
            }
            i += 1;
        }
        assert(self.contents@.subrange(0, i as int) =~= self.contents@);
        let ghost done = byte_strings(lines@);
        let ghost open = current@;
        lines.push(current);
        assert(byte_strings(lines@) =~= done.push(open));
        lines
    }
}

} // verus!
