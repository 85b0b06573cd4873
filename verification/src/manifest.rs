//! The manifest of a repository, read from `.cvmfspublished`.

use vstd::prelude::*;
use vstd::utf8::{encode_utf8, valid_utf8};
use crate::common::{CvmfsError, CvmfsResult};
use crate::root_file::{
    begins_with_dashes, expected_checksum, joined_lines, lemma_joined_lines_are_a_list,
    lemma_lines_of_joined_lines, lemma_signed_file, read_outcome, signed_file, split_lines,
    RootFile, DASH, NEWLINE,
};
use crate::text::{
    byte_strings, bytes_to_string, copy_range, decimal_value, lemma_decimal_of_one_more,
    parse_i64, parse_signed, parse_u32, parse_unsigned,
};
use crate::time::{calendar_has_millis, checked_timestamp, millis_in_calendar};

verus! {

/// What a manifest states, as numbers and byte strings.
pub struct ManifestFields {
    /// `C`: content hash of the root catalog.
    pub root_catalog: Seq<u8>,
    /// `R`: alternative hash of the root catalog.
    pub root_hash: Seq<u8>,
    /// `B`: size of the root catalog in bytes.
    pub root_catalog_size: u32,
    /// `X`: content hash of the signing certificate.
    pub certificate: Seq<u8>,
    /// `H`: content hash of the history database, where there is one.
    pub history_database: Option<Seq<u8>>,
    /// `T`: time of publication in milliseconds since the epoch.
    pub last_modified: i64,
    /// `D`: time to live in seconds.
    pub ttl: u32,
    /// `S`: revision number.
    pub revision: u32,
    /// `N`: fully qualified name of the repository.
    pub repository_name: Seq<u8>,
    /// `L`: content hash of the micro catalog.
    pub micro_catalog: Seq<u8>,
    /// `G`: the repository can be garbage collected.
    pub garbage_collectable: bool,
    /// `A`: the repository may be reached under another name.
    pub allows_alternative_name: bool,
}

/// The fields of a manifest of which no line has been read.
pub open spec fn empty_fields() -> ManifestFields {
    ManifestFields {
        root_catalog: Seq::empty(),
        root_hash: Seq::empty(),
        root_catalog_size: 0,
        certificate: Seq::empty(),
        history_database: None,
        last_modified: 0,
        ttl: 0,
        revision: 0,
        repository_name: Seq::empty(),
        micro_catalog: Seq::empty(),
        garbage_collectable: false,
        allows_alternative_name: false,
    }
}

/// The truth value that `yes` or `no` spells; nothing else spells one.
pub open spec fn yes_or_no(value: Seq<u8>) -> Option<bool> {
    if value == seq![121u8, 101u8, 115u8] {
        Some(true)
    } else if value == seq![110u8, 111u8] {
        Some(false)
    } else {
        None
    }
}

/// The number of milliseconds that a `T` line states, if it is a number for
/// which the calendar has a date.
pub open spec fn timestamp_field(value: Seq<u8>) -> Option<i64> {
    match parse_signed(value, i64::MIN as int, i64::MAX as int) {
        Some(n) if millis_in_calendar(n as i64) => Some(n as i64),
        _ => None,
    }
}

/// The manifest after one more line. The first byte of a line is its key
/// and the rest its value; an empty line and a line with a key that the
/// client does not know change nothing.
pub open spec fn with_line(fields: ManifestFields, line: Seq<u8>) -> Result<
    ManifestFields,
    CvmfsError,
> {
    if line.len() == 0 {
        Ok(fields)
    } else {
        let key = line[0];
        let value = line.skip(1);
        if key == 67 || key == 82 || key == 88 || key == 72 || key == 78 || key == 76 {
            if !valid_utf8(value) {
                Err(CvmfsError::ParseError)
            } else if key == 67 {
                Ok(ManifestFields { root_catalog: value, ..fields })
            } else if key == 82 {
                Ok(ManifestFields { root_hash: value, ..fields })
            } else if key == 88 {
                Ok(ManifestFields { certificate: value, ..fields })
            } else if key == 72 {
                Ok(ManifestFields { history_database: Some(value), ..fields })
            } else if key == 78 {
                Ok(ManifestFields { repository_name: value, ..fields })
            } else {
                Ok(ManifestFields { micro_catalog: value, ..fields })
            }
        } else if key == 66 || key == 68 || key == 83 {
            match parse_unsigned(value, 0xffff_ffff) {
                None => Err(CvmfsError::ParseError),
                Some(n) => if key == 66 {
                    Ok(ManifestFields { root_catalog_size: n as u32, ..fields })
                } else if key == 68 {
                    Ok(ManifestFields { ttl: n as u32, ..fields })
                } else {
                    Ok(ManifestFields { revision: n as u32, ..fields })
                },
            }
        } else if key == 84 {
            match timestamp_field(value) {
                None => Err(CvmfsError::InvalidTimestamp),
                Some(millis) => Ok(ManifestFields { last_modified: millis, ..fields }),
            }
        } else if key == 71 || key == 65 {
            match yes_or_no(value) {
                None => Err(CvmfsError::ParseError),
                Some(flag) => if key == 71 {
                    Ok(ManifestFields { garbage_collectable: flag, ..fields })
                } else {
                    Ok(ManifestFields { allows_alternative_name: flag, ..fields })
                },
            }
        } else {
            Ok(fields)
        }
    }
}

/// The manifest after all the lines, read in order: a later line overrides
/// an earlier one with the same key, and the first line that cannot be read
/// ends the reading with its error.
pub open spec fn with_lines(fields: ManifestFields, lines: Seq<Seq<u8>>) -> Result<
    ManifestFields,
    CvmfsError,
>
    decreases lines.len(),
{
    if lines.len() == 0 {
        Ok(fields)
    } else {
        match with_line(fields, lines[0]) {
            Ok(next) => with_lines(next, lines.skip(1)),
            Err(e) => Err(e),
        }
    }
}

/// What a key-value list states as a manifest.
pub open spec fn manifest_of(body: Seq<u8>) -> Result<ManifestFields, CvmfsError> {
    with_lines(empty_fields(), split_lines(body))
}

/// What is wrong with a line, whatever was read before it.
pub open spec fn line_error(line: Seq<u8>) -> Option<CvmfsError> {
    match with_line(empty_fields(), line) {
        Ok(_) => None,
        Err(e) => Some(e),
    }
}

/// The value of the last line with the key `key`, if there is such a line.
pub open spec fn last_value(lines: Seq<Seq<u8>>, key: u8) -> Option<Seq<u8>>
    decreases lines.len(),
{
    if lines.len() == 0 {
        None
    } else if lines.last().len() > 0 && lines.last()[0] == key {
        Some(lines.last().skip(1))
    } else {
        last_value(lines.drop_last(), key)
    }
}

/// The text that the last line with the key `key` states, or what was
/// there before any line.
pub open spec fn text_of(lines: Seq<Seq<u8>>, key: u8, before: Seq<u8>) -> Seq<u8> {
    match last_value(lines, key) {
        Some(value) => value,
        None => before,
    }
}

/// The number that the last line with the key `key` states, or what was
/// there before any line.
pub open spec fn number_of(lines: Seq<Seq<u8>>, key: u8, before: u32) -> Option<nat> {
    match last_value(lines, key) {
        Some(value) => parse_unsigned(value, 0xffff_ffff),
        None => Some(before as nat),
    }
}

/// The truth value that the last line with the key `key` states, or what
/// was there before any line.
pub open spec fn flag_of(lines: Seq<Seq<u8>>, key: u8, before: bool) -> Option<bool> {
    match last_value(lines, key) {
        Some(value) => yes_or_no(value),
        None => Some(before),
    }
}

/// Every field is what the last line with its key states, and a field
/// without line is what it was before.
pub open spec fn states_last_values(
    before: ManifestFields,
    lines: Seq<Seq<u8>>,
    fields: ManifestFields,
) -> bool {
    &&& fields.root_catalog == text_of(lines, 67, before.root_catalog)
    &&& fields.root_hash == text_of(lines, 82, before.root_hash)
    &&& fields.certificate == text_of(lines, 88, before.certificate)
    &&& fields.history_database == match last_value(lines, 72) {
        Some(value) => Some(value),
        None => before.history_database,
    }
    &&& fields.repository_name == text_of(lines, 78, before.repository_name)
    &&& fields.micro_catalog == text_of(lines, 76, before.micro_catalog)
    &&& number_of(lines, 66, before.root_catalog_size) == Some(fields.root_catalog_size as nat)
    &&& number_of(lines, 68, before.ttl) == Some(fields.ttl as nat)
    &&& number_of(lines, 83, before.revision) == Some(fields.revision as nat)
    &&& match last_value(lines, 84) {
        Some(value) => timestamp_field(value) == Some(fields.last_modified),
        None => fields.last_modified == before.last_modified,
    }
    &&& flag_of(lines, 71, before.garbage_collectable) == Some(fields.garbage_collectable)
    &&& flag_of(lines, 65, before.allows_alternative_name) == Some(
        fields.allows_alternative_name,
    )
}

/// Whether a line can be read, and with which error it cannot, does not
/// hang on what was read before it.
pub proof fn lemma_line_error(fields: ManifestFields, line: Seq<u8>)
    ensures
        match with_line(fields, line) {
            Ok(_) => line_error(line) is None,
            Err(e) => line_error(line) == Some(e),
        },
{
}

/// Reading lines and then one more line is reading the lines and, where
/// that went well, the line.
pub proof fn lemma_with_one_more_line(fields: ManifestFields, lines: Seq<Seq<u8>>, line: Seq<u8>)
    ensures
        with_lines(fields, lines.push(line)) == match with_lines(fields, lines) {
            Ok(read) => with_line(read, line),
            Err(e) => Err(e),
        },
    decreases lines.len(),
{
    let longer = lines.push(line);
    if lines.len() == 0 {
        assert(longer.skip(1) =~= Seq::<Seq<u8>>::empty());
        assert(longer[0] == line);
        match with_line(fields, line) {
            Ok(next) => {
                assert(with_lines(next, longer.skip(1)) == Ok::<_, CvmfsError>(next));
            },
            Err(_) => {},
        }
    } else {
        assert(longer[0] == lines[0]);
        assert(longer.skip(1) =~= lines.skip(1).push(line));
        match with_line(fields, lines[0]) {
            Ok(next) => {
                lemma_with_one_more_line(next, lines.skip(1), line);
            },
            Err(_) => {},
        }
    }
}

/// The last value of a key after one more line is the value of that line
/// if it has the key, and else what it was.
pub proof fn lemma_last_value_of_one_more(lines: Seq<Seq<u8>>, line: Seq<u8>, key: u8)
    ensures
        last_value(lines.push(line), key) == if line.len() > 0 && line[0] == key {
            Some(line.skip(1))
        } else {
            last_value(lines, key)
        },
{
    assert(lines.push(line).drop_last() =~= lines);
}

/// Fields that state the last values of the lines so far state them still
/// after one more line was read.
#[verifier::rlimit(50)]
pub proof fn lemma_one_more_line_counts(
    before: ManifestFields,
    lines: Seq<Seq<u8>>,
    read: ManifestFields,
    line: Seq<u8>,
    fields: ManifestFields,
)
    requires
        states_last_values(before, lines, read),
        with_line(read, line) == Ok::<_, CvmfsError>(fields),
    ensures
        states_last_values(before, lines.push(line), fields),
{
    lemma_last_value_of_one_more(lines, line, 67);
    lemma_last_value_of_one_more(lines, line, 82);
    lemma_last_value_of_one_more(lines, line, 88);
    lemma_last_value_of_one_more(lines, line, 72);
    lemma_last_value_of_one_more(lines, line, 78);
    lemma_last_value_of_one_more(lines, line, 76);
    lemma_last_value_of_one_more(lines, line, 66);
    lemma_last_value_of_one_more(lines, line, 68);
    lemma_last_value_of_one_more(lines, line, 83);
    lemma_last_value_of_one_more(lines, line, 84);
    lemma_last_value_of_one_more(lines, line, 71);
    lemma_last_value_of_one_more(lines, line, 65);
}

/// A manifest that was read states in every field what the last line with
/// the key of the field states.
pub proof fn lemma_last_line_counts(
    before: ManifestFields,
    lines: Seq<Seq<u8>>,
    fields: ManifestFields,
)
    requires
        with_lines(before, lines) == Ok::<_, CvmfsError>(fields),
    ensures
        states_last_values(before, lines, fields),
    decreases lines.len(),
{
    if lines.len() > 0 {
        let shorter = lines.drop_last();
        let line = lines.last();
        assert(lines =~= shorter.push(line));
        lemma_with_one_more_line(before, shorter, line);
        let read = with_lines(before, shorter)->Ok_0;
        lemma_last_line_counts(before, shorter, read);
        lemma_one_more_line_counts(before, shorter, read, line, fields);
    }
}

/// The line at index `i` is the first malformed one, and `e` is what is
/// wrong with it.
pub open spec fn is_first_malformed(lines: Seq<Seq<u8>>, e: CvmfsError, i: int) -> bool {
    &&& 0 <= i < lines.len()
    &&& line_error(lines[i]) == Some(e)
    &&& forall|j: int| 0 <= j < i ==> line_error(#[trigger] lines[j]) is None
}

/// A manifest cannot be read if and only if one of its lines is malformed,
/// and the error is that of the first such line.
pub proof fn lemma_first_malformed_line(before: ManifestFields, lines: Seq<Seq<u8>>, e: CvmfsError)
    ensures
        with_lines(before, lines) == Err::<ManifestFields, _>(e) <==> exists|i: int|
            is_first_malformed(lines, e, i),
    decreases lines.len(),
{
    if lines.len() > 0 {
        let rest = lines.skip(1);
        lemma_line_error(before, lines[0]);
        match with_line(before, lines[0]) {
            Ok(next) => {
                lemma_first_malformed_line(next, rest, e);
                if with_lines(before, lines) == Err::<ManifestFields, _>(e) {
                    let k = choose|k: int| is_first_malformed(rest, e, k);
                    assert(lines[k + 1] == rest[k]);
                    assert forall|j: int| 0 <= j < k + 1 implies line_error(#[trigger] lines[j])
                        is None by {
                        if j > 0 {
                            assert(lines[j] == rest[j - 1]);
                        }
                    }
                    assert(is_first_malformed(lines, e, k + 1));
                }
                if exists|i: int| is_first_malformed(lines, e, i) {
                    let i = choose|i: int| is_first_malformed(lines, e, i);
                    assert(i > 0);
                    assert(rest[i - 1] == lines[i]);
                    assert forall|j: int| 0 <= j < i - 1 implies line_error(#[trigger] rest[j])
                        is None by {
                        assert(rest[j] == lines[j + 1]);
                    }
                    assert(is_first_malformed(rest, e, i - 1));
                }
            },
            Err(first) => {
                if first == e {
                    assert(is_first_malformed(lines, e, 0));
                }
                if exists|i: int| is_first_malformed(lines, e, i) {
                    let i = choose|i: int| is_first_malformed(lines, e, i);
                    if i > 0 {
                        assert(line_error(lines[0]) is None);
                    }
                }
            },
        }
    }
}

/// The lines of a manifest that states its root catalog, the alternative
/// hash, the size of the root catalog, the time of publication, the
/// revision and the name of the repository, in this order.
pub open spec fn published_lines(
    root_catalog: Seq<u8>,
    root_hash: Seq<u8>,
    size: Seq<u8>,
    time: Seq<u8>,
    revision: Seq<u8>,
    name: Seq<u8>,
) -> Seq<Seq<u8>> {
    seq![
        seq![67u8] + root_catalog,
        seq![82u8] + root_hash,
        seq![66u8] + size,
        seq![84u8] + time,
        seq![83u8] + revision,
        seq![78u8] + name,
    ]
}

/// A manifest of six lines that state root catalog, alternative hash, size,
/// time of publication, revision and name is read, and states what its
/// lines state; the fields without line are empty.
pub proof fn lemma_published_manifest(
    root_catalog: Seq<u8>,
    root_hash: Seq<u8>,
    size: Seq<u8>,
    time: Seq<u8>,
    revision: Seq<u8>,
    name: Seq<u8>,
)
    requires
        valid_utf8(root_catalog),
        valid_utf8(root_hash),
        valid_utf8(name),
        parse_unsigned(size, 0xffff_ffff) is Some,
        parse_unsigned(revision, 0xffff_ffff) is Some,
        timestamp_field(time) is Some,
    ensures
        with_lines(
            empty_fields(),
            published_lines(root_catalog, root_hash, size, time, revision, name).push(
                Seq::<u8>::empty(),
            ),
        ) == Ok::<_, CvmfsError>(
            ManifestFields {
                root_catalog,
                root_hash,
                root_catalog_size: parse_unsigned(size, 0xffff_ffff)->0 as u32,
                last_modified: timestamp_field(time)->0,
                revision: parse_unsigned(revision, 0xffff_ffff)->0 as u32,
                repository_name: name,
                ..empty_fields()
            },
        ),
{
    let l1 = seq![67u8] + root_catalog;
    let l2 = seq![82u8] + root_hash;
    let l3 = seq![66u8] + size;
    let l4 = seq![84u8] + time;
    let l5 = seq![83u8] + revision;
    let l6 = seq![78u8] + name;
    let none = Seq::<Seq<u8>>::empty();
    let s1 = none.push(l1);
    let s2 = s1.push(l2);
    let s3 = s2.push(l3);
    let s4 = s3.push(l4);
    let s5 = s4.push(l5);
    let s6 = s5.push(l6);
    assert(s6 =~= published_lines(root_catalog, root_hash, size, time, revision, name));
    assert(l1.skip(1) =~= root_catalog && l1[0] == 67);
    assert(l2.skip(1) =~= root_hash && l2[0] == 82);
    assert(l3.skip(1) =~= size && l3[0] == 66);
    assert(l4.skip(1) =~= time && l4[0] == 84);
    assert(l5.skip(1) =~= revision && l5[0] == 83);
    assert(l6.skip(1) =~= name && l6[0] == 78);
    let f0 = empty_fields();
    lemma_with_one_more_line(f0, none, l1);
    let f1 = ManifestFields { root_catalog, ..f0 };
    assert(with_lines(f0, s1) == Ok::<_, CvmfsError>(f1));
    lemma_with_one_more_line(f0, s1, l2);
    let f2 = ManifestFields { root_hash, ..f1 };
    assert(with_lines(f0, s2) == Ok::<_, CvmfsError>(f2));
    lemma_with_one_more_line(f0, s2, l3);
    let f3 = ManifestFields {
        root_catalog_size: parse_unsigned(size, 0xffff_ffff)->0 as u32,
        ..f2
    };
    assert(with_lines(f0, s3) == Ok::<_, CvmfsError>(f3));
    lemma_with_one_more_line(f0, s3, l4);
    let f4 = ManifestFields { last_modified: timestamp_field(time)->0, ..f3 };
    assert(with_lines(f0, s4) == Ok::<_, CvmfsError>(f4));
    lemma_with_one_more_line(f0, s4, l5);
    let f5 = ManifestFields { revision: parse_unsigned(revision, 0xffff_ffff)->0 as u32, ..f4 };
    assert(with_lines(f0, s5) == Ok::<_, CvmfsError>(f5));
    lemma_with_one_more_line(f0, s5, l6);
    let f6 = ManifestFields { repository_name: name, ..f5 };
    assert(with_lines(f0, s6) == Ok::<_, CvmfsError>(f6));
    lemma_with_one_more_line(f0, s6, Seq::<u8>::empty());
}

/// The digits `42` as bytes.
pub open spec fn digits_42() -> Seq<u8> {
    seq![52u8, 50u8]
}

/// The digits `7` as bytes.
pub open spec fn digits_7() -> Seq<u8> {
    seq![55u8]
}

/// The digits `1700000000000` as bytes.
pub open spec fn digits_1700000000000() -> Seq<u8> {
    seq![49u8, 55u8, 48u8, 48u8, 48u8, 48u8, 48u8, 48u8, 48u8, 48u8, 48u8, 48u8, 48u8]
}

/// What the digits `42`, `7` and `1700000000000` state: the numbers 42 and
/// 7, and a time of publication for which the calendar has a date.
pub proof fn lemma_example_numbers()
    ensures
        parse_unsigned(digits_42(), 0xffff_ffff) == Some(42nat),
        parse_unsigned(digits_7(), 0xffff_ffff) == Some(7nat),
        timestamp_field(digits_1700000000000()) == Some(1_700_000_000_000i64),
{
    let a0 = Seq::<u8>::empty();
    let a1 = a0.push(52u8);
    let a2 = a1.push(50u8);
    lemma_decimal_of_one_more(a0, 52u8);
    lemma_decimal_of_one_more(a1, 50u8);
    assert(a2 =~= digits_42());
    assert(decimal_value(a2) == 42);
    let b1 = a0.push(55u8);
    lemma_decimal_of_one_more(a0, 55u8);
    assert(b1 =~= digits_7());
    assert(decimal_value(b1) == 7);
    let t0 = Seq::<u8>::empty();
    let t1 = t0.push(49u8);
    lemma_decimal_of_one_more(t0, 49u8);
    assert(decimal_value(t1) == 1);
    let t2 = t1.push(55u8);
    lemma_decimal_of_one_more(t1, 55u8);
    assert(decimal_value(t2) == 17);
    let t3 = t2.push(48u8);
    lemma_decimal_of_one_more(t2, 48u8);
    assert(decimal_value(t3) == 170);
    let t4 = t3.push(48u8);
    lemma_decimal_of_one_more(t3, 48u8);
    assert(decimal_value(t4) == 1700);
    let t5 = t4.push(48u8);
    lemma_decimal_of_one_more(t4, 48u8);
    assert(decimal_value(t5) == 17000);
    let t6 = t5.push(48u8);
    lemma_decimal_of_one_more(t5, 48u8);
    assert(decimal_value(t6) == 170000);
    let t7 = t6.push(48u8);
    lemma_decimal_of_one_more(t6, 48u8);
    assert(decimal_value(t7) == 1700000);
    let t8 = t7.push(48u8);
    lemma_decimal_of_one_more(t7, 48u8);
    assert(decimal_value(t8) == 17000000);
    let t9 = t8.push(48u8);
    lemma_decimal_of_one_more(t8, 48u8);
    assert(decimal_value(t9) == 170000000);
    let t10 = t9.push(48u8);
    lemma_decimal_of_one_more(t9, 48u8);
    assert(decimal_value(t10) == 1700000000);
    let t11 = t10.push(48u8);
    lemma_decimal_of_one_more(t10, 48u8);
    assert(decimal_value(t11) == 17000000000);
    let t12 = t11.push(48u8);
    lemma_decimal_of_one_more(t11, 48u8);
    assert(decimal_value(t12) == 170000000000);
    let t13 = t12.push(48u8);
    lemma_decimal_of_one_more(t12, 48u8);
    assert(decimal_value(t13) == 1700000000000);
    assert(t13 =~= digits_1700000000000());
    let time = digits_1700000000000();
    assert(crate::text::after_sign(time) == time);
    assert(!crate::text::has_minus(time));
    assert(crate::text::all_digits(time));
    assert(parse_signed(time, i64::MIN as int, i64::MAX as int) == Some(1_700_000_000_000int));
}

/// A signed manifest that states a root catalog, an alternative hash, the
/// size 42, the time of publication 1700000000000, the revision 7 and a
/// name, and after its terminator line the SHA-1 checksum of these lines, is
/// read as a signed root file, and its manifest states the root catalog,
/// the revision 7 and the name. The three texts may hold anything that is
/// UTF-8 and no newline.
pub proof fn lemma_signed_manifest_is_read(
    root_catalog: Seq<u8>,
    root_hash: Seq<u8>,
    name: Seq<u8>,
    signature: Seq<u8>,
)
    requires
        valid_utf8(root_catalog),
        valid_utf8(root_hash),
        valid_utf8(name),
        forall|k: int| 0 <= k < root_catalog.len() ==> root_catalog[k] != NEWLINE,
        forall|k: int| 0 <= k < root_hash.len() ==> root_hash[k] != NEWLINE,
        forall|k: int| 0 <= k < name.len() ==> name[k] != NEWLINE,
        crate::digest::sha1_digest(
            joined_lines(
                published_lines(
                    root_catalog,
                    root_hash,
                    digits_42(),
                    digits_1700000000000(),
                    digits_7(),
                    name,
                ),
            ),
        ).len() == 20,
    ensures
        ({
            let body = joined_lines(
                published_lines(
                    root_catalog,
                    root_hash,
                    digits_42(),
                    digits_1700000000000(),
                    digits_7(),
                    name,
                ),
            );
            &&& read_outcome(signed_file(body, expected_checksum(body), signature)) == Ok::<
                _,
                CvmfsError,
            >((body, true))
            &&& manifest_of(body) matches Ok(fields)
            &&& fields.root_catalog == root_catalog
            &&& fields.root_hash == root_hash
            &&& fields.root_catalog_size == 42
            &&& fields.last_modified == 1_700_000_000_000
            &&& fields.revision == 7
            &&& fields.repository_name == name
        }),
{
    let lines = published_lines(
        root_catalog,
        root_hash,
        digits_42(),
        digits_1700000000000(),
        digits_7(),
        name,
    );
    let body = joined_lines(lines);
    lemma_example_numbers();
    assert forall|i: int, k: int| 0 <= i < lines.len() && 0 <= k < lines[i].len() implies (
    #[trigger] lines[i][k]) != NEWLINE by {
        if k > 0 {
            if i == 0 {
                assert(lines[i][k] == root_catalog[k - 1]);
            } else if i == 1 {
                assert(lines[i][k] == root_hash[k - 1]);
            } else if i == 2 {
                assert(lines[i][k] == digits_42()[k - 1]);
            } else if i == 3 {
                assert(lines[i][k] == digits_1700000000000()[k - 1]);
            } else if i == 4 {
                assert(lines[i][k] == digits_7()[k - 1]);
            } else {
                assert(lines[i][k] == name[k - 1]);
            }
        }
    }
    assert forall|i: int| 0 <= i < lines.len() implies !begins_with_dashes(
        #[trigger] lines[i],
    ) by {
        assert(lines[i][0] != DASH);
    }
    lemma_lines_of_joined_lines(lines);
    lemma_joined_lines_are_a_list(lines);
    lemma_published_manifest(
        root_catalog,
        root_hash,
        digits_42(),
        digits_1700000000000(),
        digits_7(),
        name,
    );
    let stated = expected_checksum(body);
    crate::digest::lemma_hex_is_ascii(crate::digest::sha1_digest(body));
    assert forall|k: int| 0 <= k < 40 implies stated[k] != NEWLINE by {
        let byte = crate::digest::sha1_digest(body)[k / 2] as int;
        assert(0 <= byte / 16 < 16 && 0 <= byte % 16 < 16);
    }
    lemma_signed_file(body, stated, signature);
}

/// The published state of a repository.
#[derive(Debug)]
pub struct Manifest {
    /// The root file that the manifest was read from.
    pub root_file: RootFile,
    /// Content hash of the root catalog.
    pub root_catalog: String,
    /// Alternative hash of the root catalog.
    pub root_hash: String,
    /// Size of the root catalog in bytes.
    pub root_catalog_size: u32,
    /// Content hash of the signing certificate.
    pub certificate: String,
    /// Content hash of the history database, where the repository has one.
    pub history_database: Option<String>,
    /// Time of publication in milliseconds since the epoch.
    pub last_modified: i64,
    /// Time to live in seconds.
    pub ttl: u32,
    /// Revision number.
    pub revision: u32,
    /// Fully qualified name of the repository.
    pub repository_name: String,
    /// Content hash of the micro catalog.
    pub micro_catalog: String,
    /// The repository can be garbage collected.
    pub garbage_collectable: bool,
    /// The repository may be reached under another name.
    pub allows_alternative_name: bool,
}

impl Manifest {
    /// What the manifest states.
    pub open spec fn fields(&self) -> ManifestFields {
        ManifestFields {
            root_catalog: encode_utf8(self.root_catalog@),
            root_hash: encode_utf8(self.root_hash@),
            root_catalog_size: self.root_catalog_size,
            certificate: encode_utf8(self.certificate@),
            history_database: match self.history_database {
                Some(hash) => Some(encode_utf8(hash@)),
                None => None,
            },
            last_modified: self.last_modified,
            ttl: self.ttl,
            revision: self.revision,
            repository_name: encode_utf8(self.repository_name@),
            micro_catalog: encode_utf8(self.micro_catalog@),
            garbage_collectable: self.garbage_collectable,
            allows_alternative_name: self.allows_alternative_name,
        }
    }

    /// Does the repository keep a history of its revisions?
    pub fn has_history(&self) -> (yes: bool)
        ensures
            yes == (self.history_database is Some),
    {
        self.history_database.is_some()
    }

    /// Reads `yes` as true and `no` as false, and nothing else.
    pub fn parse_boolean(value: &[u8]) -> (flag: CvmfsResult<bool>)
        ensures
            flag == match yes_or_no(value@) {
                Some(b) => Ok::<bool, CvmfsError>(b),
                None => Err::<bool, CvmfsError>(CvmfsError::ParseError),
            },
    {
        if value.len() == 3 && value[0] == 121 && value[1] == 101 && value[2] == 115 {
            assert(value@ =~= seq![121u8, 101u8, 115u8]);
            Ok(true)
        } else if value.len() == 2 && value[0] == 110 && value[1] == 111 {
            assert(value@ =~= seq![110u8, 111u8]);
            Ok(false)
        } else {
            assert(value@ != seq![121u8, 101u8, 115u8]) by {
                if value@ == seq![121u8, 101u8, 115u8] {
                    assert(seq![121u8, 101u8, 115u8].len() == 3);
                }
            }
            assert(value@ != seq![110u8, 111u8]) by {
                if value@ == seq![110u8, 111u8] {
                    assert(seq![110u8, 111u8].len() == 2);
                }
            }
            Err(CvmfsError::ParseError)
        }
    }

    /// Takes one line of the key-value list into the manifest.
    fn read_line(&mut self, line: &[u8]) -> (done: CvmfsResult<()>)
        ensures
            match done {
                Ok(_) => {
                    &&& with_line(old(self).fields(), line@) == Ok::<_, CvmfsError>(
                        final(self).fields(),
                    )
                    &&& final(self).root_file == old(self).root_file
                },
                Err(e) => with_line(old(self).fields(), line@) == Err::<ManifestFields, _>(e),
            },
    {
        if line.len() == 0 {
            return Ok(());
        }
        let key = line[0];
        let value = copy_range(line, 1, line.len());
        assert(value@ == line@.skip(1));
        if key == 67 || key == 82 || key == 88 || key == 72 || key == 78 || key == 76 {
            let text = match bytes_to_string(value) {
                Some(text) => text,
                None => {
                    return Err(CvmfsError::ParseError);
                },
            };
            if key == 67 {
                self.root_catalog = text;
            } else if key == 82 {
                self.root_hash = text;
            } else if key == 88 {
                self.certificate = text;
            } else if key == 72 {
                self.history_database = Some(text);
            } else if key == 78 {
                self.repository_name = text;
            } else {
                self.micro_catalog = text;
            }
        } else if key == 66 || key == 68 || key == 83 {
            let number = match parse_u32(value.as_slice()) {
                Some(number) => number,
                None => {
                    return Err(CvmfsError::ParseError);
                },
            };
            if key == 66 {
                self.root_catalog_size = number;
            } else if key == 68 {
                self.ttl = number;
            } else {
                self.revision = number;
            }
        } else if key == 84 {
            let number = parse_i64(value.as_slice());
            let in_calendar = match number {
                Some(millis) => calendar_has_millis(millis),
                None => false,
            };
            self.last_modified = checked_timestamp(number, in_calendar)?;
        } else if key == 71 {
            self.garbage_collectable = Self::parse_boolean(value.as_slice())?;
        } else if key == 65 {
            self.allows_alternative_name = Self::parse_boolean(value.as_slice())?;
        }
        Ok(())
    }

    /// Reads the manifest that a root file holds.
    ///
    /// The lines are taken in order. The keys `C R B X H T D S N L G A` set
    /// their fields; a line with another key is passed over. A size, a time
    /// to live or a revision that is no number of 32 bits, a `G` or `A` that
    /// is neither `yes` nor `no`, and a text that is not UTF-8 are parse
    /// errors; a `T` that is no number, or one for which the calendar has no
    /// date, is an invalid timestamp.
    pub fn new(root_file: RootFile) -> (manifest: CvmfsResult<Manifest>)
        ensures
            match manifest {
                Ok(m) => {
                    &&& manifest_of(root_file.body()) == Ok::<_, CvmfsError>(m.fields())
                    &&& m.root_file == root_file
                },
                Err(e) => manifest_of(root_file.body()) == Err::<ManifestFields, _>(e),
            },
    {
        let lines = root_file.lines();
        let mut manifest = Manifest {
            root_file,
            root_catalog: String::new(),
            root_hash: String::new(),
            root_catalog_size: 0,
            certificate: String::new(),
            history_database: None,
            last_modified: 0,
            ttl: 0,
            revision: 0,
            repository_name: String::new(),
            micro_catalog: String::new(),
            garbage_collectable: false,
            allows_alternative_name: false,
        };
        assert(manifest.fields() == empty_fields()) by {
            reveal_with_fuel(encode_utf8, 1);
            assert(manifest.fields().root_catalog =~= Seq::<u8>::empty());
        }
        let ghost all = byte_strings(lines@);
        assert(all.skip(0) =~= all);
        let mut i: usize = 0;
        while i < lines.len()
            invariant
                i <= lines@.len(),
                all == byte_strings(lines@),
                all == split_lines(root_file.body()),
                manifest.root_file == root_file,
                with_lines(empty_fields(), all) == with_lines(manifest.fields(), all.skip(i as int)),
            decreases lines@.len() - i,
        {
            let ghost rest = all.skip(i as int);
            assert(rest[0] == lines@[i as int]@);
            assert(rest.skip(1) =~= all.skip(i + 1));
            match manifest.read_line(lines[i].as_slice()) {
                Ok(_) => {},
                Err(e) => {
                    return Err(e);
                },
            }
            i += 1;
        }
        Ok(manifest)
    }
}

} // verus!
