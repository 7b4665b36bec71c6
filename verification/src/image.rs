use vstd::prelude::*;
use vstd::slice::slice_subrange;
use vstd::utf8::*;
use crate::checksum::{
    checksum_holds, hex_sum, hex_value, is_hex, lemma_changed_digit_breaks_checksum,
    verify_checksum,
};
use crate::error::IngestError;
use crate::record::{
    ihex_to_bin, parse_record, parsed_line, record_payload, LineFault, Record, RecordView,
};
use crate::text::utf8_text;

verus! {

/// The bytes that count as whitespace around a line: space, tab, line feed,
/// vertical tab, form feed and carriage return.
pub open spec fn is_blank(b: u8) -> bool {
    b == 0x20 || (0x09 <= b && b <= 0x0d)
}

/// The index of the first line feed of `s`, or its length if it has none.
pub open spec fn line_end(s: Seq<u8>) -> int
    decreases s.len(),
{
    if s.len() == 0 || s[0] == 0x0a {
        0
    } else {
        1 + line_end(s.subrange(1, s.len() as int))
    }
}

/// `s` without its leading whitespace.
pub open spec fn trim_start(s: Seq<u8>) -> Seq<u8>
    decreases s.len(),
{
    if s.len() > 0 && is_blank(s[0]) {
        trim_start(s.subrange(1, s.len() as int))
    } else {
        s
    }
}

/// `s` without its trailing whitespace.
pub open spec fn trim_end(s: Seq<u8>) -> Seq<u8>
    decreases s.len(),
{
    if s.len() > 0 && is_blank(s.last()) {
        trim_end(s.drop_last())
    } else {
        s
    }
}

/// `s` without its surrounding whitespace.
pub open spec fn trimmed(s: Seq<u8>) -> Seq<u8> {
    trim_end(trim_start(s))
}

/// The record that the parser found, or the error that its refusal stands
/// for.
pub open spec fn record_outcome(parsed: Result<RecordView, LineFault>) -> Result<
    RecordView,
    IngestError,
> {
    match parsed {
        Ok(record) => Ok(record),
        Err(LineFault::Malformed) => Err(IngestError::IhexFormat),
        Err(LineFault::UnsupportedType) => Err(IngestError::UnsupportedRecordType),
    }
}

/// The record that a line holds: a decode error for bytes that are no text,
/// a format error for a line whose checksum does not hold, else what the
/// parser makes of the text.
pub open spec fn line_record(line: Seq<u8>) -> Result<RecordView, IngestError> {
    if !valid_utf8(line) {
        Err(IngestError::Decode)
    } else if !checksum_holds(line) {
        Err(IngestError::IhexFormat)
    } else {
        record_outcome(parsed_line(decode_utf8(line)))
    }
}

/// What one trimmed line adds to the image: nothing for an empty line, else
/// the payload of the record it holds, or the error of reading it.
pub open spec fn line_image(line: Seq<u8>) -> Result<Seq<u8>, IngestError> {
    if line.len() == 0 {
        Ok(Seq::empty())
    } else {
        match line_record(line) {
            Ok(record) => Ok(record_payload(record)),
            Err(e) => Err(e),
        }
    }
}

/// `tail` with `head` put in front of the bytes it holds, if it holds any.
pub open spec fn prepend(head: Seq<u8>, tail: Result<Seq<u8>, IngestError>) -> Result<
    Seq<u8>,
    IngestError,
> {
    match tail {
        Ok(bytes) => Ok(head + bytes),
        Err(e) => Err(e),
    }
}

/// The image of a whole text: the payloads of its lines in line order, or the
/// error of the first line that has one.
pub open spec fn text_image(text: Seq<u8>) -> Result<Seq<u8>, IngestError>
    decreases text.len(),
{
    if text.len() == 0 {
        Ok(Seq::empty())
    } else {
        let end = line_end(text);
        let rest = if 0 <= end < text.len() {
            text.subrange(end + 1, text.len() as int)
        } else {
            Seq::empty()
        };
        match line_image(trimmed(text.subrange(0, end))) {
            Ok(head) => prepend(head, text_image(rest)),
            Err(e) => Err(e),
        }
    }
}

proof fn lemma_line_end(s: Seq<u8>, j: int)
    requires
        0 <= j <= s.len(),
        forall|k: int| 0 <= k < j ==> s[k] != 0x0a,
        j == s.len() || s[j] == 0x0a,
    ensures
        line_end(s) == j,
    decreases j,
{
    if j > 0 {
        let t = s.subrange(1, s.len() as int);
        assert forall|k: int| 0 <= k < j - 1 implies t[k] != 0x0a by {
            assert(t[k] == s[k + 1]);
        }
        lemma_line_end(t, j - 1);
    }
}

proof fn lemma_trim_start(s: Seq<u8>, a: int)
    requires
        0 <= a <= s.len(),
        forall|k: int| 0 <= k < a ==> is_blank(s[k]),
        a == s.len() || !is_blank(s[a]),
    ensures
        trim_start(s) == s.subrange(a, s.len() as int),
    decreases a,
{
    if a > 0 {
        let t = s.subrange(1, s.len() as int);
        assert forall|k: int| 0 <= k < a - 1 implies is_blank(t[k]) by {
            assert(t[k] == s[k + 1]);
        }
        lemma_trim_start(t, a - 1);
        assert(t.subrange(a - 1, t.len() as int) =~= s.subrange(a, s.len() as int));
    } else {
        assert(s.subrange(0, s.len() as int) =~= s);
    }
}

proof fn lemma_trim_end(s: Seq<u8>, b: int)
    requires
        0 <= b <= s.len(),
        forall|k: int| b <= k < s.len() ==> is_blank(s[k]),
        b == 0 || !is_blank(s[b - 1]),
    ensures
        trim_end(s) == s.subrange(0, b),
    decreases s.len() - b,
{
    if b < s.len() {
        let t = s.drop_last();
        lemma_trim_end(t, b);
        assert(t.subrange(0, b) =~= s.subrange(0, b));
    } else {
        assert(s.subrange(0, s.len() as int) =~= s);
    }
}

/// Tells whether `b` is a whitespace byte.
pub fn blank(b: u8) -> (r: bool)
    ensures
        r == is_blank(b),
{
    b == 0x20 || (0x09 <= b && b <= 0x0d)
}

/// Finds where the line that starts at `start` ends: at the next line feed,
/// or at the end of the text.
pub fn find_line_end(text: &[u8], start: usize) -> (end: usize)
    requires
        start <= text@.len(),
    ensures
        start <= end <= text@.len(),
        end - start == line_end(text@.subrange(start as int, text@.len() as int)),
{
    let mut j: usize = start;
    while j < text.len() && text[j] != 0x0a
        invariant
            start <= j <= text@.len(),
            forall|k: int| start <= k < j ==> text@[k] != 0x0a,
        decreases text@.len() - j,
    {
        j = j + 1;
    }
    proof {
        lemma_line_end(text@.subrange(start as int, text@.len() as int), j - start);
    }
    j
}

/// Finds the part of `text[start..end]` that is left when the whitespace
/// round it is taken away.
pub fn trim_bounds(text: &[u8], start: usize, end: usize) -> (r: (usize, usize))
    requires
        start <= end <= text@.len(),
    ensures
        start <= r.0 <= r.1 <= end,
        text@.subrange(r.0 as int, r.1 as int) == trimmed(
            text@.subrange(start as int, end as int),
        ),
{
    let mut a: usize = start;
    while a < end && blank(text[a])
        invariant
            start <= a <= end <= text@.len(),
            forall|k: int| start <= k < a ==> is_blank(text@[k]),
        decreases end - a,
    {
        a = a + 1;
    }
    let mut b: usize = end;
    while b > a && blank(text[b - 1])
        invariant
            a <= b <= end <= text@.len(),
            forall|k: int| b <= k < end ==> is_blank(text@[k]),
        decreases b - a,
    {
        b = b - 1;
    }
    proof {
        let line = text@.subrange(start as int, end as int);
        lemma_trim_start(line, a - start);
        let front = line.subrange(a - start, line.len() as int);
        assert(front =~= text@.subrange(a as int, end as int));
        lemma_trim_end(front, b - a);
        assert(front.subrange(0, b - a) =~= text@.subrange(a as int, b as int));
    }
    (a, b)
}

/// Turns the parser's verdict on a line into the record, or into the error
/// that ends the decoding.
pub fn checked_record(parsed: Result<Record, LineFault>) -> (r: Result<Record, IngestError>)
    ensures
        match (r, parsed) {
            (Ok(record), Ok(found)) => record == found,
            (Err(e), Err(LineFault::Malformed)) => e == IngestError::IhexFormat,
            (Err(e), Err(LineFault::UnsupportedType)) => e == IngestError::UnsupportedRecordType,
            _ => false,
        },
{
    match parsed {
        Ok(record) => Ok(record),
        Err(LineFault::Malformed) => Err(IngestError::IhexFormat),
        Err(LineFault::UnsupportedType) => Err(IngestError::UnsupportedRecordType),
    }
}

/// Reads the record that a line holds. The line is taken as it is: nothing
/// is trimmed. The checksum is checked here before the parser sees the line.
pub fn read_record(line: &[u8]) -> (r: Result<Record, IngestError>)
    ensures
        match r {
            Ok(record) => line_record(line@) == Ok::<RecordView, IngestError>(record@),
            Err(e) => line_record(line@) == Err::<RecordView, IngestError>(e),
        },
{
    match utf8_text(line) {
        None => Err(IngestError::Decode),
        Some(s) => if verify_checksum(line) {
            checked_record(parse_record(s))
        } else {
            Err(IngestError::IhexFormat)
        },
    }
}

/// Decodes one trimmed line.
pub fn decode_line(line: &[u8]) -> (r: Result<Vec<u8>, IngestError>)
    ensures
        match r {
            Ok(bytes) => line_image(line@) == Ok::<Seq<u8>, IngestError>(bytes@),
            Err(e) => line_image(line@) == Err::<Seq<u8>, IngestError>(e),
        },
{
    if line.len() == 0 {
        return Ok(Vec::new());
    }
    match read_record(line) {
        Ok(record) => Ok(ihex_to_bin(&record)),
        Err(e) => Err(e),
    }
}

/// Decodes Intel HEX text into a binary image.
///
/// The text is cut into lines at line feeds. A line that is empty once the
/// whitespace round it is gone is skipped. Every other line has to be a
/// record; the data of the Data records, in line order, is the image. Data is
/// appended as it comes: the addresses of the records place nothing. The
/// first line that is no text or no record ends the decoding with its error.
pub fn decode_image(text: &[u8]) -> (r: Result<Vec<u8>, IngestError>)
    ensures
        match r {
            Ok(image) => text_image(text@) == Ok::<Seq<u8>, IngestError>(image@),
            Err(e) => text_image(text@) == Err::<Seq<u8>, IngestError>(e),
        },
{
    let mut image: Vec<u8> = Vec::new();
    let mut pos: usize = 0;
    proof {
        assert(text@.subrange(0, text@.len() as int) =~= text@);
        if text_image(text@) is Ok {
            assert(Seq::<u8>::empty() + text_image(text@)->Ok_0 =~= text_image(text@)->Ok_0);
        }
    }
    while pos < text.len()
        invariant
            pos <= text@.len(),
            text_image(text@) == prepend(
                image@,
                text_image(text@.subrange(pos as int, text@.len() as int)),
            ),
        decreases text@.len() - pos,
    {
        let ghost rest = text@.subrange(pos as int, text@.len() as int);
        let end = find_line_end(text, pos);
        let (a, b) = trim_bounds(text, pos, end);
        let line = slice_subrange(text, a, b);
        proof {
            assert(rest.subrange(0, end - pos) =~= text@.subrange(pos as int, end as int));
            if end < text@.len() {
                assert(rest.subrange(end - pos + 1, rest.len() as int) =~= text@.subrange(
                    end + 1,
                    text@.len() as int,
                ));
            } else {
                assert(text@.subrange(end as int, text@.len() as int) =~= Seq::<u8>::empty());
            }
        }
        match decode_line(line) {
            Err(e) => {
                return Err(e);
            },
            Ok(mut bytes) => {
                let ghost before = image@;
                let ghost head = bytes@;
                image.append(&mut bytes);
                proof {
                    let next: int = if end < text@.len() { end + 1 } else { end as int };
                    let tail = text_image(text@.subrange(next, text@.len() as int));
                    assert(text_image(rest) == prepend(head, tail));
                    if tail is Ok {
                        assert(before + (head + tail->Ok_0) =~= (before + head)
                            + tail->Ok_0);
                    }
                }
            },
        }
        pos = if end < text.len() { end + 1 } else { end };
    }
    proof {
        assert(text@.subrange(pos as int, text@.len() as int) =~= Seq::<u8>::empty());
        assert(image@ + Seq::<u8>::empty() =~= image@);
    }
    Ok(image)
}

/// The lines, each closed by a line feed, as one text.
pub open spec fn join_lines(lines: Seq<Seq<u8>>) -> Seq<u8>
    decreases lines.len(),
{
    if lines.len() == 0 {
        Seq::empty()
    } else {
        lines[0] + seq![0x0au8] + join_lines(lines.drop_first())
    }
}

/// What the records add to an image, one after the other.
pub open spec fn payloads(records: Seq<RecordView>) -> Seq<u8>
    decreases records.len(),
{
    if records.len() == 0 {
        Seq::empty()
    } else {
        record_payload(records[0]) + payloads(records.drop_first())
    }
}

/// The number of bytes that the records add to an image.
pub open spec fn payload_count(records: Seq<RecordView>) -> nat
    decreases records.len(),
{
    if records.len() == 0 {
        0
    } else {
        record_payload(records[0]).len() + payload_count(records.drop_first())
    }
}

/// `line` has no line feed in it and, once trimmed, holds `record`.
pub open spec fn line_holds(line: Seq<u8>, record: RecordView) -> bool {
    &&& forall|k: int| 0 <= k < line.len() ==> line[k] != 0x0a
    &&& trimmed(line).len() > 0
    &&& line_record(trimmed(line)) == Ok::<RecordView, IngestError>(record)
}

/// In a line that holds a record, the byte count, the address, the record
/// type, the data and the checksum add up to zero modulo 256.
pub proof fn lemma_record_line_checksum(line: Seq<u8>)
    requires
        line_record(line) is Ok,
    ensures
        checksum_holds(line),
        hex_sum(line.subrange(1, line.len() as int)) % 256 == 0,
{
}

/// A line that holds a record holds none once any one of its digits is
/// replaced by a digit of another value: the checksum fails.
pub proof fn lemma_changed_digit_is_rejected(line: Seq<u8>, k: int, d: u8)
    requires
        line_record(line) is Ok,
        1 <= k < line.len(),
        is_hex(d),
        hex_value(d) != hex_value(line[k]),
    ensures
        !checksum_holds(line.update(k, d)),
        line_record(line.update(k, d)) is Err,
        valid_utf8(line.update(k, d)) ==> line_record(line.update(k, d)) == Err::<
            RecordView,
            IngestError,
        >(IngestError::IhexFormat),
{
    lemma_changed_digit_breaks_checksum(line, k, d);
}

/// A text made of lines that all hold a record decodes to the payloads of
/// those records in line order: for Data records, their data bytes one run
/// after the other. The image is as long as the byte counts of the
/// contributing records taken together.
pub proof fn lemma_record_lines_image(lines: Seq<Seq<u8>>, records: Seq<RecordView>)
    requires
        lines.len() == records.len(),
        forall|i: int| 0 <= i < lines.len() ==> line_holds(#[trigger] lines[i], records[i]),
    ensures
        text_image(join_lines(lines)) == Ok::<Seq<u8>, IngestError>(payloads(records)),
        payloads(records).len() == payload_count(records),
    decreases lines.len(),
{
    if lines.len() > 0 {
        let first = lines[0];
        let text = join_lines(lines);
        let later = lines.drop_first();
        assert(line_holds(first, records[0]));
        assert forall|i: int| 0 <= i < later.len() implies line_holds(
            #[trigger] later[i],
            records.drop_first()[i],
        ) by {
            assert(line_holds(lines[i + 1], records[i + 1]));
        }
        lemma_record_lines_image(later, records.drop_first());
        assert forall|k: int| 0 <= k < first.len() implies text[k] != 0x0a by {
            assert(text[k] == first[k]);
        }
        lemma_line_end(text, first.len() as int);
        assert(text.subrange(0, first.len() as int) =~= first);
        assert(text.subrange(first.len() as int + 1, text.len() as int) =~= join_lines(later));
    }
}

} // verus!
