use vstd::prelude::*;

verus! {

/// Why a single line is not a record.
#[derive(Clone, Copy, Debug, PartialEq, Eq, Structural)]
pub enum LineFault {
    /// The line is structurally wrong or its checksum does not match.
    Malformed,
    /// The line is well formed but its record type is not recognised.
    UnsupportedType,
}

/// One Intel HEX record.
#[derive(Debug, PartialEq, Eq)]
pub enum Record {
    Data { offset: u16, value: Vec<u8> },
    EndOfFile,
    ExtendedSegmentAddress(u16),
    StartSegmentAddress { cs: u16, ip: u16 },
    ExtendedLinearAddress(u16),
    StartLinearAddress(u32),
}

/// The mathematical value of a `Record`.
pub enum RecordView {
    Data { offset: u16, value: Seq<u8> },
    EndOfFile,
    ExtendedSegmentAddress(u16),
    StartSegmentAddress { cs: u16, ip: u16 },
    ExtendedLinearAddress(u16),
    StartLinearAddress(u32),
}

impl View for Record {
    type V = RecordView;

    open spec fn view(&self) -> RecordView {
        match *self {
            Record::Data { offset, value } => RecordView::Data { offset, value: value@ },
            Record::EndOfFile => RecordView::EndOfFile,
            Record::ExtendedSegmentAddress(a) => RecordView::ExtendedSegmentAddress(a),
            Record::StartSegmentAddress { cs, ip } => RecordView::StartSegmentAddress { cs, ip },
            Record::ExtendedLinearAddress(a) => RecordView::ExtendedLinearAddress(a),
            Record::StartLinearAddress(a) => RecordView::StartLinearAddress(a),
        }
    }
}

/// What `ihex::Record::from_record_string` makes of a line of text: the
/// record it reads, or the kind of its refusal.
pub uninterp spec fn parsed_line(line: Seq<char>) -> Result<RecordView, LineFault>;

/// Parses one line with `ihex::Record::from_record_string`.
///
/// Trusted: the outcome depends on the characters of the line alone and is
/// named `parsed_line`. A refusal for an unknown record type is kept apart
/// from every other refusal. Nothing more is claimed of the parser.
#[verifier::external_body]
pub(crate) fn parse_record(line: &str) -> (r: Result<Record, LineFault>)
    ensures
        match r {
            Ok(rec) => parsed_line(line@) == Ok::<RecordView, LineFault>(rec@),
            Err(e) => parsed_line(line@) == Err::<RecordView, LineFault>(e),
        },
{
    match ihex::Record::from_record_string(line) {
        Ok(ihex::Record::Data { offset, value }) => Ok(Record::Data { offset, value }),
        Ok(ihex::Record::EndOfFile) => Ok(Record::EndOfFile),
        Ok(ihex::Record::ExtendedSegmentAddress(a)) => Ok(Record::ExtendedSegmentAddress(a)),
        Ok(ihex::Record::StartSegmentAddress { cs, ip }) => Ok(Record::StartSegmentAddress { cs, ip }),
        Ok(ihex::Record::ExtendedLinearAddress(a)) => Ok(Record::ExtendedLinearAddress(a)),
        Ok(ihex::Record::StartLinearAddress(a)) => Ok(Record::StartLinearAddress(a)),
        Err(ihex::ReaderError::UnsupportedRecordType(_)) => Err(LineFault::UnsupportedType),
        Err(_) => Err(LineFault::Malformed),
    }
}

/// The bytes that a record adds to the image: the data of a Data record, and
/// nothing for any other record.
pub open spec fn record_payload(record: RecordView) -> Seq<u8> {
    match record {
        RecordView::Data { offset, value } => value,
        _ => Seq::empty(),
    }
}

/// Returns the bytes that `record` contributes to a binary image.
pub fn ihex_to_bin(record: &Record) -> (out: Vec<u8>)
    ensures
        out@ == record_payload(record@),
{
    match record {
        Record::Data { offset: _, value } => vstd::slice::slice_to_vec(value.as_slice()),
        _ => Vec::new(),
    }
}

} // verus!
