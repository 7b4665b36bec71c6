use vstd::prelude::*;

verus! {

/// Why an upload is rejected. Every variant is fatal for the request.
#[derive(Clone, Copy, Debug, PartialEq, Eq, Structural)]
pub enum IngestError {
    /// The multipart body cannot be taken apart: it nests too deeply.
    MultipartFraming,
    /// A field's bytes are not valid UTF-8 text.
    Decode,
    /// A numeric field is not a base-10 integer.
    Parse,
    /// A non-empty hex line is malformed or fails its checksum.
    IhexFormat,
    /// A hex line carries a record type outside the recognised set.
    UnsupportedRecordType,
}

} // verus!
