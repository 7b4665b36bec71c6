use vstd::prelude::*;
use vstd::utf8::*;
use crate::error::IngestError;
use crate::fields::{
    extract_single_field, field_matches, fields_view, lemma_absent_field_is_empty,
    selected_payload, to_string, FormField, FormFieldView,
};
use crate::image::{decode_image, text_image};
use crate::text::{decimal_i32, parse_i32};

verus! {

/// A request to store one firmware.
#[derive(Debug, PartialEq, Eq)]
pub struct NewFirmware {
    pub type_id: i32,
    pub version_id: i32,
    pub name: String,
    pub binary: Vec<u8>,
}

/// The mathematical value of a `NewFirmware`.
pub struct NewFirmwareView {
    pub type_id: i32,
    pub version_id: i32,
    pub name: Seq<char>,
    pub binary: Seq<u8>,
}

impl View for NewFirmware {
    type V = NewFirmwareView;

    open spec fn view(&self) -> NewFirmwareView {
        NewFirmwareView {
            type_id: self.type_id,
            version_id: self.version_id,
            name: self.name@,
            binary: self.binary@,
        }
    }
}

impl NewFirmware {
    /// Puts the parts of a firmware together. Nothing is checked here.
    pub fn prepare_in_memory(type_id: i32, version_id: i32, name: String, binary: Vec<u8>) -> (out:
        NewFirmware)
        ensures
            out@ == (NewFirmwareView { type_id, version_id, name: name@, binary: binary@ }),
    {
        NewFirmware { type_id, version_id, name, binary }
    }
}

/// The request that a set of form fields asks for, or the error that the
/// upload is rejected with.
///
/// The name, the type and the version have to be text; then the file has to
/// decode; then the type and the version have to be numbers. The first of
/// these that fails decides the error.
pub open spec fn firmware_of(fields: Seq<FormFieldView>) -> Result<NewFirmwareView, IngestError> {
    let name = selected_payload(fields, "firmware_name"@);
    let type_text = selected_payload(fields, "firmware_type"@);
    let version_text = selected_payload(fields, "firmware_version"@);
    let file = selected_payload(fields, "firmware_file"@);
    if !valid_utf8(name) || !valid_utf8(type_text) || !valid_utf8(version_text) {
        Err(IngestError::Decode)
    } else {
        match (
            text_image(file),
            decimal_i32(decode_utf8(type_text)),
            decimal_i32(decode_utf8(version_text)),
        ) {
            (Err(e), _, _) => Err(e),
            (Ok(binary), Some(type_id), Some(version_id)) => Ok(
                NewFirmwareView { type_id, version_id, name: decode_utf8(name), binary },
            ),
            _ => Err(IngestError::Parse),
        }
    }
}

/// Builds the firmware request of an upload from its form fields.
///
/// Each of the four fields is the first one whose disposition header holds
/// its name; a field that is missing counts as empty. On any error no
/// request is made.
pub fn create_firmware(fields: &Vec<FormField>) -> (r: Result<NewFirmware, IngestError>)
    ensures
        match r {
            Ok(firmware) => firmware_of(fields_view(fields@)) == Ok::<
                NewFirmwareView,
                IngestError,
            >(firmware@),
            Err(e) => firmware_of(fields_view(fields@)) == Err::<NewFirmwareView, IngestError>(e),
        },
{
    let firmware_name = extract_single_field(fields, "firmware_name");
    let firmware_type = extract_single_field(fields, "firmware_type");
    let firmware_version = extract_single_field(fields, "firmware_version");
    let firmware_file = extract_single_field(fields, "firmware_file");

    let firmware_name = match to_string(firmware_name.as_slice()) {
        Ok(text) => text,
        Err(e) => {
            return Err(e);
        },
    };
    let firmware_type = match to_string(firmware_type.as_slice()) {
        Ok(text) => text,
        Err(e) => {
            return Err(e);
        },
    };
    let firmware_version = match to_string(firmware_version.as_slice()) {
        Ok(text) => text,
        Err(e) => {
            return Err(e);
        },
    };
    let binary_data = match decode_image(firmware_file.as_slice()) {
        Ok(image) => image,
        Err(e) => {
            return Err(e);
        },
    };
    let type_id = match parse_i32(firmware_type.as_str()) {
        Some(n) => n,
        None => {
            return Err(IngestError::Parse);
        },
    };
    let version_id = match parse_i32(firmware_version.as_str()) {
        Some(n) => n,
        None => {
            return Err(IngestError::Parse);
        },
    };
    Ok(NewFirmware::prepare_in_memory(type_id, version_id, firmware_name, binary_data))
}

/// An upload without a file field has the empty image: decoding does not
/// fail on it, and a request that is made holds no byte.
pub proof fn lemma_missing_file_image(fields: Seq<FormFieldView>)
    requires
        forall|i: int|
            0 <= i < fields.len() ==> !field_matches(#[trigger] fields[i], "firmware_file"@),
    ensures
        text_image(selected_payload(fields, "firmware_file"@)) == Ok::<Seq<u8>, IngestError>(
            Seq::empty(),
        ),
        firmware_of(fields) matches Ok(firmware) ==> firmware.binary == Seq::<u8>::empty(),
{
    lemma_absent_field_is_empty(fields, "firmware_file"@);
}

} // verus!
