use vstd::prelude::*;
use vstd::utf8::*;
use vstd::slice::slice_to_vec;
use crate::error::IngestError;
use crate::text::{contains_text, has_substring, utf8_text};

verus! {

/// One form field: the text of its content-disposition header, if it has
/// one, and its payload in one buffer, if it has any.
#[derive(Debug, PartialEq, Eq)]
pub struct FormField {
    pub disposition: Option<String>,
    pub payload: Option<Vec<u8>>,
}

/// The mathematical value of a `FormField`.
pub struct FormFieldView {
    pub disposition: Option<Seq<char>>,
    pub payload: Option<Seq<u8>>,
}

impl View for FormField {
    type V = FormFieldView;

    open spec fn view(&self) -> FormFieldView {
        FormFieldView {
            disposition: match self.disposition {
                Some(d) => Some(d@),
                None => None,
            },
            payload: match self.payload {
                Some(p) => Some(p@),
                None => None,
            },
        }
    }
}

/// The values of a sequence of fields, in order.
pub open spec fn fields_view(fields: Seq<FormField>) -> Seq<FormFieldView> {
    fields.map_values(|f: FormField| f@)
}

/// The field has a disposition header that holds `name`.
pub open spec fn field_matches(field: FormFieldView, name: Seq<char>) -> bool {
    field.disposition matches Some(d) && has_substring(d, name)
}

/// The payload of a field, empty where it has none.
pub open spec fn field_payload(field: FormFieldView) -> Seq<u8> {
    match field.payload {
        Some(p) => p,
        None => Seq::empty(),
    }
}

/// The payload of the first field that matches `name`, empty where no field
/// matches.
pub open spec fn selected_payload(fields: Seq<FormFieldView>, name: Seq<char>) -> Seq<u8>
    decreases fields.len(),
{
    if fields.len() == 0 {
        Seq::empty()
    } else if field_matches(fields[0], name) {
        field_payload(fields[0])
    } else {
        selected_payload(fields.drop_first(), name)
    }
}

/// Returns the payload of the first field whose disposition header holds
/// `field_name`. Later fields of that name are ignored. The result is empty
/// where no field matches or the one that does has no payload.
pub fn extract_single_field(fields: &Vec<FormField>, field_name: &str) -> (out: Vec<u8>)
    ensures
        out@ == selected_payload(fields_view(fields@), field_name@),
{
    let ghost all = fields_view(fields@);
    let mut i: usize = 0;
    proof {
        assert(all.subrange(0, all.len() as int) =~= all);
    }
    while i < fields.len()
        invariant
            i <= fields@.len(),
            all == fields_view(fields@),
            selected_payload(all, field_name@) == selected_payload(
                all.subrange(i as int, all.len() as int),
                field_name@,
            ),
        decreases fields@.len() - i,
    {
        let ghost rest = all.subrange(i as int, all.len() as int);
        let field = &fields[i];
        proof {
            assert(rest[0] == field@);
            assert(rest.drop_first() =~= all.subrange(i + 1, all.len() as int));
        }
        let found = match &field.disposition {
            Some(header) => contains_text(header.as_str(), field_name),
            None => false,
        };
        if found {
            return match &field.payload {
                Some(p) => slice_to_vec(p.as_slice()),
                None => Vec::new(),
            };
        }
        i = i + 1;
    }
    Vec::new()
}

/// Reads a payload as UTF-8 text.
pub fn to_string(value: &[u8]) -> (r: Result<String, IngestError>)
    ensures
        match r {
            Ok(s) => valid_utf8(value@) && s@ == decode_utf8(value@),
            Err(e) => !valid_utf8(value@) && e == IngestError::Decode,
        },
{
    match utf8_text(value) {
        Some(s) => Ok(s.to_owned()),
        None => Err(IngestError::Decode),
    }
}

/// The first field that matches a name decides what is selected for it,
/// whatever fields come after it.
pub proof fn lemma_first_match_selected(fields: Seq<FormFieldView>, name: Seq<char>, i: int)
    requires
        0 <= i < fields.len(),
        field_matches(fields[i], name),
        forall|j: int| 0 <= j < i ==> !field_matches(#[trigger] fields[j], name),
    ensures
        selected_payload(fields, name) == field_payload(fields[i]),
    decreases i,
{
    if i > 0 {
        let rest = fields.drop_first();
        assert(!field_matches(fields[0], name));
        assert(rest[i - 1] == fields[i]);
        assert forall|j: int| 0 <= j < i - 1 implies !field_matches(#[trigger] rest[j], name) by {
            assert(rest[j] == fields[j + 1]);
        }
        lemma_first_match_selected(rest, name, i - 1);
    }
}

/// Where no field matches a name, the payload selected for it is empty.
pub proof fn lemma_absent_field_is_empty(fields: Seq<FormFieldView>, name: Seq<char>)
    requires
        forall|i: int| 0 <= i < fields.len() ==> !field_matches(#[trigger] fields[i], name),
    ensures
        selected_payload(fields, name) == Seq::<u8>::empty(),
    decreases fields.len(),
{
    if fields.len() > 0 {
        assert(!field_matches(fields[0], name));
        let rest = fields.drop_first();
        assert forall|i: int| 0 <= i < rest.len() implies !field_matches(
            #[trigger] rest[i],
            name,
        ) by {
            assert(rest[i] == fields[i + 1]);
        }
        lemma_absent_field_is_empty(rest, name);
    }
}

} // verus!
