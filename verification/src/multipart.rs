use vstd::prelude::*;
use vstd::slice::slice_to_vec;
use crate::error::IngestError;
use crate::fields::{fields_view, FormField, FormFieldView};

verus! {

/// One item of a multipart body: a field, or a body nested in it.
///
/// A field holds the text of its content-disposition header, if it has one,
/// and the chunks in which its payload arrived, or nothing where reading
/// them failed.
#[derive(Debug, PartialEq, Eq)]
pub enum MultipartItem {
    Field { disposition: Option<String>, chunks: Option<Vec<Vec<u8>>> },
    Nested(Vec<MultipartItem>),
}

/// How many bodies may stand inside one another below the body of the
/// request.
pub const MAX_NESTING: usize = 16;

/// The bytes of all chunks, in order.
pub open spec fn concat_chunks(chunks: Seq<Vec<u8>>) -> Seq<u8>
    decreases chunks.len(),
{
    if chunks.len() == 0 {
        Seq::empty()
    } else {
        concat_chunks(chunks.drop_last()) + chunks.last()@
    }
}

/// The form field that a multipart field yields. Its payload is absent where
/// the chunks could not be read or hold no byte at all.
pub open spec fn field_of(
    disposition: Option<String>,
    chunks: Option<Vec<Vec<u8>>>,
) -> FormFieldView {
    FormFieldView {
        disposition: match disposition {
            Some(d) => Some(d@),
            None => None,
        },
        payload: match chunks {
            Some(c) => if concat_chunks(c@).len() == 0 {
                None
            } else {
                Some(concat_chunks(c@))
            },
            None => None,
        },
    }
}

/// The fields of an item in depth-first order: the field itself, or the
/// fields of the items nested in it, one item after the other.
pub open spec fn item_fields(item: MultipartItem) -> Seq<FormFieldView>
    decreases item, 0nat,
{
    match item {
        MultipartItem::Field { disposition, chunks } => seq![field_of(disposition, chunks)],
        MultipartItem::Nested(children) => prefix_fields(children, children.len() as nat),
    }
}

/// The fields of the first `n` items of `items`, in depth-first order.
pub open spec fn prefix_fields(items: Vec<MultipartItem>, n: nat) -> Seq<FormFieldView>
    decreases items, n,
{
    if n == 0 || n > items.len() {
        Seq::empty()
    } else {
        prefix_fields(items, (n - 1) as nat) + item_fields(items[n - 1])
    }
}

/// The number of fields at any depth of an item.
pub open spec fn leaf_count(item: MultipartItem) -> nat
    decreases item, 0nat,
{
    match item {
        MultipartItem::Field { disposition, chunks } => 1,
        MultipartItem::Nested(children) => prefix_leaf_count(children, children.len() as nat),
    }
}

/// The number of fields at any depth of the first `n` items of `items`.
pub open spec fn prefix_leaf_count(items: Vec<MultipartItem>, n: nat) -> nat
    decreases items, n,
{
    if n == 0 || n > items.len() {
        0
    } else {
        prefix_leaf_count(items, (n - 1) as nat) + leaf_count(items[n - 1])
    }
}

/// No chain of bodies nested in one another, starting with `item` itself,
/// is longer than `limit`.
pub open spec fn nests_within(item: MultipartItem, limit: nat) -> bool
    decreases item, 0nat,
{
    match item {
        MultipartItem::Field { disposition, chunks } => true,
        MultipartItem::Nested(children) => limit > 0 && all_nest_within(
            children,
            children.len() as nat,
            (limit - 1) as nat,
        ),
    }
}

/// Each of the first `n` items of `items` nests within `limit`.
pub open spec fn all_nest_within(items: Vec<MultipartItem>, n: nat, limit: nat) -> bool
    decreases items, n,
{
    n == 0 || n > items.len() || (all_nest_within(items, (n - 1) as nat, limit) && nests_within(
        items[n - 1],
        limit,
    ))
}

proof fn lemma_all_nest_within_prefix(items: Vec<MultipartItem>, m: nat, n: nat, limit: nat)
    requires
        m <= n <= items.len(),
        all_nest_within(items, n, limit),
    ensures
        all_nest_within(items, m, limit),
    decreases n,
{
    if m < n {
        lemma_all_nest_within_prefix(items, m, (n - 1) as nat, limit);
    }
}

/// Tells whether `item` nests within `limit`. The search itself goes no
/// deeper than `limit` bodies.
pub fn item_nests_within(item: &MultipartItem, limit: usize) -> (r: bool)
    ensures
        r == nests_within(*item, limit as nat),
    decreases item,
{
    match item {
        MultipartItem::Field { disposition: _, chunks: _ } => true,
        MultipartItem::Nested(children) => {
            if limit == 0 {
                false
            } else {
                items_nest_within(children, limit - 1)
            }
        },
    }
}

/// Tells whether each item of `items` nests within `limit`.
pub fn items_nest_within(items: &Vec<MultipartItem>, limit: usize) -> (r: bool)
    ensures
        r == all_nest_within(*items, items@.len() as nat, limit as nat),
    decreases items,
{
    let mut i: usize = 0;
    while i < items.len()
        invariant
            i <= items@.len(),
            all_nest_within(*items, i as nat, limit as nat),
        decreases items@.len() - i,
    {
        if !item_nests_within(&items[i], limit) {
            proof {
                if all_nest_within(*items, items@.len() as nat, limit as nat) {
                    lemma_all_nest_within_prefix(
                        *items,
                        (i + 1) as nat,
                        items@.len() as nat,
                        limit as nat,
                    );
                }
            }
            return false;
        }
        i = i + 1;
    }
    true
}

/// Gathers the chunks of a payload into one buffer.
pub fn gather_chunks(chunks: &Vec<Vec<u8>>) -> (out: Vec<u8>)
    ensures
        out@ == concat_chunks(chunks@),
{
    let mut out: Vec<u8> = Vec::new();
    let mut i: usize = 0;
    while i < chunks.len()
        invariant
            i <= chunks@.len(),
            out@ == concat_chunks(chunks@.subrange(0, i as int)),
        decreases chunks@.len() - i,
    {
        let mut piece = slice_to_vec(chunks[i].as_slice());
        out.append(&mut piece);
        proof {
            let upto = chunks@.subrange(0, i + 1);
            assert(upto.drop_last() =~= chunks@.subrange(0, i as int));
            assert(upto.last() == chunks@[i as int]);
        }
        i = i + 1;
    }
    proof {
        assert(chunks@.subrange(0, chunks@.len() as int) =~= chunks@);
    }
    out
}

/// Makes the form field of one multipart field: its header text as it is,
/// and its chunks in one buffer. The payload is absent where the chunks are,
/// or where they hold no byte.
pub fn extract_field_value(disposition: &Option<String>, chunks: &Option<Vec<Vec<u8>>>) -> (out:
    FormField)
    ensures
        out@ == field_of(*disposition, *chunks),
{
    let header = match disposition {
        Some(d) => Some(d.clone()),
        None => None,
    };
    let payload = match chunks {
        Some(c) => {
            let bytes = gather_chunks(c);
            if bytes.len() == 0 {
                None
            } else {
                Some(bytes)
            }
        },
        None => None,
    };
    FormField { disposition: header, payload }
}

/// Appends the fields of `item` to `out`, in depth-first order: a nested
/// body is taken apart where it stands, before the items that follow it.
/// The descent is as deep as the item is: `flatten_items` is the guarded way
/// in for a body that came over the network.
pub fn handle_multipart_item(item: &MultipartItem, out: &mut Vec<FormField>)
    ensures
        fields_view(final(out)@) == fields_view(old(out)@) + item_fields(*item),
    decreases item,
{
    match item {
        MultipartItem::Field { disposition, chunks } => {
            let field = extract_field_value(disposition, chunks);
            out.push(field);
            proof {
                assert(fields_view(out@) =~= fields_view(old(out)@) + seq![field@]);
            }
        },
        MultipartItem::Nested(children) => {
            let mut i: usize = 0;
            proof {
                assert(fields_view(out@) + Seq::<FormFieldView>::empty() =~= fields_view(out@));
            }
            while i < children.len()
                invariant
                    i <= children@.len(),
                    *item == MultipartItem::Nested(*children),
                    fields_view(out@) == fields_view(old(out)@) + prefix_fields(
                        *children,
                        i as nat,
                    ),
                decreases children@.len() - i,
            {
                proof {
                    assert(decreases_to!(*item => item->Nested_0));
                }
                handle_multipart_item(&children[i], out);
                proof {
                    assert(fields_view(out@) =~= fields_view(old(out)@) + (prefix_fields(
                        *children,
                        i as nat,
                    ) + item_fields(children@[i as int])));
                }
                i = i + 1;
            }
        },
    }
}

/// Flattens a multipart body into its fields, in depth-first order. There
/// is one field in the result for each field at any depth of the body. A
/// body that nests deeper than `MAX_NESTING` is refused, and only such a
/// body.
pub fn flatten_items(items: &Vec<MultipartItem>) -> (r: Result<Vec<FormField>, IngestError>)
    ensures
        match r {
            Ok(out) => {
                &&& all_nest_within(*items, items@.len() as nat, MAX_NESTING as nat)
                &&& fields_view(out@) == prefix_fields(*items, items@.len() as nat)
                &&& out@.len() == prefix_leaf_count(*items, items@.len() as nat)
            },
            Err(e) => {
                &&& e == IngestError::MultipartFraming
                &&& !all_nest_within(*items, items@.len() as nat, MAX_NESTING as nat)
            },
        },
{
    if !items_nest_within(items, MAX_NESTING) {
        return Err(IngestError::MultipartFraming);
    }
    let mut out: Vec<FormField> = Vec::new();
    let mut i: usize = 0;
    proof {
        assert(fields_view(out@) =~= Seq::<FormFieldView>::empty());
    }
    while i < items.len()
        invariant
            i <= items@.len(),
            fields_view(out@) == prefix_fields(*items, i as nat),
        decreases items@.len() - i,
    {
        handle_multipart_item(&items[i], &mut out);
        i = i + 1;
    }
    proof {
        lemma_prefix_fields_len(*items, items@.len() as nat);
        assert(fields_view(out@).len() == out@.len());
    }
    Ok(out)
}

/// A flattened item has one field for each field at any depth of it.
pub proof fn lemma_item_fields_len(item: MultipartItem)
    ensures
        item_fields(item).len() == leaf_count(item),
    decreases item, 0nat,
{
    match item {
        MultipartItem::Field { disposition, chunks } => {},
        MultipartItem::Nested(children) => {
            lemma_prefix_fields_len(children, children.len() as nat);
        },
    }
}

/// A flattened body has one field for each field at any depth of its items.
pub proof fn lemma_prefix_fields_len(items: Vec<MultipartItem>, n: nat)
    ensures
        prefix_fields(items, n).len() == prefix_leaf_count(items, n),
    decreases items, n,
{
    if n == 0 || n > items.len() {
    } else {
        lemma_prefix_fields_len(items, (n - 1) as nat);
        lemma_item_fields_len(items[n - 1]);
    }
}

} // verus!
