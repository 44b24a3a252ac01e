//! Laws of the translator and of the pipeline, stated over the same
//! models the functions' contracts use.

use vstd::prelude::*;
use crate::ApplicationOptions;
use crate::convert::objects_model;
use crate::json::{FieldVal, JsonVal};
use crate::numbers::is_json_number;
use crate::translate::{field_value_model, numeric_selected, row_fields_model};

verus! {

/// Wherever the policy selects a field and its raw text is a JSON number,
/// the emitted value is that number, never a string.
pub proof fn lemma_number_emitted(opts: ApplicationOptions, name: Seq<u8>, raw: Seq<u8>)
    requires
        numeric_selected(opts, name),
        is_json_number(raw),
    ensures
        field_value_model(opts, name, raw) == JsonVal::Num(raw),
{
    assert(raw.len() > 0);
}

/// Wherever the policy does not select a field, the emitted value is a
/// string holding the raw text, however numeric it looks.
pub proof fn lemma_unselected_stays_string(opts: ApplicationOptions, name: Seq<u8>, raw: Seq<u8>)
    ensures
        !numeric_selected(opts, name) ==> field_value_model(opts, name, raw) == JsonVal::Str(raw),
{
}

/// Under selective inference, an empty raw value of a selected name emits
/// a null; the same empty value of an unselected name emits the empty
/// string, not a null.
pub proof fn lemma_selective_empty(opts: ApplicationOptions, name: Seq<u8>)
    requires
        !opts.auto_numbers,
        opts.numeric_fields is Some,
    ensures
        numeric_selected(opts, name) ==> field_value_model(opts, name, Seq::empty())
            == JsonVal::Null,
        !numeric_selected(opts, name) ==> field_value_model(opts, name, Seq::empty())
            == JsonVal::Str(Seq::empty()),
{
}

/// A translated row has one pair per header position, named by the header
/// in header order; a later duplicate name overwrites an earlier one only
/// in the wire format's object semantics, never in this sequence.
pub proof fn lemma_row_keys(opts: ApplicationOptions, header: Seq<Seq<u8>>, row: Seq<Seq<u8>>)
    ensures
        row_fields_model(opts, header, row).len() == header.len(),
        forall|j: int|
            0 <= j < header.len() ==> (#[trigger] row_fields_model(opts, header, row)[j]).name
                == header[j],
{
}

/// The array produced for an input of one header record and N data
/// records holds exactly N objects, one per data record in order.
pub proof fn lemma_row_count(opts: ApplicationOptions, recs: Seq<Seq<Seq<u8>>>)
    requires
        recs.len() >= 1,
    ensures
        objects_model(opts, recs).len() == recs.len() - 1,
        forall|i: int|
            0 <= i < recs.len() - 1 ==> #[trigger] objects_model(opts, recs)[i]
                == crate::json::object_text(
                row_fields_model(opts, recs[0], recs[i + 1]),
                opts.pretty_print,
            ),
{
}

} // verus!
