//! The row translator: one tabular row plus its header becomes a list of
//! JSON key/value pairs, under the configured type-inference policy.

use vstd::prelude::*;
use crate::ApplicationOptions;
use crate::csv::raw_fields_model;
use crate::json::{FieldVal, JsonField, JsonVal, JsonValue};
use crate::numbers::{is_json_number, is_number_text};
use crate::wildcard::{pattern_matches, wild_matches};

verus! {

/// Whether any pattern of the list matches the header name.
pub open spec fn pattern_list_matches(pats: Seq<Vec<u8>>, name: Seq<u8>) -> bool {
    exists|k: int| 0 <= k < pats.len() && wild_matches(pats[k]@, name)
}

/// Whether the policy selects this header name for numeric inference.
pub open spec fn numeric_selected(opts: ApplicationOptions, name: Seq<u8>) -> bool {
    if opts.auto_numbers {
        true
    } else {
        match opts.numeric_fields {
            Some(pats) => pattern_list_matches(pats@, name),
            None => false,
        }
    }
}

/// The JSON value one field becomes: under `auto_numbers`, a number where
/// the raw text is one, else a string; under selective inference, a null
/// for an empty raw value of a matching name, a number where the raw text
/// is one, a string otherwise; a string everywhere else.
pub open spec fn field_value_model(opts: ApplicationOptions, name: Seq<u8>, raw: Seq<u8>) -> JsonVal {
    if opts.auto_numbers {
        if is_json_number(raw) {
            JsonVal::Num(raw)
        } else {
            JsonVal::Str(raw)
        }
    } else {
        match opts.numeric_fields {
            Some(pats) => if pattern_list_matches(pats@, name) {
                if raw.len() == 0 {
                    JsonVal::Null
                } else if is_json_number(raw) {
                    JsonVal::Num(raw)
                } else {
                    JsonVal::Str(raw)
                }
            } else {
                JsonVal::Str(raw)
            },
            None => JsonVal::Str(raw),
        }
    }
}

/// The raw value at position `i` of a row; absent positions read as empty.
pub open spec fn row_at(row: Seq<Seq<u8>>, i: int) -> Seq<u8> {
    if 0 <= i < row.len() {
        row[i]
    } else {
        Seq::empty()
    }
}

/// The translated pairs of one row: one pair per header position, in
/// header order, each valued by `field_value_model`.
pub open spec fn row_fields_model(
    opts: ApplicationOptions,
    header: Seq<Seq<u8>>,
    row: Seq<Seq<u8>>,
) -> Seq<FieldVal> {
    Seq::new(
        header.len(),
        |i: int|
            FieldVal {
                name: header[i],
                value: field_value_model(opts, header[i], row_at(row, i)),
            },
    )
}

/// Decides whether any pattern of the list matches the header name.
pub fn any_pattern_matches(pats: &Vec<Vec<u8>>, name: &Vec<u8>) -> (r: bool)
    ensures
        r == pattern_list_matches(pats@, name@),
{
    let mut i: usize = 0;
    while i < pats.len()
        invariant
            i <= pats@.len(),
            forall|k: int| 0 <= k < i ==> !wild_matches(pats@[k]@, name@),
        decreases pats@.len() - i,
    {
        if pattern_matches(&pats[i], name) {
            return true;
        }
        i = i + 1;
    }
    false
}

/// Translates one raw field value under the policy for its header name.
pub fn field_value(options: &ApplicationOptions, name: &Vec<u8>, raw: &Vec<u8>) -> (v: JsonValue)
    ensures
        v@ == field_value_model(*options, name@, raw@),
{
    if options.auto_numbers {
        if is_number_text(raw.as_slice()) {
            JsonValue::Num(crate::copy_bytes(raw))
        } else {
            JsonValue::Str(crate::copy_bytes(raw))
        }
    } else {
        match &options.numeric_fields {
            Some(pats) => {
                if any_pattern_matches(pats, name) {
                    if raw.len() == 0 {
                        JsonValue::Null
                    } else if is_number_text(raw.as_slice()) {
                        JsonValue::Num(crate::copy_bytes(raw))
                    } else {
                        JsonValue::Str(crate::copy_bytes(raw))
                    }
                } else {
                    JsonValue::Str(crate::copy_bytes(raw))
                }
            },
            None => JsonValue::Str(crate::copy_bytes(raw)),
        }
    }
}

/// Translates one row against its header: one pair per header position,
/// missing row values read as empty, extra row values are ignored.
pub fn convert_line(
    headers: &Vec<Vec<u8>>,
    record: &Vec<Vec<u8>>,
    options: &ApplicationOptions,
) -> (r: Vec<JsonField>)
    ensures
        crate::json::fields_model(r@) == row_fields_model(
            *options,
            raw_fields_model(headers@),
            raw_fields_model(record@),
        ),
{
    let ghost goal = row_fields_model(*options, raw_fields_model(headers@), raw_fields_model(record@));
    let mut out: Vec<JsonField> = Vec::new();
    let mut i: usize = 0;
    while i < headers.len()
        invariant
            i <= headers@.len(),
            out@.len() == i,
            goal == row_fields_model(
                *options,
                raw_fields_model(headers@),
                raw_fields_model(record@),
            ),
            forall|k: int| 0 <= k < i ==> #[trigger] out@[k]@ == goal[k],
        decreases headers@.len() - i,
    {
        let name = crate::copy_bytes(&headers[i]);
        let value = if i < record.len() {
            field_value(options, &headers[i], &record[i])
        } else {
            let empty: Vec<u8> = Vec::new();
            field_value(options, &headers[i], &empty)
        };
        out.push(JsonField { name, value });
        i = i + 1;
    }
    proof {
        assert(crate::json::fields_model(out@) =~= goal);
    }
    out
}

} // verus!
