//! JSON values produced for the fields of a row, and the exact byte
//! sequences their serialization emits, in compact or pretty form.
//!
//! A number is kept as the raw byte text that satisfied the JSON number
//! grammar, so it is emitted verbatim; strings are escaped on emission.

use vstd::prelude::*;
use crate::ascii;

verus! {

/// The JSON-emittable result of translating one field.
pub enum JsonValue {
    Null,
    Str(Vec<u8>),
    Num(Vec<u8>),
}

/// Mathematical model of a `JsonValue`.
pub ghost enum JsonVal {
    Null,
    Str(Seq<u8>),
    Num(Seq<u8>),
}

impl View for JsonValue {
    type V = JsonVal;

    open spec fn view(&self) -> JsonVal {
        match self {
            JsonValue::Null => JsonVal::Null,
            JsonValue::Str(s) => JsonVal::Str(s@),
            JsonValue::Num(n) => JsonVal::Num(n@),
        }
    }
}

/// One key/value pair of a translated row.
pub struct JsonField {
    pub name: Vec<u8>,
    pub value: JsonValue,
}

/// Mathematical model of a `JsonField`.
pub ghost struct FieldVal {
    pub name: Seq<u8>,
    pub value: JsonVal,
}

impl View for JsonField {
    type V = FieldVal;

    open spec fn view(&self) -> FieldVal {
        FieldVal { name: self.name@, value: self.value@ }
    }
}

/// Model of a whole field list.
pub open spec fn fields_model(fs: Seq<JsonField>) -> Seq<FieldVal> {
    fs.map_values(|f: JsonField| f@)
}

/// Model of a list of already rendered rows.
pub open spec fn rows_model(rs: Seq<Vec<u8>>) -> Seq<Seq<u8>> {
    rs.map_values(|r: Vec<u8>| r@)
}

/// Lower-case hexadecimal digit for a value below 16.
pub open spec fn hex_digit(n: u8) -> u8 {
    if n < 10 {
        (ascii::DIGIT_0 + n) as u8
    } else {
        (ascii::LOWER_A + (n - 10)) as u8
    }
}

/// What one byte of string content becomes inside a JSON string literal.
pub open spec fn escape_byte(b: u8) -> Seq<u8> {
    if b == ascii::QUOTE {
        seq![ascii::BACKSLASH, ascii::QUOTE]
    } else if b == ascii::BACKSLASH {
        seq![ascii::BACKSLASH, ascii::BACKSLASH]
    } else if b == ascii::LF {
        seq![ascii::BACKSLASH, ascii::LOWER_N]
    } else if b == ascii::CR {
        seq![ascii::BACKSLASH, ascii::LOWER_R]
    } else if b == ascii::TAB {
        seq![ascii::BACKSLASH, ascii::LOWER_T]
    } else if b == ascii::BACKSPACE {
        seq![ascii::BACKSLASH, ascii::LOWER_B]
    } else if b == ascii::FORMFEED {
        seq![ascii::BACKSLASH, ascii::LOWER_F]
    } else if b < 32 {
        seq![
            ascii::BACKSLASH,
            ascii::LOWER_U,
            ascii::DIGIT_0,
            ascii::DIGIT_0,
            hex_digit(b / 16),
            hex_digit(b % 16),
        ]
    } else {
        seq![b]
    }
}

/// The escaped form of a whole string body.
pub open spec fn escaped(s: Seq<u8>) -> Seq<u8>
    decreases s.len(),
{
    if s.len() == 0 {
        Seq::empty()
    } else {
        escaped(s.drop_last()) + escape_byte(s.last())
    }
}

/// Serialization of one JSON value.
pub open spec fn value_text(v: JsonVal) -> Seq<u8> {
    match v {
        JsonVal::Null => seq![ascii::LOWER_N, ascii::LOWER_U, ascii::LOWER_L, ascii::LOWER_L],
        JsonVal::Str(s) => seq![ascii::QUOTE] + escaped(s) + seq![ascii::QUOTE],
        JsonVal::Num(n) => n,
    }
}

/// Serialization of one key/value pair.
pub open spec fn field_text(f: FieldVal, pretty: bool) -> Seq<u8> {
    seq![ascii::QUOTE] + escaped(f.name) + seq![ascii::QUOTE] + (if pretty {
        seq![ascii::COLON, ascii::SPACE]
    } else {
        seq![ascii::COLON]
    }) + value_text(f.value)
}

/// Separator between two pairs of one object.
pub open spec fn field_sep(pretty: bool) -> Seq<u8> {
    if pretty {
        seq![ascii::COMMA, ascii::LF, ascii::SPACE, ascii::SPACE]
    } else {
        seq![ascii::COMMA]
    }
}

/// The pairs of one object joined by their separator.
pub open spec fn joined_fields(fs: Seq<FieldVal>, pretty: bool) -> Seq<u8>
    decreases fs.len(),
{
    if fs.len() == 0 {
        Seq::empty()
    } else if fs.len() == 1 {
        field_text(fs[0], pretty)
    } else {
        joined_fields(fs.drop_last(), pretty) + field_sep(pretty) + field_text(fs.last(), pretty)
    }
}

/// Serialization of one whole object.
pub open spec fn object_text(fs: Seq<FieldVal>, pretty: bool) -> Seq<u8> {
    if fs.len() == 0 {
        seq![ascii::LBRACE, ascii::RBRACE]
    } else if pretty {
        seq![ascii::LBRACE, ascii::LF, ascii::SPACE, ascii::SPACE] + joined_fields(fs, pretty)
            + seq![ascii::LF, ascii::RBRACE]
    } else {
        seq![ascii::LBRACE] + joined_fields(fs, pretty) + seq![ascii::RBRACE]
    }
}

/// Rendered rows joined by a comma and a line break.
pub open spec fn joined_rows(rows: Seq<Seq<u8>>) -> Seq<u8>
    decreases rows.len(),
{
    if rows.len() == 0 {
        Seq::empty()
    } else if rows.len() == 1 {
        rows[0]
    } else {
        joined_rows(rows.drop_last()) + seq![ascii::COMMA, ascii::LF] + rows.last()
    }
}

/// Serialization of the whole output array from its rendered rows.
pub open spec fn array_text(rows: Seq<Seq<u8>>) -> Seq<u8> {
    seq![ascii::LBRACKET] + joined_rows(rows) + seq![ascii::RBRACKET]
}

/// Appends a slice to an output buffer.
pub fn push_bytes(out: &mut Vec<u8>, s: &[u8])
    ensures
        final(out)@ == old(out)@ + s@,
{
    let mut i: usize = 0;
    while i < s.len()
        invariant
            i <= s@.len(),
            out@ == old(out)@ + s@.take(i as int),
        decreases s@.len() - i,
    {
        out.push(s[i]);
        proof {
            assert(s@.take(i + 1) =~= s@.take(i as int) + seq![s@[i as int]]);
        }
        i = i + 1;
    }
    proof {
        assert(s@.take(s@.len() as int) =~= s@);
    }
}

/// Appends the escaped form of `s` to `out`.
pub fn escape_into(out: &mut Vec<u8>, s: &Vec<u8>)
    ensures
        final(out)@ == old(out)@ + escaped(s@),
{
    let mut i: usize = 0;
    while i < s.len()
        invariant
            i <= s@.len(),
            out@ == old(out)@ + escaped(s@.take(i as int)),
        decreases s@.len() - i,
    {
        let b = s[i];
        if b == ascii::QUOTE {
            out.push(ascii::BACKSLASH);
            out.push(ascii::QUOTE);
        } else if b == ascii::BACKSLASH {
            out.push(ascii::BACKSLASH);
            out.push(ascii::BACKSLASH);
        } else if b == ascii::LF {
            out.push(ascii::BACKSLASH);
            out.push(ascii::LOWER_N);
        } else if b == ascii::CR {
            out.push(ascii::BACKSLASH);
            out.push(ascii::LOWER_R);
        } else if b == ascii::TAB {
            out.push(ascii::BACKSLASH);
            out.push(ascii::LOWER_T);
        } else if b == ascii::BACKSPACE {
            out.push(ascii::BACKSLASH);
            out.push(ascii::LOWER_B);
        } else if b == ascii::FORMFEED {
            out.push(ascii::BACKSLASH);
            out.push(ascii::LOWER_F);
        } else if b < 32 {
            out.push(ascii::BACKSLASH);
            out.push(ascii::LOWER_U);
            out.push(ascii::DIGIT_0);
            out.push(ascii::DIGIT_0);
            let hi = b / 16;
            let lo = b % 16;
            out.push(if hi < 10 { ascii::DIGIT_0 + hi } else { ascii::LOWER_A + (hi - 10) });
            out.push(if lo < 10 { ascii::DIGIT_0 + lo } else { ascii::LOWER_A + (lo - 10) });
        } else {
            out.push(b);
        }
        proof {
            assert(s@.take(i + 1).drop_last() =~= s@.take(i as int));
            assert(s@.take(i + 1).last() == s@[i as int]);
            assert(escaped(s@.take(i + 1)) == escaped(s@.take(i as int)) + escape_byte(s@[i as int]));
            assert(out@ =~= old(out)@ + escaped(s@.take(i + 1)));
        }
        i = i + 1;
    }
    proof {
        assert(s@.take(s@.len() as int) =~= s@);
    }
}

/// Appends the serialization of one value to `out`.
pub fn value_into(out: &mut Vec<u8>, v: &JsonValue)
    ensures
        final(out)@ == old(out)@ + value_text(v@),
{
    match v {
        JsonValue::Null => {
            out.push(ascii::LOWER_N);
            out.push(ascii::LOWER_U);
            out.push(ascii::LOWER_L);
            out.push(ascii::LOWER_L);
            proof {
                assert(out@ =~= old(out)@ + value_text(v@));
            }
        },
        JsonValue::Str(s) => {
            out.push(ascii::QUOTE);
            escape_into(out, s);
            out.push(ascii::QUOTE);
            proof {
                assert(out@ =~= old(out)@ + value_text(v@));
            }
        },
        JsonValue::Num(n) => {
            push_bytes(out, n.as_slice());
        },
    }
}

/// Appends the serialization of one key/value pair to `out`.
pub fn field_into(out: &mut Vec<u8>, f: &JsonField, pretty: bool)
    ensures
        final(out)@ == old(out)@ + field_text(f@, pretty),
{
    out.push(ascii::QUOTE);
    escape_into(out, &f.name);
    out.push(ascii::QUOTE);
    out.push(ascii::COLON);
    if pretty {
        out.push(ascii::SPACE);
    }
    value_into(out, &f.value);
    proof {
        assert(out@ =~= old(out)@ + field_text(f@, pretty));
    }
}

/// Renders one row's pairs as a JSON object.
pub fn render_object(fields: &Vec<JsonField>, pretty: bool) -> (r: Vec<u8>)
    ensures
        r@ == object_text(fields_model(fields@), pretty),
{
    let ghost mv = fields_model(fields@);
    let mut out: Vec<u8> = Vec::new();
    out.push(ascii::LBRACE);
    if fields.len() == 0 {
        out.push(ascii::RBRACE);
        proof {
            assert(out@ =~= object_text(mv, pretty));
        }
        return out;
    }
    if pretty {
        out.push(ascii::LF);
        out.push(ascii::SPACE);
        out.push(ascii::SPACE);
    }
    let ghost prefix = out@;
    let mut i: usize = 0;
    while i < fields.len()
        invariant
            i <= fields@.len(),
            mv == fields_model(fields@),
            mv.len() == fields@.len(),
            out@ == prefix + joined_fields(mv.take(i as int), pretty),
        decreases fields@.len() - i,
    {
        if i > 0 {
            if pretty {
                out.push(ascii::COMMA);
                out.push(ascii::LF);
                out.push(ascii::SPACE);
                out.push(ascii::SPACE);
            } else {
                out.push(ascii::COMMA);
            }
            proof {
                assert(out@ =~= prefix + joined_fields(mv.take(i as int), pretty) + field_sep(
                    pretty,
                ));
            }
        }
        field_into(&mut out, &fields[i], pretty);
        proof {
            assert(mv[i as int] == fields@[i as int]@);
            assert(mv.take(i + 1).drop_last() =~= mv.take(i as int));
            assert(mv.take(i + 1).last() == mv[i as int]);
            if i > 0 {
                assert(joined_fields(mv.take(i + 1), pretty) == joined_fields(
                    mv.take(i as int),
                    pretty,
                ) + field_sep(pretty) + field_text(mv[i as int], pretty));
            } else {
                assert(mv.take(1).len() == 1);
                assert(joined_fields(mv.take(1), pretty) == field_text(mv.take(1)[0], pretty));
            }
            assert(out@ =~= prefix + joined_fields(mv.take(i + 1), pretty));
        }
        i = i + 1;
    }
    proof {
        assert(mv.take(mv.len() as int) =~= mv);
    }
    if pretty {
        out.push(ascii::LF);
    }
    out.push(ascii::RBRACE);
    proof {
        assert(out@ =~= object_text(mv, pretty));
    }
    out
}

/// Renders the whole output array from its rendered rows.
pub fn render_array(rows: &Vec<Vec<u8>>) -> (r: Vec<u8>)
    ensures
        r@ == array_text(rows_model(rows@)),
{
    let ghost mv = rows_model(rows@);
    let mut out: Vec<u8> = Vec::new();
    out.push(ascii::LBRACKET);
    let ghost prefix = out@;
    let mut i: usize = 0;
    while i < rows.len()
        invariant
            i <= rows@.len(),
            mv == rows_model(rows@),
            mv.len() == rows@.len(),
            prefix == seq![ascii::LBRACKET],
            out@ == prefix + joined_rows(mv.take(i as int)),
        decreases rows@.len() - i,
    {
        if i > 0 {
            out.push(ascii::COMMA);
            out.push(ascii::LF);
        }
        push_bytes(&mut out, rows[i].as_slice());
        proof {
            assert(mv[i as int] == rows@[i as int]@);
            assert(mv.take(i + 1).drop_last() =~= mv.take(i as int));
            assert(mv.take(i + 1).last() == mv[i as int]);
            if i > 0 {
                assert(joined_rows(mv.take(i + 1)) == joined_rows(mv.take(i as int)) + seq![
                    ascii::COMMA,
                    ascii::LF,
                ] + mv[i as int]);
            } else {
                assert(mv.take(1).len() == 1);
                assert(joined_rows(mv.take(1)) == mv.take(1)[0]);
            }
            assert(out@ =~= prefix + joined_rows(mv.take(i + 1)));
        }
        i = i + 1;
    }
    proof {
        assert(mv.take(mv.len() as int) =~= mv);
    }
    out.push(ascii::RBRACKET);
    proof {
        assert(out@ =~= array_text(mv));
    }
    out
}

} // verus!
