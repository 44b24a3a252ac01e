//! Comma-separated records: fields split on commas, records ended by line
//! breaks, with standard quoting — a field that opens with a quote runs to
//! the closing quote, a doubled quote inside stands for one literal quote,
//! and commas and line breaks inside quotes are field content. Blank lines
//! yield no record. Every byte sequence parses; there is no reject case.

use vstd::prelude::*;
use crate::ascii;

verus! {

/// A record terminator byte.
pub open spec fn is_sep(b: u8) -> bool {
    b == ascii::LF || b == ascii::CR
}

/// Length of the unquoted run that starts `s`: bytes up to the first
/// comma, terminator or the end.
pub open spec fn scan_unquoted(s: Seq<u8>) -> int
    decreases s.len(),
{
    if s.len() == 0 || s[0] == ascii::COMMA || is_sep(s[0]) {
        0
    } else {
        1 + scan_unquoted(s.skip(1))
    }
}

/// Content and consumed length of a quoted field body; `s` starts just
/// after the opening quote, and the consumed length includes the closing
/// quote. A doubled quote contributes one literal quote; an unterminated
/// body runs to the end.
pub open spec fn parse_quoted(s: Seq<u8>) -> (Seq<u8>, int)
    decreases s.len(),
{
    if s.len() == 0 {
        (Seq::empty(), 0)
    } else if s[0] == ascii::QUOTE {
        if s.len() >= 2 && s[1] == ascii::QUOTE {
            let (c, n) = parse_quoted(s.skip(2));
            (seq![ascii::QUOTE] + c, 2 + n)
        } else {
            (Seq::empty(), 1)
        }
    } else {
        let (c, n) = parse_quoted(s.skip(1));
        (seq![s[0]] + c, 1 + n)
    }
}

/// Content and consumed length of one field at the start of `s`. A field
/// that opens with a quote is the quoted body plus any unquoted trailing
/// run; otherwise it is the unquoted run.
pub open spec fn parse_field(s: Seq<u8>) -> (Seq<u8>, int) {
    if s.len() > 0 && s[0] == ascii::QUOTE {
        let (c, n) = parse_quoted(s.skip(1));
        let m = scan_unquoted(s.skip(1 + n));
        (c + s.skip(1 + n).take(m), 1 + n + m)
    } else {
        let m = scan_unquoted(s);
        (s.take(m), m)
    }
}

/// The fields of one record at the start of `s`, and the consumed length,
/// which stops before the record terminator.
pub open spec fn parse_record(s: Seq<u8>) -> (Seq<Seq<u8>>, int)
    decreases s.len(),
    via parse_record_dec
{
    let (f, n) = parse_field(s);
    if n < s.len() && s[n] == ascii::COMMA {
        let (rest, m) = parse_record(s.skip(n + 1));
        (seq![f] + rest, n + 1 + m)
    } else {
        (seq![f], n)
    }
}

/// All records of `s`, terminator runs and blank lines skipped.
pub open spec fn parse_records(s: Seq<u8>) -> Seq<Seq<Seq<u8>>>
    decreases s.len(),
    via parse_records_dec
{
    if s.len() == 0 {
        Seq::empty()
    } else if is_sep(s[0]) {
        parse_records(s.skip(1))
    } else {
        let (rec, n) = parse_record(s);
        seq![rec] + parse_records(s.skip(n))
    }
}

/// The unquoted run never leaves `s`, and stops only at a delimiter.
pub proof fn lemma_scan_unquoted(s: Seq<u8>)
    ensures
        0 <= scan_unquoted(s) <= s.len(),
        scan_unquoted(s) == s.len() || s[scan_unquoted(s)] == ascii::COMMA || is_sep(
            s[scan_unquoted(s)],
        ),
    decreases s.len(),
{
    if s.len() == 0 || s[0] == ascii::COMMA || is_sep(s[0]) {
    } else {
        lemma_scan_unquoted(s.skip(1));
    }
}

/// A quoted body never consumes more than `s`.
pub proof fn lemma_parse_quoted(s: Seq<u8>)
    ensures
        0 <= parse_quoted(s).1 <= s.len(),
    decreases s.len(),
{
    if s.len() == 0 {
    } else if s[0] == ascii::QUOTE {
        if s.len() >= 2 && s[1] == ascii::QUOTE {
            lemma_parse_quoted(s.skip(2));
        }
    } else {
        lemma_parse_quoted(s.skip(1));
    }
}

/// A field never consumes more than `s`, stops only at a delimiter, and
/// consumes at least one byte unless a delimiter stands first.
pub proof fn lemma_parse_field(s: Seq<u8>)
    ensures
        0 <= parse_field(s).1 <= s.len(),
        parse_field(s).1 == s.len() || s[parse_field(s).1] == ascii::COMMA || is_sep(
            s[parse_field(s).1],
        ),
        s.len() > 0 && s[0] != ascii::COMMA && !is_sep(s[0]) ==> parse_field(s).1 >= 1,
{
    if s.len() > 0 && s[0] == ascii::QUOTE {
        lemma_parse_quoted(s.skip(1));
        let n = parse_quoted(s.skip(1)).1;
        lemma_scan_unquoted(s.skip(1 + n));
        let m = scan_unquoted(s.skip(1 + n));
        if 1 + n + m < s.len() {
            assert(s.skip(1 + n)[m] == s[1 + n + m]);
        }
    } else {
        lemma_scan_unquoted(s);
    }
}

#[via_fn]
proof fn parse_record_dec(s: Seq<u8>) {
    lemma_parse_field(s);
}

/// A record has at least one field, never consumes more than `s`, stops
/// only at a terminator, and consumes at least one byte unless a
/// terminator stands first.
pub proof fn lemma_parse_record(s: Seq<u8>)
    ensures
        parse_record(s).0.len() >= 1,
        0 <= parse_record(s).1 <= s.len(),
        parse_record(s).1 == s.len() || is_sep(s[parse_record(s).1]),
        s.len() > 0 && !is_sep(s[0]) ==> parse_record(s).1 >= 1,
    decreases s.len(),
{
    lemma_parse_field(s);
    let n = parse_field(s).1;
    if n < s.len() && s[n] == ascii::COMMA {
        lemma_parse_record(s.skip(n + 1));
        let m = parse_record(s.skip(n + 1)).1;
        if n + 1 + m < s.len() {
            assert(s.skip(n + 1)[m] == s[n + 1 + m]);
        }
    }
}

#[via_fn]
proof fn parse_records_dec(s: Seq<u8>) {
    if s.len() > 0 && !is_sep(s[0]) {
        lemma_parse_record(s);
    }
}

/// Model of a field list as plain byte sequences.
pub open spec fn raw_fields_model(fs: Seq<Vec<u8>>) -> Seq<Seq<u8>> {
    fs.map_values(|f: Vec<u8>| f@)
}

/// Model of a record list as plain byte sequences.
pub open spec fn records_model(rs: Seq<Vec<Vec<u8>>>) -> Seq<Seq<Seq<u8>>> {
    rs.map_values(|r: Vec<Vec<u8>>| raw_fields_model(r@))
}

/// Scans the unquoted run that starts at `i`.
fn scan_unquoted_at(s: &[u8], i: usize) -> (r: usize)
    requires
        i <= s@.len(),
    ensures
        i <= r <= s@.len(),
        r - i == scan_unquoted(s@.skip(i as int)),
{
    let mut j = i;
    while j < s.len() && s[j] != ascii::COMMA && s[j] != ascii::LF && s[j] != ascii::CR
        invariant
            i <= j <= s@.len(),
            scan_unquoted(s@.skip(i as int)) == (j - i) + scan_unquoted(s@.skip(j as int)),
        decreases s@.len() - j,
    {
        proof {
            assert(s@.skip(j as int)[0] == s@[j as int]);
            assert(s@.skip(j as int).skip(1) =~= s@.skip(j as int + 1));
        }
        j = j + 1;
    }
    proof {
        lemma_scan_unquoted(s@.skip(i as int));
        if j < s.len() {
            assert(s@.skip(j as int)[0] == s@[j as int]);
        }
        assert(scan_unquoted(s@.skip(j as int)) == 0);
    }
    j
}

/// Reads a quoted field body starting at `i`, just after the opening
/// quote; returns the content and the position after the closing quote.
fn parse_quoted_at(s: &[u8], i: usize) -> (r: (Vec<u8>, usize))
    requires
        i <= s@.len(),
    ensures
        i <= r.1 <= s@.len(),
        r.0@ == parse_quoted(s@.skip(i as int)).0,
        r.1 - i == parse_quoted(s@.skip(i as int)).1,
{
    let ghost whole = s@.skip(i as int);
    let mut acc: Vec<u8> = Vec::new();
    let mut j = i;
    proof {
        assert(acc@ + parse_quoted(whole).0 =~= parse_quoted(whole).0);
    }
    while j < s.len()
        invariant
            i <= j <= s@.len(),
            whole == s@.skip(i as int),
            parse_quoted(whole).0 == acc@ + parse_quoted(s@.skip(j as int)).0,
            parse_quoted(whole).1 == (j - i) + parse_quoted(s@.skip(j as int)).1,
        decreases s@.len() - j,
    {
        let b = s[j];
        proof {
            assert(s@.skip(j as int)[0] == s@[j as int]);
        }
        if b == ascii::QUOTE {
            if j + 1 < s.len() && s[j + 1] == ascii::QUOTE {
                proof {
                    assert(s@.skip(j as int)[1] == s@[j as int + 1]);
                    assert(s@.skip(j as int).skip(2) =~= s@.skip(j as int + 2));
                }
                acc.push(ascii::QUOTE);
                proof {
                    assert(acc@ + parse_quoted(s@.skip(j as int + 2)).0 =~= parse_quoted(
                        whole,
                    ).0);
                }
                j = j + 2;
            } else {
                proof {
                    if j + 1 < s.len() {
                        assert(s@.skip(j as int)[1] == s@[j as int + 1]);
                    }
                    assert(s@.skip(j as int).len() == s@.len() - j);
                    assert(parse_quoted(s@.skip(j as int)).0 == Seq::<u8>::empty());
                    assert(parse_quoted(s@.skip(j as int)).1 == 1);
                    assert(acc@ =~= acc@ + Seq::<u8>::empty());
                }
                return (acc, j + 1);
            }
        } else {
            proof {
                assert(s@.skip(j as int).skip(1) =~= s@.skip(j as int + 1));
            }
            acc.push(b);
            proof {
                assert(acc@ + parse_quoted(s@.skip(j as int + 1)).0 =~= parse_quoted(whole).0);
            }
            j = j + 1;
        }
    }
    proof {
        assert(s@.skip(j as int).len() == 0);
        assert(parse_quoted(s@.skip(j as int)).0 == Seq::<u8>::empty());
        assert(acc@ =~= acc@ + Seq::<u8>::empty());
    }
    (acc, j)
}

/// Reads one field starting at `i`; returns its content and the position
/// of the delimiter that ended it (or the end of input).
fn parse_field_at(s: &[u8], i: usize) -> (r: (Vec<u8>, usize))
    requires
        i <= s@.len(),
    ensures
        i <= r.1 <= s@.len(),
        r.0@ == parse_field(s@.skip(i as int)).0,
        r.1 - i == parse_field(s@.skip(i as int)).1,
{
    let ghost whole = s@.skip(i as int);
    if i < s.len() && s[i] == ascii::QUOTE {
        proof {
            assert(whole[0] == s@[i as int]);
            assert(whole.skip(1) =~= s@.skip(i as int + 1));
        }
        let (mut content, j) = parse_quoted_at(s, i + 1);
        proof {
            assert(whole.skip(1 + (j - (i + 1))) =~= s@.skip(j as int));
        }
        let k = scan_unquoted_at(s, j);
        let tail = vstd::slice::slice_subrange(s, j, k);
        crate::json::push_bytes(&mut content, tail);
        proof {
            assert(s@.skip(j as int).take(k - j) =~= s@.subrange(j as int, k as int));
        }
        (content, k)
    } else {
        proof {
            if i < s.len() {
                assert(whole[0] == s@[i as int]);
            }
        }
        let k = scan_unquoted_at(s, i);
        let mut content: Vec<u8> = Vec::new();
        let tail = vstd::slice::slice_subrange(s, i, k);
        crate::json::push_bytes(&mut content, tail);
        proof {
            assert(whole.take(k - i) =~= s@.subrange(i as int, k as int));
            assert(content@ =~= s@.subrange(i as int, k as int));
        }
        (content, k)
    }
}

/// Reads one record starting at `i`; returns its fields and the position
/// of the terminator that ended it (or the end of input).
fn parse_record_at(s: &[u8], i: usize) -> (r: (Vec<Vec<u8>>, usize))
    requires
        i <= s@.len(),
    ensures
        i <= r.1 <= s@.len(),
        raw_fields_model(r.0@) == parse_record(s@.skip(i as int)).0,
        r.1 - i == parse_record(s@.skip(i as int)).1,
    decreases s@.len() - i,
{
    let ghost whole = s@.skip(i as int);
    let mut fields: Vec<Vec<u8>> = Vec::new();
    let mut j = i;
    proof {
        assert(raw_fields_model(fields@) + parse_record(whole).0 =~= parse_record(whole).0);
    }
    loop
        invariant
            i <= j <= s@.len(),
            whole == s@.skip(i as int),
            parse_record(whole).0 == raw_fields_model(fields@) + parse_record(
                s@.skip(j as int),
            ).0,
            parse_record(whole).1 == (j - i) + parse_record(s@.skip(j as int)).1,
        decreases s@.len() - j,
    {
        let ghost before = s@.skip(j as int);
        let (f, k) = parse_field_at(s, j);
        proof {
            lemma_parse_field(before);
        }
        if k < s.len() && s[k] == ascii::COMMA {
            proof {
                assert(before[k - j] == s@[k as int]);
                assert(before.skip((k - j) + 1) =~= s@.skip(k as int + 1));
            }
            let ghost old_fields = fields@;
            fields.push(f);
            proof {
                assert(raw_fields_model(fields@) =~= raw_fields_model(old_fields) + seq![f@]);
                assert(raw_fields_model(fields@) + parse_record(s@.skip(k as int + 1)).0
                    =~= parse_record(whole).0);
            }
            j = k + 1;
        } else {
            proof {
                if k < s.len() {
                    assert(before[k - j] == s@[k as int]);
                }
                assert(parse_record(before).0 == seq![f@]);
                assert(parse_record(before).1 == k - j);
            }
            let ghost old_fields = fields@;
            fields.push(f);
            proof {
                assert(raw_fields_model(fields@) =~= raw_fields_model(old_fields) + seq![f@]);
            }
            return (fields, k);
        }
    }
}

/// Parses a whole input into its records. Every input parses; a run of
/// line breaks separates records and blank lines yield none.
pub fn parse_csv(content: &Vec<u8>) -> (r: Vec<Vec<Vec<u8>>>)
    ensures
        records_model(r@) == parse_records(content@),
{
    let s = content.as_slice();
    let mut out: Vec<Vec<Vec<u8>>> = Vec::new();
    let mut j: usize = 0;
    proof {
        assert(s@.skip(0) =~= s@);
        assert(records_model(out@) + parse_records(s@) =~= parse_records(s@));
    }
    while j < s.len()
        invariant
            j <= s@.len(),
            s@ == content@,
            parse_records(content@) == records_model(out@) + parse_records(s@.skip(j as int)),
        decreases s@.len() - j,
    {
        let b = s[j];
        proof {
            assert(s@.skip(j as int)[0] == s@[j as int]);
        }
        if b == ascii::LF || b == ascii::CR {
            proof {
                assert(s@.skip(j as int).skip(1) =~= s@.skip(j as int + 1));
            }
            j = j + 1;
        } else {
            let ghost before = s@.skip(j as int);
            let (rec, k) = parse_record_at(s, j);
            proof {
                lemma_parse_record(before);
                assert(before.skip(k - j) =~= s@.skip(k as int));
            }
            let ghost old_out = out@;
            out.push(rec);
            proof {
                assert(records_model(out@) =~= records_model(old_out) + seq![
                    raw_fields_model(rec@),
                ]);
                assert(records_model(out@) + parse_records(s@.skip(k as int)) =~= records_model(
                    old_out,
                ) + parse_records(before));
            }
            j = k;
        }
    }
    proof {
        assert(s@.skip(j as int).len() == 0);
        assert(parse_records(s@.skip(j as int)) == Seq::<Seq<Seq<u8>>>::empty());
        assert(records_model(out@) =~= records_model(out@) + Seq::<Seq<Seq<u8>>>::empty());
    }
    out
}

} // verus!
