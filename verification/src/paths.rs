//! Output path derivation. A path is a byte sequence whose segments are
//! separated by slashes; empty segments carry no information and are
//! dropped. With no output setting the derived path is the input path with
//! `.json` appended, beside the input. An output that holds a `.json`
//! marker names an explicit file and is used verbatim, but only when
//! exactly one input is processed; otherwise the output is a directory
//! base under which the input's segments are rebuilt.

use vstd::prelude::*;
use crate::ascii;
use crate::csv::raw_fields_model;
use crate::ApplicationOptions;
use crate::ProcessingUnit;

verus! {

/// Length of the path segment that starts `s`: bytes up to a slash or the end.
pub open spec fn scan_segment(s: Seq<u8>) -> int
    decreases s.len(),
{
    if s.len() == 0 || s[0] == ascii::SLASH {
        0
    } else {
        1 + scan_segment(s.skip(1))
    }
}

/// The segment scan never leaves `s` and stops only at a slash or the end.
pub proof fn lemma_scan_segment(s: Seq<u8>)
    ensures
        0 <= scan_segment(s) <= s.len(),
        scan_segment(s) == s.len() || s[scan_segment(s)] == ascii::SLASH,
        s.len() > 0 && s[0] != ascii::SLASH ==> scan_segment(s) >= 1,
    decreases s.len(),
{
    if s.len() == 0 || s[0] == ascii::SLASH {
    } else {
        lemma_scan_segment(s.skip(1));
    }
}

/// The non-empty segments of a path, in order.
pub open spec fn path_segments(s: Seq<u8>) -> Seq<Seq<u8>>
    decreases s.len(),
    via path_segments_dec
{
    if s.len() == 0 {
        Seq::empty()
    } else if s[0] == ascii::SLASH {
        path_segments(s.skip(1))
    } else {
        let m = scan_segment(s);
        seq![s.take(m)] + path_segments(s.skip(m))
    }
}

#[via_fn]
proof fn path_segments_dec(s: Seq<u8>) {
    if s.len() > 0 && s[0] != ascii::SLASH {
        lemma_scan_segment(s);
    }
}

/// A segment appended beneath a base path.
pub open spec fn join_seg(base: Seq<u8>, seg: Seq<u8>) -> Seq<u8> {
    if base.len() == 0 {
        seg
    } else {
        base + seq![ascii::SLASH] + seg
    }
}

/// All the segments appended beneath a base path, in order.
pub open spec fn joined_segments(base: Seq<u8>, segs: Seq<Seq<u8>>) -> Seq<u8>
    decreases segs.len(),
{
    if segs.len() == 0 {
        base
    } else {
        join_seg(joined_segments(base, segs.drop_last()), segs.last())
    }
}

/// The `.json` name extension.
pub open spec fn json_ext() -> Seq<u8> {
    seq![ascii::DOT, ascii::LOWER_J, ascii::LOWER_S, ascii::LOWER_O, ascii::LOWER_N]
}

/// Whether the bytes hold a `.json` marker anywhere.
pub open spec fn contains_json(s: Seq<u8>) -> bool {
    exists|k: int| 0 <= k && k + 5 <= s.len() && #[trigger] s.subrange(k, k + 5) == json_ext()
}

/// Model of an optional byte vector.
pub open spec fn opt_bytes(o: Option<Vec<u8>>) -> Option<Seq<u8>> {
    match o {
        Some(v) => Some(v@),
        None => None,
    }
}

/// The derived output path for one input. With no output setting, the
/// input path with `.json` appended. With an output that holds a `.json`
/// marker, while a single input is processed, the output verbatim.
/// Otherwise the output is a directory base: the input's segments but the
/// last are rebuilt beneath it and the last segment gains `.json`.
pub open spec fn derived_output(output: Option<Seq<u8>>, input: Seq<u8>, single: bool) -> Seq<u8>
    recommends
        (match output {
            Some(o) => !(contains_json(o) && single) ==> path_segments(input).len() > 0,
            None => true,
        }),
{
    match output {
        None => input + json_ext(),
        Some(o) => {
            if contains_json(o) && single {
                o
            } else {
                let segs = path_segments(input);
                join_seg(joined_segments(o, segs.drop_last()), segs.last() + json_ext())
            }
        },
    }
}

/// The directory part of a path: the bytes before the last slash, or
/// nothing where no slash stands.
pub open spec fn dir_part(p: Seq<u8>) -> Seq<u8>
    decreases p.len(),
{
    if p.len() == 0 {
        Seq::empty()
    } else if p.last() == ascii::SLASH {
        p.drop_last()
    } else {
        dir_part(p.drop_last())
    }
}

/// Deriving the output path is a pure function of its inputs: two
/// derivations for the same pair agree, so a repeated derivation is
/// harmless.
pub proof fn lemma_derivation_repeatable(
    output: Option<Seq<u8>>,
    input: Seq<u8>,
    single: bool,
    r1: Seq<u8>,
    r2: Seq<u8>,
)
    requires
        r1 == derived_output(output, input, single),
        r2 == derived_output(output, input, single),
    ensures
        r1 == r2,
{
}

/// Splits a path into its non-empty segments.
pub fn split_segments(p: &Vec<u8>) -> (r: Vec<Vec<u8>>)
    ensures
        raw_fields_model(r@) == path_segments(p@),
{
    let s = p.as_slice();
    let mut out: Vec<Vec<u8>> = Vec::new();
    let mut j: usize = 0;
    proof {
        assert(s@.skip(0) =~= s@);
        assert(raw_fields_model(out@) + path_segments(s@) =~= path_segments(s@));
    }
    while j < s.len()
        invariant
            j <= s@.len(),
            s@ == p@,
            path_segments(p@) == raw_fields_model(out@) + path_segments(s@.skip(j as int)),
        decreases s@.len() - j,
    {
        proof {
            assert(s@.skip(j as int)[0] == s@[j as int]);
        }
        if s[j] == ascii::SLASH {
            proof {
                assert(s@.skip(j as int).skip(1) =~= s@.skip(j as int + 1));
            }
            j = j + 1;
        } else {
            let ghost before = s@.skip(j as int);
            let mut k = j;
            while k < s.len() && s[k] != ascii::SLASH
                invariant
                    j <= k <= s@.len(),
                    scan_segment(s@.skip(j as int)) == (k - j) + scan_segment(s@.skip(k as int)),
                decreases s@.len() - k,
            {
                proof {
                    assert(s@.skip(k as int)[0] == s@[k as int]);
                    assert(s@.skip(k as int).skip(1) =~= s@.skip(k as int + 1));
                }
                k = k + 1;
            }
            proof {
                if k < s.len() {
                    assert(s@.skip(k as int)[0] == s@[k as int]);
                }
                assert(scan_segment(s@.skip(k as int)) == 0);
                lemma_scan_segment(before);
            }
            let seg_slice = vstd::slice::slice_subrange(s, j, k);
            let mut seg: Vec<u8> = Vec::new();
            crate::json::push_bytes(&mut seg, seg_slice);
            let ghost old_out = out@;
            out.push(seg);
            proof {
                assert(seg@ =~= before.take(k - j));
                assert(before.skip(k - j) =~= s@.skip(k as int));
                assert(raw_fields_model(out@) =~= raw_fields_model(old_out) + seq![seg@]);
                assert(raw_fields_model(out@) + path_segments(s@.skip(k as int))
                    =~= raw_fields_model(old_out) + path_segments(before));
            }
            j = k;
        }
    }
    proof {
        assert(s@.skip(j as int).len() == 0);
        assert(path_segments(s@.skip(j as int)) == Seq::<Seq<u8>>::empty());
        assert(raw_fields_model(out@) =~= raw_fields_model(out@) + Seq::<Seq<u8>>::empty());
    }
    out
}

/// Appends a segment beneath a base path.
fn join_push(base: &mut Vec<u8>, seg: &Vec<u8>)
    ensures
        final(base)@ == join_seg(old(base)@, seg@),
{
    if base.len() > 0 {
        base.push(ascii::SLASH);
    }
    crate::json::push_bytes(base, seg.as_slice());
    proof {
        assert(final(base)@ =~= join_seg(old(base)@, seg@));
    }
}

/// Decides whether the bytes hold a `.json` marker anywhere.
pub fn has_json_marker(s: &Vec<u8>) -> (r: bool)
    ensures
        r == contains_json(s@),
{
    if s.len() < 5 {
        return false;
    }
    let mut k: usize = 0;
    while k <= s.len() - 5
        invariant
            5 <= s@.len(),
            k <= s@.len() - 4,
            forall|q: int| 0 <= q < k ==> #[trigger] s@.subrange(q, q + 5) != json_ext(),
        decreases s@.len() - k,
    {
        if s[k] == ascii::DOT && s[k + 1] == ascii::LOWER_J && s[k + 2] == ascii::LOWER_S && s[k
            + 3] == ascii::LOWER_O && s[k + 4] == ascii::LOWER_N {
            proof {
                assert(s@.subrange(k as int, k as int + 5) =~= json_ext());
            }
            return true;
        }
        proof {
            assert(s@.subrange(k as int, k as int + 5)[0] == s@[k as int]);
            assert(s@.subrange(k as int, k as int + 5)[1] == s@[k as int + 1]);
            assert(s@.subrange(k as int, k as int + 5)[2] == s@[k as int + 2]);
            assert(s@.subrange(k as int, k as int + 5)[3] == s@[k as int + 3]);
            assert(s@.subrange(k as int, k as int + 5)[4] == s@[k as int + 4]);
            assert(s@.subrange(k as int, k as int + 5) != json_ext());
        }
        k = k + 1;
    }
    proof {
        assert(forall|q: int|
            0 <= q && q + 5 <= s@.len() ==> #[trigger] s@.subrange(q, q + 5) != json_ext());
    }
    false
}

/// Derives the output path for one input under the output setting;
/// `single` says whether exactly one input is being processed.
pub fn build_output_path(output: &Option<Vec<u8>>, input: &Vec<u8>, single: bool) -> (r: Vec<u8>)
    requires
        (match *output {
            Some(o) => !(contains_json(o@) && single) ==> path_segments(input@).len() > 0,
            None => true,
        }),
    ensures
        r@ == derived_output(opt_bytes(*output), input@, single),
{
    match output {
        None => {
            let mut r = crate::copy_bytes(input);
            r.push(ascii::DOT);
            r.push(ascii::LOWER_J);
            r.push(ascii::LOWER_S);
            r.push(ascii::LOWER_O);
            r.push(ascii::LOWER_N);
            proof {
                assert(r@ =~= input@ + json_ext());
            }
            r
        },
        Some(o) => {
            if single && has_json_marker(o) {
                crate::copy_bytes(o)
            } else {
                let segs = split_segments(input);
                let ghost sm = path_segments(input@);
                let mut dir = crate::copy_bytes(o);
                let mut i: usize = 0;
                proof {
                    assert(sm.len() == segs@.len());
                    assert(sm.len() >= 1);
                    assert(sm.take(0) =~= Seq::<Seq<u8>>::empty());
                    assert(joined_segments(o@, sm.take(0)) == o@);
                }
                while i < segs.len() - 1
                    invariant
                        segs@.len() >= 1,
                        i < segs@.len(),
                        sm == path_segments(input@),
                        sm == raw_fields_model(segs@),
                        dir@ == joined_segments(o@, sm.take(i as int)),
                    decreases segs@.len() - i,
                {
                    join_push(&mut dir, &segs[i]);
                    proof {
                        assert(sm.take(i + 1).drop_last() =~= sm.take(i as int));
                        assert(sm.take(i + 1).last() == sm[i as int]);
                        assert(sm[i as int] == segs@[i as int]@);
                    }
                    i = i + 1;
                }
                let mut name = crate::copy_bytes(&segs[segs.len() - 1]);
                name.push(ascii::DOT);
                name.push(ascii::LOWER_J);
                name.push(ascii::LOWER_S);
                name.push(ascii::LOWER_O);
                name.push(ascii::LOWER_N);
                join_push(&mut dir, &name);
                proof {
                    assert(sm.take(sm.len() - 1) =~= sm.drop_last());
                    assert(name@ =~= sm.last() + json_ext());
                }
                dir
            }
        },
    }
}

/// The directory part of a derived path, for the caller that creates it.
pub fn parent_dir(p: &Vec<u8>) -> (r: Vec<u8>)
    ensures
        r@ == dir_part(p@),
{
    let s = p.as_slice();
    let mut end = p.len();
    proof {
        assert(p@.take(p@.len() as int) =~= p@);
    }
    while end > 0 && s[end - 1] != ascii::SLASH
        invariant
            end <= s@.len(),
            s@ == p@,
            dir_part(p@) == dir_part(p@.take(end as int)),
        decreases end,
    {
        proof {
            assert(p@.take(end as int).last() == p@[end - 1]);
            assert(p@.take(end as int).drop_last() =~= p@.take(end - 1));
        }
        end = end - 1;
    }
    let mut r: Vec<u8> = Vec::new();
    if end > 0 {
        let front = vstd::slice::slice_subrange(s, 0, end - 1);
        crate::json::push_bytes(&mut r, front);
        proof {
            assert(p@.take(end as int).last() == p@[end - 1]);
            assert(p@.take(end as int).drop_last() =~= p@.take(end - 1));
            assert(r@ =~= p@.subrange(0, end - 1));
            assert(p@.take(end - 1) =~= p@.subrange(0, end - 1));
        }
    } else {
        proof {
            assert(p@.take(0).len() == 0);
        }
    }
    r
}

/// Model of a processing unit.
pub ghost struct UnitModel {
    pub input: Seq<u8>,
    pub output: Seq<u8>,
}

impl View for ProcessingUnit {
    type V = UnitModel;

    open spec fn view(&self) -> UnitModel {
        UnitModel { input: self.input@, output: self.output@ }
    }
}

/// What collecting the units requires of the resolved inputs: wherever a
/// directory base is in play, every input must hold a segment.
pub open spec fn inputs_splittable(opts: ApplicationOptions, inputs: Seq<Vec<u8>>) -> bool {
    match opts.output {
        Some(o) => (!(contains_json(o@) && inputs.len() == 1) ==> forall|k: int|
            0 <= k < inputs.len() ==> path_segments(inputs[k]@).len() > 0),
        None => true,
    }
}

/// The output path of unit `k` among the resolved inputs.
pub open spec fn unit_output(opts: ApplicationOptions, inputs: Seq<Vec<u8>>, k: int) -> Seq<u8> {
    derived_output(opt_bytes(opts.output), inputs[k]@, inputs.len() == 1)
}

/// Builds one processing unit per resolved input, pairing it with its
/// derived output path.
pub fn collect_files(resolved: &Vec<Vec<u8>>, options: &ApplicationOptions) -> (r: Vec<
    ProcessingUnit,
>)
    requires
        inputs_splittable(*options, resolved@),
    ensures
        r@.len() == resolved@.len(),
        forall|k: int| 0 <= k < r@.len() ==> (#[trigger] r@[k])@.input == resolved@[k]@,
        forall|k: int|
            0 <= k < r@.len() ==> (#[trigger] r@[k])@.output == unit_output(
                *options,
                resolved@,
                k,
            ),
{
    let single = resolved.len() == 1;
    let mut out: Vec<ProcessingUnit> = Vec::new();
    let mut i: usize = 0;
    while i < resolved.len()
        invariant
            i <= resolved@.len(),
            single == (resolved@.len() == 1),
            inputs_splittable(*options, resolved@),
            out@.len() == i,
            forall|k: int| 0 <= k < i ==> (#[trigger] out@[k])@.input == resolved@[k]@,
            forall|k: int|
                0 <= k < i ==> (#[trigger] out@[k])@.output == unit_output(*options, resolved@, k),
        decreases resolved@.len() - i,
    {
        let input = crate::copy_bytes(&resolved[i]);
        let output = build_output_path(&options.output, &resolved[i], single);
        out.push(ProcessingUnit { input, output });
        i = i + 1;
    }
    out
}

} // verus!
