//! The per-file conversion pipeline, and the aggregation of per-unit
//! outcomes into one batch result.
//!
//! Row and output errors that only input/output channels can raise are
//! detected by the caller that owns those channels; the verified parser
//! accepts every byte sequence and the verified serializer cannot emit an
//! invalid row, so no variant stands for a malformed row or a broken
//! serialization.

use vstd::prelude::*;
use crate::ApplicationOptions;
use crate::csv::{parse_csv, parse_records, records_model};
use crate::json::{array_text, fields_model, object_text, render_array, render_object, rows_model};
use crate::translate::{convert_line, row_fields_model};

verus! {

/// Why one processing unit failed.
#[derive(Clone, Copy, Debug, PartialEq, Eq, Structural)]
pub enum ErrorKind {
    /// The unit's input vanished between discovery and open.
    InputNotFound,
    /// The input held no header record, so no row can be translated.
    HeaderRead,
    /// The output could not be created or written.
    OutputWrite,
}

/// The rendered objects of all data rows: the first record is the header,
/// each later record is translated against it and serialized.
pub open spec fn objects_model(opts: ApplicationOptions, recs: Seq<Seq<Seq<u8>>>) -> Seq<Seq<u8>>
    recommends
        recs.len() >= 1,
{
    Seq::new(
        (recs.len() - 1) as nat,
        |i: int| object_text(row_fields_model(opts, recs[0], recs[i + 1]), opts.pretty_print),
    )
}

/// The whole JSON array one input converts to.
pub open spec fn converted_model(content: Seq<u8>, opts: ApplicationOptions) -> Seq<u8>
    recommends
        parse_records(content).len() >= 1,
{
    array_text(objects_model(opts, parse_records(content)))
}

/// Converts one input's bytes to the bytes of its JSON array. Succeeds if
/// and only if the input holds a header record; every record after the
/// header becomes one object of the array.
pub fn convert_content(content: &Vec<u8>, options: &ApplicationOptions) -> (r: Result<
    Vec<u8>,
    ErrorKind,
>)
    ensures
        r is Ok <==> parse_records(content@).len() >= 1,
        r is Ok ==> r->Ok_0@ == converted_model(content@, *options),
        r is Err ==> r->Err_0 == ErrorKind::HeaderRead,
{
    let records = parse_csv(content);
    proof {
        assert(records_model(records@).len() == records@.len());
    }
    if records.len() == 0 {
        return Err(ErrorKind::HeaderRead);
    }
    let ghost recs = parse_records(content@);
    let ghost objs = objects_model(*options, recs);
    let mut rendered: Vec<Vec<u8>> = Vec::new();
    let mut i: usize = 1;
    while i < records.len()
        invariant
            1 <= i <= records@.len(),
            records_model(records@) == recs,
            recs.len() == records@.len(),
            objs == objects_model(*options, recs),
            objs.len() == recs.len() - 1,
            rendered@.len() == i - 1,
            forall|k: int| 0 <= k < i - 1 ==> (#[trigger] rendered@[k])@ == objs[k],
        decreases records@.len() - i,
    {
        let fields = convert_line(&records[0], &records[i], options);
        let obj = render_object(&fields, options.pretty_print);
        proof {
            assert(recs[0] == crate::csv::raw_fields_model(records@[0]@));
            assert(recs[i as int] == crate::csv::raw_fields_model(records@[i as int]@));
            assert(fields_model(fields@) == row_fields_model(*options, recs[0], recs[i as int]));
            assert(obj@ == objs[i - 1]);
        }
        rendered.push(obj);
        i = i + 1;
    }
    let out = render_array(&rendered);
    proof {
        assert(rows_model(rendered@) =~= objs);
    }
    Ok(out)
}

/// Whether the batch writes its one array to standard output: that holds
/// exactly when no destination is configured and exactly one unit
/// resolved; every other batch writes one file per unit.
pub fn stdout_mode(options: &ApplicationOptions, unit_count: usize) -> (r: bool)
    ensures
        r == (options.output is None && unit_count == 1),
{
    options.output.is_none() && unit_count == 1
}

/// The position of the first failed unit among the outcomes, if any unit
/// failed.
pub fn first_failure(outcomes: &Vec<Option<ErrorKind>>) -> (r: Option<usize>)
    ensures
        r is None <==> (forall|k: int| 0 <= k < outcomes@.len() ==> outcomes@[k] is None),
        r is Some ==> {
            &&& r->0 < outcomes@.len()
            &&& outcomes@[r->0 as int] is Some
            &&& forall|k: int| 0 <= k < r->0 ==> outcomes@[k] is None
        },
{
    let mut i: usize = 0;
    while i < outcomes.len()
        invariant
            i <= outcomes@.len(),
            forall|k: int| 0 <= k < i ==> outcomes@[k] is None,
        decreases outcomes@.len() - i,
    {
        if outcomes[i].is_some() {
            return Some(i);
        }
        i = i + 1;
    }
    None
}

} // verus!
