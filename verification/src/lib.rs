//! Conversion of comma-separated tabular data to JSON arrays.
//!
//! The library works on raw bytes throughout: input files, header names,
//! field values, derived paths and the rendered JSON are all byte
//! sequences, so the logic is independent of any platform string type.

pub mod ascii;
pub mod convert;
pub mod csv;
pub mod json;
pub mod laws;
pub mod numbers;
pub mod paths;
pub mod translate;
pub mod wildcard;

use vstd::prelude::*;

verus! {

/// The validated configuration the conversion pipeline runs under.
///
/// `input` holds the glob patterns still to be expanded by the caller;
/// the other fields steer path derivation and field translation.
#[derive(Clone, Debug)]
pub struct ApplicationOptions {
    /// Input file patterns to process.
    pub input: Vec<Vec<u8>>,
    /// Output file or directory, if one was named.
    pub output: Option<Vec<u8>>,
    /// Wildcard patterns selecting header names whose fields become numbers.
    pub numeric_fields: Option<Vec<Vec<u8>>>,
    /// Attempt a numeric parse on every field, overriding `numeric_fields`.
    pub auto_numbers: bool,
    /// Pretty print the JSON output.
    pub pretty_print: bool,
}

impl Default for ApplicationOptions {
    /// One empty input pattern, no output, no numeric inference, compact output.
    fn default() -> (r: Self)
        ensures
            r.input@.len() == 1,
            r.input@[0]@ == Seq::<u8>::empty(),
            r.output is None,
            r.numeric_fields is None,
            !r.auto_numbers,
            !r.pretty_print,
    {
        ApplicationOptions {
            input: vec![Vec::new()],
            output: None,
            numeric_fields: None,
            auto_numbers: false,
            pretty_print: false,
        }
    }
}

/// Copies a byte vector.
pub fn copy_bytes(v: &Vec<u8>) -> (r: Vec<u8>)
    ensures
        r@ == v@,
{
    let mut r: Vec<u8> = Vec::new();
    crate::json::push_bytes(&mut r, v.as_slice());
    proof {
        assert(r@ =~= v@);
    }
    r
}

/// One resolved input file paired with its derived output destination.
#[derive(Clone, Debug)]
pub struct ProcessingUnit {
    pub input: Vec<u8>,
    pub output: Vec<u8>,
}

} // verus!
