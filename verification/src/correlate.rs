//! The correlator: joins the error records against the name collection on
//! the shared integer key, one output row per error record, in input order.
//! Duplicate keys among name records resolve to the first occurrence.

use vstd::prelude::*;

use crate::digits::decimal_digits;
use crate::digits::usize_to_string;
use crate::record_error::RecordError;
use crate::record_name::RecordName;

verus! {

/// One combined report row: the error record and, when the name collection
/// holds its key, the matched name record.
#[derive(Debug)]
pub struct Output {
    /// The name record sharing the error's key, if any was found.
    pub name: Option<RecordName>,
    /// The error record the row reports.
    pub error: RecordError,
}

impl Output {
    /// A row from its parts.
    pub fn new(name: Option<RecordName>, error: RecordError) -> (r: Self)
        ensures
            r.name == name,
            r.error == error,
    {
        Output { name, error }
    }
}

/// The first name record carrying `key`, if any: first occurrence wins among
/// duplicate keys.
pub open spec fn spec_find_name(names: Seq<RecordName>, key: usize) -> Option<RecordName>
    decreases names.len(),
{
    if names.len() == 0 {
        None
    } else if names[0].record_id == key {
        Some(names[0])
    } else {
        spec_find_name(names.skip(1), key)
    }
}

/// Linear scan for the first name record carrying `key`.
fn find_name(names: &Vec<RecordName>, key: usize) -> (r: Option<RecordName>)
    ensures
        r == spec_find_name(names@, key),
{
    let mut idx: usize = 0;
    proof {
        assert(names@.skip(0) =~= names@);
    }
    while idx < names.len()
        invariant
            idx <= names@.len(),
            spec_find_name(names@, key) == spec_find_name(names@.skip(idx as int), key),
        decreases names@.len() - idx,
    {
        proof {
            assert(names@.skip(idx as int)[0] == names@[idx as int]);
            assert(names@.skip(idx as int).skip(1) =~= names@.skip(idx as int + 1));
        }
        if names[idx].record_id == key {
            let found = names[idx].clone();
            return Some(found);
        }
        idx = idx + 1;
    }
    proof {
        assert(names@.skip(names@.len() as int) =~= Seq::<RecordName>::empty());
    }
    None
}

/// Joins every error record against the name collection on the shared key:
/// exactly one output row per error record, in the errors' input order, its
/// name part the first name record with that key or nothing if none exists.
pub fn match_error_to_name(record_name_data: &Vec<RecordName>, error_data: Vec<RecordError>) -> (out:
    Vec<Output>)
    ensures
        out@.len() == error_data@.len(),
        forall|i: int|
            0 <= i < out@.len() ==> (#[trigger] out@[i]).error == error_data@[i] && out@[i].name
                == spec_find_name(record_name_data@, error_data@[i].record_id),
{
    let ghost orig = error_data@;
    let mut rest = error_data;
    let mut out: Vec<Output> = Vec::new();
    proof {
        assert(rest@ =~= orig.skip(0));
    }
    while rest.len() > 0
        invariant
            out@.len() + rest@.len() == orig.len(),
            rest@ == orig.skip(out@.len() as int),
            forall|i: int|
                0 <= i < out@.len() ==> (#[trigger] out@[i]).error == orig[i] && out@[i].name
                    == spec_find_name(record_name_data@, orig[i].record_id),
        decreases rest@.len(),
    {
        let ghost done = out@.len() as int;
        let error = rest.remove(0);
        proof {
            assert(error == orig[done]);
            assert(rest@ =~= orig.skip(done + 1));
        }
        let name = find_name(record_name_data, error.record_id);
        out.push(Output { name, error });
    }
    out
}

/// The four report columns of one output row: the key, the error text, and
/// the matched first and last names, the name columns left empty when no
/// name record matched.
pub fn output_row(row: &Output) -> (cols: Vec<String>)
    ensures
        cols@.len() == 4,
        cols@[1]@ == row.error.error_text@,
        match row.name {
            Some(name) => {
                &&& cols@[0]@ == decimal_digits(name.record_id as nat)
                &&& cols@[2]@ == name.first_name@
                &&& cols@[3]@ == name.last_name@
            },
            None => {
                &&& cols@[0]@ == decimal_digits(row.error.record_id as nat)
                &&& cols@[2]@ == Seq::<char>::empty()
                &&& cols@[3]@ == Seq::<char>::empty()
            },
        },
{
    let mut cols: Vec<String> = Vec::new();
    match &row.name {
        Some(name) => {
            cols.push(usize_to_string(name.record_id));
            cols.push(row.error.error_text.clone());
            cols.push(name.first_name.clone());
            cols.push(name.last_name.clone());
        },
        None => {
            cols.push(usize_to_string(row.error.record_id));
            cols.push(row.error.error_text.clone());
            cols.push(String::new());
            cols.push(String::new());
        },
    }
    cols
}

} // verus!
