//! Reading decode parameters: the dictionary that applies to a filter,
//! the PNG predictor settings, and the shared JBIG2 symbol dictionary.

use vstd::prelude::*;
use crate::model::{DecodeParms, GlobalsEntry, ParmDict, ParmEntry};
use crate::text::str_eq;

verus! {

/// The parameter dictionary that applies to the filter at position
/// `index` of the `/Filter` array: the single dictionary, or the array
/// element at `index` (the first element when the array is shorter).
pub open spec fn spec_select_parms(dp: Option<DecodeParms>, index: int) -> Option<ParmDict> {
    match dp {
        Some(DecodeParms::Dict(d)) => Some(d),
        Some(DecodeParms::Array(arr)) => {
            if arr@.len() == 0 {
                None
            } else {
                let e = if 0 <= index < arr@.len() { arr@[index] } else { arr@[0] };
                match e {
                    ParmEntry::Dict(d) => Some(d),
                    ParmEntry::Other => None,
                }
            }
        },
        _ => None,
    }
}

pub fn select_parms(dp: &Option<DecodeParms>, index: usize) -> (r: Option<&ParmDict>)
    ensures
        match spec_select_parms(*dp, index as int) {
            Some(d) => r matches Some(x) && *x == d,
            None => r is None,
        },
{
    match dp {
        Some(DecodeParms::Dict(d)) => Some(d),
        Some(DecodeParms::Array(arr)) => {
            if arr.len() == 0 {
                return None;
            }
            let e = if index < arr.len() { &arr[index] } else { &arr[0] };
            match e {
                ParmEntry::Dict(d) => Some(d),
                ParmEntry::Other => None,
            }
        },
        _ => None,
    }
}

/// An integer entry with its default, cut to 32 bits.
pub open spec fn entry_or(v: Option<i64>, default: i64) -> u32 {
    match v {
        Some(x) => x as u32,
        None => default as u32,
    }
}

fn entry_or_exec(v: Option<i64>, default: i64) -> (r: u32)
    ensures
        r == entry_or(v, default),
{
    match v {
        Some(x) => x as u32,
        None => default as u32,
    }
}

/// `(predictor, colors, bits_per_component, columns)` of the parameters
/// that apply to the filter at `index`, with the PDF defaults 1, 1, 8
/// and 1.
pub open spec fn spec_read_predictor(dp: Option<DecodeParms>, index: int) -> Option<(u32, u32, u32, u32)> {
    match spec_select_parms(dp, index) {
        Some(d) => Some(
            (
                entry_or(d.predictor, 1),
                entry_or(d.colors, 1),
                entry_or(d.bits_per_component, 8),
                entry_or(d.columns, 1),
            ),
        ),
        None => None,
    }
}

pub fn read_predictor(dp: &Option<DecodeParms>, filter_index: usize) -> (r: Option<(u32, u32, u32, u32)>)
    ensures
        r == spec_read_predictor(*dp, filter_index as int),
{
    match select_parms(dp, filter_index) {
        Some(d) => Some(
            (
                entry_or_exec(d.predictor, 1),
                entry_or_exec(d.colors, 1),
                entry_or_exec(d.bits_per_component, 8),
                entry_or_exec(d.columns, 1),
            ),
        ),
        None => None,
    }
}

/// The position of the first of `names`, from `i` on, that reads `name`.
pub open spec fn index_of_name(names: Seq<String>, name: Seq<char>, i: int) -> Option<int>
    decreases names.len() - i,
{
    if i < 0 || i >= names.len() {
        None
    } else if names[i]@ == name {
        Some(i)
    } else {
        index_of_name(names, name, i + 1)
    }
}

/// The first dictionary of `arr`, from `i` on, that has a
/// `/JBIG2Globals` key.
pub open spec fn first_globals_dict(arr: Seq<ParmEntry>, i: int) -> Option<ParmDict>
    decreases arr.len() - i,
{
    if i < 0 || i >= arr.len() {
        None
    } else {
        match arr[i] {
            ParmEntry::Dict(d) => if d.jbig2_globals is Missing {
                first_globals_dict(arr, i + 1)
            } else {
                Some(d)
            },
            ParmEntry::Other => first_globals_dict(arr, i + 1),
        }
    }
}

/// The dictionary of `arr` at the position of the JBIG2 filter.
pub open spec fn parms_at_jbig2_index(filters: Seq<String>, arr: Seq<ParmEntry>) -> Option<ParmDict> {
    match index_of_name(filters, "JBIG2Decode"@, 0) {
        Some(i) => if i < arr.len() {
            match arr[i] {
                ParmEntry::Dict(d) => Some(d),
                ParmEntry::Other => None,
            }
        } else {
            None
        },
        None => None,
    }
}

fn parms_at_index(arr: &Vec<ParmEntry>, idx: Option<usize>) -> (r: Option<&ParmDict>)
    ensures
        match idx {
            Some(i) => if i < arr@.len() {
                match arr@[i as int] {
                    ParmEntry::Dict(d) => r matches Some(x) && *x == d,
                    ParmEntry::Other => r is None,
                }
            } else {
                r is None
            },
            None => r is None,
        },
{
    match idx {
        Some(i) => if i < arr.len() {
            match &arr[i] {
                ParmEntry::Dict(d) => Some(d),
                ParmEntry::Other => None,
            }
        } else {
            None
        },
        None => None,
    }
}

/// The parameter dictionary that names the JBIG2 symbol dictionary: the
/// single dictionary, the array element at the JBIG2 filter's position,
/// or else the first array element that has a `/JBIG2Globals` key.
pub open spec fn spec_jbig2_parms(filters: Seq<String>, dp: Option<DecodeParms>) -> Option<ParmDict> {
    match dp {
        Some(DecodeParms::Dict(d)) => Some(d),
        Some(DecodeParms::Array(arr)) => {
            match parms_at_jbig2_index(filters, arr@) {
                Some(d) => Some(d),
                None => first_globals_dict(arr@, 0),
            }
        },
        _ => None,
    }
}

/// The decompressed `/JBIG2Globals` stream that applies to a JBIG2 image,
/// if there is one.
pub open spec fn spec_jbig2_globals(filters: Option<Vec<String>>, dp: Option<DecodeParms>) -> Option<Seq<u8>> {
    match filters {
        None => None,
        Some(fs) => if index_of_name(fs@, "JBIG2Decode"@, 0) is None {
            None
        } else {
            match spec_jbig2_parms(fs@, dp) {
                Some(d) => match d.jbig2_globals {
                    GlobalsEntry::Reference(Some(bytes)) => Some(bytes@),
                    _ => None,
                },
                None => None,
            }
        },
    }
}

fn index_of_jbig2(names: &Vec<String>) -> (r: Option<usize>)
    ensures
        match r {
            Some(j) => index_of_name(names@, "JBIG2Decode"@, 0) == Some(j as int),
            None => index_of_name(names@, "JBIG2Decode"@, 0) is None,
        },
{
    let mut i: usize = 0;
    while i < names.len()
        invariant
            i <= names.len(),
            index_of_name(names@, "JBIG2Decode"@, 0) == index_of_name(names@, "JBIG2Decode"@, i as int),
        decreases names.len() - i,
    {
        if str_eq(names[i].as_str(), "JBIG2Decode") {
            return Some(i);
        }
        i += 1;
    }
    None
}

fn first_globals(arr: &Vec<ParmEntry>) -> (r: Option<&ParmDict>)
    ensures
        match first_globals_dict(arr@, 0) {
            Some(d) => r matches Some(x) && *x == d,
            None => r is None,
        },
{
    let mut i: usize = 0;
    while i < arr.len()
        invariant
            i <= arr.len(),
            first_globals_dict(arr@, 0) == first_globals_dict(arr@, i as int),
        decreases arr.len() - i,
    {
        match &arr[i] {
            ParmEntry::Dict(d) => {
                match &d.jbig2_globals {
                    GlobalsEntry::Missing => {},
                    _ => {
                        return Some(d);
                    },
                }
            },
            ParmEntry::Other => {},
        }
        i += 1;
    }
    None
}

/// The decompressed shared symbol dictionary (`/JBIG2Globals`) of a JBIG2
/// image; `None` where the image has no JBIG2 filter or names no usable
/// dictionary, in which case decoding goes on without one.
pub fn jbig2_globals(filters: &Option<Vec<String>>, dp: &Option<DecodeParms>) -> (r: Option<Vec<u8>>)
    ensures
        match spec_jbig2_globals(*filters, *dp) {
            Some(g) => r matches Some(v) && v@ == g,
            None => r is None,
        },
{
    let fs = match filters {
        None => {
            return None;
        },
        Some(fs) => fs,
    };
    let jbig2_idx = index_of_jbig2(fs);
    if jbig2_idx.is_none() {
        return None;
    }
    let d: &ParmDict = match dp {
        Some(DecodeParms::Dict(d)) => d,
        Some(DecodeParms::Array(arr)) => {
            let at_index = parms_at_index(arr, jbig2_idx);
            match at_index {
                Some(d) => d,
                None => match first_globals(arr) {
                    Some(d) => d,
                    None => {
                        return None;
                    },
                },
            }
        },
        _ => {
            return None;
        },
    };
    match &d.jbig2_globals {
        GlobalsEntry::Reference(Some(bytes)) => Some(vstd::slice::slice_to_vec(bytes.as_slice())),
        _ => None,
    }
}

} // verus!
