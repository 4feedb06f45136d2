//! The metadata of a NetCDF file as the header extraction reports it: its
//! dimensions, its variables with their types and dimensions, and selected
//! global attributes.

use vstd::prelude::*;

use crate::convert::common::AttributeValue;
use crate::names::{distinct_names, insert_named, lookup};

verus! {

/// A dimension of a NetCDF file.
#[derive(Debug)]
pub struct Dimension {
    pub name: String,
    pub len: usize,
}

/// A variable of a NetCDF file: its name, the name of its type as the NetCDF
/// library spells it, and the names of its dimensions.
#[derive(Debug)]
pub struct VariableInfo {
    pub name: String,
    pub data_type: String,
    pub dimensions: Vec<String>,
}

/// What the header records of one variable.
#[derive(Debug)]
pub struct VariableMetadata {
    pub data_type: String,
    pub dimensions: Vec<String>,
}

pub open spec fn dimension_entries(dims: Seq<Dimension>) -> Seq<(String, usize)> {
    dims.map_values(|d: Dimension| (d.name, d.len))
}

/// The dimensions as a name -> length map (a later dimension of the same name wins).
pub fn collect_dimensions(dims: &Vec<Dimension>) -> (r: Vec<(String, usize)>)
    ensures
        distinct_names(r@),
        forall|k: Seq<char>| #[trigger] lookup(r@, k) == lookup(dimension_entries(dims@), k),
{
    let mut r: Vec<(String, usize)> = Vec::new();
    let mut i: usize = 0;
    while i < dims.len()
        invariant
            i <= dims.len(),
            distinct_names(r@),
            forall|k: Seq<char>| #[trigger] lookup(r@, k) == lookup(
                dimension_entries(dims@).take(i as int),
                k,
            ),
        decreases dims.len() - i,
    {
        let d = &dims[i];
        insert_named(&mut r, d.name.clone(), d.len);
        proof {
            let e = dimension_entries(dims@);
            assert(e.take(i + 1).drop_last() =~= e.take(i as int));
            assert(e.take(i + 1).last() == (d.name, d.len));
        }
        i = i + 1;
    }
    assert(dimension_entries(dims@).take(i as int) =~= dimension_entries(dims@));
    r
}

pub open spec fn variable_entries(vars: Seq<VariableInfo>) -> Seq<(String, VariableMetadata)> {
    vars.map_values(
        |v: VariableInfo| (v.name, VariableMetadata { data_type: v.data_type, dimensions: v.dimensions }),
    )
}

/// The variables as a name -> metadata map (a later variable of the same name wins).
pub fn collect_variables_and_metadata(vars: Vec<VariableInfo>) -> (r: Vec<(String, VariableMetadata)>)
    ensures
        distinct_names(r@),
        forall|k: Seq<char>| #[trigger] lookup(r@, k) == lookup(variable_entries(vars@), k),
{
    let ghost vs = vars@;
    let n = vars.len();
    let mut r: Vec<(String, VariableMetadata)> = Vec::new();
    let mut i: usize = 0;
    for v in it: vars.into_iter()
        invariant
            i == it.index(),
            it.seq() == vs,
            n == vs.len(),
            distinct_names(r@),
            forall|k: Seq<char>| #[trigger] lookup(r@, k) == lookup(
                variable_entries(vs).take(i as int),
                k,
            ),
    {
        proof {
            let e = variable_entries(vs);
            assert(e.take(i + 1).drop_last() =~= e.take(i as int));
        }
        insert_named(&mut r, v.name, VariableMetadata { data_type: v.data_type, dimensions: v.dimensions });
        i = i + 1;
    }
    assert(variable_entries(vs).take(i as int) =~= variable_entries(vs));
    r
}

/// The first attribute named `k`, if any.
pub open spec fn find_attribute(attrs: Seq<(String, AttributeValue)>, k: Seq<char>) -> Option<AttributeValue>
    decreases attrs.len(),
{
    if attrs.len() == 0 {
        None
    } else if attrs[0].0@ == k {
        Some(attrs[0].1)
    } else {
        find_attribute(attrs.drop_first(), k)
    }
}

/// What the header records of a global attribute: its string value, or `""`
/// when it is missing or not a single string.
pub open spec fn attribute_text(attrs: Seq<(String, AttributeValue)>, k: Seq<char>) -> Seq<char> {
    match find_attribute(attrs, k) {
        Some(AttributeValue::Str(s)) => s@,
        _ => Seq::empty(),
    }
}

/// `attribute_text` of the attribute named `name`.
fn attribute_string(attrs: &Vec<(String, AttributeValue)>, name: &String) -> (r: String)
    ensures
        r@ == attribute_text(attrs@, name@),
{
    let mut i: usize = 0;
    assert(attrs@.skip(0) =~= attrs@);
    while i < attrs.len()
        invariant
            i <= attrs.len(),
            find_attribute(attrs@, name@) == find_attribute(attrs@.skip(i as int), name@),
        decreases attrs.len() - i,
    {
        if attrs[i].0 == *name {
            assert(attrs@.skip(i as int)[0] == attrs@[i as int]);
            return match &attrs[i].1 {
                AttributeValue::Str(s) => s.clone(),
                _ => String::new(),
            };
        }
        assert(attrs@.skip(i as int).drop_first() =~= attrs@.skip(i + 1));
        i = i + 1;
    }
    String::new()
}

/// The requested global attributes as a name -> string map; a missing or
/// non-string attribute records `""`.
pub fn collect_global_attributes(
    attrs: &Vec<(String, AttributeValue)>,
    attr_names: &Vec<String>,
) -> (r: Vec<(String, String)>)
    ensures
        distinct_names(r@),
        forall|k: Seq<char>|
            #[trigger] lookup(r@, k) matches Some(v) ==> v@ == attribute_text(attrs@, k),
        forall|k: Seq<char>|
            (#[trigger] lookup(r@, k) is Some) <==> exists|i: int|
                0 <= i < attr_names.len() && #[trigger] attr_names@[i]@ == k,
{
    let mut r: Vec<(String, String)> = Vec::new();
    let mut i: usize = 0;
    while i < attr_names.len()
        invariant
            i <= attr_names.len(),
            distinct_names(r@),
            forall|k: Seq<char>|
                #[trigger] lookup(r@, k) matches Some(v) ==> v@ == attribute_text(attrs@, k),
            forall|k: Seq<char>|
                (#[trigger] lookup(r@, k) is Some) <==> exists|q: int|
                    0 <= q < i && #[trigger] attr_names@[q]@ == k,
        decreases attr_names.len() - i,
    {
        let name = &attr_names[i];
        let value = attribute_string(attrs, name);
        insert_named(&mut r, name.clone(), value);
        i = i + 1;
        assert forall|k: Seq<char>|
            (exists|q: int| 0 <= q < i && #[trigger] attr_names@[q]@ == k) implies #[trigger] lookup(r@, k) is Some by {
            if k != attr_names@[i - 1]@ {
                let q = choose|q: int| 0 <= q < i && #[trigger] attr_names@[q]@ == k;
                assert(q < i - 1);
            }
        }
        assert forall|k: Seq<char>|
            #[trigger] lookup(r@, k) is Some implies (exists|q: int| 0 <= q < i && #[trigger] attr_names@[q]@ == k) by {
            if k == attr_names@[i - 1]@ {
                assert(attr_names@[i - 1]@ == k);
            }
        }
    }
    r
}

} // verus!
