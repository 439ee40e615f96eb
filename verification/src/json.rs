//! A JSON document tree. Numbers are held in fixed point, in billionths.

use vstd::prelude::*;

verus! {

#[derive(Debug)]
pub enum Json {
    Null,
    Bool(bool),
    /// A number, in billionths (nine decimal places), rounded to the nearest.
    Number(i64),
    Str(String),
    Array(Vec<Json>),
    /// Members in document order; no key occurs twice.
    Object(Vec<(String, Json)>),
}

/// Element `i` of an array; `None` for anything else or out of range.
pub open spec fn at(j: Json, i: int) -> Option<Json> {
    match j {
        Json::Array(v) => if 0 <= i < v.len() {
            Some(v@[i])
        } else {
            None
        },
        _ => None,
    }
}

/// Element `i` of an optional array.
pub open spec fn at_opt(j: Option<Json>, i: int) -> Option<Json> {
    match j {
        Some(v) => at(v, i),
        None => None,
    }
}

/// The text of a string value.
pub open spec fn str_of(j: Option<Json>) -> Option<Seq<char>> {
    match j {
        Some(Json::Str(s)) => Some(s@),
        _ => None,
    }
}

/// The elements of an array value.
pub open spec fn arr_of(j: Option<Json>) -> Option<Seq<Json>> {
    match j {
        Some(Json::Array(v)) => Some(v@),
        _ => None,
    }
}

pub open spec fn opt_deref(o: Option<&Json>) -> Option<Json> {
    match o {
        Some(x) => Some(*x),
        None => None,
    }
}

impl Json {
    /// Element `i` when `self` is an array.
    pub fn get(&self, i: usize) -> (r: Option<&Json>)
        ensures
            opt_deref(r) == at(*self, i as int),
    {
        match self {
            Json::Array(v) => if i < v.len() {
                Some(&v[i])
            } else {
                None
            },
            _ => None,
        }
    }

    /// The text when `self` is a string.
    pub fn as_str(&self) -> (r: Option<&String>)
        ensures
            match r {
                Some(s) => str_of(Some(*self)) == Some(s@),
                None => str_of(Some(*self)) is None,
            },
    {
        match self {
            Json::Str(s) => Some(s),
            _ => None,
        }
    }

    /// The elements when `self` is an array.
    pub fn as_array(&self) -> (r: Option<&Vec<Json>>)
        ensures
            match r {
                Some(v) => arr_of(Some(*self)) == Some(v@),
                None => arr_of(Some(*self)) is None,
            },
    {
        match self {
            Json::Array(v) => Some(v),
            _ => None,
        }
    }
}

/// The string element `i` of an optional value, as `get(i).as_str()`.
pub fn str_at(j: Option<&Json>, i: usize) -> (r: Option<&String>)
    ensures
        match r {
            Some(s) => str_of(at_opt(opt_deref(j), i as int)) == Some(s@),
            None => str_of(at_opt(opt_deref(j), i as int)) is None,
        },
{
    match j {
        Some(v) => match v.get(i) {
            Some(e) => e.as_str(),
            None => None,
        },
        None => None,
    }
}

/// The array element `i` of an optional value, as `get(i).as_array()`.
pub fn array_at(j: Option<&Json>, i: usize) -> (r: Option<&Vec<Json>>)
    ensures
        match r {
            Some(v) => arr_of(at_opt(opt_deref(j), i as int)) == Some(v@),
            None => arr_of(at_opt(opt_deref(j), i as int)) is None,
        },
{
    match j {
        Some(v) => match v.get(i) {
            Some(e) => e.as_array(),
            None => None,
        },
        None => None,
    }
}

} // verus!
