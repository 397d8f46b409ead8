//! A settings document as a tree of values, and typed reads of an object's
//! members. Reading a member distinguishes three outcomes: absent, present
//! with a value of the expected kind, and present but malformed.
use vstd::prelude::*;
use crate::fixed::{Fixed, FIXED_ONE};

verus! {

/// A value of a settings document. Numbers with a fraction are held in
/// fixed point (see `crate::fixed`).
#[derive(Debug)]
pub enum Doc {
    Null,
    Bool(bool),
    Int(i64),
    Real(Fixed),
    Str(String),
    List(Vec<Doc>),
    Object(Vec<Member>),
}

/// A named member of an object.
#[derive(Debug)]
pub struct Member {
    pub key: String,
    pub value: Doc,
}

/// Why a settings document cannot be loaded.
#[derive(Clone, Copy, PartialEq, Eq, Structural, Debug)]
pub enum ConfigError {
    /// A value of the wrong kind or out of range, a missing top-level
    /// section, or a top-level section that the settings tree does not have.
    Malformed,
}

/// The value of the first member named `key`.
pub open spec fn member(ms: Seq<Member>, key: Seq<char>) -> Option<Doc>
    decreases ms.len(),
{
    if ms.len() == 0 {
        None
    } else if ms[0].key@ == key {
        Some(ms[0].value)
    } else {
        member(ms.drop_first(), key)
    }
}

/// The value of the first member named `key`.
pub fn find_member<'a>(ms: &'a Vec<Member>, key: &str) -> (r: Option<&'a Doc>)
    ensures
        match member(ms@, key@) {
            Some(d) => r == Some(&d),
            None => r is None,
        },
{
    let k = String::from_str(key);
    let mut i: usize = 0;
    assert(ms@.subrange(0, ms@.len() as int) =~= ms@);
    while i < ms.len()
        invariant
            i <= ms@.len(),
            k@ == key@,
            member(ms@, key@) == member(ms@.subrange(i as int, ms@.len() as int), key@),
        decreases ms@.len() - i,
    {
        assert(ms@.subrange(i as int, ms@.len() as int).drop_first() =~= ms@.subrange(
            i + 1,
            ms@.len() as int,
        ));
        if ms[i].key == k {
            return Some(&ms[i].value);
        }
        i += 1;
    }
    None
}

/// A whole number in `lo..=hi`: absent, present, or malformed (`None`).
pub open spec fn int_at(ms: Seq<Member>, key: Seq<char>, lo: int, hi: int) -> Option<Option<int>> {
    match member(ms, key) {
        None => Some(None),
        Some(Doc::Int(v)) => if lo <= v <= hi {
            Some(Some(v as int))
        } else {
            None
        },
        _ => None,
    }
}

/// An optional whole number in `lo..=hi`; `null` counts as absent.
pub open spec fn opt_int_at(ms: Seq<Member>, key: Seq<char>, lo: int, hi: int) -> Option<Option<int>> {
    match member(ms, key) {
        Some(Doc::Null) => Some(None),
        _ => int_at(ms, key, lo, hi),
    }
}

/// A fixed-point number: a whole number, or a number with a fraction.
pub open spec fn fixed_at(ms: Seq<Member>, key: Seq<char>) -> Option<Option<Fixed>> {
    match member(ms, key) {
        None => Some(None),
        Some(Doc::Real(v)) => Some(Some(v)),
        Some(Doc::Int(v)) => if -9_000_000_000_000 <= v <= 9_000_000_000_000 {
            Some(Some((v * FIXED_ONE) as i64))
        } else {
            None
        },
        _ => None,
    }
}

/// An optional fixed-point number; `null` counts as absent.
pub open spec fn opt_fixed_at(ms: Seq<Member>, key: Seq<char>) -> Option<Option<Fixed>> {
    match member(ms, key) {
        Some(Doc::Null) => Some(None),
        _ => fixed_at(ms, key),
    }
}

/// A flag.
pub open spec fn bool_at(ms: Seq<Member>, key: Seq<char>) -> Option<Option<bool>> {
    match member(ms, key) {
        None => Some(None),
        Some(Doc::Bool(b)) => Some(Some(b)),
        _ => None,
    }
}

/// An optional flag; `null` counts as absent.
pub open spec fn opt_bool_at(ms: Seq<Member>, key: Seq<char>) -> Option<Option<bool>> {
    match member(ms, key) {
        Some(Doc::Null) => Some(None),
        _ => bool_at(ms, key),
    }
}

/// A string.
pub open spec fn str_at(ms: Seq<Member>, key: Seq<char>) -> Option<Option<Seq<char>>> {
    match member(ms, key) {
        None => Some(None),
        Some(Doc::Str(s)) => Some(Some(s@)),
        _ => None,
    }
}

/// An optional string; `null` counts as absent.
pub open spec fn opt_str_at(ms: Seq<Member>, key: Seq<char>) -> Option<Option<Seq<char>>> {
    match member(ms, key) {
        Some(Doc::Null) => Some(None),
        _ => str_at(ms, key),
    }
}

/// Every element of the list is a string.
pub open spec fn all_strings(ds: Seq<Doc>) -> bool {
    forall|i: int| 0 <= i < ds.len() ==> (#[trigger] ds[i]) is Str
}

/// The strings of a list of strings.
pub open spec fn strings_of(ds: Seq<Doc>) -> Seq<Seq<char>> {
    ds.map_values(|d: Doc| d->Str_0@)
}

/// A list of strings.
pub open spec fn str_list_at(ms: Seq<Member>, key: Seq<char>) -> Option<Option<Seq<Seq<char>>>> {
    match member(ms, key) {
        None => Some(None),
        Some(Doc::List(ds)) => if all_strings(ds@) {
            Some(Some(strings_of(ds@)))
        } else {
            None
        },
        _ => None,
    }
}

/// An optional list of strings; `null` counts as absent.
pub open spec fn opt_str_list_at(ms: Seq<Member>, key: Seq<char>) -> Option<Option<Seq<Seq<char>>>> {
    match member(ms, key) {
        Some(Doc::Null) => Some(None),
        _ => str_list_at(ms, key),
    }
}

/// A nested section: the members of an object.
pub open spec fn section_at(ms: Seq<Member>, key: Seq<char>) -> Option<Option<Seq<Member>>> {
    match member(ms, key) {
        None => Some(None),
        Some(Doc::Object(f)) => Some(Some(f@)),
        _ => None,
    }
}

/// The characters of each string.
pub open spec fn strings_view(v: Seq<String>) -> Seq<Seq<char>> {
    v.map_values(|s: String| s@)
}

/// The characters of each string of an optional list.
pub open spec fn opt_strings_view(o: Option<Vec<String>>) -> Option<Seq<Seq<char>>> {
    match o {
        Some(v) => Some(strings_view(v@)),
        None => None,
    }
}

/// The characters of an optional string.
pub open spec fn opt_chars(o: Option<String>) -> Option<Seq<char>> {
    match o {
        Some(s) => Some(s@),
        None => None,
    }
}

/// Reads a whole number in `lo..=hi`.
pub fn read_int(ms: &Vec<Member>, key: &str, lo: i64, hi: i64) -> (r: Result<Option<i64>, ConfigError>)
    ensures
        match int_at(ms@, key@, lo as int, hi as int) {
            None => r == Err::<Option<i64>, ConfigError>(ConfigError::Malformed),
            Some(None) => r == Ok::<Option<i64>, ConfigError>(None),
            Some(Some(v)) => r == Ok::<Option<i64>, ConfigError>(Some(v as i64)),
        },
{
    match find_member(ms, key) {
        None => Ok(None),
        Some(Doc::Int(v)) => if lo <= *v && *v <= hi {
            Ok(Some(*v))
        } else {
            Err(ConfigError::Malformed)
        },
        Some(_) => Err(ConfigError::Malformed),
    }
}

/// Reads an optional whole number in `lo..=hi`.
pub fn read_opt_int(ms: &Vec<Member>, key: &str, lo: i64, hi: i64) -> (r: Result<Option<i64>, ConfigError>)
    ensures
        match opt_int_at(ms@, key@, lo as int, hi as int) {
            None => r == Err::<Option<i64>, ConfigError>(ConfigError::Malformed),
            Some(None) => r == Ok::<Option<i64>, ConfigError>(None),
            Some(Some(v)) => r == Ok::<Option<i64>, ConfigError>(Some(v as i64)),
        },
{
    match find_member(ms, key) {
        Some(Doc::Null) => Ok(None),
        _ => read_int(ms, key, lo, hi),
    }
}

/// Reads a fixed-point number.
pub fn read_fixed(ms: &Vec<Member>, key: &str) -> (r: Result<Option<Fixed>, ConfigError>)
    ensures
        match fixed_at(ms@, key@) {
            None => r == Err::<Option<Fixed>, ConfigError>(ConfigError::Malformed),
            Some(o) => r == Ok::<Option<Fixed>, ConfigError>(o),
        },
{
    match find_member(ms, key) {
        None => Ok(None),
        Some(Doc::Real(v)) => Ok(Some(*v)),
        Some(Doc::Int(v)) => if -9_000_000_000_000 <= *v && *v <= 9_000_000_000_000 {
            Ok(Some(*v * FIXED_ONE))
        } else {
            Err(ConfigError::Malformed)
        },
        Some(_) => Err(ConfigError::Malformed),
    }
}

/// Reads an optional fixed-point number.
pub fn read_opt_fixed(ms: &Vec<Member>, key: &str) -> (r: Result<Option<Fixed>, ConfigError>)
    ensures
        match opt_fixed_at(ms@, key@) {
            None => r == Err::<Option<Fixed>, ConfigError>(ConfigError::Malformed),
            Some(o) => r == Ok::<Option<Fixed>, ConfigError>(o),
        },
{
    match find_member(ms, key) {
        Some(Doc::Null) => Ok(None),
        _ => read_fixed(ms, key),
    }
}

/// Reads a flag.
pub fn read_bool(ms: &Vec<Member>, key: &str) -> (r: Result<Option<bool>, ConfigError>)
    ensures
        match bool_at(ms@, key@) {
            None => r == Err::<Option<bool>, ConfigError>(ConfigError::Malformed),
            Some(o) => r == Ok::<Option<bool>, ConfigError>(o),
        },
{
    match find_member(ms, key) {
        None => Ok(None),
        Some(Doc::Bool(b)) => Ok(Some(*b)),
        Some(_) => Err(ConfigError::Malformed),
    }
}

/// Reads an optional flag.
pub fn read_opt_bool(ms: &Vec<Member>, key: &str) -> (r: Result<Option<bool>, ConfigError>)
    ensures
        match opt_bool_at(ms@, key@) {
            None => r == Err::<Option<bool>, ConfigError>(ConfigError::Malformed),
            Some(o) => r == Ok::<Option<bool>, ConfigError>(o),
        },
{
    match find_member(ms, key) {
        Some(Doc::Null) => Ok(None),
        _ => read_bool(ms, key),
    }
}

/// Reads a string.
pub fn read_str(ms: &Vec<Member>, key: &str) -> (r: Result<Option<String>, ConfigError>)
    ensures
        match str_at(ms@, key@) {
            None => r == Err::<Option<String>, ConfigError>(ConfigError::Malformed),
            Some(o) => r matches Ok(v) && opt_chars(v) == o,
        },
{
    match find_member(ms, key) {
        None => Ok(None),
        Some(Doc::Str(s)) => Ok(Some(s.clone())),
        Some(_) => Err(ConfigError::Malformed),
    }
}

/// Reads an optional string.
pub fn read_opt_str(ms: &Vec<Member>, key: &str) -> (r: Result<Option<String>, ConfigError>)
    ensures
        match opt_str_at(ms@, key@) {
            None => r == Err::<Option<String>, ConfigError>(ConfigError::Malformed),
            Some(o) => r matches Ok(v) && opt_chars(v) == o,
        },
{
    match find_member(ms, key) {
        Some(Doc::Null) => Ok(None),
        _ => read_str(ms, key),
    }
}

fn strings_in(ds: &Vec<Doc>) -> (r: Option<Vec<String>>)
    ensures
        r is Some <==> all_strings(ds@),
        r matches Some(v) ==> strings_view(v@) == strings_of(ds@),
{
    let mut out: Vec<String> = Vec::new();
    let mut i: usize = 0;
    while i < ds.len()
        invariant
            i <= ds@.len(),
            out@.len() == i,
            forall|k: int| 0 <= k < i ==> (#[trigger] ds@[k]) is Str && out@[k]@ == ds@[k]->Str_0@,
        decreases ds@.len() - i,
    {
        match &ds[i] {
            Doc::Str(s) => out.push(s.clone()),
            _ => {
                assert(!(ds@[i as int] is Str));
                return None;
            },
        }
        i += 1;
    }
    assert(strings_view(out@) =~= strings_of(ds@));
    Some(out)
}

/// Reads a list of strings.
pub fn read_str_list(ms: &Vec<Member>, key: &str) -> (r: Result<Option<Vec<String>>, ConfigError>)
    ensures
        match str_list_at(ms@, key@) {
            None => r == Err::<Option<Vec<String>>, ConfigError>(ConfigError::Malformed),
            Some(o) => r matches Ok(v) && opt_strings_view(v) == o,
        },
{
    match find_member(ms, key) {
        None => Ok(None),
        Some(Doc::List(ds)) => match strings_in(ds) {
            Some(v) => Ok(Some(v)),
            None => Err(ConfigError::Malformed),
        },
        Some(_) => Err(ConfigError::Malformed),
    }
}

/// Reads an optional list of strings.
pub fn read_opt_str_list(ms: &Vec<Member>, key: &str) -> (r: Result<Option<Vec<String>>, ConfigError>)
    ensures
        match opt_str_list_at(ms@, key@) {
            None => r == Err::<Option<Vec<String>>, ConfigError>(ConfigError::Malformed),
            Some(o) => r matches Ok(v) && opt_strings_view(v) == o,
        },
{
    match find_member(ms, key) {
        Some(Doc::Null) => Ok(None),
        _ => read_str_list(ms, key),
    }
}

/// Reads a nested section.
pub fn read_section<'a>(ms: &'a Vec<Member>, key: &str) -> (r: Result<Option<&'a Vec<Member>>, ConfigError>)
    ensures
        match section_at(ms@, key@) {
            None => r == Err::<Option<&Vec<Member>>, ConfigError>(ConfigError::Malformed),
            Some(None) => r == Ok::<Option<&Vec<Member>>, ConfigError>(None),
            Some(Some(f)) => r matches Ok(Some(v)) && v@ == f,
        },
{
    match find_member(ms, key) {
        None => Ok(None),
        Some(Doc::Object(f)) => Ok(Some(f)),
        Some(_) => Err(ConfigError::Malformed),
    }
}

} // verus!
