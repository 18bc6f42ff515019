//! A structured document model.
//!
//! Parsed documents are handed to the library as plain values of
//! [`JsonValue`]: strings, booleans, integers (angles arrive as
//! micro-degrees, timestamps as epoch seconds), arrays and objects.  The
//! library's own logic — walking attribute paths and extracting records —
//! is specified and verified over this model.

use vstd::prelude::*;

verus! {

/// A structured value extracted from a parsed document.
#[derive(Debug)]
pub enum JsonValue {
    Null,
    Bool(bool),
    Num(i64),
    Str(String),
    Array(Vec<JsonValue>),
    Object(Vec<(String, JsonValue)>),
}

/// Why a path could not be resolved: a field was absent, or a non-object
/// was reached while fields remained to look up.
#[derive(Clone, Copy, Debug, PartialEq, Eq, Structural)]
pub enum PathErr {
    Missing,
    NotObject,
}

/// The value of the first field with the given name.
pub open spec fn obj_lookup(fields: Seq<(String, JsonValue)>, key: Seq<char>) -> Option<JsonValue>
    decreases fields.len(),
{
    if fields.len() == 0 {
        None
    } else if fields[0].0@ == key {
        Some(fields[0].1)
    } else {
        obj_lookup(fields.drop_first(), key)
    }
}

/// The names of a field path, as character sequences.
pub open spec fn path_view(path: Seq<String>) -> Seq<Seq<char>> {
    path.map_values(|s: String| s@)
}

/// Resolution of a field path against a value: each path segment selects a
/// field of the current object.
pub open spec fn path_lookup(v: JsonValue, path: Seq<Seq<char>>) -> Result<JsonValue, PathErr>
    decreases path.len(),
{
    if path.len() == 0 {
        Ok(v)
    } else {
        match v {
            JsonValue::Object(fields) => match obj_lookup(fields@, path[0]) {
                Some(w) => path_lookup(w, path.drop_first()),
                None => Err(PathErr::Missing),
            },
            _ => Err(PathErr::NotObject),
        }
    }
}

impl JsonValue {
    /// The value of the first field with the given name, if `self` is an
    /// object that has one.
    pub fn get<'a>(&'a self, key: &String) -> (r: Option<&'a JsonValue>)
        ensures
            match *self {
                JsonValue::Object(fields) => match obj_lookup(fields@, key@) {
                    Some(w) => r matches Some(x) && *x == w,
                    None => r is None,
                },
                _ => r is None,
            },
    {
        match self {
            JsonValue::Object(fields) => {
                proof {
                    assert(fields@.skip(0) =~= fields@);
                }
                let n = fields.len();
                for idx in 0..n
                    invariant
                        n == fields.len(),
                        *self == JsonValue::Object(*fields),
                        obj_lookup(fields@, key@) == obj_lookup(fields@.skip(idx as int), key@),
                {
                    proof {
                        assert(fields@.skip(idx as int)[0] == fields@[idx as int]);
                        assert(fields@.skip(idx as int).drop_first() =~= fields@.skip(
                            idx as int + 1,
                        ));
                    }
                    if fields[idx].0 == *key {
                        assert(obj_lookup(fields@.skip(idx as int), key@) == Some(
                            fields@[idx as int].1,
                        ));
                        return Some(&fields[idx].1);
                    }
                }
                None
            },
            _ => None,
        }
    }
}

/// Resolves a field path against a value, step by step.
pub fn lookup_path<'a>(root: &'a JsonValue, path: &Vec<String>) -> (r: Result<
    &'a JsonValue,
    PathErr,
>)
    ensures
        match r {
            Ok(x) => path_lookup(*root, path_view(path@)) == Ok::<JsonValue, PathErr>(*x),
            Err(e) => path_lookup(*root, path_view(path@)) == Err::<JsonValue, PathErr>(e),
        },
{
    let mut cur: &'a JsonValue = root;
    proof {
        assert(path_view(path@).skip(0) =~= path_view(path@));
    }
    let n = path.len();
    for k in 0..n
        invariant
            n == path.len(),
            path_lookup(*root, path_view(path@)) == path_lookup(
                *cur,
                path_view(path@).skip(k as int),
            ),
    {
        proof {
            assert(path_view(path@).skip(k as int)[0] == path@[k as int]@);
            assert(path_view(path@).skip(k as int).drop_first() =~= path_view(path@).skip(
                k as int + 1,
            ));
        }
        match cur {
            JsonValue::Object(_) => {
                match cur.get(&path[k]) {
                    Some(w) => {
                        cur = w;
                    },
                    None => {
                        return Err(PathErr::Missing);
                    },
                }
            },
            _ => {
                return Err(PathErr::NotObject);
            },
        }
    }
    Ok(cur)
}

} // verus!
