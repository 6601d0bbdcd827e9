use vstd::prelude::*;

verus! {

/// The library's model of a decoded JSON document: the shape that the
/// checking service's response bodies take once the wire text is parsed.
///
/// Numbers keep only what the response schemas use: a non-negative integer
/// is carried exactly, and any other number (negative or fractional) is
/// remembered as `OtherNumber`, which every schema treats as malformed
/// where an offset or a length is expected.
#[derive(Debug)]
pub enum JsonValue {
    Null,
    Bool(bool),
    UInt(u64),
    OtherNumber,
    Str(String),
    Array(Vec<JsonValue>),
    Object(Vec<(String, JsonValue)>),
}

/// The value under `key` in an object's field list: the first binding wins.
pub open spec fn key_lookup(fields: Seq<(String, JsonValue)>, key: Seq<char>) -> Option<JsonValue>
    decreases fields.len(),
{
    if fields.len() == 0 {
        None
    } else if fields[0].0@ == key {
        Some(fields[0].1)
    } else {
        key_lookup(fields.drop_first(), key)
    }
}

/// The string under `key`, if the key is bound to a string.
pub open spec fn str_field(fields: Seq<(String, JsonValue)>, key: Seq<char>) -> Option<Seq<char>> {
    match key_lookup(fields, key) {
        Some(JsonValue::Str(s)) => Some(s@),
        _ => None,
    }
}

/// The non-negative integer under `key`, if the key is bound to one.
pub open spec fn uint_field(fields: Seq<(String, JsonValue)>, key: Seq<char>) -> Option<u64> {
    match key_lookup(fields, key) {
        Some(JsonValue::UInt(u)) => Some(u),
        _ => None,
    }
}

/// Looks `key` up in an object's field list.
pub fn json_get<'a>(fields: &'a Vec<(String, JsonValue)>, key: &String) -> (r: Option<
    &'a JsonValue,
>)
    ensures
        match r {
            Some(v) => key_lookup(fields@, key@) == Some(*v),
            None => key_lookup(fields@, key@) is None,
        },
{
    let mut k: usize = 0;
    proof {
        assert(fields@.skip(0) =~= fields@);
    }
    while k < fields.len()
        invariant
            k <= fields@.len(),
            key_lookup(fields@, key@) == key_lookup(fields@.skip(k as int), key@),
        decreases fields@.len() - k,
    {
        let pair = &fields[k];
        if pair.0 == *key {
            return Some(&pair.1);
        }
        proof {
            assert(fields@.skip(k as int).drop_first() =~= fields@.skip(k as int + 1));
        }
        k = k + 1;
    }
    None
}

/// Looks `key` up and keeps the result only when it is a string.
pub fn json_get_str<'a>(fields: &'a Vec<(String, JsonValue)>, key: &String) -> (r: Option<
    &'a String,
>)
    ensures
        match r {
            Some(s) => str_field(fields@, key@) == Some(s@),
            None => str_field(fields@, key@) is None,
        },
{
    match json_get(fields, key) {
        Some(JsonValue::Str(s)) => Some(s),
        _ => None,
    }
}

/// Looks `key` up and keeps the result only when it is a non-negative integer.
pub fn json_get_uint(fields: &Vec<(String, JsonValue)>, key: &String) -> (r: Option<u64>)
    ensures
        r == uint_field(fields@, key@),
{
    match json_get(fields, key) {
        Some(JsonValue::UInt(u)) => Some(*u),
        _ => None,
    }
}

} // verus!
