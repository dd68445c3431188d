//! The driver's line protocol: each request is a JSON object carrying an
//! `id` and an `op`; each reply echoes the `id` and holds either
//! `ok: true` with a `result`, or an `error` text.
use vstd::prelude::*;
use crate::bind_core::error::BindError;
use crate::lldb::json::{JsonNumber, JsonValue, bool_at, bool_field, field_from, json_get, str_at, str_field, u64_at, u64_field};
use crate::num::{dec_digits, fmt_dec};
use crate::text::{chars_eq, chars_of, push_chars, push_str, string_of};

verus! {

/// The id a reply carries; 0 when it has none.
pub open spec fn reply_id(v: JsonValue) -> u64 {
    match u64_field(v, "id"@) {
        Some(n) => n,
        None => 0,
    }
}

/// What a reply means for the request numbered `expected`.
pub open spec fn reply_meaning(expected: u64, v: JsonValue, r: Result<JsonValue, BindError>) -> bool {
    let got = reply_id(v);
    if got != expected {
        r matches Err(BindError::Internal(m))
            && m@ == "driver response id mismatch: expected "@ + dec_digits(expected as nat) + ", got "@
                + dec_digits(got as nat)
    } else if bool_field(v, "ok"@) == Some(true) {
        r == Ok::<JsonValue, BindError>(match json_get(v, "result"@) {
            Some(x) => x,
            None => JsonValue::Null,
        })
    } else {
        r matches Err(BindError::Backend(m)) && m@ == match str_field(v, "error"@) {
            Some(e) => e,
            None => "unknown driver error"@,
        }
    }
}

/// Checks a reply against the request numbered `expected_id` and hands
/// out its result.
pub fn parse_response(expected_id: u64, v: JsonValue) -> (r: Result<JsonValue, BindError>)
    ensures
        reply_meaning(expected_id, v, r),
{
    let got = match u64_at(&v, "id") {
        Some(n) => n,
        None => 0,
    };
    if got != expected_id {
        let mut m: Vec<char> = Vec::new();
        push_str(&mut m, "driver response id mismatch: expected ");
        let a = fmt_dec(expected_id);
        push_chars(&mut m, a.as_slice());
        push_str(&mut m, ", got ");
        let b = fmt_dec(got);
        push_chars(&mut m, b.as_slice());
        return Err(BindError::Internal(string_of(m.as_slice())));
    }
    let ok = match bool_at(&v, "ok") {
        Some(b) => b,
        None => false,
    };
    if ok {
        match v.take_field("result") {
            Some(x) => Ok(x),
            None => Ok(JsonValue::Null),
        }
    } else {
        match str_at(&v, "error") {
            Some(e) => Err(BindError::Backend(e)),
            None => Err(BindError::Backend("unknown driver error".to_owned())),
        }
    }
}

/// The position of `key` among `fields`, scanning from `i`; -1 when absent.
pub open spec fn key_index(fields: Seq<(String, JsonValue)>, key: Seq<char>, i: int) -> int
    decreases fields.len() - i,
{
    if i < 0 || i >= fields.len() {
        -1
    } else if fields[i].0@ == key {
        i
    } else {
        key_index(fields, key, i + 1)
    }
}

/// Sets `key` to `value` among `fields`: replaces the first member with
/// that key, or appends one.
fn set_member(fields: &mut Vec<(String, JsonValue)>, key: &str, value: JsonValue)
    ensures
        ({
            let k = key_index(old(fields)@, key@, 0);
            if k >= 0 {
                &&& final(fields)@.len() == old(fields)@.len()
                &&& final(fields)@[k].0@ == key@
                &&& final(fields)@[k].1 == value
                &&& forall|j: int| 0 <= j < old(fields)@.len() && j != k ==> final(fields)@[j] == old(fields)@[j]
            } else {
                &&& final(fields)@.len() == old(fields)@.len() + 1
                &&& final(fields)@.drop_last() == old(fields)@
                &&& final(fields)@.last().0@ == key@
                &&& final(fields)@.last().1 == value
            }
        }),
{
    let k = chars_of(key);
    let mut i: usize = 0;
    while i < fields.len()
        invariant
            i <= fields@.len(),
            fields@ == old(fields)@,
            k@ == key@,
            key_index(fields@, key@, 0) == key_index(fields@, key@, i as int),
        decreases fields@.len() - i,
    {
        let name = chars_of(fields[i].0.as_str());
        if chars_eq(name.as_slice(), k.as_slice()) {
            let entry = (fields[i].0.clone(), value);
            fields.set(i, entry);
            return;
        }
        i = i + 1;
    }
    let ghost before = fields@;
    fields.push((key.to_owned(), value));
    assert(fields@.drop_last() =~= before);
}

proof fn lemma_field_from_index(s: Seq<(String, JsonValue)>, key: Seq<char>, i: int)
    requires
        0 <= i,
    ensures
        key_index(s, key, i) >= 0 ==> i <= key_index(s, key, i) < s.len()
            && s[key_index(s, key, i)].0@ == key
            && field_from(s, key, i) == Some(s[key_index(s, key, i)].1),
        key_index(s, key, i) < 0 ==> field_from(s, key, i) is None && key_index(s, key, i) == -1,
        forall|j: int| i <= j < s.len() && (key_index(s, key, i) < 0 || j < key_index(s, key, i)) ==> (#[trigger] s[j]).0@ != key,
    decreases s.len() - i,
{
    if i < s.len() && s[i].0@ != key {
        lemma_field_from_index(s, key, i + 1);
    }
}

proof fn lemma_first_found(t: Seq<(String, JsonValue)>, key: Seq<char>, k: int, i: int)
    requires
        0 <= i <= k < t.len(),
        t[k].0@ == key,
        forall|j: int| i <= j < k ==> (#[trigger] t[j]).0@ != key,
    ensures
        field_from(t, key, i) == Some(t[k].1),
    decreases k - i,
{
    if i < k {
        lemma_first_found(t, key, k, i + 1);
    }
}

/// After `set_member`, the key finds the value set.
proof fn lemma_set_member_finds(s: Seq<(String, JsonValue)>, t: Seq<(String, JsonValue)>, key: Seq<char>, value: JsonValue)
    requires
        ({
            let k = key_index(s, key, 0);
            if k >= 0 {
                &&& t.len() == s.len()
                &&& t[k].0@ == key
                &&& t[k].1 == value
                &&& forall|j: int| 0 <= j < s.len() && j != k ==> t[j] == s[j]
            } else {
                &&& t.len() == s.len() + 1
                &&& t.drop_last() == s
                &&& t.last().0@ == key
                &&& t.last().1 == value
            }
        }),
    ensures
        field_from(t, key, 0) == Some(value),
{
    lemma_field_from_index(s, key, 0);
    let k = key_index(s, key, 0);
    if k >= 0 {
        assert forall|j: int| 0 <= j < k implies (#[trigger] t[j]).0@ != key by {
            assert(t[j] == s[j]);
        }
        lemma_first_found(t, key, k, 0);
    } else {
        let n = s.len() as int;
        assert forall|j: int| 0 <= j < n implies (#[trigger] t[j]).0@ != key by {
            assert(t[j] == t.drop_last()[j]);
        }
        lemma_first_found(t, key, n, 0);
    }
}

/// Lookups of `key` agree between two member lists that agree on the
/// members under `key`, the longer one holding no more of them.
proof fn lemma_field_from_agree(s: Seq<(String, JsonValue)>, t: Seq<(String, JsonValue)>, key: Seq<char>, i: int)
    requires
        0 <= i,
        s.len() <= t.len(),
        forall|j: int| i <= j < s.len() ==> ((#[trigger] t[j]).0@ == key <==> s[j].0@ == key),
        forall|j: int| i <= j < s.len() && s[j].0@ == key ==> (#[trigger] t[j]).1 == s[j].1,
        forall|j: int| s.len() <= j < t.len() && i <= j ==> (#[trigger] t[j]).0@ != key,
    ensures
        field_from(t, key, i) == field_from(s, key, i),
    decreases t.len() - i,
{
    if i < t.len() {
        lemma_field_from_agree(s, t, key, i + 1);
    }
}

/// A request object: the members of `params` when it is an object (else
/// none) with `id` and `op` set to the request's number and operation.
pub fn request_object(id: u64, op: &str, params: JsonValue) -> (r: JsonValue)
    ensures
        u64_field(r, "id"@) == Some(id),
        str_field(r, "op"@) == Some(op@),
        r is Object,
        forall|key: Seq<char>| key != "id"@ && key != "op"@ ==> #[trigger] json_get(r, key) == json_get(params, key),
{
    let mut fields: Vec<(String, JsonValue)> = match params {
        JsonValue::Object(f) => f,
        _ => Vec::new(),
    };
    let ghost base = fields@;
    proof {
        reveal_strlit("id");
        reveal_strlit("op");
        assert("id"@[0] != "op"@[0]);
        lemma_field_from_index(base, "id"@, 0);
    }
    set_member(&mut fields, "id", JsonValue::Number(JsonNumber::Unsigned(id)));
    let ghost mid = fields@;
    proof {
        lemma_field_from_index(mid, "op"@, 0);
        lemma_field_from_index(mid, "id"@, 0);
    }
    let opv = JsonValue::Str(op.to_owned());
    let ghost gop = opv;
    set_member(&mut fields, "op", opv);
    let ghost fin = fields@;
    proof {
        lemma_field_from_index(fin, "id"@, 0);
        lemma_field_from_index(fin, "op"@, 0);
        assert forall|key: Seq<char>| key != "id"@ && key != "op"@ implies field_from(fin, key, 0) == field_from(base, key, 0) by {
            lemma_field_from_agree(base, mid, key, 0);
            lemma_field_from_agree(mid, fin, key, 0);
        }
        lemma_set_member_finds(base, mid, "id"@, JsonValue::Number(JsonNumber::Unsigned(id)));
        lemma_set_member_finds(mid, fin, "op"@, gop);
        lemma_field_from_agree(mid, fin, "id"@, 0);
    }
    JsonValue::Object(fields)
}

} // verus!
