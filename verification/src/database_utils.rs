//! The dynamic field validation and normalization subsystem: the
//! bidirectional identifier case converter, the key normalizer, and the
//! allow-list validator that turns a field map into ordered, safe
//! (column, value) pairs.
use vstd::prelude::*;

verus! {

use crate::field_map::{map_insert, FieldMap};
use crate::standardized_error::StandardizedError;
use crate::text::{
    is_upper_char,
    lower_char,
    push_char,
    str_eq,
    to_lower_char,
    to_upper_char,
    upper_char,
};
use vstd::string::StrSliceExecFns;

/// What one character contributes to the snake_case form: an uppercase
/// letter anywhere but first is prefixed with an underscore, and every
/// character is lowercased.
pub open spec fn snake_char(c: char, first: bool) -> Seq<char> {
    if is_upper_char(c) && !first {
        seq!['_', lower_char(c)]
    } else {
        seq![lower_char(c)]
    }
}

/// The snake_case form of an identifier.
pub open spec fn snake_of(s: Seq<char>) -> Seq<char>
    decreases s.len(),
{
    if s.len() == 0 {
        Seq::empty()
    } else {
        snake_of(s.drop_last()) + snake_char(s.last(), s.len() == 1)
    }
}

/// The camelCase form of an identifier: an underscore is dropped and makes
/// the next character uppercase; every other character passes through
/// unchanged.
pub open spec fn camel_of(s: Seq<char>) -> Seq<char>
    decreases s.len(),
{
    if s.len() == 0 {
        Seq::empty()
    } else {
        let p = s.drop_last();
        let c = s.last();
        if c == '_' {
            camel_of(p)
        } else if p.len() > 0 && p.last() == '_' {
            camel_of(p).push(upper_char(c))
        } else {
            camel_of(p).push(c)
        }
    }
}

/// Converts a camelCase identifier to snake_case. Total over any string;
/// the first character is never prefixed with an underscore.
pub fn camel_to_snake(input_str: &str) -> (r: String)
    ensures
        r@ == snake_of(input_str@),
{
    let n = input_str.unicode_len();
    let mut result = String::new();
    let mut i: usize = 0;
    while i < n
        invariant
            i <= n,
            n == input_str@.len(),
            result@ == snake_of(input_str@.subrange(0, i as int)),
        decreases n - i,
    {
        let c = input_str.get_char(i);
        let u = c as u32;
        if 65 <= u && u <= 90 && i != 0 {
            push_char(&mut result, '_');
            push_char(&mut result, ((u + 32) as u8) as char);
        } else {
            push_char(&mut result, to_lower_char(c));
        }
        proof {
            let pre = input_str@.subrange(0, i as int);
            let post = input_str@.subrange(0, i as int + 1);
            assert(post.drop_last() =~= pre);
            assert(post.last() == c);
            assert(result@ =~= snake_of(pre) + snake_char(c, i == 0));
        }
        i += 1;
    }
    proof {
        assert(input_str@.subrange(0, n as int) =~= input_str@);
    }
    result
}

/// Converts a snake_case identifier to camelCase. Total over any string;
/// pass-through characters keep their case.
pub fn snake_to_camel(input_str: &str) -> (r: String)
    ensures
        r@ == camel_of(input_str@),
{
    let n = input_str.unicode_len();
    let mut result = String::new();
    let mut capitalize_next = false;
    let mut i: usize = 0;
    while i < n
        invariant
            i <= n,
            n == input_str@.len(),
            result@ == camel_of(input_str@.subrange(0, i as int)),
            capitalize_next == (i > 0 && input_str@[i as int - 1] == '_'),
        decreases n - i,
    {
        let c = input_str.get_char(i);
        if c == '_' {
            capitalize_next = true;
        } else {
            if capitalize_next {
                push_char(&mut result, to_upper_char(c));
                capitalize_next = false;
            } else {
                push_char(&mut result, c);
            }
        }
        proof {
            let pre = input_str@.subrange(0, i as int);
            let post = input_str@.subrange(0, i as int + 1);
            assert(post.drop_last() =~= pre);
            assert(post.last() == c);
            assert(result@ =~= camel_of(post));
        }
        i += 1;
    }
    proof {
        assert(input_str@.subrange(0, n as int) =~= input_str@);
    }
    result
}

/// The entries of `s` folded into the map `acc`, each key converted to
/// snake_case before it is inserted.
pub open spec fn normalize_from(
    acc: Seq<(Seq<char>, Seq<char>)>,
    s: Seq<(Seq<char>, Seq<char>)>,
) -> Seq<(Seq<char>, Seq<char>)>
    decreases s.len(),
{
    if s.len() == 0 {
        acc
    } else {
        normalize_from(map_insert(acc, snake_of(s[0].0), s[0].1), s.drop_first())
    }
}

/// The entries of `s` with every key converted to snake_case, inserted in
/// order into an initially empty map: when two keys collide after
/// conversion, the later one wins.
pub open spec fn normalized_entries(s: Seq<(Seq<char>, Seq<char>)>) -> Seq<(Seq<char>, Seq<char>)> {
    normalize_from(Seq::empty(), s)
}

pub open spec fn denormalize_from(
    acc: Seq<(Seq<char>, Seq<char>)>,
    s: Seq<(Seq<char>, Seq<char>)>,
) -> Seq<(Seq<char>, Seq<char>)>
    decreases s.len(),
{
    if s.len() == 0 {
        acc
    } else {
        denormalize_from(map_insert(acc, camel_of(s[0].0), s[0].1), s.drop_first())
    }
}

/// The entries of `s` with every key converted to camelCase, later entries
/// winning a collision.
pub open spec fn denormalized_entries(
    s: Seq<(Seq<char>, Seq<char>)>,
) -> Seq<(Seq<char>, Seq<char>)> {
    denormalize_from(Seq::empty(), s)
}

/// Applies `camel_to_snake` to every key, keeping each associated value
/// unchanged.
pub fn convert_to_snake_case(data: FieldMap) -> (r: FieldMap)
    requires
        data.wf(),
    ensures
        r@ == normalized_entries(data@),
        r.wf(),
{
    let mut new_data = FieldMap::new();
    let n = data.len();
    proof {
        assert(data@.subrange(0, n as int) =~= data@);
    }
    let mut i: usize = 0;
    while i < n
        invariant
            i <= n,
            n == data@.len(),
            new_data.wf(),
            normalize_from(new_data@, data@.subrange(i as int, n as int)) == normalized_entries(
                data@,
            ),
        decreases n - i,
    {
        let key = data.key_at(i);
        let value = data.value_at(i);
        let new_key = camel_to_snake(key.as_str());
        proof {
            let rest = data@.subrange(i as int, n as int);
            assert(rest[0] == data@[i as int]);
            assert(rest.drop_first() =~= data@.subrange(i as int + 1, n as int));
        }
        new_data.insert(new_key, value.clone());
        i += 1;
    }
    proof {
        assert(data@.subrange(n as int, n as int) =~= Seq::<(Seq<char>, Seq<char>)>::empty());
    }
    new_data
}

/// Applies `snake_to_camel` to every key, keeping each associated value
/// unchanged.
pub fn convert_to_camel_case(data: FieldMap) -> (r: FieldMap)
    requires
        data.wf(),
    ensures
        r@ == denormalized_entries(data@),
        r.wf(),
{
    let mut new_data = FieldMap::new();
    let n = data.len();
    proof {
        assert(data@.subrange(0, n as int) =~= data@);
    }
    let mut i: usize = 0;
    while i < n
        invariant
            i <= n,
            n == data@.len(),
            new_data.wf(),
            denormalize_from(new_data@, data@.subrange(i as int, n as int)) == denormalized_entries(
                data@,
            ),
        decreases n - i,
    {
        let key = data.key_at(i);
        let value = data.value_at(i);
        let new_key = snake_to_camel(key.as_str());
        proof {
            let rest = data@.subrange(i as int, n as int);
            assert(rest[0] == data@[i as int]);
            assert(rest.drop_first() =~= data@.subrange(i as int + 1, n as int));
        }
        new_data.insert(new_key, value.clone());
        i += 1;
    }
    proof {
        assert(data@.subrange(n as int, n as int) =~= Seq::<(Seq<char>, Seq<char>)>::empty());
    }
    new_data
}

/// The allow-list contains the key `k`.
pub open spec fn allowed_has(a: Seq<Seq<char>>, k: Seq<char>) -> bool {
    exists|i: int| 0 <= i < a.len() && a[i] == k
}

/// The view of a slice of allowed field names.
pub open spec fn allowed_view(a: Seq<&str>) -> Seq<Seq<char>> {
    Seq::new(a.len(), |i: int| a[i]@)
}

/// The entries of `s` whose key is on the allow-list, in order.
pub open spec fn filtered_entries(
    s: Seq<(Seq<char>, Seq<char>)>,
    a: Seq<Seq<char>>,
) -> Seq<(Seq<char>, Seq<char>)>
    decreases s.len(),
{
    if s.len() == 0 {
        Seq::empty()
    } else {
        filtered_entries(s.drop_last(), a) + if allowed_has(a, s.last().0) {
            seq![s.last()]
        } else {
            Seq::empty()
        }
    }
}

/// Every key that survives the allow-list filter is on the allow-list.
pub proof fn lemma_filtered_keys_allowed(s: Seq<(Seq<char>, Seq<char>)>, a: Seq<Seq<char>>)
    ensures
        forall|i: int|
            0 <= i < filtered_entries(s, a).len() ==> allowed_has(
                a,
                (#[trigger] filtered_entries(s, a)[i]).0,
            ),
    decreases s.len(),
{
    if s.len() > 0 {
        lemma_filtered_keys_allowed(s.drop_last(), a);
        let f = filtered_entries(s, a);
        let fp = filtered_entries(s.drop_last(), a);
        assert forall|i: int| 0 <= i < f.len() implies allowed_has(a, (#[trigger] f[i]).0) by {
            if i < fp.len() {
                assert(f[i] == fp[i]);
            } else {
                assert(f[i] == s.last());
            }
        }
    }
}

/// The views of a sequence of strings.
pub open spec fn str_views(s: Seq<String>) -> Seq<Seq<char>> {
    s.map_values(|x: String| x@)
}

/// The keys of a sequence of entries, in order.
pub open spec fn entry_keys(f: Seq<(Seq<char>, Seq<char>)>) -> Seq<Seq<char>> {
    f.map_values(|p: (Seq<char>, Seq<char>)| p.0)
}

/// The values of a sequence of entries, in order.
pub open spec fn entry_values(f: Seq<(Seq<char>, Seq<char>)>) -> Seq<Seq<char>> {
    f.map_values(|p: (Seq<char>, Seq<char>)| p.1)
}

/// Taking views distributes over appending a string.
proof fn lemma_str_views_push(s: Seq<String>, x: String)
    ensures
        str_views(s.push(x)) == str_views(s).push(x@),
{
    assert(str_views(s.push(x)) =~= str_views(s).push(x@));
}

/// Projecting keys and values distributes over appending an entry.
proof fn lemma_entry_parts_push(f: Seq<(Seq<char>, Seq<char>)>, e: (Seq<char>, Seq<char>))
    ensures
        entry_keys(f.push(e)) == entry_keys(f).push(e.0),
        entry_values(f.push(e)) == entry_values(f).push(e.1),
{
    assert(entry_keys(f.push(e)) =~= entry_keys(f).push(e.0));
    assert(entry_values(f.push(e)) =~= entry_values(f).push(e.1));
}

/// Linear scan of the allow-list for `key`.
fn allowed_fields_contain(allowed_fields: &[&str], key: &str) -> (r: bool)
    ensures
        r == allowed_has(allowed_view(allowed_fields@), key@),
{
    let n = allowed_fields.len();
    let mut i: usize = 0;
    while i < n
        invariant
            i <= n,
            n == allowed_fields@.len(),
            forall|j: int| 0 <= j < i ==> allowed_view(allowed_fields@)[j] != key@,
        decreases n - i,
    {
        if str_eq(allowed_fields[i], key) {
            proof {
                assert(allowed_view(allowed_fields@)[i as int] == key@);
            }
            return true;
        }
        i += 1;
    }
    false
}

/// Normalizes the keys of `data` to snake_case, silently drops every entry
/// whose key is not on the allow-list, and returns the surviving columns
/// and their values as two equal-length sequences in matching order.
/// Fails when nothing survives the filter.
pub fn validate_data(data: FieldMap, allowed_fields: &[&str]) -> (r: Result<
    (Vec<String>, Vec<String>),
    StandardizedError,
>)
    requires
        data.wf(),
    ensures
        ({
            let f = filtered_entries(normalized_entries(data@), allowed_view(allowed_fields@));
            match r {
                Ok(kv) => {
                    &&& f.len() > 0
                    &&& kv.0@.len() == f.len()
                    &&& kv.1@.len() == f.len()
                    &&& str_views(kv.0@) == entry_keys(f)
                    &&& str_views(kv.1@) == entry_values(f)
                    &&& forall|i: int|
                        0 <= i < kv.0@.len() ==> allowed_has(
                            allowed_view(allowed_fields@),
                            (#[trigger] str_views(kv.0@)[i]),
                        )
                },
                Err(e) => {
                    &&& f.len() == 0
                    &&& e.error_message@ == "No fields to update"@
                    &&& e.name@ == "AccessDatabaseError"@
                    &&& e.part@ == "SET"@
                    &&& e.tag@ == "DATA_INVALID"@
                    &&& e.status_code == 401
                    &&& e.title@ == "Error"@
                },
            }
        }),
{
    let converted_data = convert_to_snake_case(data);
    let ghost a = allowed_view(allowed_fields@);
    let mut keys: Vec<String> = Vec::new();
    let mut values: Vec<String> = Vec::new();
    let n = converted_data.len();
    let mut i: usize = 0;
    while i < n
        invariant
            i <= n,
            n == converted_data@.len(),
            a == allowed_view(allowed_fields@),
            str_views(keys@) == entry_keys(
                filtered_entries(converted_data@.subrange(0, i as int), a),
            ),
            str_views(values@) == entry_values(
                filtered_entries(converted_data@.subrange(0, i as int), a),
            ),
        decreases n - i,
    {
        let key = converted_data.key_at(i);
        let ghost keys0 = keys@;
        let ghost values0 = values@;
        let ghost pre = converted_data@.subrange(0, i as int);
        let ghost post = converted_data@.subrange(0, i as int + 1);
        proof {
            assert(post.drop_last() =~= pre);
            assert(post.last() == converted_data@[i as int]);
        }
        if allowed_fields_contain(allowed_fields, key.as_str()) {
            keys.push(key.clone());
            values.push(converted_data.value_at(i).clone());
            proof {
                let fpre = filtered_entries(pre, a);
                assert(filtered_entries(post, a) =~= fpre.push(post.last()));
                lemma_entry_parts_push(fpre, post.last());
                assert(keys@ =~= keys0.push(keys@.last()));
                assert(values@ =~= values0.push(values@.last()));
                lemma_str_views_push(keys0, keys@.last());
                lemma_str_views_push(values0, values@.last());
                assert(str_views(keys@) == entry_keys(filtered_entries(post, a)));
                assert(str_views(values@) == entry_values(filtered_entries(post, a)));
            }
        } else {
            proof {
                assert(filtered_entries(post, a) =~= filtered_entries(pre, a));
                assert(str_views(keys@) =~= entry_keys(filtered_entries(post, a)));
                assert(str_views(values@) =~= entry_values(filtered_entries(post, a)));
            }
        }
        i += 1;
    }
    proof {
        assert(converted_data@.subrange(0, n as int) =~= converted_data@);
    }
    if keys.len() == 0 || values.len() == 0 {
        return Err(
            StandardizedError::new(
                "No fields to update",
                "AccessDatabaseError",
                "SET",
                "DATA_INVALID",
                401,
                "Error",
            ),
        );
    }
    if keys.len() != values.len() {
        return Err(
            StandardizedError::new(
                "Keys and Values length mismatch",
                "AccessDatabaseError",
                "SET",
                "DATA_INVALID",
                401,
                "Error",
            ),
        );
    }
    proof {
        lemma_filtered_keys_allowed(converted_data@, a);
        let f = filtered_entries(converted_data@, a);
        assert forall|j: int| 0 <= j < keys@.len() implies allowed_has(
            a,
            (#[trigger] str_views(keys@)[j]),
        ) by {
            assert(str_views(keys@)[j] == entry_keys(f)[j]);
            assert(entry_keys(f)[j] == f[j].0);
        }
    }
    Ok((keys, values))
}

} // verus!
