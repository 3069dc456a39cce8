//! The laws of the case converter and the key normalizer: round trips on
//! canonical identifiers, and idempotence of normalization.
use vstd::prelude::*;

verus! {

use crate::database_utils::{
    camel_of,
    normalize_from,
    normalized_entries,
    snake_char,
    snake_of,
};
use crate::field_map::{lemma_map_insert_wf, map_has_key, map_insert, map_key_index, map_wf};
use crate::text::{
    is_digit_char,
    is_lower_char,
    is_upper_char,
    lemma_case_map_inverse,
    lower_char,
    upper_char,
};

/// A character that may appear in a canonical snake_case identifier.
pub open spec fn snake_case_char(c: char) -> bool {
    is_lower_char(c) || is_digit_char(c) || c == '_'
}

/// An underscore at position `i` is followed by a lowercase letter.
pub open spec fn underscore_followed_by_lower(s: Seq<char>, i: int) -> bool {
    s[i] == '_' ==> is_lower_char(s[i + 1])
}

/// A canonical snake_case identifier: non-empty, made of lowercase
/// letters, digits and underscores, with no underscore first or last and
/// every underscore followed by a lowercase letter.
pub open spec fn canonical_snake(s: Seq<char>) -> bool {
    &&& s.len() > 0
    &&& forall|i: int| 0 <= i < s.len() ==> snake_case_char(#[trigger] s[i])
    &&& s[0] != '_'
    &&& s[s.len() - 1] != '_'
    &&& forall|i: int| 0 <= i < s.len() - 1 ==> underscore_followed_by_lower(s, i)
}

/// No two consecutive uppercase letters stand at positions `i` and
/// `i + 1`.
pub open spec fn no_upper_pair_at(s: Seq<char>, i: int) -> bool {
    !(is_upper_char(s[i]) && is_upper_char(s[i + 1]))
}

/// A canonical camelCase identifier: a lowercase letter first, then
/// letters and digits only, with no two consecutive uppercase letters.
pub open spec fn canonical_camel(s: Seq<char>) -> bool {
    &&& s.len() > 0
    &&& is_lower_char(s[0])
    &&& forall|i: int|
        0 <= i < s.len() ==> is_lower_char(#[trigger] s[i]) || is_upper_char(s[i]) || is_digit_char(
            s[i],
        )
    &&& forall|i: int| 0 <= i < s.len() - 1 ==> no_upper_pair_at(s, i)
}

/// Lowercasing maps the underscore to itself alone.
proof fn lemma_lower_underscore(c: char)
    ensures
        (lower_char(c) == '_') == (c == '_'),
        (upper_char(c) == '_') == (c == '_'),
{
}

/// Converting to camelCase keeps a non-underscore first character first.
proof fn lemma_camel_keeps_first(s: Seq<char>)
    requires
        s.len() > 0,
        s[0] != '_',
    ensures
        camel_of(s).len() > 0,
        camel_of(s)[0] == s[0],
    decreases s.len(),
{
    reveal_with_fuel(camel_of, 3);
    if s.len() == 1 {
        assert(s.drop_last() =~= Seq::<char>::empty());
    } else {
        let p = s.drop_last();
        assert(p[0] == s[0]);
        lemma_camel_keeps_first(p);
    }
}

/// Converting to snake_case keeps the first character, lowercased, first.
proof fn lemma_snake_keeps_first(s: Seq<char>)
    requires
        s.len() > 0,
    ensures
        snake_of(s).len() > 0,
        snake_of(s)[0] == lower_char(s[0]),
    decreases s.len(),
{
    reveal_with_fuel(snake_of, 3);
    if s.len() == 1 {
        assert(s.drop_last() =~= Seq::<char>::empty());
        assert(snake_of(s) =~= seq![lower_char(s[0])]);
    } else {
        let p = s.drop_last();
        assert(p[0] == s[0]);
        lemma_snake_keeps_first(p);
        assert(snake_of(s)[0] == snake_of(p)[0]);
    }
}

/// The snake_case form of an identifier never begins with an underscore
/// unless the identifier itself did: the first character is lowercased but
/// never prefixed.
pub proof fn lemma_snake_never_starts_with_underscore(s: Seq<char>)
    requires
        s.len() > 0,
        s[0] != '_',
    ensures
        snake_of(s).len() > 0,
        snake_of(s)[0] != '_',
{
    lemma_snake_keeps_first(s);
    lemma_lower_underscore(s[0]);
}

/// No character of a snake_case form is uppercase.
proof fn lemma_snake_no_upper(s: Seq<char>)
    ensures
        forall|i: int| 0 <= i < snake_of(s).len() ==> !is_upper_char(#[trigger] snake_of(s)[i]),
    decreases s.len(),
{
    if s.len() > 0 {
        let p = s.drop_last();
        lemma_snake_no_upper(p);
        assert forall|i: int|
            0 <= i < snake_of(s).len() implies !is_upper_char(#[trigger] snake_of(s)[i]) by {
            if i < snake_of(p).len() {
                assert(snake_of(s)[i] == snake_of(p)[i]);
            } else {
                assert(snake_of(s)[i] == snake_char(s.last(), s.len() == 1)[i - snake_of(p).len()]);
            }
        }
    }
}

/// Converting an identifier without uppercase letters to snake_case leaves
/// it unchanged.
proof fn lemma_snake_fixes_lowercase(s: Seq<char>)
    requires
        forall|i: int| 0 <= i < s.len() ==> !is_upper_char(#[trigger] s[i]),
    ensures
        snake_of(s) == s,
    decreases s.len(),
{
    if s.len() == 0 {
        assert(snake_of(s) =~= s);
    } else {
        let p = s.drop_last();
        assert(forall|i: int| 0 <= i < p.len() ==> !is_upper_char(#[trigger] p[i]));
        lemma_snake_fixes_lowercase(p);
        assert(snake_of(s) =~= s);
    }
}

/// Converting to snake_case twice is the same as converting once.
pub proof fn lemma_snake_idempotent(s: Seq<char>)
    ensures
        snake_of(snake_of(s)) == snake_of(s),
{
    lemma_snake_no_upper(s);
    lemma_snake_fixes_lowercase(snake_of(s));
}

/// The snake_case form of an underscore-free identifier never ends with an
/// underscore.
proof fn lemma_snake_last_not_underscore(s: Seq<char>)
    requires
        s.len() > 0,
        forall|i: int| 0 <= i < s.len() ==> (#[trigger] s[i]) != '_',
    ensures
        snake_of(s).len() > 0,
        snake_of(s).last() != '_',
{
    let p = s.drop_last();
    let c = s.last();
    lemma_lower_underscore(c);
    assert(snake_of(s) == snake_of(p) + snake_char(c, s.len() == 1));
    assert(snake_of(s).last() == snake_char(c, s.len() == 1).last());
}

/// Every key of the entry sequence is already in snake_case form.
pub open spec fn keys_snake_fixed(s: Seq<(Seq<char>, Seq<char>)>) -> bool {
    forall|i: int| 0 <= i < s.len() ==> snake_of((#[trigger] s[i]).0) == s[i].0
}

/// Inserting an already-converted key keeps every key already converted.
proof fn lemma_map_insert_fixed(s: Seq<(Seq<char>, Seq<char>)>, k: Seq<char>, v: Seq<char>)
    requires
        keys_snake_fixed(s),
        snake_of(k) == k,
    ensures
        keys_snake_fixed(map_insert(s, k, v)),
{
    let r = map_insert(s, k, v);
    assert forall|i: int| 0 <= i < r.len() implies snake_of((#[trigger] r[i]).0) == r[i].0 by {
        if map_has_key(s, k) {
            let idx = map_key_index(s, k);
            if i != idx {
                assert(r[i] == s[i]);
                assert(snake_of(s[i].0) == s[i].0);
            }
        } else {
            if i < s.len() {
                assert(r[i] == s[i]);
                assert(snake_of(s[i].0) == s[i].0);
            }
        }
    }
}

/// Folding entries into a well-formed map of converted keys yields a
/// well-formed map of converted keys.
proof fn lemma_normalize_from_wf_fixed(
    acc: Seq<(Seq<char>, Seq<char>)>,
    s: Seq<(Seq<char>, Seq<char>)>,
)
    requires
        map_wf(acc),
        keys_snake_fixed(acc),
    ensures
        map_wf(normalize_from(acc, s)),
        keys_snake_fixed(normalize_from(acc, s)),
    decreases s.len(),
{
    if s.len() > 0 {
        let acc2 = map_insert(acc, snake_of(s[0].0), s[0].1);
        lemma_map_insert_wf(acc, snake_of(s[0].0), s[0].1);
        lemma_snake_idempotent(s[0].0);
        lemma_map_insert_fixed(acc, snake_of(s[0].0), s[0].1);
        lemma_normalize_from_wf_fixed(acc2, s.drop_first());
    }
}

/// Folding entries whose keys are already converted, pairwise distinct and
/// absent from the accumulator appends them unchanged.
proof fn lemma_normalize_from_fresh(
    acc: Seq<(Seq<char>, Seq<char>)>,
    s: Seq<(Seq<char>, Seq<char>)>,
)
    requires
        map_wf(acc + s),
        keys_snake_fixed(s),
    ensures
        normalize_from(acc, s) == acc + s,
    decreases s.len(),
{
    if s.len() == 0 {
        assert(acc + s =~= acc);
    } else {
        let k0 = s[0].0;
        let v0 = s[0].1;
        assert(snake_of(k0) == k0);
        assert(!map_has_key(acc, k0)) by {
            if map_has_key(acc, k0) {
                let i = choose|i: int| 0 <= i < acc.len() && (#[trigger] acc[i]).0 == k0;
                assert((acc + s)[i].0 == k0);
                assert((acc + s)[acc.len() as int].0 == k0);
            }
        }
        let acc2 = acc.push(s[0]);
        assert(map_insert(acc, k0, v0) == acc2);
        assert(acc2 + s.drop_first() =~= acc + s);
        assert(keys_snake_fixed(s.drop_first())) by {
            assert forall|i: int|
                0 <= i < s.drop_first().len() implies snake_of(
                (#[trigger] s.drop_first()[i]).0,
            ) == s.drop_first()[i].0 by {
                assert(s.drop_first()[i] == s[i + 1]);
                assert(snake_of(s[i + 1].0) == s[i + 1].0);
            }
        }
        lemma_normalize_from_fresh(acc2, s.drop_first());
        assert(normalize_from(acc, s) == normalize_from(acc2, s.drop_first()));
    }
}

/// Normalizing the keys of a map twice is the same as normalizing them
/// once: case conversion of already-converted keys is a no-op, and the
/// entries of a normalized map fold back unchanged.
pub proof fn lemma_normalize_keys_idempotent(s: Seq<(Seq<char>, Seq<char>)>)
    ensures
        normalized_entries(normalized_entries(s)) == normalized_entries(s),
{
    let t = normalized_entries(s);
    lemma_normalize_from_wf_fixed(Seq::empty(), s);
    assert(Seq::<(Seq<char>, Seq<char>)>::empty() + t =~= t);
    lemma_normalize_from_fresh(Seq::empty(), t);
}

/// Round trip on canonical snake_case: converting to camelCase and back
/// returns the identifier unchanged.
#[verifier::rlimit(80)]
pub proof fn lemma_snake_camel_round_trip(s: Seq<char>)
    requires
        canonical_snake(s),
    ensures
        snake_of(camel_of(s)) == s,
    decreases s.len(),
{
    reveal_with_fuel(snake_of, 3);
    reveal_with_fuel(camel_of, 3);
    let c = s.last();
    assert(c != '_');
    assert(snake_case_char(c));
    if s.len() == 1 {
        assert(s.drop_last() =~= Seq::<char>::empty());
        assert(camel_of(s) =~= seq![c]);
        assert(seq![c].drop_last() =~= Seq::<char>::empty());
        assert(snake_of(seq![c]) =~= seq![lower_char(c)]);
        assert(snake_of(camel_of(s)) =~= s);
    } else {
        let p = s.drop_last();
        assert(p[0] == s[0]);
        if p.last() == '_' {
            assert(underscore_followed_by_lower(s, s.len() - 2));
            assert(is_lower_char(c));
            let q = p.drop_last();
            assert(p.len() >= 2) by {
                if p.len() == 1 {
                    assert(p[0] == p.last());
                }
            }
            assert(q.len() >= 1);
            assert(canonical_snake(q)) by {
                assert(forall|i: int| 0 <= i < q.len() ==> q[i] == #[trigger] s[i]);
                assert(q[q.len() - 1] != '_') by {
                    if q.last() == '_' {
                        assert(underscore_followed_by_lower(s, s.len() - 3));
                        assert(is_lower_char(s[s.len() - 2]));
                    }
                }
                assert forall|i: int| 0 <= i < q.len() - 1 implies underscore_followed_by_lower(
                    q,
                    i,
                ) by {
                    assert(underscore_followed_by_lower(s, i));
                    assert(q[i] == s[i] && q[i + 1] == s[i + 1]);
                }
            }
            lemma_snake_camel_round_trip(q);
            lemma_camel_keeps_first(q);
            lemma_case_map_inverse(c);
            let t = camel_of(q);
            let x = t.push(upper_char(c));
            assert(camel_of(p) == t);
            assert(camel_of(s) == x);
            assert(x.drop_last() =~= t);
            assert(x.last() == upper_char(c));
            assert(snake_of(x) == snake_of(t) + snake_char(upper_char(c), x.len() == 1));
            assert(snake_of(x) =~= q + seq!['_', c]);
            assert(q + seq!['_', c] =~= s);
        } else {
            assert(canonical_snake(p)) by {
                assert(forall|i: int| 0 <= i < p.len() ==> p[i] == #[trigger] s[i]);
                assert forall|i: int| 0 <= i < p.len() - 1 implies underscore_followed_by_lower(
                    p,
                    i,
                ) by {
                    assert(underscore_followed_by_lower(s, i));
                    assert(p[i] == s[i] && p[i + 1] == s[i + 1]);
                }
            }
            lemma_snake_camel_round_trip(p);
            lemma_camel_keeps_first(p);
            let t = camel_of(p);
            let x = t.push(c);
            assert(camel_of(s) == x);
            assert(x.drop_last() =~= t);
            assert(x.last() == c);
            assert(snake_of(x) == snake_of(t) + snake_char(c, x.len() == 1));
            assert(snake_of(x) =~= p + seq![c]);
            assert(p + seq![c] =~= s);
        }
    }
}

/// Round trip on canonical camelCase: converting to snake_case and back
/// returns the identifier unchanged.
#[verifier::rlimit(80)]
pub proof fn lemma_camel_snake_round_trip(s: Seq<char>)
    requires
        canonical_camel(s),
    ensures
        camel_of(snake_of(s)) == s,
    decreases s.len(),
{
    reveal_with_fuel(snake_of, 3);
    reveal_with_fuel(camel_of, 3);
    let c = s.last();
    lemma_lower_underscore(c);
    if s.len() == 1 {
        assert(s.drop_last() =~= Seq::<char>::empty());
        assert(snake_of(s) =~= seq![lower_char(s[0])]);
        assert(lower_char(s[0]) == s[0]);
        assert(seq![s[0]].drop_last() =~= Seq::<char>::empty());
        assert(camel_of(snake_of(s)) =~= s);
    } else {
        let p = s.drop_last();
        assert(canonical_camel(p)) by {
            assert(forall|i: int| 0 <= i < p.len() ==> p[i] == #[trigger] s[i]);
            assert forall|i: int| 0 <= i < p.len() - 1 implies no_upper_pair_at(p, i) by {
                assert(no_upper_pair_at(s, i));
                assert(p[i] == s[i] && p[i + 1] == s[i + 1]);
            }
        }
        lemma_camel_snake_round_trip(p);
        assert(forall|i: int| 0 <= i < p.len() ==> (#[trigger] p[i]) != '_');
        lemma_snake_last_not_underscore(p);
        let t = snake_of(p);
        if is_upper_char(c) {
            lemma_case_map_inverse(c);
            assert(snake_of(s) == t + seq!['_', lower_char(c)]);
            let x = t + seq!['_', lower_char(c)];
            let y = t.push('_');
            assert(x.drop_last() =~= y);
            assert(x.last() == lower_char(c));
            assert(y.last() == '_');
            assert(y.drop_last() =~= t);
            assert(camel_of(y) == camel_of(t));
            assert(camel_of(x) == camel_of(y).push(upper_char(lower_char(c))));
            assert(camel_of(x) =~= p.push(c));
            assert(p.push(c) =~= s);
        } else {
            assert(lower_char(c) == c);
            assert(snake_of(s) == t + seq![c]);
            let x = t + seq![c];
            assert(x.drop_last() =~= t);
            assert(x.last() == c);
            assert(t.last() != '_');
            assert(camel_of(x) == camel_of(t).push(c));
            assert(camel_of(x) =~= p.push(c));
            assert(p.push(c) =~= s);
        }
    }
}

} // verus!
