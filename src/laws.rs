//! Laws that relate the store's operations, stated over the model that
//! their contracts use.
use vstd::prelude::*;
use crate::model::{expiry_after, lists_keys, new_record, remaining_secs, ttl_report, Record};

verus! {

/// After `set` of an absent key, `get` of that key returns the value that
/// was set, whatever the time-to-live; the key is then present, so a second
/// `set` of it fails with `KeyExists` and leaves that value in place.
pub proof fn lemma_set_then_get(
    s0: Map<Seq<char>, Record>,
    key: Seq<char>,
    value: Seq<char>,
    ttl: Option<u64>,
    now: int,
)
    requires
        !s0.contains_key(key),
    ensures
        s0.insert(key, new_record(value, ttl, now)).contains_key(key),
        s0.insert(key, new_record(value, ttl, now))[key].value == value,
{
}

/// `rename(a, b)` with `a` present and `b` absent leaves `a` absent and `b`
/// holding what `a` held, value and expiry.
pub proof fn lemma_rename_moves_entry(s0: Map<Seq<char>, Record>, a: Seq<char>, b: Seq<char>)
    requires
        s0.contains_key(a),
        !s0.contains_key(b),
    ensures
        !s0.remove(a).insert(b, s0[a]).contains_key(a),
        s0.remove(a).insert(b, s0[a]).contains_key(b),
        s0.remove(a).insert(b, s0[a])[b] == s0[a],
{
}

/// `expire(k, 0)` followed, at the same or a later instant, by `ttl(k)`
/// reports zero seconds.
pub proof fn lemma_expire_zero_then_ttl(s0: Map<Seq<char>, Record>, key: Seq<char>, now: int, later: int)
    requires
        s0.contains_key(key),
        0 <= now <= later,
    ensures
        ttl_report(
            s0.insert(key, Record { value: s0[key].value, expiry: Some(expiry_after(now, 0)) })[key],
            later,
        ) == Some(0int),
{
}

/// `ttl` never reports a negative number of seconds.
pub proof fn lemma_ttl_not_negative(r: Record, now: int)
    ensures
        ttl_report(r, now) matches Some(n) ==> n >= 0,
{
    match r.expiry {
        Some(e) => {
            if e > now {
                assert(remaining_secs(e, now) >= 0) by (nonlinear_arith)
                    requires
                        e > now,
                        remaining_secs(e, now) == (e - now) / 1_000_000_000,
                ;
            }
        },
        None => {},
    }
}

/// After `clear`, `count` is zero and `keys` lists nothing.
pub proof fn lemma_clear_empties(ks: Seq<Seq<char>>)
    ensures
        Map::<Seq<char>, Record>::empty().len() == 0,
        lists_keys(ks, Map::<Seq<char>, Record>::empty()) ==> ks.len() == 0,
{
    if lists_keys(ks, Map::<Seq<char>, Record>::empty()) && ks.len() > 0 {
        assert(ks.to_set().contains(ks[0]));
    }
}

} // verus!
