//! The mathematical model of the key space: records, expiry arithmetic, and
//! the map that a sequence of keyed records denotes.
use vstd::prelude::*;

verus! {

/// Nanoseconds in one second.
pub const NANOS_PER_SEC: u128 = 1_000_000_000;

/// The latest instant a clock reading can denote, in nanoseconds since the
/// Unix epoch: `u64::MAX` whole seconds plus the largest sub-second part.
pub const MAX_INSTANT: u128 = 18_446_744_073_709_551_615 * 1_000_000_000 + 999_999_999;

/// What the store holds under one key: the value and, when the key expires,
/// the absolute expiry in nanoseconds since the Unix epoch.
pub struct Record {
    pub value: Seq<char>,
    pub expiry: Option<int>,
}

/// The expiry, if any, is a representable instant.
pub open spec fn record_in_range(r: Record) -> bool {
    match r.expiry {
        Some(e) => e <= MAX_INSTANT,
        None => true,
    }
}

/// The expiry that a time-to-live of `ttl` seconds gives at instant `now`,
/// capped at the latest representable instant.
pub open spec fn expiry_after(now: int, ttl: int) -> int {
    let e = now + ttl * NANOS_PER_SEC;
    if e > MAX_INSTANT {
        MAX_INSTANT as int
    } else {
        e
    }
}

/// The record that `set` stores: the value, and an expiry `ttl` seconds
/// after `now` when a time-to-live is given.
pub open spec fn new_record(value: Seq<char>, ttl: Option<u64>, now: int) -> Record {
    Record {
        value,
        expiry: match ttl {
            Some(t) => Some(expiry_after(now, t as int)),
            None => None,
        },
    }
}

/// What `ttl` reports for a record at instant `now`: nothing for a key
/// without expiry, else the whole seconds left, clamped at zero.
pub open spec fn ttl_report(r: Record, now: int) -> Option<int> {
    match r.expiry {
        Some(e) => Some(remaining_secs(e, now)),
        None => None,
    }
}

/// An optional count of seconds as a mathematical value.
pub open spec fn opt_int(t: Option<u64>) -> Option<int> {
    match t {
        Some(n) => Some(n as int),
        None => None,
    }
}

/// The expiry of a record reduced to whole seconds.
pub open spec fn expiry_secs(r: Record) -> Option<int> {
    match r.expiry {
        Some(e) => Some(secs_of(e)),
        None => None,
    }
}

/// `ks` lists each key of `m` exactly once, in some order.
pub open spec fn lists_keys(ks: Seq<Seq<char>>, m: Map<Seq<char>, Record>) -> bool {
    &&& ks.no_duplicates()
    &&& ks.to_set() == m.dom()
}

/// Whole seconds left until `expiry` at instant `now`, never negative.
pub open spec fn remaining_secs(expiry: int, now: int) -> int {
    if expiry > now {
        (expiry - now) / (NANOS_PER_SEC as int)
    } else {
        0
    }
}

/// An instant reduced to whole seconds since the Unix epoch.
pub open spec fn secs_of(instant: int) -> int {
    instant / (NANOS_PER_SEC as int)
}

/// A record whose expiry has lost its sub-second part.
pub open spec fn truncated(r: Record) -> Record {
    Record {
        value: r.value,
        expiry: match r.expiry {
            Some(e) => Some(secs_of(e) * NANOS_PER_SEC),
            None => None,
        },
    }
}

/// The map denoted by a sequence of keyed records; a later record for a key
/// replaces an earlier one.
pub open spec fn map_of(s: Seq<(Seq<char>, Record)>) -> Map<Seq<char>, Record>
    decreases s.len(),
{
    if s.len() == 0 {
        Map::empty()
    } else {
        map_of(s.drop_last()).insert(s.last().0, s.last().1)
    }
}

/// No key occurs twice.
pub open spec fn keys_unique(s: Seq<(Seq<char>, Record)>) -> bool {
    forall|i: int, j: int| 0 <= i < j < s.len() ==> s[i].0 != s[j].0
}

pub proof fn lemma_map_of_contains(s: Seq<(Seq<char>, Record)>, k: Seq<char>)
    ensures
        map_of(s).contains_key(k) <==> exists|i: int| 0 <= i < s.len() && s[i].0 == k,
    decreases s.len(),
{
    if s.len() > 0 {
        let t = s.drop_last();
        lemma_map_of_contains(t, k);
        if map_of(s).contains_key(k) {
            if k == s.last().0 {
                assert(s[s.len() - 1].0 == k);
            } else {
                let i = choose|i: int| 0 <= i < t.len() && t[i].0 == k;
                assert(s[i].0 == k);
            }
        }
        if exists|i: int| 0 <= i < s.len() && s[i].0 == k {
            let i = choose|i: int| 0 <= i < s.len() && s[i].0 == k;
            if i < s.len() - 1 {
                assert(t[i].0 == k);
            }
        }
    }
}

pub proof fn lemma_map_of_index(s: Seq<(Seq<char>, Record)>, i: int)
    requires
        keys_unique(s),
        0 <= i < s.len(),
    ensures
        map_of(s).contains_key(s[i].0),
        map_of(s)[s[i].0] == s[i].1,
    decreases s.len(),
{
    if i < s.len() - 1 {
        let t = s.drop_last();
        assert(s[i].0 != s[s.len() - 1].0);
        lemma_map_of_index(t, i);
    }
}

pub proof fn lemma_map_of_remove(s: Seq<(Seq<char>, Record)>, i: int)
    requires
        keys_unique(s),
        0 <= i < s.len(),
    ensures
        map_of(s.remove(i)) == map_of(s).remove(s[i].0),
        keys_unique(s.remove(i)),
    decreases s.len(),
{
    let t = s.drop_last();
    let last = s.last();
    if i == s.len() - 1 {
        assert(s.remove(i) =~= t);
        if map_of(t).contains_key(last.0) {
            lemma_map_of_contains(t, last.0);
            let j = choose|j: int| 0 <= j < t.len() && t[j].0 == last.0;
            assert(s[j].0 == s[s.len() - 1].0);
        }
        assert(map_of(s).remove(last.0) =~= map_of(t));
    } else {
        lemma_map_of_remove(t, i);
        assert(s.remove(i).drop_last() =~= t.remove(i));
        assert(s.remove(i).last() == last);
        assert(s[i].0 != last.0);
        assert(map_of(s.remove(i)) =~= map_of(s).remove(s[i].0));
    }
}

pub proof fn lemma_map_of_push(s: Seq<(Seq<char>, Record)>, k: Seq<char>, r: Record)
    ensures
        map_of(s.push((k, r))) == map_of(s).insert(k, r),
        keys_unique(s) && !map_of(s).contains_key(k) ==> keys_unique(s.push((k, r))),
{
    assert(s.push((k, r)).drop_last() =~= s);
    if keys_unique(s) && !map_of(s).contains_key(k) {
        assert forall|i: int| 0 <= i < s.len() implies s[i].0 != k by {
            lemma_map_of_contains(s, k);
        }
    }
}

pub proof fn lemma_map_of_len(s: Seq<(Seq<char>, Record)>)
    requires
        keys_unique(s),
    ensures
        map_of(s).dom().finite(),
        map_of(s).len() == s.len(),
    decreases s.len(),
{
    if s.len() > 0 {
        let t = s.drop_last();
        lemma_map_of_len(t);
        if map_of(t).contains_key(s.last().0) {
            lemma_map_of_contains(t, s.last().0);
            let j = choose|j: int| 0 <= j < t.len() && t[j].0 == s.last().0;
            assert(s[j].0 == s[s.len() - 1].0);
        }
    }
}

/// Truncating each record of the sequence truncates each value of its map.
pub proof fn lemma_map_of_truncated(s: Seq<(Seq<char>, Record)>)
    ensures
        map_of(Seq::new(s.len(), |i: int| (s[i].0, truncated(s[i].1)))) == map_of(s).map_values(
            |r: Record| truncated(r),
        ),
    decreases s.len(),
{
    let u = Seq::new(s.len(), |i: int| (s[i].0, truncated(s[i].1)));
    if s.len() == 0 {
        assert(map_of(u) =~= map_of(s).map_values(|r: Record| truncated(r)));
    } else {
        let t = s.drop_last();
        lemma_map_of_truncated(t);
        assert(u.drop_last() =~= Seq::new(t.len(), |i: int| (t[i].0, truncated(t[i].1))));
        assert(map_of(u) =~= map_of(s).map_values(|r: Record| truncated(r)));
    }
}

} // verus!
