//! The store: the authoritative key space, with write-through persistence
//! after every mutation.
use vstd::prelude::*;
use crate::error::FerrisError;
use crate::model::{
    expiry_after, expiry_secs, keys_unique, lemma_map_of_contains, lemma_map_of_index,
    lemma_map_of_len, lemma_map_of_push, lemma_map_of_remove, lemma_map_of_truncated, lists_keys,
    map_of, new_record, opt_int, record_in_range, secs_of, truncated, ttl_report, Record,
    MAX_INSTANT, NANOS_PER_SEC,
};
use crate::persistence::{PersistedEntry, Persistence};

verus! {

/// The entry held under one key: its value and, when it expires, the
/// absolute expiry in nanoseconds since the Unix epoch.
#[derive(Debug, Clone)]
pub struct StoreData {
    pub value: String,
    pub ttl: Option<u128>,
}

impl View for StoreData {
    type V = Record;

    open spec fn view(&self) -> Record {
        Record {
            value: self.value@,
            expiry: match self.ttl {
                Some(e) => Some(e as int),
                None => None,
            },
        }
    }
}

/// The expiry, if any, is a representable instant.
pub open spec fn expiry_in_range(d: StoreData) -> bool {
    match d.ttl {
        Some(e) => e <= MAX_INSTANT,
        None => true,
    }
}

/// The map that a sequence of persisted entries loads as.
pub open spec fn restored(es: Seq<PersistedEntry>) -> Map<Seq<char>, Record> {
    map_of(Seq::new(es.len(), |i: int| (es[i].key@, persisted_record(es[i]))))
}

/// The record that one persisted entry loads as.
pub open spec fn persisted_record(e: PersistedEntry) -> Record {
    Record {
        value: e.value@,
        expiry: match e.ttl {
            Some(s) => Some(s * NANOS_PER_SEC),
            None => None,
        },
    }
}

/// Relies on `SystemTime::elapsed` on the Unix epoch: the wall clock as a
/// duration since the epoch, or an error when the clock is set before it.
/// A `Duration` holds at most `u64::MAX` seconds and a sub-second part.
#[verifier::external_body]
fn clock_nanos() -> (r: Option<u128>)
    ensures
        r matches Some(n) ==> n <= MAX_INSTANT,
{
    match std::time::UNIX_EPOCH.elapsed() {
        Ok(d) => Some(d.as_nanos()),
        Err(_) => None,
    }
}

/// The current instant in nanoseconds since the Unix epoch; a clock set
/// before the epoch reads as the epoch itself.
pub fn now_nanos() -> (r: u128)
    ensures
        r <= MAX_INSTANT,
{
    match clock_nanos() {
        Some(n) => n,
        None => 0,
    }
}

/// Computes the expiry that `ttl` seconds from `now` gives.
pub fn expiry_from(now: u128, ttl: u64) -> (r: u128)
    ensures
        r == expiry_after(now as int, ttl as int),
{
    assert((ttl as u128) * NANOS_PER_SEC <= u64::MAX as u128 * 1_000_000_000) by (nonlinear_arith);
    let span: u128 = (ttl as u128) * NANOS_PER_SEC;
    match now.checked_add(span) {
        Some(e) => if e > MAX_INSTANT {
            MAX_INSTANT
        } else {
            e
        },
        None => MAX_INSTANT,
    }
}

/// The key-value store. Every key maps to a value and an optional expiry;
/// each mutation is followed by saving the whole key space.
pub struct Store<P: Persistence> {
    data: Vec<(String, StoreData)>,
    persistence: P,
}

impl<P: Persistence> View for Store<P> {
    type V = Map<Seq<char>, Record>;

    closed spec fn view(&self) -> Map<Seq<char>, Record> {
        map_of(self.entries())
    }
}

impl<P: Persistence> Store<P> {
    spec fn entries(&self) -> Seq<(Seq<char>, Record)> {
        Seq::new(self.data@.len(), |i: int| (self.data@[i].0@, self.data@[i].1@))
    }

    /// Keys are unique and every expiry is a representable instant.
    pub closed spec fn wf(&self) -> bool {
        &&& keys_unique(self.entries())
        &&& forall|i: int|
            0 <= i < self.data@.len() ==> expiry_in_range(#[trigger] self.data@[i].1)
    }

    /// The entries that a save of this state hands to the gateway.
    pub closed spec fn persisted(&self) -> Seq<PersistedEntry> {
        Seq::new(
            self.data@.len(),
            |i: int|
                PersistedEntry {
                    key: self.data@[i].0,
                    value: self.data@[i].1.value,
                    ttl: match self.data@[i].1.ttl {
                        Some(e) => Some((e / NANOS_PER_SEC) as u64),
                        None => None,
                    },
                },
        )
    }

    proof fn lemma_view_facts(&self)
        requires
            self.wf(),
        ensures
            self@.dom().finite(),
            self@.len() == self.data@.len(),
            forall|i: int|
                0 <= i < self.data@.len() ==> #[trigger] self@.contains_key(self.data@[i].0@)
                    && self@[self.data@[i].0@] == self.data@[i].1@,
            forall|k: Seq<char>|
                #[trigger] self@.contains_key(k) ==> exists|i: int|
                    0 <= i < self.data@.len() && self.data@[i].0@ == k,
            forall|k: Seq<char>| #[trigger] self@.contains_key(k) ==> record_in_range(self@[k]),
    {
        let s = self.entries();
        lemma_map_of_len(s);
        assert forall|i: int| 0 <= i < self.data@.len() implies #[trigger] self@.contains_key(
            self.data@[i].0@,
        ) && self@[self.data@[i].0@] == self.data@[i].1@ by {
            lemma_map_of_index(s, i);
        }
        assert forall|k: Seq<char>| #[trigger] self@.contains_key(k) implies exists|i: int|
            0 <= i < self.data@.len() && self.data@[i].0@ == k by {
            lemma_map_of_contains(s, k);
            let i = choose|i: int| 0 <= i < s.len() && s[i].0 == k;
            assert(self.data@[i].0@ == k);
        }
        assert forall|k: Seq<char>| #[trigger] self@.contains_key(k) implies record_in_range(
            self@[k],
        ) by {
            lemma_map_of_contains(s, k);
            let i = choose|i: int| 0 <= i < s.len() && s[i].0 == k;
            lemma_map_of_index(s, i);
            assert(expiry_in_range(self.data@[i].1));
        }
    }

    /// Position of `key` in the backing vector, if it is present.
    fn find(&self, key: &str) -> (r: Option<usize>)
        requires
            self.wf(),
        ensures
            match r {
                Some(i) => i < self.data@.len() && self.data@[i as int].0@ == key@,
                None => !self@.contains_key(key@),
            },
    {
        let k = key.to_owned();
        let mut i: usize = 0;
        while i < self.data.len()
            invariant
                0 <= i <= self.data@.len(),
                k@ == key@,
                forall|j: int| 0 <= j < i ==> self.data@[j].0@ != key@,
            decreases self.data@.len() - i,
        {
            if self.data[i].0 == k {
                return Some(i);
            }
            i = i + 1;
        }
        proof {
            self.lemma_view_facts();
        }
        None
    }

    fn contains_key(&self, key: &str) -> (r: bool)
        requires
            self.wf(),
        ensures
            r == self@.contains_key(key@),
    {
        proof {
            self.lemma_view_facts();
        }
        self.find(key).is_some()
    }

    /// Inserts or replaces the entry under `key`.
    fn put(&mut self, key: String, data: StoreData)
        requires
            old(self).wf(),
            expiry_in_range(data),
        ensures
            final(self).wf(),
            final(self)@ == old(self)@.insert(key@, data@),
    {
        match self.find(key.as_str()) {
            Some(i) => {
                let ghost s = self.entries();
                self.data.remove(i);
                proof {
                    lemma_map_of_remove(s, i as int);
                    assert(self.entries() =~= s.remove(i as int));
                }
            },
            None => {},
        }
        let ghost s = self.entries();
        let ghost pre = self.data@;
        self.data.push((key, data));
        proof {
            assert(self.entries() =~= s.push((key@, data@)));
            lemma_map_of_push(s, key@, data@);
            assert forall|j: int| 0 <= j < self.data@.len() implies expiry_in_range(
                #[trigger] self.data@[j].1,
            ) by {
                if j < pre.len() {
                    assert(self.data@[j] == pre[j]);
                }
            }
        }
    }

    /// The entries handed to the gateway on save: one per key, the expiry
    /// reduced to whole seconds.
    pub fn snapshot(&self) -> (r: Vec<PersistedEntry>)
        requires
            self.wf(),
        ensures
            r@ == self.persisted(),
            restored(r@) == self@.map_values(|x: Record| truncated(x)),
    {
        let mut r: Vec<PersistedEntry> = Vec::new();
        let mut i: usize = 0;
        while i < self.data.len()
            invariant
                self.wf(),
                0 <= i <= self.data@.len(),
                r@ =~= self.persisted().take(i as int),
            decreases self.data@.len() - i,
        {
            let ttl = match self.data[i].1.ttl {
                Some(e) => {
                    assert(expiry_in_range(self.data@[i as int].1));
                    assert(e / NANOS_PER_SEC <= u64::MAX as u128) by (nonlinear_arith)
                        requires
                            e <= MAX_INSTANT,
                    ;
                    Some((e / NANOS_PER_SEC) as u64)
                },
                None => None,
            };
            r.push(
                PersistedEntry {
                    key: self.data[i].0.clone(),
                    value: self.data[i].1.value.clone(),
                    ttl,
                },
            );
            i = i + 1;
        }
        proof {
            assert(r@ =~= self.persisted());
            self.lemma_round_trip(r@);
        }
        r
    }

    fn persist(&self) -> (r: Result<(), FerrisError>)
        requires
            self.wf(),
    {
        let snap = self.snapshot();
        self.persistence.save(&snap)
    }
}

/// The keys of a vector of key references, as mathematical values.
pub open spec fn key_seq(ks: Seq<&String>) -> Seq<Seq<char>> {
    Seq::new(ks.len(), |i: int| ks[i]@)
}

impl<P: Persistence> Store<P> {
    /// Creates a store over `persistence`, seeded with what it loads; a load
    /// that fails leaves the store empty.
    pub fn new(persistence: P) -> (r: Self)
        ensures
            r.wf(),
            r@ == Map::<Seq<char>, Record>::empty() || exists|es: Seq<PersistedEntry>|
                r@ == #[trigger] restored(es),
    {
        let loaded = persistence.load();
        let ghost g = loaded;
        let r = Self::from_loaded(persistence, loaded);
        proof {
            if let Ok(es) = g {
                assert(r@ == restored(es@));
            }
        }
        r
    }

    /// Creates a store over `persistence` from the outcome of a load: the
    /// loaded entries, a later entry for a key replacing an earlier one, or
    /// nothing when the load failed.
    pub fn from_loaded(persistence: P, loaded: Result<Vec<PersistedEntry>, FerrisError>) -> (r: Self)
        ensures
            r.wf(),
            r@ == match loaded {
                Ok(es) => restored(es@),
                Err(_) => Map::empty(),
            },
    {
        let mut store = Store { data: Vec::new(), persistence };
        proof {
            assert(store.entries() =~= Seq::empty());
        }
        match loaded {
            Ok(es) => {
                let mut i: usize = 0;
                while i < es.len()
                    invariant
                        0 <= i <= es@.len(),
                        store.wf(),
                        store@ == restored(es@.take(i as int)),
                    decreases es@.len() - i,
                {
                    let e = &es[i];
                    let ttl = match e.ttl {
                        Some(secs) => {
                            assert((secs as u128) * NANOS_PER_SEC <= u64::MAX as u128 * 1_000_000_000)
                                by (nonlinear_arith);
                            Some((secs as u128) * NANOS_PER_SEC)
                        },
                        None => None,
                    };
                    let data = StoreData { value: e.value.clone(), ttl };
                    store.put(e.key.clone(), data);
                    proof {
                        let t = es@.take(i as int);
                        let u = es@.take(i as int + 1);
                        let su = Seq::new(u.len(), |j: int| (u[j].key@, persisted_record(u[j])));
                        let st = Seq::new(t.len(), |j: int| (t[j].key@, persisted_record(t[j])));
                        assert(su.drop_last() =~= st);
                        assert(su.last() == (e.key@, data@));
                    }
                    i = i + 1;
                }
                proof {
                    assert(es@.take(es@.len() as int) =~= es@);
                }
            },
            Err(_) => {},
        }
        store
    }

    /// Inserts `key` with `value`, expiring `ttl` seconds after `now` when a
    /// time-to-live is given; fails when the key is already present.
    pub fn set_at(&mut self, key: String, value: String, ttl: Option<u64>, now: u128) -> (r: Result<
        (),
        FerrisError,
    >)
        requires
            old(self).wf(),
        ensures
            final(self).wf(),
            old(self)@.contains_key(key@) ==> final(self)@ == old(self)@ && (r matches Err(
                FerrisError::KeyExists(k),
            ) && k@ == key@),
            !old(self)@.contains_key(key@) ==> final(self)@ == old(self)@.insert(
                key@,
                new_record(value@, ttl, now as int),
            ),
    {
        if self.contains_key(key.as_str()) {
            return Err(FerrisError::KeyExists(key));
        }
        let expiry = match ttl {
            Some(t) => Some(expiry_from(now, t)),
            None => None,
        };
        self.put(key, StoreData { value, ttl: expiry });
        self.persist()
    }

    /// Inserts `key` with `value`, expiring `ttl` seconds from now when a
    /// time-to-live is given; fails when the key is already present.
    pub fn set(&mut self, key: String, value: String, ttl: Option<u64>) -> (r: Result<(), FerrisError>)
        requires
            old(self).wf(),
        ensures
            final(self).wf(),
            old(self)@.contains_key(key@) ==> final(self)@ == old(self)@ && (r matches Err(
                FerrisError::KeyExists(k),
            ) && k@ == key@),
            !old(self)@.contains_key(key@) ==> exists|now: int|
                0 <= now <= MAX_INSTANT && final(self)@ == old(self)@.insert(
                    key@,
                    new_record(value@, ttl, now),
                ),
    {
        let now = now_nanos();
        self.set_at(key, value, ttl, now)
    }

    /// The value under `key`, whether or not it has expired.
    pub fn get(&self, key: &str) -> (r: Result<&String, FerrisError>)
        requires
            self.wf(),
        ensures
            match r {
                Ok(v) => self@.contains_key(key@) && v@ == self@[key@].value,
                Err(e) => !self@.contains_key(key@) && (e matches FerrisError::KeyNotFound(k)
                    && k@ == key@),
            },
    {
        proof {
            self.lemma_view_facts();
        }
        match self.find(key) {
            Some(i) => {
                assert(self@.contains_key(self.data@[i as int].0@));
                Ok(&self.data[i].1.value)
            },
            None => Err(FerrisError::KeyNotFound(key.to_owned())),
        }
    }

    /// Removes `key`; fails when it is absent.
    pub fn delete(&mut self, key: &str) -> (r: Result<(), FerrisError>)
        requires
            old(self).wf(),
        ensures
            final(self).wf(),
            !old(self)@.contains_key(key@) ==> final(self)@ == old(self)@ && (r matches Err(
                FerrisError::KeyNotFound(k),
            ) && k@ == key@),
            old(self)@.contains_key(key@) ==> final(self)@ == old(self)@.remove(key@),
    {
        match self.find(key) {
            None => Err(FerrisError::KeyNotFound(key.to_owned())),
            Some(i) => {
                let ghost s = self.entries();
                proof {
                    self.lemma_view_facts();
                }
                self.data.remove(i);
                proof {
                    lemma_map_of_remove(s, i as int);
                    assert(self.entries() =~= s.remove(i as int));
                    assert forall|j: int| 0 <= j < self.data@.len() implies expiry_in_range(
                        #[trigger] self.data@[j].1,
                    ) by {
                        if j < i {
                            assert(self.data@[j] == old(self).data@[j]);
                        } else {
                            assert(self.data@[j] == old(self).data@[j + 1]);
                        }
                    }
                }
                self.persist()
            },
        }
    }

    /// All keys, each once, in no particular order.
    pub fn keys(&self) -> (r: Vec<&String>)
        requires
            self.wf(),
        ensures
            lists_keys(key_seq(r@), self@),
    {
        let mut r: Vec<&String> = Vec::new();
        let mut i: usize = 0;
        while i < self.data.len()
            invariant
                self.wf(),
                0 <= i <= self.data@.len(),
                key_seq(r@) =~= Seq::new(i as nat, |j: int| self.data@[j].0@),
            decreases self.data@.len() - i,
        {
            let ghost before = r@;
            r.push(&self.data[i].0);
            proof {
                assert(key_seq(r@) =~= key_seq(before).push(self.data@[i as int].0@));
            }
            i = i + 1;
        }
        proof {
            self.lemma_view_facts();
            let ks = key_seq(r@);
            assert(ks.no_duplicates()) by {
                assert forall|a: int, b: int| 0 <= a < ks.len() && 0 <= b < ks.len() && a != b
                    implies ks[a] != ks[b] by {
                    if a < b {
                        assert(self.entries()[a].0 != self.entries()[b].0);
                    } else {
                        assert(self.entries()[b].0 != self.entries()[a].0);
                    }
                }
            }
            assert forall|k: Seq<char>| #[trigger] ks.to_set().contains(k) <==> self@.dom().contains(k) by {
                if self@.contains_key(k) {
                    let j = choose|j: int| 0 <= j < self.data@.len() && self.data@[j].0@ == k;
                    assert(ks[j] == k);
                }
            }
            assert(ks.to_set() =~= self@.dom());
        }
        r
    }

    /// The number of keys, expired or not.
    pub fn count(&self) -> (r: usize)
        requires
            self.wf(),
        ensures
            r == self@.len(),
    {
        proof {
            self.lemma_view_facts();
        }
        self.data.len()
    }

    /// Removes every key, then saves the empty state.
    pub fn clear(&mut self) -> (r: Result<(), FerrisError>)
        requires
            old(self).wf(),
        ensures
            final(self).wf(),
            final(self)@ == Map::<Seq<char>, Record>::empty(),
    {
        self.data.clear();
        proof {
            assert(self.entries() =~= Seq::empty());
        }
        self.persist()
    }

    /// Moves the entry under `old_key`, value and expiry, to `new_key`; fails
    /// when `old_key` is absent or `new_key` is present.
    pub fn rename(&mut self, old_key: String, new_key: String) -> (r: Result<(), FerrisError>)
        requires
            old(self).wf(),
        ensures
            final(self).wf(),
            !old(self)@.contains_key(old_key@) ==> final(self)@ == old(self)@ && (r matches Err(
                FerrisError::KeyNotFound(k),
            ) && k@ == old_key@),
            old(self)@.contains_key(old_key@) && old(self)@.contains_key(new_key@) ==> final(self)@
                == old(self)@ && (r matches Err(FerrisError::KeyExists(k)) && k@ == new_key@),
            old(self)@.contains_key(old_key@) && !old(self)@.contains_key(new_key@)
                ==> final(self)@ == old(self)@.remove(old_key@).insert(
                new_key@,
                old(self)@[old_key@],
            ),
    {
        let i = match self.find(old_key.as_str()) {
            None => {
                return Err(FerrisError::KeyNotFound(old_key));
            },
            Some(i) => i,
        };
        proof {
            self.lemma_view_facts();
            assert(self@.contains_key(self.data@[i as int].0@));
        }
        if self.contains_key(new_key.as_str()) {
            return Err(FerrisError::KeyExists(new_key));
        }
        let ghost s = self.entries();
        proof {
            self.lemma_view_facts();
            assert(expiry_in_range(self.data@[i as int].1));
        }
        let (_, data) = self.data.remove(i);
        proof {
            lemma_map_of_remove(s, i as int);
            assert(self.entries() =~= s.remove(i as int));
            assert forall|j: int| 0 <= j < self.data@.len() implies expiry_in_range(
                #[trigger] self.data@[j].1,
            ) by {
                if j < i {
                    assert(self.data@[j] == old(self).data@[j]);
                } else {
                    assert(self.data@[j] == old(self).data@[j + 1]);
                }
            }
        }
        self.put(new_key, data);
        self.persist()
    }

    /// Sets the expiry of `key` to `ttl` seconds after `now`, replacing any
    /// earlier expiry; fails when the key is absent.
    pub fn expire_at(&mut self, key: String, ttl: u64, now: u128) -> (r: Result<(), FerrisError>)
        requires
            old(self).wf(),
        ensures
            final(self).wf(),
            !old(self)@.contains_key(key@) ==> final(self)@ == old(self)@ && (r matches Err(
                FerrisError::KeyNotFound(k),
            ) && k@ == key@),
            old(self)@.contains_key(key@) ==> final(self)@ == old(self)@.insert(
                key@,
                Record {
                    value: old(self)@[key@].value,
                    expiry: Some(expiry_after(now as int, ttl as int)),
                },
            ),
    {
        let i = match self.find(key.as_str()) {
            None => {
                return Err(FerrisError::KeyNotFound(key));
            },
            Some(i) => i,
        };
        proof {
            self.lemma_view_facts();
        }
        let value = self.data[i].1.value.clone();
        let expiry = expiry_from(now, ttl);
        self.put(key, StoreData { value, ttl: Some(expiry) });
        self.persist()
    }

    /// Sets the expiry of `key` to `ttl` seconds from now, replacing any
    /// earlier expiry; fails when the key is absent.
    pub fn expire(&mut self, key: String, ttl: u64) -> (r: Result<(), FerrisError>)
        requires
            old(self).wf(),
        ensures
            final(self).wf(),
            !old(self)@.contains_key(key@) ==> final(self)@ == old(self)@ && (r matches Err(
                FerrisError::KeyNotFound(k),
            ) && k@ == key@),
            old(self)@.contains_key(key@) ==> exists|now: int|
                0 <= now <= MAX_INSTANT && final(self)@ == old(self)@.insert(
                    key@,
                    Record {
                        value: old(self)@[key@].value,
                        expiry: Some(expiry_after(now, ttl as int)),
                    },
                ),
    {
        let now = now_nanos();
        self.expire_at(key, ttl, now)
    }

    /// The whole seconds left before `key` expires at instant `now`, clamped
    /// at zero, or nothing when the key never expires; fails when the key is
    /// absent.
    pub fn ttl_at(&self, key: &str, now: u128) -> (r: Result<Option<u64>, FerrisError>)
        requires
            self.wf(),
        ensures
            match r {
                Ok(t) => self@.contains_key(key@) && opt_int(t) == ttl_report(
                    self@[key@],
                    now as int,
                ),
                Err(e) => !self@.contains_key(key@) && (e matches FerrisError::KeyNotFound(k)
                    && k@ == key@),
            },
    {
        proof {
            self.lemma_view_facts();
        }
        let i = match self.find(key) {
            None => {
                return Err(FerrisError::KeyNotFound(key.to_owned()));
            },
            Some(i) => i,
        };
        assert(expiry_in_range(self.data@[i as int].1));
        assert(self@.contains_key(self.data@[i as int].0@));
        match self.data[i].1.ttl {
            None => Ok(None),
            Some(e) => {
                if e > now {
                    let left = e - now;
                    assert(left / NANOS_PER_SEC <= u64::MAX as u128) by (nonlinear_arith)
                        requires
                            left <= MAX_INSTANT,
                    ;
                    Ok(Some((left / NANOS_PER_SEC) as u64))
                } else {
                    Ok(Some(0))
                }
            },
        }
    }

    /// The whole seconds left before `key` expires, clamped at zero, or
    /// nothing when the key never expires; fails when the key is absent.
    pub fn ttl(&self, key: &str) -> (r: Result<Option<u64>, FerrisError>)
        requires
            self.wf(),
        ensures
            match r {
                Ok(t) => self@.contains_key(key@) && exists|now: int|
                    0 <= now <= MAX_INSTANT && opt_int(t) == ttl_report(self@[key@], now),
                Err(e) => !self@.contains_key(key@) && (e matches FerrisError::KeyNotFound(k)
                    && k@ == key@),
            },
    {
        let now = now_nanos();
        self.ttl_at(key, now)
    }
}

impl<P: Persistence> Store<P> {
    /// Saving a state and loading the saved entries into a fresh store gives
    /// back every key, with the same value and the same expiry to the whole
    /// second, and no other key.
    pub proof fn lemma_round_trip(&self, saved: Seq<PersistedEntry>)
        requires
            self.wf(),
            saved == self.persisted(),
        ensures
            restored(saved) == self@.map_values(|r: Record| truncated(r)),
            forall|k: Seq<char>| #[trigger]
                restored(saved).contains_key(k) == self@.contains_key(k),
            forall|k: Seq<char>| #[trigger]
                self@.contains_key(k) ==> restored(saved)[k].value == self@[k].value
                    && expiry_secs(restored(saved)[k]) == expiry_secs(self@[k]),
    {
        let s = self.entries();
        let u = Seq::new(saved.len(), |i: int| (saved[i].key@, persisted_record(saved[i])));
        assert forall|i: int| 0 <= i < s.len() implies #[trigger] u[i] == (
            s[i].0,
            truncated(s[i].1),
        ) by {
            assert(expiry_in_range(self.data@[i].1));
            match self.data@[i].1.ttl {
                Some(e) => {
                    assert(e / NANOS_PER_SEC <= u64::MAX as u128) by (nonlinear_arith)
                        requires
                            e <= MAX_INSTANT,
                    ;
                },
                None => {},
            }
        }
        assert(u =~= Seq::new(s.len(), |i: int| (s[i].0, truncated(s[i].1))));
        lemma_map_of_truncated(s);
        assert forall|k: Seq<char>| #[trigger] self@.contains_key(k) implies restored(saved)[k].value
            == self@[k].value && expiry_secs(restored(saved)[k]) == expiry_secs(self@[k]) by {
            match self@[k].expiry {
                Some(e) => {
                    let x = secs_of(e);
                    assert((x * 1_000_000_000) / 1_000_000_000 == x) by (nonlinear_arith);
                },
                None => {},
            }
        }
    }
}

} // verus!
