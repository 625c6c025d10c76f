//! An in-memory model of the object-store gateway: a flat map from keys
//! to byte bodies with the gateway's narrow interface — list by prefix,
//! get, put, delete, and size query. An absent key surfaces as a gateway
//! error whose message carries the `404` convention, as the remote store
//! does.

use vstd::prelude::*;
use vstd::string::StrSliceExecFns;
use vstd::string::StringExecFns;

use crate::errors::CliError;
use crate::errors::ErrorKind;
use crate::strutil::is_prefix_of;
use crate::strutil::spec_contains;
use crate::strutil::str_eq;

verus! {

/// One listed object: its key and its size in bytes.
pub struct ObjectEntry {
    pub key: String,
    pub size: u64,
}

impl View for ObjectEntry {
    type V = (Seq<char>, u64);

    open spec fn view(&self) -> (Seq<char>, u64) {
        (self.key@, self.size)
    }
}

/// Index of the first entry with key `k`, or `-1` when absent.
pub open spec fn find_key(m: Seq<(Seq<char>, Seq<u8>)>, k: Seq<char>) -> int
    decreases m.len(),
{
    if m.len() == 0 {
        -1
    } else if m[0].0 == k {
        0
    } else {
        let r = find_key(m.drop_first(), k);
        if r == -1 {
            -1
        } else {
            1 + r
        }
    }
}

pub open spec fn store_contains(m: Seq<(Seq<char>, Seq<u8>)>, k: Seq<char>) -> bool {
    find_key(m, k) >= 0
}

/// The body stored under `k`.
pub open spec fn store_value(m: Seq<(Seq<char>, Seq<u8>)>, k: Seq<char>) -> Seq<u8> {
    m[find_key(m, k)].1
}

/// The store after writing `v` under `k`: the entry replaced in place, or
/// appended when the key is new.
pub open spec fn store_put(m: Seq<(Seq<char>, Seq<u8>)>, k: Seq<char>, v: Seq<u8>) -> Seq<
    (Seq<char>, Seq<u8>),
> {
    if store_contains(m, k) {
        m.update(find_key(m, k), (k, v))
    } else {
        m.push((k, v))
    }
}

/// The store after deleting `k` (which must be present).
pub open spec fn store_delete(m: Seq<(Seq<char>, Seq<u8>)>, k: Seq<char>) -> Seq<
    (Seq<char>, Seq<u8>),
> {
    m.remove(find_key(m, k))
}

pub proof fn lemma_find_key(m: Seq<(Seq<char>, Seq<u8>)>, k: Seq<char>)
    ensures
        -1 <= find_key(m, k) < m.len(),
        find_key(m, k) >= 0 ==> m[find_key(m, k)].0 == k,
        find_key(m, k) == -1 ==> forall|i: int| 0 <= i < m.len() ==> m[i].0 != k,
        forall|i: int| 0 <= i < find_key(m, k) ==> m[i].0 != k,
    decreases m.len(),
{
    if m.len() == 0 {
    } else if m[0].0 == k {
    } else {
        lemma_find_key(m.drop_first(), k);
        assert forall|i: int| 1 <= i < m.len() implies m.drop_first()[i - 1] == m[i] by {}
    }
}

/// `find_key` is pinned down by its characterisation.
pub proof fn lemma_find_key_is(m: Seq<(Seq<char>, Seq<u8>)>, k: Seq<char>, i: int)
    requires
        0 <= i < m.len(),
        m[i].0 == k,
        forall|j: int| 0 <= j < i ==> m[j].0 != k,
    ensures
        find_key(m, k) == i,
    decreases m.len(),
{
    if m[0].0 == k {
        assert(i == 0);
    } else {
        assert(i > 0);
        lemma_find_key_is(m.drop_first(), k, i - 1);
    }
}

pub proof fn lemma_find_key_absent(m: Seq<(Seq<char>, Seq<u8>)>, k: Seq<char>)
    requires
        forall|j: int| 0 <= j < m.len() ==> m[j].0 != k,
    ensures
        find_key(m, k) == -1,
    decreases m.len(),
{
    if m.len() > 0 {
        lemma_find_key_absent(m.drop_first(), k);
    }
}

/// Whether `p` is a prefix of `k`.
pub open spec fn is_key_prefix(p: Seq<char>, k: Seq<char>) -> bool {
    p.len() <= k.len() && k.subrange(0, p.len() as int) == p
}

/// The listing of a store under a prefix: the matching entries in store
/// order, each with its key and size.
pub open spec fn store_listing(m: Seq<(Seq<char>, Seq<u8>)>, p: Seq<char>) -> Seq<(Seq<char>, u64)>
    decreases m.len(),
{
    if m.len() == 0 {
        Seq::empty()
    } else {
        let rest = store_listing(m.drop_first(), p);
        if is_key_prefix(p, m[0].0) {
            seq![(m[0].0, m[0].1.len() as u64)] + rest
        } else {
            rest
        }
    }
}

pub proof fn lemma_store_listing_push(
    m: Seq<(Seq<char>, Seq<u8>)>,
    kv: (Seq<char>, Seq<u8>),
    p: Seq<char>,
)
    ensures
        store_listing(m.push(kv), p) == store_listing(m, p) + (if is_key_prefix(p, kv.0) {
            seq![(kv.0, kv.1.len() as u64)]
        } else {
            Seq::<(Seq<char>, u64)>::empty()
        }),
    decreases m.len(),
{
    let tail: Seq<(Seq<char>, u64)> = if is_key_prefix(p, kv.0) {
        seq![(kv.0, kv.1.len() as u64)]
    } else {
        Seq::empty()
    };
    if m.len() == 0 {
        assert(m.push(kv)[0] == kv);
        assert(m.push(kv).drop_first() =~= Seq::<(Seq<char>, Seq<u8>)>::empty());
        assert(store_listing(m.push(kv).drop_first(), p) =~= Seq::<(Seq<char>, u64)>::empty());
        assert(store_listing(m, p) + tail =~= tail);
        if is_key_prefix(p, kv.0) {
            assert(seq![(kv.0, kv.1.len() as u64)] + Seq::<(Seq<char>, u64)>::empty() =~= tail);
        }
        assert(store_listing(m.push(kv), p) =~= store_listing(m, p) + tail);
    } else {
        lemma_store_listing_push(m.drop_first(), kv, p);
        assert(m.push(kv).drop_first() =~= m.drop_first().push(kv));
        assert(m.push(kv)[0] == m[0]);
        assert(store_listing(m.push(kv).drop_first(), p) == store_listing(m.drop_first(), p)
            + tail);
        if is_key_prefix(p, m[0].0) {
            assert(store_listing(m.push(kv), p) == seq![(m[0].0, m[0].1.len() as u64)] + (
            store_listing(m.drop_first(), p) + tail));
            assert(seq![(m[0].0, m[0].1.len() as u64)] + (store_listing(m.drop_first(), p) + tail)
                =~= (seq![(m[0].0, m[0].1.len() as u64)] + store_listing(m.drop_first(), p)) + tail);
        }
        assert(store_listing(m.push(kv), p) =~= store_listing(m, p) + tail);
    }
}

/// The in-memory store.
pub struct MemStore {
    objects: Vec<(String, Vec<u8>)>,
}

impl View for MemStore {
    type V = Seq<(Seq<char>, Seq<u8>)>;

    closed spec fn view(&self) -> Seq<(Seq<char>, Seq<u8>)> {
        self.objects@.map_values(|kv: (String, Vec<u8>)| (kv.0@, kv.1@))
    }
}

impl MemStore {
    /// Well-formed: no key occurs twice.
    pub open spec fn wf(&self) -> bool {
        forall|i: int, j: int|
            0 <= i < j < self@.len() ==> self@[i].0 != self@[j].0
    }

    /// An empty store.
    pub fn new() -> (r: MemStore)
        ensures
            r.wf(),
            r@ == Seq::<(Seq<char>, Seq<u8>)>::empty(),
    {
        let r = MemStore { objects: Vec::new() };
        proof {
            assert(r@ =~= Seq::<(Seq<char>, Seq<u8>)>::empty());
        }
        r
    }

    /// Index of the entry holding `key`, if any.
    fn position_of(&self, key: &str) -> (r: Option<usize>)
        ensures
            match r {
                Option::Some(i) => i < self@.len() && find_key(self@, key@) == i as int,
                Option::None => find_key(self@, key@) == -1,
            },
    {
        let n = self.objects.len();
        let mut i: usize = 0;
        while i < n
            invariant
                i <= n,
                n == self.objects@.len(),
                self@.len() == n,
                forall|j: int| 0 <= j < i ==> self@[j].0 != key@,
            decreases n - i,
        {
            proof {
                assert(self@[i as int].0 == self.objects@[i as int].0@);
            }
            if str_eq(self.objects[i].0.as_str(), key) {
                proof {
                    lemma_find_key_is(self@, key@, i as int);
                }
                return Option::Some(i);
            }
            i += 1;
        }
        proof {
            lemma_find_key_absent(self@, key@);
        }
        Option::None
    }

    /// Writes `value` under `key`, replacing any previous body.
    pub fn put(&mut self, key: &str, value: Vec<u8>)
        requires
            old(self).wf(),
        ensures
            final(self).wf(),
            final(self)@ == store_put(old(self)@, key@, value@),
    {
        proof {
            lemma_find_key(self@, key@);
        }
        let pos = self.position_of(key);
        match pos {
            Option::Some(i) => {
                let owned = key.to_owned();
                self.objects.set(i, (owned, value));
                proof {
                    assert(self@ =~= store_put(old(self)@, key@, value@));
                    assert forall|a: int, b: int|
                        0 <= a < b < self@.len() implies self@[a].0 != self@[b].0 by {
                        assert(old(self)@[a].0 != old(self)@[b].0);
                    }
                }
            },
            Option::None => {
                let owned = key.to_owned();
                self.objects.push((owned, value));
                proof {
                    assert(self@ =~= store_put(old(self)@, key@, value@));
                    assert forall|a: int, b: int|
                        0 <= a < b < self@.len() implies self@[a].0 != self@[b].0 by {
                        if b < self@.len() - 1 {
                            assert(old(self)@[a].0 != old(self)@[b].0);
                        } else {
                            assert(old(self)@[a].0 != key@);
                        }
                    }
                }
            },
        }
    }

    /// Reads the body stored under `key`; an absent key is a gateway
    /// error whose message carries the `404` convention.
    pub fn get(&self, key: &str) -> (r: Result<Vec<u8>, CliError>)
        requires
            self.wf(),
        ensures
            match r {
                Result::Ok(v) => store_contains(self@, key@) && v@ == store_value(self@, key@),
                Result::Err(e) => {
                    &&& !store_contains(self@, key@)
                    &&& e.kind == ErrorKind::GatewayError
                    &&& spec_contains(e.message@, seq!['4', '0', '4'])
                },
            },
    {
        proof {
            lemma_find_key(self@, key@);
        }
        let pos = self.position_of(key);
        match pos {
            Option::Some(i) => {
                proof {
                    assert(self@[i as int].1 == self.objects@[i as int].1@);
                }
                Result::Ok(clone_bytes(&self.objects[i].1))
            },
            Option::None => Result::Err(not_found_error(key)),
        }
    }

    /// The size of the body stored under `key`, by metadata alone.
    pub fn head_size(&self, key: &str) -> (r: Result<u64, CliError>)
        requires
            self.wf(),
        ensures
            match r {
                Result::Ok(n) => store_contains(self@, key@) && n as int == store_value(
                    self@,
                    key@,
                ).len() as int,
                Result::Err(e) => {
                    &&& !store_contains(self@, key@)
                    &&& e.kind == ErrorKind::GatewayError
                    &&& spec_contains(e.message@, seq!['4', '0', '4'])
                },
            },
    {
        proof {
            lemma_find_key(self@, key@);
        }
        let pos = self.position_of(key);
        match pos {
            Option::Some(i) => {
                proof {
                    assert(self@[i as int].1 == self.objects@[i as int].1@);
                }
                Result::Ok(self.objects[i].1.len() as u64)
            },
            Option::None => Result::Err(not_found_error(key)),
        }
    }

    /// Deletes the entry under `key`; an absent key is a gateway error
    /// whose message carries the `404` convention.
    pub fn delete(&mut self, key: &str) -> (r: Result<(), CliError>)
        requires
            old(self).wf(),
        ensures
            final(self).wf(),
            match r {
                Result::Ok(()) => {
                    &&& store_contains(old(self)@, key@)
                    &&& final(self)@ == store_delete(old(self)@, key@)
                },
                Result::Err(e) => {
                    &&& !store_contains(old(self)@, key@)
                    &&& final(self)@ == old(self)@
                    &&& e.kind == ErrorKind::GatewayError
                    &&& spec_contains(e.message@, seq!['4', '0', '4'])
                },
            },
    {
        proof {
            lemma_find_key(self@, key@);
        }
        let pos = self.position_of(key);
        match pos {
            Option::Some(i) => {
                self.objects.remove(i);
                proof {
                    assert(self@ =~= store_delete(old(self)@, key@));
                    assert forall|a: int, b: int|
                        0 <= a < b < self@.len() implies self@[a].0 != self@[b].0 by {
                        let aa = if a < i as int {
                            a
                        } else {
                            a + 1
                        };
                        let bb = if b < i as int {
                            b
                        } else {
                            b + 1
                        };
                        assert(old(self)@[aa].0 != old(self)@[bb].0);
                    }
                }
                Result::Ok(())
            },
            Option::None => Result::Err(not_found_error(key)),
        }
    }

    /// The entries whose keys start with `prefix`, in store order.
    pub fn list(&self, prefix: &str) -> (r: Vec<ObjectEntry>)
        requires
            self.wf(),
        ensures
            r@.map_values(|e: ObjectEntry| e@) == store_listing(self@, prefix@),
    {
        let n = self.objects.len();
        let mut r: Vec<ObjectEntry> = Vec::new();
        let mut i: usize = 0;
        proof {
            assert(self@.take(0) =~= Seq::<(Seq<char>, Seq<u8>)>::empty());
            assert(r@.map_values(|e: ObjectEntry| e@) =~= store_listing(self@.take(0), prefix@));
        }
        while i < n
            invariant
                i <= n,
                n == self.objects@.len(),
                self@.len() == n,
                self@ == self.objects@.map_values(|kv: (String, Vec<u8>)| (kv.0@, kv.1@)),
                r@.map_values(|e: ObjectEntry| e@) == store_listing(self@.take(i as int), prefix@),
            decreases n - i,
        {
            proof {
                assert(self@[i as int] == (self.objects@[i as int].0@, self.objects@[i as int].1@));
                assert(self@.take(i + 1) =~= self@.take(i as int).push(self@[i as int]));
                lemma_store_listing_push(self@.take(i as int), self@[i as int], prefix@);
            }
            if is_prefix_of(prefix, self.objects[i].0.as_str()) {
                let entry = ObjectEntry {
                    key: self.objects[i].0.clone(),
                    size: self.objects[i].1.len() as u64,
                };
                r.push(entry);
                proof {
                    assert(r@.map_values(|e: ObjectEntry| e@) =~= store_listing(
                        self@.take(i + 1),
                        prefix@,
                    ));
                }
            } else {
                proof {
                    assert(r@.map_values(|e: ObjectEntry| e@) =~= store_listing(
                        self@.take(i + 1),
                        prefix@,
                    ));
                }
            }
            i += 1;
        }
        proof {
            assert(self@.take(n as int) =~= self@);
        }
        r
    }
}

/// A fresh copy of a byte body.
fn clone_bytes(v: &Vec<u8>) -> (r: Vec<u8>)
    ensures
        r@ == v@,
{
    let mut r: Vec<u8> = Vec::new();
    let n = v.len();
    let mut i: usize = 0;
    while i < n
        invariant
            i <= n,
            n == v@.len(),
            r@ == v@.take(i as int),
        decreases n - i,
    {
        r.push(v[i]);
        proof {
            assert(r@ =~= v@.take(i + 1));
        }
        i += 1;
    }
    proof {
        assert(v@.take(n as int) =~= v@);
    }
    r
}

/// The gateway error for an absent key, message carrying the `404`
/// convention.
fn not_found_error(key: &str) -> (r: CliError)
    ensures
        r.kind == ErrorKind::GatewayError,
        spec_contains(r.message@, seq!['4', '0', '4']),
{
    let mut msg = String::from_str("404 object not found: ");
    msg.append(key);
    proof {
        reveal_strlit("404 object not found: ");
        reveal_strlit("404");
        assert(msg@.subrange(0, 3) =~= seq!['4', '0', '4']);
        assert(crate::strutil::contains_at(msg@, seq!['4', '0', '4'], 0));
    }
    CliError::new(ErrorKind::GatewayError, msg)
}

} // verus!
