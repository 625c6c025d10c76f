//! The transfer engine's decisions and its behaviour over the store
//! model: chunk planning for uploads and downloads, move, copy, and
//! recursive removal, reading an object as text, and the existence and
//! directory tests.
//!
//! Remote calls themselves are I/O and live with the caller; everything
//! here is either a pure decision or the same operation run against the
//! in-memory store model.

use vstd::prelude::*;
use vstd::string::StrSliceExecFns;
use vstd::string::StringExecFns;
use vstd::utf8::decode_utf8;
use vstd::utf8::valid_utf8;

use crate::errors::CliError;
use crate::errors::ErrorKind;
use crate::keypath::normalize_dir_prefix;
use crate::keypath::normalize_dir_prefix_spec;
use crate::store::MemStore;
use crate::store::ObjectEntry;
use crate::store::store_contains;
use crate::store::store_delete;
use crate::store::store_listing;
use crate::store::store_put;
use crate::store::store_value;
use crate::store::find_key;
use crate::store::lemma_find_key;
use crate::store::lemma_find_key_is;
use crate::store::lemma_find_key_absent;
use crate::strutil::contains_substr;
use crate::strutil::spec_contains;

verus! {

// ---------------------------------------------------------------------
// Chunk planning
// ---------------------------------------------------------------------

/// The write ranges of a chunked transfer over `[offset, len)`: each
/// `chunk` bytes long except a shorter final one.
pub open spec fn chunk_ranges(offset: int, len: int, chunk: int) -> Seq<(int, int)>
    decreases len - offset,
{
    if offset >= len || chunk <= 0 {
        Seq::empty()
    } else {
        let end = if offset + chunk <= len {
            offset + chunk
        } else {
            len
        };
        seq![(offset, end)] + chunk_ranges(end, len, chunk)
    }
}

/// Chunk ranges tile `[offset, len)` without gaps: consecutive ranges
/// meet, each is non-empty and at most `chunk` long, and together they
/// run from `offset` to `len`. The range ends are the cumulative progress
/// counts a transfer reports, so progress is strictly increasing.
pub proof fn lemma_chunk_ranges_properties(offset: int, len: int, chunk: int)
    requires
        chunk >= 1,
    ensures
        ({
            let r = chunk_ranges(offset, len, chunk);
            &&& (r.len() > 0 <==> offset < len)
            &&& (r.len() > 0 ==> r[0].0 == offset && r[r.len() - 1].1 == len)
            &&& forall|i: int|
                0 <= i < r.len() ==> (#[trigger] r[i]).0 < r[i].1 <= len && r[i].1 - r[i].0
                    <= chunk
            &&& forall|i: int| 0 < i < r.len() ==> (#[trigger] r[i]).0 == r[i - 1].1
        }),
    decreases len - offset,
{
    let r = chunk_ranges(offset, len, chunk);
    if offset < len {
        let end = if offset + chunk <= len {
            offset + chunk
        } else {
            len
        };
        lemma_chunk_ranges_properties(end, len, chunk);
        let rest = chunk_ranges(end, len, chunk);
        assert forall|i: int| 0 < i < r.len() implies (#[trigger] r[i]).0 == r[i - 1].1 by {
            if i == 1 {
                if rest.len() > 0 {
                    assert(r[1] == rest[0]);
                }
            } else {
                assert(r[i] == rest[i - 1]);
                assert(r[i - 1] == rest[i - 2]);
            }
        }
        if rest.len() > 0 {
            assert(r[r.len() - 1] == rest[rest.len() - 1]);
        }
    }
}

/// The chunked write plan for a body of `len` bytes: the ranges to write
/// in order, as `chunk_ranges` states. A download fetches the whole body
/// in one call; this plan only governs local write granularity and the
/// cadence of progress reports.
pub fn download_write_plan(len: usize, chunk_size: usize) -> (r: Vec<(usize, usize)>)
    requires
        chunk_size >= 1,
    ensures
        r@.map_values(|t: (usize, usize)| (t.0 as int, t.1 as int)) == chunk_ranges(
            0,
            len as int,
            chunk_size as int,
        ),
{
    let mut r: Vec<(usize, usize)> = Vec::new();
    let mut offset: usize = 0;
    proof {
        assert(r@.map_values(|t: (usize, usize)| (t.0 as int, t.1 as int)) + chunk_ranges(
            0,
            len as int,
            chunk_size as int,
        ) =~= chunk_ranges(0, len as int, chunk_size as int));
    }
    while offset < len
        invariant
            offset <= len,
            chunk_size >= 1,
            chunk_ranges(0, len as int, chunk_size as int) == r@.map_values(
                |t: (usize, usize)| (t.0 as int, t.1 as int),
            ) + chunk_ranges(offset as int, len as int, chunk_size as int),
        decreases len - offset,
    {
        let end = if len - offset >= chunk_size {
            offset + chunk_size
        } else {
            len
        };
        r.push((offset, end));
        proof {
            let mapped = r@.map_values(|t: (usize, usize)| (t.0 as int, t.1 as int));
            assert(mapped =~= mapped.drop_last().push((offset as int, end as int)));
            assert(chunk_ranges(offset as int, len as int, chunk_size as int) == seq![
                (offset as int, end as int),
            ] + chunk_ranges(end as int, len as int, chunk_size as int));
            assert(mapped.drop_last() + (seq![(offset as int, end as int)] + chunk_ranges(
                end as int,
                len as int,
                chunk_size as int,
            )) =~= mapped + chunk_ranges(end as int, len as int, chunk_size as int));
        }
        offset = end;
    }
    r
}

/// One step of a chunked upload, after a read handed back `n` bytes.
/// Every chunk is put at the same destination key, so the body written
/// last is what the object finally holds; the step only advances the
/// cumulative progress count — which never decreases — and decides
/// whether the loop goes on: it stops on an empty read, a short read, or
/// once the count reaches the file size.
pub fn upload_progress_step(uploaded: u64, n: usize, chunk_size: usize, file_size: u64) -> (r: (
    u64,
    bool,
))
    requires
        uploaded + n as u64 <= u64::MAX,
    ensures
        r.0 == uploaded + n as u64,
        r.0 >= uploaded,
        r.1 == (n != 0 && n >= chunk_size && r.0 < file_size),
{
    let next = uploaded + n as u64;
    (next, n != 0 && n >= chunk_size && next < file_size)
}

// ---------------------------------------------------------------------
// Reading an object as text
// ---------------------------------------------------------------------

/// Relies on `String::from_utf8`: it returns the decoded string exactly
/// when the bytes are valid UTF-8, and refuses anything else.
#[verifier::external_body]
fn utf8_to_string(bytes: Vec<u8>) -> (r: Option<String>)
    ensures
        match r {
            Option::Some(s) => valid_utf8(bytes@) && s@ == decode_utf8(bytes@),
            Option::None => !valid_utf8(bytes@),
        },
{
    match String::from_utf8(bytes) {
        Ok(s) => Option::Some(s),
        Err(_) => Option::None,
    }
}

/// Interprets an object body as UTF-8 text; anything else is an encoding
/// error.
pub fn cat_decode(bytes: Vec<u8>) -> (r: Result<String, CliError>)
    ensures
        match r {
            Result::Ok(s) => valid_utf8(bytes@) && s@ == decode_utf8(bytes@),
            Result::Err(e) => !valid_utf8(bytes@) && e.kind == ErrorKind::EncodingError,
        },
{
    match utf8_to_string(bytes) {
        Option::Some(s) => Result::Ok(s),
        Option::None => Result::Err(CliError::new(
            ErrorKind::EncodingError,
            String::from_str("Content is not valid UTF-8"),
        )),
    }
}

/// Fetches an object and interprets its body as UTF-8 text.
pub fn cat(store: &MemStore, key: &str) -> (r: Result<String, CliError>)
    requires
        store.wf(),
    ensures
        match r {
            Result::Ok(s) => {
                &&& store_contains(store@, key@)
                &&& valid_utf8(store_value(store@, key@))
                &&& s@ == decode_utf8(store_value(store@, key@))
            },
            Result::Err(e) => {
                ||| (!store_contains(store@, key@) && e.kind == ErrorKind::GatewayError)
                ||| (store_contains(store@, key@) && !valid_utf8(store_value(store@, key@))
                    && e.kind == ErrorKind::EncodingError)
            },
        },
{
    match store.get(key) {
        Result::Ok(bytes) => cat_decode(bytes),
        Result::Err(e) => Result::Err(e),
    }
}

// ---------------------------------------------------------------------
// Existence and directory tests
// ---------------------------------------------------------------------

/// The existence decision over the outcome of a get probe: success means
/// present, a gateway error whose message carries `404` means absent, and
/// any other error propagates.
pub fn exists_decision(probe: Result<Vec<u8>, CliError>) -> (r: Result<bool, CliError>)
    ensures
        match probe {
            Result::Ok(_) => r matches Result::Ok(b) && b,
            Result::Err(e) => {
                if spec_contains(e.message@, seq!['4', '0', '4']) {
                    r matches Result::Ok(b) && !b
                } else {
                    r matches Result::Err(e2) && e2.kind == e.kind && e2.message@ == e.message@
                }
            },
        },
{
    match probe {
        Result::Ok(_) => Result::Ok(true),
        Result::Err(e) => {
            proof {
                reveal_strlit("404");
                assert("404"@ =~= seq!['4', '0', '4']);
            }
            if contains_substr(e.message.as_str(), "404") {
                Result::Ok(false)
            } else {
                Result::Err(e)
            }
        },
    }
}

/// Whether an object exists: a get probe, with a `404`-flavoured failure
/// read as a definitive no.
pub fn is_exists(store: &MemStore, key: &str) -> (r: Result<bool, CliError>)
    requires
        store.wf(),
    ensures
        r matches Result::Ok(b) && b == store_contains(store@, key@),
{
    let probe = store.get(key);
    exists_decision(probe)
}

/// Whether any listed entry lies under the given (already normalised)
/// prefix — the directory test over a listing a gateway returned.
pub fn is_directory_listed(entries: &Vec<ObjectEntry>) -> (r: bool)
    ensures
        r == (entries@.len() > 0),
{
    entries.len() > 0
}

/// The listing under a path taken as a directory: the path is normalised
/// to a prefix and the store is asked for everything under it.
pub fn list_dir(store: &MemStore, path: &str) -> (r: Vec<ObjectEntry>)
    requires
        store.wf(),
    ensures
        r@.map_values(|e: ObjectEntry| e@) == store_listing(
            store@,
            normalize_dir_prefix_spec(path@),
        ),
{
    let prefix = normalize_dir_prefix(path);
    store.list(prefix.as_str())
}

/// Whether a path denotes a directory: some key lies under its
/// normalised prefix. Every non-empty prefix counts as a directory; no
/// marker object is required.
pub fn is_directory(store: &MemStore, path: &str) -> (r: bool)
    requires
        store.wf(),
    ensures
        r == (store_listing(store@, normalize_dir_prefix_spec(path@)).len() > 0),
{
    let entries = list_dir(store, path);
    proof {
        assert(entries@.map_values(|e: ObjectEntry| e@).len() == entries@.len());
    }
    is_directory_listed(&entries)
}

/// The keys under a path taken as a directory, in listing order.
pub fn list_objects_recursive(store: &MemStore, prefix: &str) -> (r: Vec<String>)
    requires
        store.wf(),
    ensures
        r@.map_values(|k: String| k@) == store_listing(
            store@,
            normalize_dir_prefix_spec(prefix@),
        ).map_values(|e: (Seq<char>, u64)| e.0),
{
    let entries = list_dir(store, prefix);
    let ghost listed = store_listing(store@, normalize_dir_prefix_spec(prefix@));
    let mut r: Vec<String> = Vec::new();
    let n = entries.len();
    let mut i: usize = 0;
    while i < n
        invariant
            i <= n,
            n == entries@.len(),
            entries@.map_values(|e: ObjectEntry| e@) == listed,
            r@.map_values(|k: String| k@) == listed.map_values(|e: (Seq<char>, u64)| e.0).take(
                i as int,
            ),
        decreases n - i,
    {
        proof {
            assert(entries@[i as int]@ == listed[i as int]);
        }
        let ghost prev = r@;
        r.push(entries[i].key.clone());
        proof {
            let keys_l = listed.map_values(|e: (Seq<char>, u64)| e.0);
            assert(r@ == prev.push(entries@[i as int].key));
            assert(r@.map_values(|k: String| k@) =~= prev.map_values(|k: String| k@).push(
                entries@[i as int].key@,
            ));
            assert(entries@[i as int].key@ == keys_l[i as int]);
            assert(keys_l.take(i as int).push(keys_l[i as int]) =~= keys_l.take(i + 1));
        }
        i += 1;
    }
    proof {
        assert(listed.map_values(|e: (Seq<char>, u64)| e.0).take(n as int) =~= listed.map_values(
            |e: (Seq<char>, u64)| e.0,
        ));
    }
    r
}

// ---------------------------------------------------------------------
// Move, copy, remove
// ---------------------------------------------------------------------

/// Writing under `d` keeps every key and adds `d`.
proof fn lemma_store_put_contains(m: Seq<(Seq<char>, Seq<u8>)>, d: Seq<char>, v: Seq<u8>, k: Seq<char>)
    ensures
        store_contains(store_put(m, d, v), k) == (store_contains(m, k) || k == d),
{
    lemma_find_key(m, k);
    lemma_find_key(m, d);
    let m2 = store_put(m, d, v);
    if store_contains(m, d) {
        let i = find_key(m, d);
        if store_contains(m, k) {
            let j = find_key(m, k);
            if j == i {
                assert(m2[j].0 == k);
                lemma_find_key_is(m2, k, j);
            } else {
                assert(m2[j].0 == k);
                assert forall|a: int| 0 <= a < j implies m2[a].0 != k by {
                    if a != i {
                        assert(m2[a] == m[a]);
                    } else {
                        assert(m2[a].0 == d);
                        assert(m[i].0 == d);
                        assert(m[j].0 == k);
                        assert(find_key(m, k) == j);
                        if d == k {
                            assert(m[a].0 == k);
                        }
                    }
                }
                lemma_find_key_is(m2, k, j);
            }
        } else {
            if k == d {
                assert(m2[i].0 == k);
                assert forall|a: int| 0 <= a < i implies m2[a].0 != k by {
                    assert(m2[a] == m[a]);
                }
                lemma_find_key_is(m2, k, i);
            } else {
                assert forall|a: int| 0 <= a < m2.len() implies m2[a].0 != k by {
                    if a == i {
                        assert(m2[a].0 == d);
                    } else {
                        assert(m2[a] == m[a]);
                    }
                }
                lemma_find_key_absent(m2, k);
            }
        }
    } else {
        if store_contains(m, k) {
            let j = find_key(m, k);
            assert(m2[j] == m[j]);
            assert forall|a: int| 0 <= a < j implies m2[a].0 != k by {
                assert(m2[a] == m[a]);
            }
            lemma_find_key_is(m2, k, j);
        } else {
            if k == d {
                assert(m2[m.len() as int].0 == k);
                assert forall|a: int| 0 <= a < m.len() implies m2[a].0 != k by {
                    assert(m2[a] == m[a]);
                }
                lemma_find_key_is(m2, k, m.len() as int);
            } else {
                assert forall|a: int| 0 <= a < m2.len() implies m2[a].0 != k by {
                    if a < m.len() {
                        assert(m2[a] == m[a]);
                    }
                }
                lemma_find_key_absent(m2, k);
            }
        }
    }
}

/// The store after a move: the source's body written under the
/// destination, then the source key deleted. Moving a key onto itself
/// therefore deletes it.
pub open spec fn move_result(m: Seq<(Seq<char>, Seq<u8>)>, s: Seq<char>, d: Seq<char>) -> Seq<
    (Seq<char>, Seq<u8>),
> {
    store_delete(store_put(m, d, store_value(m, s)), s)
}

/// Moves an object: fetch the whole body, write it at the destination,
/// delete the source. Not atomic — the contract only speaks of the
/// outcome when every step answered.
pub fn run_move(store: &mut MemStore, source: &str, destination: &str) -> (r: Result<
    (),
    CliError,
>)
    requires
        old(store).wf(),
    ensures
        final (store).wf(),
        match r {
            Result::Ok(()) => {
                &&& store_contains(old(store)@, source@)
                &&& final (store)@ == move_result(old(store)@, source@, destination@)
            },
            Result::Err(e) => {
                &&& !store_contains(old(store)@, source@)
                &&& final (store)@ == old(store)@
                &&& e.kind == ErrorKind::GatewayError
            },
        },
{
    let data = match store.get(source) {
        Result::Ok(v) => v,
        Result::Err(e) => {
            return Result::Err(e);
        },
    };
    store.put(destination, data);
    proof {
        lemma_store_put_contains(old(store)@, destination@, store_value(old(store)@, source@), source@);
    }
    match store.delete(source) {
        Result::Ok(()) => Result::Ok(()),
        Result::Err(e) => {
            proof {
                // unreachable: the put above leaves the source key present
                assert(false);
            }
            Result::Err(e)
        },
    }
}

/// Copies an object: fetch the whole body, write it at the destination;
/// the source stays.
pub fn run_copy(store: &mut MemStore, source: &str, destination: &str) -> (r: Result<
    (),
    CliError,
>)
    requires
        old(store).wf(),
    ensures
        final (store).wf(),
        match r {
            Result::Ok(()) => {
                &&& store_contains(old(store)@, source@)
                &&& final (store)@ == store_put(
                    old(store)@,
                    destination@,
                    store_value(old(store)@, source@),
                )
            },
            Result::Err(e) => {
                &&& !store_contains(old(store)@, source@)
                &&& final (store)@ == old(store)@
                &&& e.kind == ErrorKind::GatewayError
            },
        },
{
    let data = match store.get(source) {
        Result::Ok(v) => v,
        Result::Err(e) => {
            return Result::Err(e);
        },
    };
    store.put(destination, data);
    Result::Ok(())
}

/// The store after the first `n` of the given deletes, each of which
/// succeeded.
pub open spec fn deletes_applied(
    m: Seq<(Seq<char>, Seq<u8>)>,
    keys: Seq<Seq<char>>,
    n: int,
) -> Seq<(Seq<char>, Seq<u8>)>
    decreases n,
{
    if n <= 0 {
        m
    } else {
        store_delete(deletes_applied(m, keys, n - 1), keys[n - 1])
    }
}

/// Deletes the given keys in order, stopping at the first failure.
/// Returns how many deletes succeeded; on failure that many deletes and
/// one failing call were issued, and the keys after the failing one were
/// never attempted.
pub fn run_deletes(store: &mut MemStore, keys: &Vec<String>) -> (r: (usize, Result<(), CliError>))
    requires
        old(store).wf(),
    ensures
        final (store).wf(),
        r.0 <= keys@.len(),
        ({
            let kv = keys@.map_values(|k: String| k@);
            &&& final (store)@ == deletes_applied(old(store)@, kv, r.0 as int)
            &&& forall|j: int|
                0 <= j < r.0 ==> store_contains(
                    deletes_applied(old(store)@, kv, j),
                    kv[j],
                )
            &&& match r.1 {
                Result::Ok(()) => r.0 == kv.len(),
                Result::Err(e) => {
                    &&& r.0 < kv.len()
                    &&& !store_contains(deletes_applied(old(store)@, kv, r.0 as int), kv[r.0 as int])
                    &&& e.kind == ErrorKind::GatewayError
                },
            }
        }),
{
    let ghost kv = keys@.map_values(|k: String| k@);
    let n = keys.len();
    let mut i: usize = 0;
    while i < n
        invariant
            i <= n,
            n == keys@.len(),
            kv == keys@.map_values(|k: String| k@),
            store.wf(),
            store@ == deletes_applied(old(store)@, kv, i as int),
            forall|j: int|
                0 <= j < i ==> store_contains(deletes_applied(old(store)@, kv, j), kv[j]),
        decreases n - i,
    {
        proof {
            assert(kv[i as int] == keys@[i as int]@);
        }
        match store.delete(keys[i].as_str()) {
            Result::Ok(()) => {},
            Result::Err(e) => {
                return (i, Result::Err(e));
            },
        }
        i += 1;
    }
    (n, Result::Ok(()))
}

/// Recursive removal: list every key under the normalised prefix, then
/// delete them in listing order, stopping at the first failure.
pub fn remove_recursive(store: &mut MemStore, path: &str) -> (r: (usize, Result<(), CliError>))
    requires
        old(store).wf(),
    ensures
        final (store).wf(),
        ({
            let kv = store_listing(old(store)@, normalize_dir_prefix_spec(path@)).map_values(
                |e: (Seq<char>, u64)| e.0,
            );
            &&& r.0 <= kv.len()
            &&& final (store)@ == deletes_applied(old(store)@, kv, r.0 as int)
            &&& forall|j: int|
                0 <= j < r.0 ==> store_contains(deletes_applied(old(store)@, kv, j), kv[j])
            &&& match r.1 {
                Result::Ok(()) => r.0 == kv.len(),
                Result::Err(e) => {
                    &&& r.0 < kv.len()
                    &&& !store_contains(deletes_applied(old(store)@, kv, r.0 as int), kv[r.0 as int])
                    &&& e.kind == ErrorKind::GatewayError
                },
            }
        }),
{
    let keys = list_objects_recursive(store, path);
    run_deletes(store, &keys)
}

} // verus!
