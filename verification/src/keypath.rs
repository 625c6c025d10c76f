//! Directory emulation over a flat object-key namespace: prefix
//! normalisation, destination joining, and relative-path computation.
//!
//! The store itself is flat; a trailing `/` on a key marks an emulated
//! directory, and every rule here is a pure function over the key text.

use vstd::prelude::*;
use vstd::string::StrSliceExecFns;
use vstd::string::StringExecFns;

use crate::strutil::is_prefix_of;
use crate::strutil::lemma_find_last_is;
use crate::strutil::lemma_trim_leading_is;
use crate::strutil::lemma_trim_trailing_is;
use crate::strutil::str_eq;
use crate::strutil::trim_leading;
use crate::strutil::trim_trailing;
use crate::strutil::find_last;

verus! {

/// The directory prefix of a path: a trailing `/` is appended when
/// missing, and the empty path stays the empty (root) prefix.
pub open spec fn normalize_dir_prefix_spec(p: Seq<char>) -> Seq<char> {
    if p.len() == 0 {
        p
    } else if p[p.len() - 1] == '/' {
        p
    } else {
        p.push('/')
    }
}

pub fn normalize_dir_prefix(path: &str) -> (r: String)
    ensures
        r@ == normalize_dir_prefix_spec(path@),
{
    let n = path.unicode_len();
    if n == 0 {
        String::new()
    } else if path.get_char(n - 1) == '/' {
        path.to_owned()
    } else {
        let mut s = path.to_owned();
        s.append("/");
        proof {
            reveal_strlit("/");
            assert(s@ =~= path@.push('/'));
        }
        s
    }
}

/// Normalising twice is the same as normalising once.
pub proof fn lemma_normalize_idempotent(p: Seq<char>)
    ensures
        normalize_dir_prefix_spec(normalize_dir_prefix_spec(p)) == normalize_dir_prefix_spec(p),
{
}

/// The destination rule for a single leaf: a base that is empty or ends
/// in `/` receives the leaf appended; any other base is taken verbatim as
/// the full destination key, so a transfer can rename in the same step.
pub open spec fn join_destination_spec(base: Seq<char>, leaf: Seq<char>) -> Seq<char> {
    if base.len() == 0 || base[base.len() - 1] == '/' {
        base + leaf
    } else {
        base
    }
}

pub fn join_destination(base: &str, leaf: &str) -> (r: String)
    ensures
        r@ == join_destination_spec(base@, leaf@),
{
    let n = base.unicode_len();
    if n == 0 || base.get_char(n - 1) == '/' {
        base.to_owned().concat(leaf)
    } else {
        base.to_owned()
    }
}

/// A path segment appended under a base: the two joined with `/`, or the
/// segment alone when the base is empty.
pub open spec fn join_segment_spec(base: Seq<char>, name: Seq<char>) -> Seq<char> {
    if base.len() == 0 {
        name
    } else {
        base + seq!['/'] + name
    }
}

pub fn join_path_segment(base: &str, name: &str) -> (r: String)
    ensures
        r@ == join_segment_spec(base@, name@),
{
    if base.unicode_len() == 0 {
        name.to_owned()
    } else {
        let mut s = base.to_owned();
        s.append("/");
        s.append(name);
        proof {
            reveal_strlit("/");
            assert("/"@ =~= seq!['/']);
            assert(s@ =~= base@ + seq!['/'] + name@);
        }
        s
    }
}

/// The key of the zero-byte marker object that denotes a directory.
pub fn dir_marker_key(prefix: &str) -> (r: String)
    ensures
        r@ == prefix@ + seq!['/'],
{
    let mut s = prefix.to_owned();
    s.append("/");
    proof {
        reveal_strlit("/");
        assert("/"@ =~= seq!['/']);
    }
    s
}

/// `child` with `base` stripped from its front when `base` is a prefix,
/// else `child` unchanged.
pub open spec fn strip_prefix_spec(base: Seq<char>, child: Seq<char>) -> Seq<char> {
    if base.len() <= child.len() && child.subrange(0, base.len() as int) == base {
        child.skip(base.len() as int)
    } else {
        child
    }
}

/// The relative path of `child` under `base`: the prefix stripped, then
/// any leading run of `/` removed.
pub open spec fn relative_path_spec(base: Seq<char>, child: Seq<char>) -> Seq<char> {
    trim_leading(strip_prefix_spec(base, child), '/')
}

pub fn compute_relative_path(base: &str, child: &str) -> (r: String)
    ensures
        r@ == relative_path_spec(base@, child@),
{
    let n = child.unicode_len();
    let start: usize = if is_prefix_of(base, child) {
        base.unicode_len()
    } else {
        0
    };
    let ghost stripped = strip_prefix_spec(base@, child@);
    proof {
        assert(child@.skip(start as int) =~= stripped);
    }
    let mut k: usize = start;
    while k < n && child.get_char(k) == '/'
        invariant
            start <= k <= n,
            n == child@.len(),
            forall|j: int| start <= j < k ==> child@[j] == '/',
        decreases n - k,
    {
        k += 1;
    }
    proof {
        lemma_trim_leading_is(child@.skip(start as int), '/', k - start);
        assert(child@.skip(start as int).skip(k - start) =~= child@.subrange(k as int, n as int));
    }
    child.substring_char(k, n).to_owned()
}

/// Stripping a freshly joined child back off its base returns the leaf:
/// for any base, a leaf that does not begin with `/` survives the round
/// trip through concatenation and `relative_path_spec` unchanged.
pub proof fn lemma_relative_path_round_trip(base: Seq<char>, leaf: Seq<char>)
    requires
        leaf.len() > 0 ==> leaf[0] != '/',
    ensures
        relative_path_spec(base, base + leaf) == leaf,
{
    let child = base + leaf;
    assert(child.subrange(0, base.len() as int) =~= base);
    assert(child.skip(base.len() as int) =~= leaf);
    assert(trim_leading(leaf, '/') == leaf);
}

/// The last `/`-separated segment of a path, ignoring trailing slashes.
pub open spec fn last_segment_spec(s: Seq<char>) -> Seq<char> {
    let t = trim_trailing(s, '/');
    t.skip(find_last(t, '/') + 1)
}

pub fn last_segment(s: &str) -> (r: String)
    ensures
        r@ == last_segment_spec(s@),
{
    let n = s.unicode_len();
    let mut e: usize = n;
    while e > 0 && s.get_char(e - 1) == '/'
        invariant
            e <= n,
            n == s@.len(),
            forall|j: int| e <= j < n ==> s@[j] == '/',
        decreases e,
    {
        e -= 1;
    }
    proof {
        lemma_trim_trailing_is(s@, '/', e as int);
    }
    let ghost t = s@.take(e as int);
    let mut k: usize = e;
    while k > 0 && s.get_char(k - 1) != '/'
        invariant
            k <= e,
            e <= n,
            n == s@.len(),
            forall|j: int| k <= j < e ==> s@[j] != '/',
        decreases k,
    {
        k -= 1;
    }
    proof {
        assert forall|i: int| k - 1 < i < t.len() implies t[i] != '/' by {
            assert(t[i] == s@[i]);
        }
        if k > 0 {
            assert(t[k - 1] == s@[k - 1]);
        }
        lemma_find_last_is(t, '/', k - 1);
        assert(t.skip(k as int) =~= s@.subrange(k as int, e as int));
    }
    s.substring_char(k, e).to_owned()
}

/// Whether a key is a directory marker: non-empty and ending in `/`.
pub fn is_marker_key(key: &str) -> (r: bool)
    ensures
        r == (key@.len() > 0 && key@[key@.len() - 1] == '/'),
{
    let n = key.unicode_len();
    n > 0 && key.get_char(n - 1) == '/'
}

/// The local relative path under which a downloaded object is stored:
/// the source's leaf name, extended with the object's path relative to
/// the source prefix unless the object is the source itself.
pub open spec fn download_rel_path_spec(source: Seq<char>, key: Seq<char>) -> Seq<char> {
    let name = last_segment_spec(source);
    if key == source {
        name
    } else {
        name + seq!['/'] + relative_path_spec(source, key)
    }
}

pub fn download_rel_path(source: &str, key: &str) -> (r: String)
    ensures
        r@ == download_rel_path_spec(source@, key@),
{
    let name = last_segment(source);
    if str_eq(key, source) {
        name
    } else {
        let rel = compute_relative_path(source, key);
        let mut s = name;
        s.append("/");
        s.append(rel.as_str());
        proof {
            reveal_strlit("/");
            assert("/"@ =~= seq!['/']);
        }
        s
    }
}

/// The remote prefix for one directory level of a recursive upload,
/// joined from the chosen base destination and the relative path walked
/// so far. The marker for the level is this prefix with `/` appended,
/// written only when the prefix is non-empty.
pub open spec fn upload_prefix_spec(base: Option<Seq<char>>, rel: Seq<char>) -> Seq<char> {
    match base {
        Option::None => rel,
        Option::Some(dest) => {
            if dest.len() == 0 || dest[dest.len() - 1] == '/' {
                dest + rel
            } else if rel.len() == 0 {
                dest
            } else {
                dest + seq!['/'] + rel
            }
        },
    }
}

pub fn upload_prefix(base_destination: &Option<String>, relative_path: &str) -> (r: String)
    ensures
        r@ == upload_prefix_spec(base_destination.deep_view(), relative_path@),
{
    match base_destination {
        Option::None => relative_path.to_owned(),
        Option::Some(dest) => {
            let n = dest.unicode_len();
            if n == 0 || dest.as_str().get_char(n - 1) == '/' {
                dest.clone().concat(relative_path)
            } else if relative_path.unicode_len() == 0 {
                dest.clone()
            } else {
                let mut s = dest.clone();
                s.append("/");
                s.append(relative_path);
                proof {
                    reveal_strlit("/");
                    assert("/"@ =~= seq!['/']);
                    assert(s@ =~= dest@ + seq!['/'] + relative_path@);
                }
                s
            }
        },
    }
}

/// The destination key of the root of an upload: the leaf name when no
/// destination was given, else the leaf joined onto the destination by
/// the `join_destination_spec` rule.
pub open spec fn upload_root_destination_spec(
    destination: Option<Seq<char>>,
    name: Seq<char>,
) -> Seq<char> {
    match destination {
        Option::None => name,
        Option::Some(d) => join_destination_spec(d, name),
    }
}

pub fn upload_root_destination(destination: &Option<String>, name: &str) -> (r: String)
    ensures
        r@ == upload_root_destination_spec(destination.deep_view(), name@),
{
    match destination {
        Option::None => name.to_owned(),
        Option::Some(d) => join_destination(d.as_str(), name),
    }
}

} // verus!
