//! The listing view: what `ls` shows. Entries become display records — a
//! key ending in `/` is a directory and shows size zero — sorted with
//! directories first and names in lexicographic order, with totals
//! summed at the end.

use vstd::prelude::*;
use vstd::multiset::Multiset;
use vstd::string::StrSliceExecFns;

use crate::store::ObjectEntry;

verus! {

/// One display record of a listing.
pub struct FileInfo {
    pub name: String,
    pub size: u64,
    pub is_dir: bool,
}

impl View for FileInfo {
    type V = (Seq<char>, u64, bool);

    open spec fn view(&self) -> (Seq<char>, u64, bool) {
        (self.name@, self.size, self.is_dir)
    }
}

/// The display record of a listed entry: a key ending in `/` is a
/// directory and its shown size is zero.
pub open spec fn display_info(e: (Seq<char>, u64)) -> (Seq<char>, u64, bool) {
    let is_dir = e.0.len() > 0 && e.0[e.0.len() - 1] == '/';
    (e.0, if is_dir { 0u64 } else { e.1 }, is_dir)
}

/// Turns listed entries into display records, in order.
pub fn ls_display_infos(entries: Vec<ObjectEntry>) -> (r: Vec<FileInfo>)
    ensures
        r@.map_values(|f: FileInfo| f@) == entries@.map_values(|e: ObjectEntry| e@).map_values(
            |e: (Seq<char>, u64)| display_info(e),
        ),
{
    let ghost target = entries@.map_values(|e: ObjectEntry| e@).map_values(
        |e: (Seq<char>, u64)| display_info(e),
    );
    let mut r: Vec<FileInfo> = Vec::new();
    let n = entries.len();
    let mut i: usize = 0;
    let mut entries = entries;
    proof {
        assert(r@.map_values(|f: FileInfo| f@) =~= target.take(0));
    }
    // walk backwards-free: consume by index
    while i < n
        invariant
            i <= n,
            n == entries@.len(),
            target == entries@.map_values(|e: ObjectEntry| e@).map_values(
                |e: (Seq<char>, u64)| display_info(e),
            ),
            r@.map_values(|f: FileInfo| f@) == target.take(i as int),
        decreases n - i,
    {
        let key_len = entries[i].key.as_str().unicode_len();
        let is_dir = key_len > 0 && entries[i].key.as_str().get_char(key_len - 1) == '/';
        let size = if is_dir {
            0
        } else {
            entries[i].size
        };
        let info = FileInfo { name: entries[i].key.clone(), size, is_dir };
        let ghost prev = r@;
        r.push(info);
        proof {
            assert(entries@[i as int]@ == (entries@[i as int].key@, entries@[i as int].size));
            assert(target[i as int] == display_info(entries@[i as int]@));
            assert(r@.map_values(|f: FileInfo| f@) =~= prev.map_values(|f: FileInfo| f@).push(
                target[i as int],
            ));
            assert(target.take(i as int).push(target[i as int]) =~= target.take(i + 1));
        }
        i += 1;
    }
    proof {
        assert(target.take(n as int) =~= target);
    }
    r
}

/// Lexicographic order on names, by character code.
pub open spec fn lex_le(a: Seq<char>, b: Seq<char>) -> bool
    decreases a.len(),
{
    if a.len() == 0 {
        true
    } else if b.len() == 0 {
        false
    } else if (a[0] as int) < (b[0] as int) {
        true
    } else if (a[0] as int) > (b[0] as int) {
        false
    } else {
        lex_le(a.drop_first(), b.drop_first())
    }
}

/// Any two names compare one way or the other.
pub proof fn lemma_lex_le_total(a: Seq<char>, b: Seq<char>)
    ensures
        lex_le(a, b) || lex_le(b, a),
    decreases a.len(),
{
    if a.len() > 0 && b.len() > 0 && a[0] == b[0] {
        lemma_lex_le_total(a.drop_first(), b.drop_first());
    }
}

/// The display order: directories before files, then by name.
pub open spec fn info_le(x: (Seq<char>, u64, bool), y: (Seq<char>, u64, bool)) -> bool {
    (x.2 && !y.2) || (x.2 == y.2 && lex_le(x.0, y.0))
}

pub proof fn lemma_info_le_total(x: (Seq<char>, u64, bool), y: (Seq<char>, u64, bool))
    ensures
        info_le(x, y) || info_le(y, x),
{
    lemma_lex_le_total(x.0, y.0);
}

fn lex_le_exec(a: &str, b: &str) -> (r: bool)
    ensures
        r == lex_le(a@, b@),
{
    let an = a.unicode_len();
    let bn = b.unicode_len();
    let mut i: usize = 0;
    proof {
        assert(a@.skip(0) =~= a@);
        assert(b@.skip(0) =~= b@);
    }
    while i < an && i < bn
        invariant
            i <= an,
            i <= bn,
            an == a@.len(),
            bn == b@.len(),
            lex_le(a@, b@) == lex_le(a@.skip(i as int), b@.skip(i as int)),
        decreases an - i,
    {
        let ca = a.get_char(i) as u32;
        let cb = b.get_char(i) as u32;
        proof {
            assert(a@.skip(i as int)[0] == a@[i as int]);
            assert(b@.skip(i as int)[0] == b@[i as int]);
            assert(a@.skip(i as int).drop_first() =~= a@.skip(i + 1));
            assert(b@.skip(i as int).drop_first() =~= b@.skip(i + 1));
        }
        if ca < cb {
            return true;
        }
        if ca > cb {
            return false;
        }
        i += 1;
    }
    proof {
        if i >= an {
            assert(a@.skip(i as int).len() == 0);
        } else {
            assert(b@.skip(i as int).len() == 0);
            assert(a@.skip(i as int).len() > 0);
        }
    }
    i >= an
}

fn info_le_exec(x: &FileInfo, y: &FileInfo) -> (r: bool)
    ensures
        r == info_le(x@, y@),
{
    if x.is_dir && !y.is_dir {
        true
    } else if x.is_dir == y.is_dir {
        lex_le_exec(x.name.as_str(), y.name.as_str())
    } else {
        false
    }
}

/// Sorts display records for showing: directories first, then names in
/// lexicographic order. The result is a permutation of the input.
pub fn sort_infos(infos: Vec<FileInfo>) -> (r: Vec<FileInfo>)
    ensures
        r@.map_values(|f: FileInfo| f@).to_multiset() == infos@.map_values(
            |f: FileInfo| f@,
        ).to_multiset(),
        forall|i: int, j: int|
            0 <= i < j < r@.len() ==> info_le((#[trigger] r@[i])@, (#[trigger] r@[j])@),
{
    let ghost view_of = |f: FileInfo| f@;
    let mut input = infos;
    let mut out: Vec<FileInfo> = Vec::new();
    proof {
        broadcast use vstd::seq_lib::group_to_multiset_ensures;

        assert(out@.map_values(view_of).to_multiset() =~= Multiset::<
            (Seq<char>, u64, bool),
        >::empty());
    }
    while input.len() > 0
        invariant
            view_of == (|f: FileInfo| f@),
            out@.map_values(view_of).to_multiset().add(input@.map_values(view_of).to_multiset())
                == infos@.map_values(view_of).to_multiset(),
            forall|i: int, j: int|
                0 <= i < j < out@.len() ==> info_le((#[trigger] out@[i])@, (#[trigger] out@[j])@),
            forall|i: int, j: int|
                0 <= i < out@.len() && 0 <= j < input@.len() ==> info_le(
                    (#[trigger] out@[i])@,
                    (#[trigger] input@[j])@,
                ),
        decreases input.len(),
    {
        // find the least remaining record
        let n = input.len();
        let mut m: usize = 0;
        let mut k: usize = 1;
        proof {
            lemma_info_le_total(input@[0]@, input@[0]@);
        }
        while k < n
            invariant
                m < k <= n,
                n == input@.len(),
                forall|j: int| 0 <= j < k ==> info_le(input@[m as int]@, (#[trigger] input@[j])@),
            decreases n - k,
        {
            if info_le_exec(&input[k], &input[m]) {
                proof {
                    assert forall|j: int|
                        0 <= j < k + 1 implies info_le(
                        input@[k as int]@,
                        (#[trigger] input@[j])@,
                    ) by {
                        if j < k {
                            lemma_info_le_trans(input@[k as int]@, input@[m as int]@, input@[j]@);
                        } else {
                            lemma_info_le_total(input@[k as int]@, input@[k as int]@);
                        }
                    }
                }
                m = k;
            } else {
                proof {
                    lemma_info_le_total(input@[k as int]@, input@[m as int]@);
                }
            }
            k += 1;
        }
        let ghost in_prev = input@;
        let ghost out_prev = out@;
        let x = input.remove(m);
        out.push(x);
        proof {
            broadcast use vstd::seq_lib::group_to_multiset_ensures;

            let e = in_prev[m as int]@;
            assert(input@.map_values(view_of) =~= in_prev.map_values(view_of).remove(m as int));
            assert(out@.map_values(view_of) =~= out_prev.map_values(view_of).push(e));
            assert(in_prev.map_values(view_of)[m as int] == e);
            assert(out@.map_values(view_of).to_multiset() =~= out_prev.map_values(
                view_of,
            ).to_multiset().insert(e));
            assert(input@.map_values(view_of).to_multiset() =~= in_prev.map_values(
                view_of,
            ).to_multiset().remove(e));
            assert(out@.map_values(view_of).to_multiset().add(
                input@.map_values(view_of).to_multiset(),
            ) =~= out_prev.map_values(view_of).to_multiset().add(
                in_prev.map_values(view_of).to_multiset(),
            ));
            // order invariants
            assert(out@[out@.len() - 1] == in_prev[m as int]);
            assert forall|i: int, j: int|
                0 <= i < out@.len() && 0 <= j < input@.len() implies info_le(
                (#[trigger] out@[i])@,
                (#[trigger] input@[j])@,
            ) by {
                let jj = if j < m as int {
                    j
                } else {
                    j + 1
                };
                assert(input@[j] == in_prev[jj]);
                if i < out@.len() - 1 {
                    assert(out@[i] == out_prev[i]);
                } else {
                    assert(info_le(in_prev[m as int]@, in_prev[jj]@));
                }
            }
            assert forall|i: int, j: int|
                0 <= i < j < out@.len() implies info_le(
                (#[trigger] out@[i])@,
                (#[trigger] out@[j])@,
            ) by {
                if j < out@.len() - 1 {
                    assert(out@[i] == out_prev[i]);
                    assert(out@[j] == out_prev[j]);
                } else {
                    assert(out@[i] == out_prev[i]);
                    assert(info_le(out_prev[i]@, in_prev[m as int]@));
                }
            }
        }
    }
    proof {
        broadcast use vstd::seq_lib::group_to_multiset_ensures;

        assert(input@.map_values(view_of) =~= Seq::<(Seq<char>, u64, bool)>::empty());
        assert(input@.map_values(view_of).to_multiset() =~= Multiset::<
            (Seq<char>, u64, bool),
        >::empty());
        assert(out@.map_values(view_of).to_multiset().add(Multiset::empty())
            =~= out@.map_values(view_of).to_multiset());
    }
    out
}

/// The display order is transitive.
pub proof fn lemma_lex_le_trans(a: Seq<char>, b: Seq<char>, c: Seq<char>)
    requires
        lex_le(a, b),
        lex_le(b, c),
    ensures
        lex_le(a, c),
    decreases a.len(),
{
    if a.len() > 0 && b.len() > 0 && c.len() > 0 && a[0] == b[0] && b[0] == c[0] {
        lemma_lex_le_trans(a.drop_first(), b.drop_first(), c.drop_first());
    }
}

pub proof fn lemma_info_le_trans(
    x: (Seq<char>, u64, bool),
    y: (Seq<char>, u64, bool),
    z: (Seq<char>, u64, bool),
)
    requires
        info_le(x, y),
        info_le(y, z),
    ensures
        info_le(x, z),
{
    if x.2 == y.2 && y.2 == z.2 {
        lemma_lex_le_trans(x.0, y.0, z.0);
    }
}

/// How many records are directories.
pub open spec fn count_dirs(infos: Seq<(Seq<char>, u64, bool)>) -> int
    decreases infos.len(),
{
    if infos.len() == 0 {
        0
    } else {
        count_dirs(infos.drop_last()) + if infos[infos.len() - 1].2 {
            1int
        } else {
            0int
        }
    }
}

/// The sum of the shown sizes.
pub open spec fn sum_sizes(infos: Seq<(Seq<char>, u64, bool)>) -> int
    decreases infos.len(),
{
    if infos.len() == 0 {
        0
    } else {
        sum_sizes(infos.drop_last()) + infos[infos.len() - 1].1
    }
}

/// The listing totals: how many directories, how many files, and the
/// total shown size, saturating at the largest representable count.
pub fn ls_totals(infos: &Vec<FileInfo>) -> (r: (usize, usize, u64))
    ensures
        ({
            let iv = infos@.map_values(|f: FileInfo| f@);
            &&& r.0 == count_dirs(iv)
            &&& r.1 == iv.len() - count_dirs(iv)
            &&& r.2 as int == if sum_sizes(iv) <= u64::MAX as int {
                sum_sizes(iv)
            } else {
                u64::MAX as int
            }
        }),
{
    let ghost iv = infos@.map_values(|f: FileInfo| f@);
    let n = infos.len();
    let mut dirs: usize = 0;
    let mut total: u64 = 0;
    let mut saturated = false;
    let mut i: usize = 0;
    while i < n
        invariant
            i <= n,
            n == infos@.len(),
            iv == infos@.map_values(|f: FileInfo| f@),
            dirs as int == count_dirs(iv.take(i as int)),
            dirs <= i,
            !saturated ==> total as int == sum_sizes(iv.take(i as int)),
            saturated ==> total == u64::MAX && sum_sizes(iv.take(i as int)) > u64::MAX as int,
            0 <= count_dirs(iv.take(i as int)),
            0 <= sum_sizes(iv.take(i as int)),
        decreases n - i,
    {
        proof {
            assert(iv.take(i + 1).drop_last() =~= iv.take(i as int));
            assert(iv.take(i + 1)[i as int] == iv[i as int]);
            assert(iv[i as int] == infos@[i as int]@);
        }
        if infos[i].is_dir {
            dirs += 1;
        }
        let s = infos[i].size;
        if !saturated {
            if total <= u64::MAX - s {
                total += s;
            } else {
                total = u64::MAX;
                saturated = true;
            }
        }
        i += 1;
    }
    proof {
        assert(iv.take(n as int) =~= iv);
    }
    (dirs, n - dirs, total)
}

} // verus!
