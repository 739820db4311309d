//! The order of a directory listing: the hidden-file filter, then directories
//! first, then the chosen sort, stable for entries that compare equal.
use crate::fs_engine::{FileEntry, SortKind};
use crate::text::{
    chars_less, chars_lt, chars_of, lemma_chars_lt_irreflexive,
    lemma_chars_lt_total, lemma_chars_lt_transitive, lowercase, to_lower,
};
use vstd::prelude::*;

verus! {

/// `Option` order: `None` first, then by value.
pub open spec fn opt_lt(a: Option<i64>, b: Option<i64>) -> bool {
    match (a, b) {
        (None, Some(_)) => true,
        (Some(x), Some(y)) => x < y,
        _ => false,
    }
}

/// `a` sorts strictly before `b`: directories first; then by lower-cased name,
/// by size (largest first), by modification time (newest first, unknown last)
/// or by extension and then lower-cased name.
pub open spec fn entry_before(sort: SortKind, a: FileEntry, b: FileEntry) -> bool {
    if a.is_dir != b.is_dir {
        a.is_dir
    } else {
        match sort {
            SortKind::Name => chars_lt(lowercase(a.name@), lowercase(b.name@)),
            SortKind::Size => b.size < a.size,
            SortKind::Modified => opt_lt(b.modified, a.modified),
            SortKind::Kind => chars_lt(a.extension@, b.extension@) || (a.extension@
                == b.extension@ && chars_lt(lowercase(a.name@), lowercase(b.name@))),
        }
    }
}

/// No entry sorts before itself.
pub proof fn lemma_before_irreflexive(sort: SortKind, a: FileEntry)
    ensures
        !entry_before(sort, a, a),
{
    lemma_chars_lt_irreflexive(lowercase(a.name@));
    lemma_chars_lt_irreflexive(a.extension@);
}

/// The order is transitive.
pub proof fn lemma_before_transitive(sort: SortKind, a: FileEntry, b: FileEntry, c: FileEntry)
    requires
        entry_before(sort, a, b),
        entry_before(sort, b, c),
    ensures
        entry_before(sort, a, c),
{
    let (na, nb, nc) = (lowercase(a.name@), lowercase(b.name@), lowercase(c.name@));
    let (ea, eb, ec) = (a.extension@, b.extension@, c.extension@);
    if a.is_dir == b.is_dir && b.is_dir == c.is_dir {
        match sort {
            SortKind::Name => {
                lemma_chars_lt_transitive(na, nb, nc);
            },
            SortKind::Kind => {
                if chars_lt(ea, eb) && chars_lt(eb, ec) {
                    lemma_chars_lt_transitive(ea, eb, ec);
                } else if chars_lt(ea, eb) {
                } else if chars_lt(eb, ec) {
                } else {
                    lemma_chars_lt_transitive(na, nb, nc);
                }
            },
            _ => {},
        }
    }
}

/// If `a` sorts before `b`, every `c` sorts after `a` or before `b`.
pub proof fn lemma_before_comparable(sort: SortKind, a: FileEntry, b: FileEntry, c: FileEntry)
    requires
        entry_before(sort, a, b),
    ensures
        entry_before(sort, a, c) || entry_before(sort, c, b),
{
    let (na, nb, nc) = (lowercase(a.name@), lowercase(b.name@), lowercase(c.name@));
    let (ea, eb, ec) = (a.extension@, b.extension@, c.extension@);
    if a.is_dir == b.is_dir && b.is_dir == c.is_dir {
        match sort {
            SortKind::Name => {
                lemma_chars_lt_total(na, nc);
                if chars_lt(nc, na) {
                    lemma_chars_lt_transitive(nc, na, nb);
                }
            },
            SortKind::Kind => {
                lemma_chars_lt_total(ea, ec);
                lemma_chars_lt_total(na, nc);
                if chars_lt(ea, eb) {
                    if chars_lt(ec, ea) {
                        lemma_chars_lt_transitive(ec, ea, eb);
                    }
                } else {
                    if ec == ea && chars_lt(nc, na) {
                        lemma_chars_lt_transitive(nc, na, nb);
                    }
                }
            },
            _ => {},
        }
    }
}

/// The entries the listing keeps: all of them, or only those not hidden.
pub open spec fn kept(entries: Seq<FileEntry>, show_hidden: bool) -> Seq<FileEntry> {
    entries.filter(|e: FileEntry| show_hidden || !e.is_hidden)
}

/// Position `i` of `s` goes before position `j`: strictly smaller in the sort
/// order, or equal in it and earlier in `s` (the sort is stable).
pub open spec fn placed_before(sort: SortKind, s: Seq<FileEntry>, i: int, j: int) -> bool {
    entry_before(sort, s[i], s[j]) || (!entry_before(sort, s[j], s[i]) && i < j)
}

/// `p` lists every position of `s` once, in stable sorted order.
pub open spec fn stable_order(sort: SortKind, s: Seq<FileEntry>, p: Seq<int>) -> bool {
    &&& p.len() == s.len()
    &&& forall|i: int| 0 <= i < p.len() ==> 0 <= #[trigger] p[i] < s.len()
    &&& forall|i: int, j: int| 0 <= i < j < p.len() ==> p[i] != p[j]
    &&& forall|i: int, j: int|
        0 <= i < j < p.len() ==> #[trigger] placed_before(sort, s, p[i], p[j])
}

/// `out` is `s` rearranged by `p`.
pub open spec fn arranged(out: Seq<FileEntry>, s: Seq<FileEntry>, p: Seq<int>) -> bool {
    out.len() == p.len() && forall|i: int| 0 <= i < out.len() ==> out[i] == s[#[trigger] p[i]]
}

/// The listing of `entries`: hidden entries dropped unless `show_hidden`, then
/// stably sorted by `entry_before`.
pub open spec fn listing_of(
    entries: Seq<FileEntry>,
    show_hidden: bool,
    sort: SortKind,
    out: Seq<FileEntry>,
) -> bool {
    exists|p: Seq<int>|
        stable_order(sort, kept(entries, show_hidden), p) && arranged(
            out,
            kept(entries, show_hidden),
            p,
        )
}

fn before_at(
    sort: SortKind,
    s: &Vec<FileEntry>,
    names: &Vec<Vec<char>>,
    exts: &Vec<Vec<char>>,
    a: usize,
    b: usize,
) -> (r: bool)
    requires
        a < s.len(),
        b < s.len(),
        names.len() == s.len(),
        exts.len() == s.len(),
        forall|i: int| 0 <= i < s.len() ==> (#[trigger] names@[i])@ == lowercase(s@[i].name@),
        forall|i: int| 0 <= i < s.len() ==> (#[trigger] exts@[i])@ == s@[i].extension@,
    ensures
        r == entry_before(sort, s@[a as int], s@[b as int]),
{
    let x = &s[a];
    let y = &s[b];
    assert(names@[a as int]@ == lowercase(s@[a as int].name@));
    assert(names@[b as int]@ == lowercase(s@[b as int].name@));
    assert(exts@[a as int]@ == s@[a as int].extension@);
    assert(exts@[b as int]@ == s@[b as int].extension@);
    if x.is_dir != y.is_dir {
        return x.is_dir;
    }
    match sort {
        SortKind::Name => chars_less(&names[a], &names[b]),
        SortKind::Size => y.size < x.size,
        SortKind::Modified => match (y.modified, x.modified) {
            (None, Some(_)) => true,
            (Some(p), Some(q)) => p < q,
            _ => false,
        },
        SortKind::Kind => {
            if chars_less(&exts[a], &exts[b]) {
                true
            } else if crate::text::chars_eq(&exts[a], &exts[b]) {
                chars_less(&names[a], &names[b])
            } else {
                false
            }
        },
    }
}

/// Keeps the entries `show_hidden` asks for, then sorts them stably.
fn arrange(entries: Vec<FileEntry>, show_hidden: bool, sort: SortKind) -> (r: Vec<FileEntry>)
    ensures
        listing_of(entries@, show_hidden, sort, r@),
{
    let mut ks: Vec<FileEntry> = Vec::new();
    let mut i: usize = 0;
    while i < entries.len()
        invariant
            i <= entries.len(),
            ks@ == kept(entries@.take(i as int), show_hidden),
        decreases entries.len() - i,
    {
        let ghost pre = entries@.take(i as int);
        proof {
            reveal(Seq::filter);
        }
        assert(entries@.take(i + 1).drop_last() =~= pre);
        assert(entries@.take(i + 1).last() == entries@[i as int]);
        if show_hidden || !entries[i].is_hidden {
            ks.push(entries[i].copy());
        }
        i = i + 1;
    }
    assert(entries@.take(entries.len() as int) =~= entries@);
    let ghost s = ks@;
    let n = ks.len();
    let mut names: Vec<Vec<char>> = Vec::new();
    let mut exts: Vec<Vec<char>> = Vec::new();
    let mut k: usize = 0;
    while k < n
        invariant
            k <= n,
            n == ks.len(),
            names.len() == k,
            exts.len() == k,
            forall|j: int| 0 <= j < k ==> (#[trigger] names@[j])@ == lowercase(ks@[j].name@),
            forall|j: int| 0 <= j < k ==> (#[trigger] exts@[j])@ == ks@[j].extension@,
        decreases n - k,
    {
        let lower = to_lower(ks[k].name.as_str());
        names.push(chars_of(lower.as_str()));
        exts.push(chars_of(ks[k].extension.as_str()));
        k = k + 1;
    }
    let mut idx: Vec<usize> = Vec::new();
    let mut k: usize = 0;
    while k < n
        invariant
            k <= n,
            n == ks.len(),
            ks@ == s,
            names.len() == n,
            exts.len() == n,
            forall|j: int| 0 <= j < n ==> (#[trigger] names@[j])@ == lowercase(ks@[j].name@),
            forall|j: int| 0 <= j < n ==> (#[trigger] exts@[j])@ == ks@[j].extension@,
            idx.len() == k,
            forall|q: int| 0 <= q < k ==> #[trigger] idx@[q] < k,
            forall|q1: int, q2: int| 0 <= q1 < q2 < k ==> idx@[q1] != idx@[q2],
            forall|q1: int, q2: int|
                0 <= q1 < q2 < k ==> #[trigger] placed_before(
                    sort,
                    s,
                    idx@[q1] as int,
                    idx@[q2] as int,
                ),
        decreases n - k,
    {
        let mut p: usize = 0;
        while p < idx.len() && !before_at(sort, &ks, &names, &exts, k, idx[p])
            invariant
                p <= idx.len(),
                idx.len() == k,
                k < n,
                n == ks.len(),
                ks@ == s,
                names.len() == n,
                exts.len() == n,
                forall|j: int| 0 <= j < n ==> (#[trigger] names@[j])@ == lowercase(ks@[j].name@),
                forall|j: int| 0 <= j < n ==> (#[trigger] exts@[j])@ == ks@[j].extension@,
                forall|q: int| 0 <= q < k ==> #[trigger] idx@[q] < k,
                forall|q: int|
                    0 <= q < p ==> !entry_before(sort, s[k as int], s[#[trigger] idx@[q] as int]),
            decreases idx.len() - p,
        {
            p = p + 1;
        }
        let ghost old_idx = idx@;
        idx.insert(p, k);
        proof {
            let ni = idx@;
            assert forall|q: int| 0 <= q < k + 1 implies #[trigger] ni[q] < k + 1 by {
                if q < p {
                    assert(ni[q] == old_idx[q]);
                } else if q > p {
                    assert(ni[q] == old_idx[q - 1]);
                }
            }
            assert forall|q1: int, q2: int| 0 <= q1 < q2 < k + 1 implies ni[q1] != ni[q2] by {
                if q1 != p && q2 != p {
                    let o1 = if q1 < p {
                        q1
                    } else {
                        q1 - 1
                    };
                    let o2 = if q2 < p {
                        q2
                    } else {
                        q2 - 1
                    };
                    assert(ni[q1] == old_idx[o1]);
                    assert(ni[q2] == old_idx[o2]);
                } else if q1 == p {
                    assert(ni[q2] == old_idx[q2 - 1]);
                    assert(old_idx[q2 - 1] < k);
                } else {
                    assert(ni[q1] == old_idx[q1]);
                    assert(old_idx[q1] < k);
                }
            }
            assert forall|q1: int, q2: int| 0 <= q1 < q2 < k + 1 implies #[trigger] placed_before(
                sort,
                s,
                ni[q1] as int,
                ni[q2] as int,
            ) by {
                if q1 != p && q2 != p {
                    let o1 = if q1 < p {
                        q1
                    } else {
                        q1 - 1
                    };
                    let o2 = if q2 < p {
                        q2
                    } else {
                        q2 - 1
                    };
                    assert(ni[q1] == old_idx[o1]);
                    assert(ni[q2] == old_idx[o2]);
                    assert(placed_before(sort, s, old_idx[o1] as int, old_idx[o2] as int));
                } else if q2 == p {
                    assert(ni[q1] == old_idx[q1]);
                    assert(old_idx[q1] < k);
                    assert(!entry_before(sort, s[k as int], s[old_idx[q1] as int]));
                } else {
                    // q1 == p: the new index goes before everything after it
                    let c = old_idx[q2 - 1] as int;
                    let d = old_idx[p as int] as int;
                    assert(ni[q2] == old_idx[q2 - 1]);
                    assert(entry_before(sort, s[k as int], s[d]));
                    if q2 - 1 != p {
                        assert(placed_before(sort, s, d, c));
                        if entry_before(sort, s[d], s[c]) {
                            lemma_before_transitive(sort, s[k as int], s[d], s[c]);
                        } else {
                            lemma_before_comparable(sort, s[k as int], s[d], s[c]);
                        }
                    }
                }
            }
        }
        k = k + 1;
    }
    let mut out: Vec<FileEntry> = Vec::new();
    let mut j: usize = 0;
    while j < n
        invariant
            j <= n,
            n == ks.len(),
            ks@ == s,
            idx.len() == n,
            forall|q: int| 0 <= q < n ==> #[trigger] idx@[q] < n,
            out.len() == j,
            forall|q: int| 0 <= q < j ==> out@[q] == s[#[trigger] idx@[q] as int],
        decreases n - j,
    {
        out.push(ks[idx[j]].copy());
        j = j + 1;
    }
    proof {
        let p = idx@.map_values(|x: usize| x as int);
        assert(stable_order(sort, s, p));
        assert(arranged(out@, s, p));
    }
    out
}

proof fn lemma_filter_all(s: Seq<FileEntry>, pred: spec_fn(FileEntry) -> bool)
    requires
        forall|e: FileEntry| #[trigger] pred(e),
    ensures
        s.filter(pred) == s,
    decreases s.len(),
{
    reveal(Seq::filter);
    if s.len() > 0 {
        lemma_filter_all(s.drop_last(), pred);
        assert(s.drop_last().push(s.last()) =~= s);
    }
}

/// The entries of a listing that are not hidden, in order.
pub open spec fn without_hidden(s: Seq<FileEntry>) -> Seq<FileEntry> {
    s.filter(|e: FileEntry| !e.is_hidden)
}

/// The listing shown: all entries stably sorted by `sort`, then the hidden
/// ones dropped unless `show_hidden`.
pub open spec fn listing_shown(
    entries: Seq<FileEntry>,
    show_hidden: bool,
    sort: SortKind,
    out: Seq<FileEntry>,
) -> bool {
    exists|all: Seq<FileEntry>|
        listing_of(entries, true, sort, all) && out == (if show_hidden {
            all
        } else {
            without_hidden(all)
        })
}

/// Sorts the directory's entries: directories first, then by `sort`, entries
/// that compare equal keeping their order; hidden entries are dropped unless
/// `show_hidden`.
pub fn order_listing(entries: Vec<FileEntry>, show_hidden: bool, sort: SortKind) -> (r: Vec<
    FileEntry,
>)
    ensures
        listing_shown(entries@, show_hidden, sort, r@),
{
    let all = arrange(entries, true, sort);
    if show_hidden {
        return all;
    }
    let mut out: Vec<FileEntry> = Vec::new();
    let mut i: usize = 0;
    while i < all.len()
        invariant
            i <= all.len(),
            out@ == without_hidden(all@.take(i as int)),
        decreases all.len() - i,
    {
        proof {
            reveal(Seq::filter);
        }
        assert(all@.take(i + 1).drop_last() =~= all@.take(i as int));
        assert(all@.take(i + 1).last() == all@[i as int]);
        if !all[i].is_hidden {
            out.push(all[i].copy());
        }
        i = i + 1;
    }
    assert(all@.take(all.len() as int) =~= all@);
    out
}

proof fn lemma_before_asymmetric(sort: SortKind, a: FileEntry, b: FileEntry)
    requires
        entry_before(sort, a, b),
    ensures
        !entry_before(sort, b, a),
{
    if entry_before(sort, b, a) {
        lemma_before_transitive(sort, a, b, a);
        lemma_before_irreflexive(sort, a);
    }
}

/// Two distinct positions are placed one way round, and not both.
proof fn lemma_placed_total(sort: SortKind, s: Seq<FileEntry>, i: int, j: int)
    requires
        i != j,
    ensures
        placed_before(sort, s, i, j) || placed_before(sort, s, j, i),
        !(placed_before(sort, s, i, j) && placed_before(sort, s, j, i)),
{
    if entry_before(sort, s[i], s[j]) {
        lemma_before_asymmetric(sort, s[i], s[j]);
    }
    if entry_before(sort, s[j], s[i]) {
        lemma_before_asymmetric(sort, s[j], s[i]);
    }
}

/// A stable order lists every position.
proof fn lemma_order_onto(sort: SortKind, s: Seq<FileEntry>, p: Seq<int>)
    requires
        stable_order(sort, s, p),
    ensures
        forall|j: int| 0 <= j < s.len() ==> p.contains(j),
{
    assert forall|a: int, b: int| 0 <= a < p.len() && 0 <= b < p.len() && a != b implies p[a]
        != p[b] by {
        if a > b {
            assert(p[b] != p[a]);
        }
    }
    assert(p.no_duplicates());
    p.unique_seq_to_set();
    let r = vstd::set_lib::set_int_range(0, s.len() as int);
    vstd::set_lib::lemma_int_range(0, s.len() as int);
    assert(p.to_set().subset_of(r)) by {
        assert forall|x: int| p.to_set().contains(x) implies r.contains(x) by {
            assert(p.contains(x));
            let k = choose|k: int| 0 <= k < p.len() && p[k] == x;
            assert(0 <= p[k] < s.len());
        }
    }
    p.lemma_cardinality_of_set();
    vstd::seq_lib::seq_to_set_is_finite(p);
    vstd::set_lib::lemma_subset_equality(p.to_set(), r);
    assert forall|j: int| 0 <= j < s.len() implies p.contains(j) by {
        assert(r.contains(j));
        assert(p.to_set().contains(j));
    }
}

proof fn lemma_orders_agree(sort: SortKind, s: Seq<FileEntry>, p1: Seq<int>, p2: Seq<int>, k: int)
    requires
        stable_order(sort, s, p1),
        stable_order(sort, s, p2),
        0 <= k <= s.len(),
    ensures
        forall|j: int| 0 <= j < k ==> p1[j] == p2[j],
    decreases k,
{
    if k > 0 {
        lemma_orders_agree(sort, s, p1, p2, k - 1);
        let x = p1[k - 1];
        let y = p2[k - 1];
        if x != y {
            lemma_placed_total(sort, s, x, y);
            lemma_order_onto(sort, s, p1);
            lemma_order_onto(sort, s, p2);
            assert(0 <= x < s.len() && 0 <= y < s.len());
            if placed_before(sort, s, x, y) {
                assert(p2.contains(x));
                let m = choose|m: int| 0 <= m < p2.len() && p2[m] == x;
                if m > k - 1 {
                    assert(placed_before(sort, s, p2[k - 1], p2[m]));
                } else {
                    assert(m < k - 1);
                    assert(p1[m] == p2[m]);
                    assert(p1[m] != p1[k - 1]);
                }
            } else {
                assert(p1.contains(y));
                let m = choose|m: int| 0 <= m < p1.len() && p1[m] == y;
                if m > k - 1 {
                    assert(placed_before(sort, s, p1[k - 1], p1[m]));
                } else {
                    assert(m < k - 1);
                    assert(p1[m] == p2[m]);
                    assert(p2[m] != p2[k - 1]);
                }
            }
        }
    }
}

/// The listing of a set of entries is determined: there is only one stable
/// sorted order.
pub proof fn lemma_listing_unique(
    entries: Seq<FileEntry>,
    show_hidden: bool,
    sort: SortKind,
    a: Seq<FileEntry>,
    b: Seq<FileEntry>,
)
    requires
        listing_of(entries, show_hidden, sort, a),
        listing_of(entries, show_hidden, sort, b),
    ensures
        a == b,
{
    let s = kept(entries, show_hidden);
    let p1 = choose|p: Seq<int>| stable_order(sort, s, p) && arranged(a, s, p);
    let p2 = choose|p: Seq<int>| stable_order(sort, s, p) && arranged(b, s, p);
    lemma_orders_agree(sort, s, p1, p2, s.len() as int);
    assert forall|i: int| 0 <= i < a.len() implies a[i] == b[i] by {
        assert(p1[i] == p2[i]);
    }
    assert(a =~= b);
}

/// The listing without hidden entries is the listing with them, minus the
/// hidden ones, in the same order.
pub proof fn lemma_hidden_entries_only_drop(
    entries: Seq<FileEntry>,
    sort: SortKind,
    all: Seq<FileEntry>,
    visible: Seq<FileEntry>,
)
    requires
        listing_shown(entries, true, sort, all),
        listing_shown(entries, false, sort, visible),
    ensures
        visible == without_hidden(all),
{
    let a1 = choose|x: Seq<FileEntry>| listing_of(entries, true, sort, x) && all == x;
    let a2 = choose|x: Seq<FileEntry>|
        listing_of(entries, true, sort, x) && visible == without_hidden(x);
    lemma_listing_unique(entries, true, sort, a1, a2);
}

proof fn lemma_filter_dirs_first(s: Seq<FileEntry>, pred: spec_fn(FileEntry) -> bool)
    requires
        forall|i: int, j: int| 0 <= i < j < s.len() && (#[trigger] s[j]).is_dir ==> (#[trigger] s[i]).is_dir,
    ensures
        forall|i: int, j: int|
            0 <= i < j < s.filter(pred).len() && (#[trigger] s.filter(pred)[j]).is_dir ==> (
            #[trigger] s.filter(pred)[i]).is_dir,
    decreases s.len(),
{
    reveal(Seq::filter);
    if s.len() > 0 {
        let u = s.drop_last();
        assert forall|i: int, j: int| 0 <= i < j < u.len() && (#[trigger] u[j]).is_dir implies (
        #[trigger] u[i]).is_dir by {
            assert(u[i] == s[i] && u[j] == s[j]);
        }
        lemma_filter_dirs_first(u, pred);
        let f = u.filter(pred);
        if pred(s.last()) {
            let g = s.filter(pred);
            assert(g == f.push(s.last()));
            assert forall|i: int, j: int| 0 <= i < j < g.len() && (#[trigger] g[j]).is_dir implies (
            #[trigger] g[i]).is_dir by {
                assert(g[i] == f[i]);
                if j == g.len() - 1 {
                    assert(f.contains(f[i]));
                    u.lemma_filter_contains_rev(pred, f[i]);
                    let k = choose|k: int| 0 <= k < u.len() && u[k] == f[i];
                    assert(s[k] == u[k]);
                    assert(s[s.len() - 1] == s.last());
                } else {
                    assert(g[j] == f[j]);
                }
            }
        }
    }
}

/// Directories come first in a listing.
pub proof fn lemma_listing_dirs_first(
    entries: Seq<FileEntry>,
    show_hidden: bool,
    sort: SortKind,
    out: Seq<FileEntry>,
    i: int,
    j: int,
)
    requires
        listing_shown(entries, show_hidden, sort, out),
        0 <= i < j < out.len(),
        out[j].is_dir,
    ensures
        out[i].is_dir,
{
    let all = choose|x: Seq<FileEntry>|
        listing_of(entries, true, sort, x) && out == (if show_hidden {
            x
        } else {
            without_hidden(x)
        });
    let s = kept(entries, true);
    let p = choose|p: Seq<int>| stable_order(sort, s, p) && arranged(all, s, p);
    assert forall|a: int, b: int| 0 <= a < b < all.len() && (#[trigger] all[b]).is_dir implies (
    #[trigger] all[a]).is_dir by {
        assert(placed_before(sort, s, p[a], p[b]));
        assert(all[a] == s[p[a]]);
        assert(all[b] == s[p[b]]);
    }
    if !show_hidden {
        lemma_filter_dirs_first(all, |e: FileEntry| !e.is_hidden);
    }
}

/// Without `show_hidden` no hidden entry is listed; with it, nothing is dropped.
pub proof fn lemma_listing_hidden_filter(
    entries: Seq<FileEntry>,
    show_hidden: bool,
    sort: SortKind,
    out: Seq<FileEntry>,
)
    requires
        listing_shown(entries, show_hidden, sort, out),
    ensures
        !show_hidden ==> forall|i: int| 0 <= i < out.len() ==> !(#[trigger] out[i]).is_hidden,
        show_hidden ==> out.len() == entries.len(),
{
    let all = choose|x: Seq<FileEntry>|
        listing_of(entries, true, sort, x) && out == (if show_hidden {
            x
        } else {
            without_hidden(x)
        });
    let s = kept(entries, true);
    let p = choose|p: Seq<int>| stable_order(sort, s, p) && arranged(all, s, p);
    let pred = |e: FileEntry| !e.is_hidden;
    if show_hidden {
        let keep_all = |e: FileEntry| show_hidden || !e.is_hidden;
        lemma_filter_all(entries, keep_all);
        assert(s == entries.filter(keep_all));
    } else {
        assert forall|i: int| 0 <= i < out.len() implies !(#[trigger] out[i]).is_hidden by {
            all.lemma_filter_pred(pred, i);
        }
    }
}

} // verus!
