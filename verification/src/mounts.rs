//! The mount points the sidebar offers, read from the text of `/proc/mounts`:
//! the second field of each line, real mounts only, in path order and each
//! path once.
use crate::paths::{
    comps, comps_lt, lemma_comps_lt_irreflexive, lemma_comps_lt_total, lemma_comps_lt_transitive, path_eq,
    path_less, path_lt, same_path,
};
use crate::text::{chars_of, chars_start_with, has_prefix, split_chars, split_on, string_of, words, words_of};
use vstd::prelude::*;

verus! {

/// The mount target of a line of `/proc/mounts`: its second field.
pub open spec fn mount_target(line: Seq<char>) -> Option<Seq<char>> {
    let w = words(line);
    if w.len() >= 2 {
        Some(w[1])
    } else {
        None
    }
}

/// A target worth showing: absolute, and not under `/proc` or `/sys`.
pub open spec fn real_mount(t: Seq<char>) -> bool {
    has_prefix(t, "/"@) && !has_prefix(t, "/proc"@) && !has_prefix(t, "/sys"@)
}

/// The real mount targets of the given lines, in order.
pub open spec fn listed_mounts(lines: Seq<Seq<char>>) -> Seq<Seq<char>>
    decreases lines.len(),
{
    if lines.len() == 0 {
        Seq::empty()
    } else {
        let rest = listed_mounts(lines.drop_last());
        match mount_target(lines.last()) {
            Some(t) => if real_mount(t) {
                rest.push(t)
            } else {
                rest
            },
            None => rest,
        }
    }
}

/// The real mount targets listed in the text of `/proc/mounts`, in file order.
pub open spec fn mount_candidates(content: Seq<char>) -> Seq<Seq<char>> {
    listed_mounts(split_on(content, '\n'))
}

/// `a` sorts strictly before `b` as paths (`path_lt`).
#[verifier::opaque]
pub open spec fn sorts_before(a: Seq<char>, b: Seq<char>) -> bool {
    path_lt(a, b)
}

/// `a` and `b` are the same path (`path_eq`).
#[verifier::opaque]
pub open spec fn same_as(a: Seq<char>, b: Seq<char>) -> bool {
    path_eq(a, b)
}

/// Each path sorts strictly before the next.
pub open spec fn strictly_sorted(out: Seq<Seq<char>>) -> bool {
    forall|i: int, j: int| 0 <= i < j < out.len() ==> sorts_before(#[trigger] out[i], #[trigger] out[j])
}

/// `p` occurs in `cands`, and no earlier element is the same path.
#[verifier::opaque]
pub open spec fn first_of(cands: Seq<Seq<char>>, p: Seq<char>) -> bool {
    exists|k: int|
        0 <= k < cands.len() && cands[k] == p && forall|m: int|
            0 <= m < k ==> !same_as(#[trigger] cands[m], p)
}

/// Some element of `out` is the same path as `p`.
pub open spec fn covered(out: Seq<Seq<char>>, p: Seq<char>) -> bool {
    exists|i: int| 0 <= i < out.len() && same_as(#[trigger] out[i], p)
}

/// Every element of `cands` is the same path as some element of `out`.
pub open spec fn covers(out: Seq<Seq<char>>, cands: Seq<Seq<char>>) -> bool {
    forall|k: int| 0 <= k < cands.len() ==> covered(out, #[trigger] cands[k])
}

/// `out` is `cands` sorted in path order with repeats of a path dropped: the
/// first occurrence of each path stays (a stable sort, then `dedup`).
pub open spec fn sorted_dedup(out: Seq<Seq<char>>, cands: Seq<Seq<char>>) -> bool {
    &&& strictly_sorted(out)
    &&& forall|i: int| 0 <= i < out.len() ==> first_of(cands, #[trigger] out[i])
    &&& covers(out, cands)
}

pub open spec fn texts(v: Seq<String>) -> Seq<Seq<char>> {
    v.map_values(|s: String| s@)
}

/// The facts of the path order that sorting needs.
proof fn lemma_order(a: Seq<char>, b: Seq<char>, c: Seq<char>)
    ensures
        !sorts_before(a, a),
        same_as(a, a),
        same_as(a, b) ==> same_as(b, a),
        same_as(a, b) && same_as(b, c) ==> same_as(a, c),
        sorts_before(a, b) && sorts_before(b, c) ==> sorts_before(a, c),
        same_as(a, b) || sorts_before(a, b) || sorts_before(b, a),
        sorts_before(a, b) ==> !same_as(a, b),
        same_as(a, b) ==> sorts_before(a, c) == sorts_before(b, c),
        same_as(a, b) ==> sorts_before(c, a) == sorts_before(c, b),
{
    reveal(sorts_before);
    reveal(same_as);
    let (x, y, z) = (comps(a), comps(b), comps(c));
    lemma_comps_lt_irreflexive(x);
    lemma_comps_lt_total(x, y);
    if comps_lt(x, y) && comps_lt(y, z) {
        lemma_comps_lt_transitive(x, y, z);
    }
}

proof fn lemma_skip_repeat(o: Seq<Seq<char>>, cands: Seq<Seq<char>>, c: Seq<char>, i: int)
    requires
        sorted_dedup(o, cands),
        0 <= i < o.len(),
        same_as(o[i], c),
    ensures
        sorted_dedup(o, cands.push(c)),
{
    let n = cands.push(c);
    assert forall|x: int| 0 <= x < o.len() implies first_of(n, #[trigger] o[x]) by {
        lemma_first_kept(cands, c, o[x]);
    }
    assert forall|k: int| 0 <= k < n.len() implies covered(o, #[trigger] n[k]) by {
        if k < cands.len() {
            assert(n[k] == cands[k]);
        } else {
            assert(same_as(o[i], n[k]));
        }
    }
}

/// What inserting a new path at its place needs.
pub open spec fn insert_ok(o: Seq<Seq<char>>, cands: Seq<Seq<char>>, c: Seq<char>, i: int) -> bool {
    &&& sorted_dedup(o, cands)
    &&& 0 <= i <= o.len()
    &&& forall|j: int| 0 <= j < i ==> sorts_before(#[trigger] o[j], c)
    &&& i < o.len() ==> !sorts_before(o[i], c) && !same_as(o[i], c)
}

proof fn lemma_insert_after(o: Seq<Seq<char>>, cands: Seq<Seq<char>>, c: Seq<char>, i: int)
    requires
        insert_ok(o, cands, c, i),
    ensures
        forall|j: int| i <= j < o.len() ==> sorts_before(c, #[trigger] o[j]),
        forall|y: int| 0 <= y < o.len() ==> !same_as(#[trigger] o[y], c),
{
    assert forall|j: int| i <= j < o.len() implies sorts_before(c, #[trigger] o[j]) by {
        lemma_order(o[i], c, o[j]);
        lemma_order(c, o[i], o[j]);
    }
    assert forall|y: int| 0 <= y < o.len() implies !same_as(#[trigger] o[y], c) by {
        lemma_order(o[y], c, c);
        lemma_order(c, o[y], c);
    }
}

proof fn lemma_insert_sorted(o: Seq<Seq<char>>, cands: Seq<Seq<char>>, c: Seq<char>, i: int)
    requires
        insert_ok(o, cands, c, i),
    ensures
        strictly_sorted(o.insert(i, c)),
{
    let q = o.insert(i, c);
    lemma_insert_after(o, cands, c, i);
    assert forall|a: int, b: int| 0 <= a < b < q.len() implies sorts_before(
        #[trigger] q[a],
        #[trigger] q[b],
    ) by {
        if b < i {
            assert(q[a] == o[a] && q[b] == o[b]);
        } else if b == i {
            assert(q[a] == o[a]);
        } else if a < i {
            assert(q[a] == o[a] && q[b] == o[b - 1]);
            lemma_order(o[a], c, o[b - 1]);
        } else if a == i {
            assert(q[b] == o[b - 1]);
        } else {
            assert(q[a] == o[a - 1] && q[b] == o[b - 1]);
        }
    }
}

proof fn lemma_first_kept(cands: Seq<Seq<char>>, c: Seq<char>, p: Seq<char>)
    requires
        first_of(cands, p),
    ensures
        first_of(cands.push(c), p),
{
    reveal(first_of);
    let n = cands.push(c);
    let k = choose|k: int|
        0 <= k < cands.len() && cands[k] == p && forall|m: int|
            0 <= m < k ==> !same_as(#[trigger] cands[m], p);
    assert(n[k] == p);
    assert forall|m: int| 0 <= m < k implies !same_as(#[trigger] n[m], p) by {
        assert(n[m] == cands[m]);
    }
}

proof fn lemma_first_new(cands: Seq<Seq<char>>, c: Seq<char>)
    requires
        forall|m: int| 0 <= m < cands.len() ==> !same_as(#[trigger] cands[m], c),
    ensures
        first_of(cands.push(c), c),
{
    reveal(first_of);
    let n = cands.push(c);
    assert(n[cands.len() as int] == c);
    assert forall|m: int| 0 <= m < cands.len() implies !same_as(#[trigger] n[m], c) by {
        assert(n[m] == cands[m]);
    }
}

proof fn lemma_insert_first(o: Seq<Seq<char>>, cands: Seq<Seq<char>>, c: Seq<char>, i: int)
    requires
        insert_ok(o, cands, c, i),
    ensures
        forall|x: int| 0 <= x < o.len() + 1 ==> first_of(cands.push(c), #[trigger] o.insert(i, c)[x]),
{
    let q = o.insert(i, c);
    lemma_insert_after(o, cands, c, i);
    assert forall|m: int| 0 <= m < cands.len() implies !same_as(#[trigger] cands[m], c) by {
        let y = choose|y: int| 0 <= y < o.len() && same_as(#[trigger] o[y], cands[m]);
        lemma_order(o[y], cands[m], c);
    }
    lemma_first_new(cands, c);
    assert forall|x: int| 0 <= x < q.len() implies first_of(cands.push(c), #[trigger] q[x]) by {
        if x != i {
            let ox = if x < i {
                x
            } else {
                x - 1
            };
            assert(q[x] == o[ox]);
            lemma_first_kept(cands, c, o[ox]);
        }
    }
}

proof fn lemma_insert_covers(o: Seq<Seq<char>>, cands: Seq<Seq<char>>, c: Seq<char>, i: int)
    requires
        insert_ok(o, cands, c, i),
    ensures
        covers(o.insert(i, c), cands.push(c)),
{
    let n = cands.push(c);
    let q = o.insert(i, c);
    assert forall|k: int| 0 <= k < n.len() implies covered(q, #[trigger] n[k]) by {
        if k < cands.len() {
            assert(n[k] == cands[k]);
            assert(covered(o, cands[k]));
            let y = choose|y: int| 0 <= y < o.len() && same_as(#[trigger] o[y], cands[k]);
            if y < i {
                assert(q[y] == o[y]);
            } else {
                assert(q[y + 1] == o[y]);
            }
        } else {
            assert(q[i] == c);
            lemma_order(c, c, c);
        }
    }
}

proof fn lemma_insert_new(o: Seq<Seq<char>>, cands: Seq<Seq<char>>, c: Seq<char>, i: int)
    requires
        insert_ok(o, cands, c, i),
    ensures
        sorted_dedup(o.insert(i, c), cands.push(c)),
{
    lemma_insert_sorted(o, cands, c, i);
    lemma_insert_first(o, cands, c, i);
    lemma_insert_covers(o, cands, c, i);
}

fn before_path(a: &str, b: &str) -> (r: bool)
    ensures
        r == sorts_before(a@, b@),
{
    reveal(sorts_before);
    path_less(a, b)
}

fn same_paths(a: &str, b: &str) -> (r: bool)
    ensures
        r == same_as(a@, b@),
{
    reveal(same_as);
    same_path(a, b)
}

/// Sorts paths in path order and drops repeats of a path, keeping its first
/// occurrence (`sort` then `dedup` on `PathBuf`s).
pub fn sorted_paths(paths: &Vec<String>) -> (r: Vec<String>)
    ensures
        sorted_dedup(texts(r@), texts(paths@)),
{
    let mut out: Vec<String> = Vec::new();
    let mut n: usize = 0;
    while n < paths.len()
        invariant
            n <= paths.len(),
            sorted_dedup(texts(out@), texts(paths@).take(n as int)),
        decreases paths.len() - n,
    {
        let c = &paths[n];
        let ghost o = texts(out@);
        assert(texts(paths@).take(n + 1) =~= texts(paths@).take(n as int).push(c@));
        let mut i: usize = 0;
        while i < out.len() && before_path(out[i].as_str(), c.as_str())
            invariant
                i <= out.len(),
                o == texts(out@),
                forall|j: int| 0 <= j < i ==> sorts_before(#[trigger] o[j], c@),
            decreases out.len() - i,
        {
            assert(o[i as int] == out@[i as int]@);
            i = i + 1;
        }
        if i < out.len() && same_paths(out[i].as_str(), c.as_str()) {
            proof {
                assert(o[i as int] == out@[i as int]@);
                lemma_skip_repeat(o, texts(paths@).take(n as int), c@, i as int);
            }
        } else {
            proof {
                if i < out.len() {
                    assert(o[i as int] == out@[i as int]@);
                }
                lemma_insert_new(o, texts(paths@).take(n as int), c@, i as int);
            }
            out.insert(i, c.clone());
            assert(texts(out@) =~= o.insert(i as int, c@));
        }
        n = n + 1;
    }
    assert(texts(paths@).take(paths.len() as int) =~= texts(paths@));
    out
}

fn is_real_mount(t: &Vec<char>) -> (r: bool)
    ensures
        r == real_mount(t@),
{
    let root = chars_of("/");
    let procfs = chars_of("/proc");
    let sysfs = chars_of("/sys");
    chars_start_with(t, &root) && !chars_start_with(t, &procfs) && !chars_start_with(t, &sysfs)
}

/// The real mount targets listed in the text of `/proc/mounts`, in file order.
pub fn mount_targets(content: &str) -> (r: Vec<String>)
    ensures
        texts(r@) == mount_candidates(content@),
{
    let text = chars_of(content);
    let lines = split_chars(&text, '\n');
    let ghost lv = lines@.map_values(|x: Vec<char>| x@);
    let mut out: Vec<String> = Vec::new();
    let mut i: usize = 0;
    while i < lines.len()
        invariant
            i <= lines.len(),
            lv == lines@.map_values(|x: Vec<char>| x@),
            lv == split_on(content@, '\n'),
            texts(out@) == listed_mounts(lv.take(i as int)),
        decreases lines.len() - i,
    {
        assert(lv.take(i + 1).drop_last() =~= lv.take(i as int));
        assert(lv.take(i + 1).last() == lines@[i as int]@);
        let w = words_of(&lines[i]);
        let ghost wv = w@.map_values(|x: Vec<char>| x@);
        assert(wv == words(lines@[i as int]@));
        if w.len() >= 2 {
            assert(wv[1] == w@[1]@);
            if is_real_mount(&w[1]) {
                let t = string_of(&w[1]);
                let ghost before = texts(out@);
                out.push(t);
                assert(texts(out@) =~= before.push(t@));
            }
        }
        i = i + 1;
    }
    assert(lv.take(lines.len() as int) =~= lv);
    out
}

/// The mount points to offer: the real mount targets of the text of
/// `/proc/mounts`, in path order, each path once.
pub fn parse_mount_points(content: &str) -> (r: Vec<String>)
    ensures
        sorted_dedup(texts(r@), mount_candidates(content@)),
{
    let targets = mount_targets(content);
    sorted_paths(&targets)
}

} // verus!
