//! Unix path algebra on strings: components, equality, joining, parent,
//! file name and extension, with the meaning `std::path` gives them.
use crate::text::{
    chars_eq, chars_less, chars_lt, chars_of, lemma_chars_lt_irreflexive, lemma_chars_lt_total,
    lemma_chars_lt_transitive, string_of, sub_chars, take_chars,
};
use vstd::prelude::*;

verus! {

/// One component of a path, as `std::path::Component` classifies it.
pub enum Comp {
    Root,
    Cur,
    Parent,
    Normal(Seq<char>),
}

/// An executable path component.
pub enum Component {
    Root,
    Cur,
    Parent,
    Normal(Vec<char>),
}

impl View for Component {
    type V = Comp;

    open spec fn view(&self) -> Comp {
        match self {
            Component::Root => Comp::Root,
            Component::Cur => Comp::Cur,
            Component::Parent => Comp::Parent,
            Component::Normal(v) => Comp::Normal(v@),
        }
    }
}

/// The views of a list of components.
pub open spec fn comp_views(v: Seq<Component>) -> Seq<Comp> {
    v.map_values(|c: Component| c@)
}

/// The path is absolute: it starts at the root.
pub open spec fn is_absolute(s: Seq<char>) -> bool {
    s.len() > 0 && s[0] == '/'
}

/// The pieces between separators, left to right (`n` separators give `n + 1` pieces).
pub open spec fn split_slash(s: Seq<char>) -> Seq<Seq<char>>
    decreases s.len(),
{
    if s.len() == 0 {
        seq![Seq::<char>::empty()]
    } else {
        let p = split_slash(s.drop_last());
        if s.last() == '/' {
            p.push(Seq::<char>::empty())
        } else {
            p.update(p.len() - 1, p.last().push(s.last()))
        }
    }
}

/// There is always at least one piece.
pub proof fn lemma_split_slash_len(s: Seq<char>)
    ensures
        split_slash(s).len() >= 1,
    decreases s.len(),
{
    if s.len() > 0 {
        lemma_split_slash_len(s.drop_last());
    }
}

/// A piece that names no component: empty (a doubled separator) or `.`.
pub open spec fn is_skipped_piece(p: Seq<char>) -> bool {
    p.len() == 0 || p == seq!['.']
}

/// The components that a run of pieces contributes after the root/current-dir prefix.
pub open spec fn normal_comps(ps: Seq<Seq<char>>) -> Seq<Comp>
    decreases ps.len(),
{
    if ps.len() == 0 {
        Seq::<Comp>::empty()
    } else {
        let rest = normal_comps(ps.drop_last());
        let p = ps.last();
        if is_skipped_piece(p) {
            rest
        } else if p == seq!['.', '.'] {
            rest.push(Comp::Parent)
        } else {
            rest.push(Comp::Normal(p))
        }
    }
}

/// A relative path that starts with the current directory `.`.
pub open spec fn starts_with_cur(s: Seq<char>) -> bool {
    !is_absolute(s) && s.len() > 0 && s[0] == '.' && (s.len() == 1 || s[1] == '/')
}

/// `Path::components`.
pub open spec fn comps(s: Seq<char>) -> Seq<Comp> {
    let pieces = split_slash(s);
    if is_absolute(s) {
        seq![Comp::Root] + normal_comps(pieces.drop_first())
    } else if starts_with_cur(s) {
        seq![Comp::Cur] + normal_comps(pieces.drop_first())
    } else {
        normal_comps(pieces)
    }
}

/// Two paths are equal as `PathBuf == PathBuf` decides: component by component.
pub open spec fn path_eq(a: Seq<char>, b: Seq<char>) -> bool {
    comps(a) == comps(b)
}

/// The pieces of `s` between separators.
fn pieces_of(s: &[char]) -> (r: Vec<Vec<char>>)
    ensures
        r@.map_values(|x: Vec<char>| x@) == split_slash(s@),
{
    let mut done: Vec<Vec<char>> = Vec::new();
    let mut cur: Vec<char> = Vec::new();
    let mut i: usize = 0;
    while i < s.len()
        invariant
            i <= s.len(),
            done@.map_values(|x: Vec<char>| x@).push(cur@) == split_slash(s@.take(i as int)),
        decreases s.len() - i,
    {
        let ghost before = done@.map_values(|x: Vec<char>| x@).push(cur@);
        let c = s[i];
        assert(s@.take(i + 1).drop_last() =~= s@.take(i as int));
        assert(s@.take(i + 1).last() == c);
        if c == '/' {
            done.push(cur);
            cur = Vec::new();
            assert(done@.map_values(|x: Vec<char>| x@).push(cur@) =~= before.push(
                Seq::<char>::empty(),
            ));
        } else {
            cur.push(c);
            assert(done@.map_values(|x: Vec<char>| x@).push(cur@) =~= before.update(
                before.len() - 1,
                before.last().push(c),
            ));
        }
        i = i + 1;
    }
    assert(s@.take(s.len() as int) =~= s@);
    done.push(cur);
    assert(done@.map_values(|x: Vec<char>| x@) =~= split_slash(s@));
    done
}

fn is_dot(p: &[char]) -> (r: bool)
    ensures
        r == (p@ == seq!['.']),
{
    let r = p.len() == 1 && p[0] == '.';
    proof {
        if r {
            assert(p@ =~= seq!['.']);
        }
    }
    r
}

fn is_dot_dot(p: &[char]) -> (r: bool)
    ensures
        r == (p@ == seq!['.', '.']),
{
    let r = p.len() == 2 && p[0] == '.' && p[1] == '.';
    proof {
        if r {
            assert(p@ =~= seq!['.', '.']);
        }
    }
    r
}

/// The components of the path whose characters are `s`.
pub fn components_of(s: &[char]) -> (r: Vec<Component>)
    ensures
        comp_views(r@) == comps(s@),
{
    let pieces = pieces_of(s);
    let ghost ps = pieces@.map_values(|x: Vec<char>| x@);
    proof {
        lemma_split_slash_len(s@);
    }
    let mut out: Vec<Component> = Vec::new();
    let absolute = s.len() > 0 && s[0] == '/';
    let cur = !absolute && s.len() > 0 && s[0] == '.' && (s.len() == 1 || s[1] == '/');
    let mut start: usize = 0;
    if absolute {
        out.push(Component::Root);
        start = 1;
    } else if cur {
        proof {
            // the first piece is exactly `.`
            let p0 = split_slash(s@)[0];
            lemma_first_piece_cur(s@);
        }
        out.push(Component::Cur);
        start = 1;
    }
    let ghost head = comp_views(out@);
    let mut j: usize = start;
    while j < pieces.len()
        invariant
            start <= j <= pieces.len(),
            start <= 1,
            ps == pieces@.map_values(|x: Vec<char>| x@),
            comp_views(out@) == head + normal_comps(ps.subrange(start as int, j as int)),
        decreases pieces.len() - j,
    {
        let p = &pieces[j];
        assert(ps[j as int] == p@);
        let ghost sub = ps.subrange(start as int, j + 1);
        let ghost prev = comp_views(out@);
        assert(sub.drop_last() =~= ps.subrange(start as int, j as int));
        assert(sub.last() == p@);
        if p.len() == 0 || is_dot(p) {
            assert(normal_comps(sub) == normal_comps(sub.drop_last()));
        } else if is_dot_dot(p) {
            out.push(Component::Parent);
            assert(comp_views(out@) =~= prev.push(Comp::Parent));
        } else {
            let q = take_chars(p, p.len());
            assert(q@ =~= p@);
            out.push(Component::Normal(q));
            assert(comp_views(out@) =~= prev.push(Comp::Normal(p@)));
        }
        assert(comp_views(out@) =~= head + normal_comps(sub));
        j = j + 1;
    }
    proof {
        if start == 1 {
            assert(ps.subrange(1, ps.len() as int) =~= ps.drop_first());
        } else {
            assert(ps.subrange(0, ps.len() as int) =~= ps);
            assert(head =~= Seq::<Comp>::empty());
        }
    }
    out
}

/// When a relative path starts with `./` (or is `.`), its first piece is `.`.
proof fn lemma_first_piece_cur(s: Seq<char>)
    requires
        starts_with_cur(s),
    ensures
        split_slash(s)[0] == seq!['.'],
{
    if s.len() == 1 {
        assert(s.drop_last() =~= Seq::<char>::empty());
        assert(split_slash(s.drop_last()) == seq![Seq::<char>::empty()]);
        assert(Seq::<char>::empty().push('.') =~= seq!['.']);
    } else {
        lemma_first_piece_before_sep(s);
        assert(s.take(1) =~= seq!['.']);
    }
}

/// A separator at position 1 ends the first piece there.
proof fn lemma_first_piece_before_sep(s: Seq<char>)
    requires
        s.len() >= 2,
        s[0] != '/',
        s[1] == '/',
    ensures
        split_slash(s).len() >= 2,
        split_slash(s)[0] == s.take(1),
    decreases s.len(),
{
    let t = s.drop_last();
    if s.len() == 2 {
        assert(t.drop_last() =~= Seq::<char>::empty());
        assert(split_slash(t.drop_last()) == seq![Seq::<char>::empty()]);
        assert(Seq::<char>::empty().push(s[0]) =~= seq![s[0]]);
        assert(split_slash(t) =~= seq![seq![s[0]]]);
        assert(s.take(1) =~= seq![s[0]]);
    } else {
        assert(t[1] == '/');
        lemma_first_piece_before_sep(t);
        assert(t.take(1) =~= s.take(1));
    }
}

/// The components of a path string.
pub fn components(s: &str) -> (r: Vec<Component>)
    ensures
        comp_views(r@) == comps(s@),
{
    let v = chars_of(s);
    components_of(&v)
}

pub(crate) fn component_eq(a: &Component, b: &Component) -> (r: bool)
    ensures
        r == (a@ == b@),
{
    match (a, b) {
        (Component::Root, Component::Root) => true,
        (Component::Cur, Component::Cur) => true,
        (Component::Parent, Component::Parent) => true,
        (Component::Normal(x), Component::Normal(y)) => chars_eq(x, y),
        _ => false,
    }
}

fn components_eq(a: &Vec<Component>, b: &Vec<Component>) -> (r: bool)
    ensures
        r == (comp_views(a@) == comp_views(b@)),
{
    if a.len() != b.len() {
        assert(comp_views(a@).len() != comp_views(b@).len());
        return false;
    }
    let mut i: usize = 0;
    while i < a.len()
        invariant
            a.len() == b.len(),
            i <= a.len(),
            forall|k: int| 0 <= k < i ==> a@[k]@ == b@[k]@,
        decreases a.len() - i,
    {
        if !component_eq(&a[i], &b[i]) {
            assert(comp_views(a@)[i as int] != comp_views(b@)[i as int]);
            return false;
        }
        i = i + 1;
    }
    assert(comp_views(a@) =~= comp_views(b@));
    true
}

/// Whether two paths are the same path: `PathBuf` equality.
pub fn same_path(a: &str, b: &str) -> (r: bool)
    ensures
        r == path_eq(a@, b@),
{
    let ca = components(a);
    let cb = components(b);
    components_eq(&ca, &cb)
}

/// Whether the path is absolute.
pub fn path_is_absolute(s: &str) -> (r: bool)
    ensures
        r == is_absolute(s@),
{
    let v = chars_of(s);
    v.len() > 0 && v[0] == '/'
}

/// `base.join(p)` (equivalently `PathBuf::push`): an absolute `p` replaces
/// `base`; otherwise a separator is put between them unless `base` is empty or
/// already ends with one.
pub open spec fn joined(base: Seq<char>, p: Seq<char>) -> Seq<char> {
    if is_absolute(p) {
        p
    } else if base.len() > 0 && base.last() != '/' {
        base + seq!['/'] + p
    } else {
        base + p
    }
}

/// `Path::join`.
pub fn join(base: &str, p: &str) -> (r: String)
    ensures
        r@ == joined(base@, p@),
{
    let vb = chars_of(base);
    let vp = chars_of(p);
    if vp.len() > 0 && vp[0] == '/' {
        return string_of(&vp);
    }
    let mut out = vb.clone();
    if vb.len() > 0 && vb[vb.len() - 1] != '/' {
        out.push('/');
    }
    let ghost head = out@;
    let mut i: usize = 0;
    while i < vp.len()
        invariant
            i <= vp.len(),
            out@ == head + vp@.take(i as int),
        decreases vp.len() - i,
    {
        out.push(vp[i]);
        i = i + 1;
        assert(out@ =~= head + vp@.take(i as int));
    }
    assert(vp@.take(vp.len() as int) =~= vp@);
    proof {
        if vb.len() > 0 && vb@.last() != '/' {
            assert(head =~= vb@ + seq!['/']);
        } else {
            assert(head =~= vb@);
        }
    }
    string_of(&out)
}

/// `Path::file_name`: the last component when it is a normal name.
pub open spec fn file_name(s: Seq<char>) -> Option<Seq<char>> {
    let c = comps(s);
    if c.len() > 0 && c.last() is Normal {
        Some(c.last()->Normal_0)
    } else {
        None
    }
}

/// The file name of a path.
pub fn file_name_of(s: &str) -> (r: Option<String>)
    ensures
        match r {
            Some(n) => file_name(s@) == Some(n@),
            None => file_name(s@) is None,
        },
{
    let c = components(s);
    if c.len() == 0 {
        return None;
    }
    assert(comp_views(c@).last() == c@[c.len() - 1]@);
    match &c[c.len() - 1] {
        Component::Normal(v) => Some(string_of(v)),
        _ => None,
    }
}

/// The last position of `c` in `s` (meaningful when `s` contains `c`).
pub open spec fn last_index(s: Seq<char>, c: char) -> int {
    choose|i: int| 0 <= i < s.len() && s[i] == c && forall|k: int| i < k < s.len() ==> s[k] != c
}

/// A position holding the last `c` is the one `last_index` names.
pub proof fn lemma_last_index(s: Seq<char>, c: char, i: int)
    requires
        0 <= i < s.len(),
        s[i] == c,
        forall|k: int| i < k < s.len() ==> s[k] != c,
    ensures
        last_index(s, c) == i,
{
    let j = last_index(s, c);
    assert(0 <= j < s.len() && s[j] == c && forall|k: int| j < k < s.len() ==> s[k] != c);
    if j < i {
        assert(s[i] != c);
    } else if j > i {
        assert(s[j] != c);
    }
}

/// The extension of a file name: the text after its last `.`, unless the name
/// has no `.` or its only text before the last `.` is empty (`.bashrc`).
pub open spec fn name_extension(n: Seq<char>) -> Option<Seq<char>> {
    if n.contains('.') && last_index(n, '.') > 0 {
        Some(n.skip(last_index(n, '.') + 1))
    } else {
        None
    }
}

/// `Path::extension`.
pub open spec fn extension(s: Seq<char>) -> Option<Seq<char>> {
    match file_name(s) {
        Some(n) => name_extension(n),
        None => None,
    }
}

fn rfind_char(s: &[char], c: char) -> (r: Option<usize>)
    ensures
        r is None <==> !s@.contains(c),
        r matches Some(i) ==> i < s.len() && s@[i as int] == c && last_index(s@, c) == i,
{
    let mut i: usize = s.len();
    while i > 0
        invariant
            i <= s.len(),
            forall|k: int| i <= k < s.len() ==> s@[k] != c,
        decreases i,
    {
        if s[i - 1] == c {
            proof {
                lemma_last_index(s@, c, i - 1);
            }
            return Some(i - 1);
        }
        i = i - 1;
    }
    proof {
        if s@.contains(c) {
            let k = choose|k: int| 0 <= k < s.len() && s@[k] == c;
            assert(s@[k] != c);
        }
    }
    None
}

/// The extension of a path, if it has one.
pub fn extension_of(s: &str) -> (r: Option<String>)
    ensures
        match r {
            Some(e) => extension(s@) == Some(e@),
            None => extension(s@) is None,
        },
{
    match file_name_of(s) {
        None => None,
        Some(n) => {
            let v = chars_of(n.as_str());
            match rfind_char(&v, '.') {
                None => None,
                Some(i) => {
                    if i == 0 {
                        None
                    } else {
                        let e = sub_chars(&v, i + 1, v.len());
                        assert(e@ =~= v@.skip(i + 1));
                        Some(string_of(&e))
                    }
                },
            }
        },
    }
}

/// The text a component stands for: `Component::as_os_str`.
pub open spec fn comp_text(c: Comp) -> Seq<char> {
    match c {
        Comp::Root => seq!['/'],
        Comp::Cur => seq!['.'],
        Comp::Parent => seq!['.', '.'],
        Comp::Normal(n) => n,
    }
}

/// The text of a component.
pub fn component_text(c: &Component) -> (r: Vec<char>)
    ensures
        r@ == comp_text(c@),
{
    match c {
        Component::Root => {
            let mut v = Vec::new();
            v.push('/');
            assert(v@ =~= seq!['/']);
            v
        },
        Component::Cur => {
            let mut v = Vec::new();
            v.push('.');
            assert(v@ =~= seq!['.']);
            v
        },
        Component::Parent => {
            let mut v = Vec::new();
            v.push('.');
            v.push('.');
            assert(v@ =~= seq!['.', '.']);
            v
        },
        Component::Normal(n) => n.clone(),
    }
}

/// Where the body of the path begins: after the root `/` or a leading `.`.
pub open spec fn body_start(s: Seq<char>) -> int {
    if is_absolute(s) || starts_with_cur(s) {
        1
    } else {
        0
    }
}

/// The last separator at or after `f`, or `-1` when the body has none.
pub open spec fn rslash(t: Seq<char>, f: int) -> int
    decreases t.len(),
{
    if t.len() <= f || t.len() == 0 {
        -1
    } else if t.last() == '/' {
        t.len() - 1
    } else {
        rslash(t.drop_last(), f)
    }
}

/// `rslash` is a separator inside the body, or `-1`.
pub proof fn lemma_rslash(t: Seq<char>, f: int)
    requires
        f >= 0,
    ensures
        rslash(t, f) == -1 || (f <= rslash(t, f) < t.len() && t[rslash(t, f)] == '/'),
        forall|k: int| rslash(t, f) < k < t.len() && k >= f ==> t[k] != '/',
    decreases t.len(),
{
    if t.len() <= f || t.len() == 0 {
    } else if t.last() == '/' {
    } else {
        lemma_rslash(t.drop_last(), f);
        let r = rslash(t.drop_last(), f);
        assert forall|k: int| r < k < t.len() && k >= f implies t[k] != '/' by {
            if k < t.len() - 1 {
                assert(t.drop_last()[k] == t[k]);
            }
        }
    }
}

/// The last piece of the body of `t`.
pub open spec fn last_piece(t: Seq<char>, f: int) -> Seq<char> {
    if rslash(t, f) >= 0 {
        t.skip(rslash(t, f) + 1)
    } else {
        t.skip(f)
    }
}

/// The length left after removing the last piece (and the separator before it).
pub open spec fn pop_len(t: Seq<char>, f: int) -> int {
    if rslash(t, f) >= 0 {
        rslash(t, f)
    } else {
        f
    }
}

/// Strips trailing pieces that name no component (`Components::trim_right`).
pub open spec fn trim_back(t: Seq<char>, f: int) -> Seq<char>
    decreases t.len(),
{
    if f >= 0 && t.len() > f && is_skipped_piece(last_piece(t, f)) {
        proof {
            lemma_rslash(t, f);
        }
        trim_back(t.take(pop_len(t, f)), f)
    } else {
        t
    }
}

/// `Path::parent`: the path without its last component, or `None` for the
/// root and for the empty path.
pub open spec fn parent(s: Seq<char>) -> Option<Seq<char>> {
    let f = body_start(s);
    let t = trim_back(s, f);
    if t.len() > f {
        Some(trim_back(t.take(pop_len(t, f)), f))
    } else if starts_with_cur(s) {
        Some(Seq::<char>::empty())
    } else {
        None
    }
}

/// The last separator at or after `f` within the first `n` characters.
fn rslash_exec(s: &[char], n: usize, f: usize) -> (r: Option<usize>)
    requires
        n <= s.len(),
    ensures
        match r {
            Some(i) => rslash(s@.take(n as int), f as int) == i as int && f <= i < n,
            None => rslash(s@.take(n as int), f as int) == -1,
        },
{
    proof {
        lemma_rslash(s@.take(n as int), f as int);
    }
    let mut m: usize = n;
    while m > f && m > 0 && s[m - 1] != '/'
        invariant
            m <= n <= s.len(),
            rslash(s@.take(n as int), f as int) == rslash(s@.take(m as int), f as int),
        decreases m,
    {
        assert(s@.take(m as int).drop_last() =~= s@.take(m - 1));
        m = m - 1;
    }
    if m <= f || m == 0 {
        None
    } else {
        Some(m - 1)
    }
}

/// Length of `trim_back(s.take(n), f)`.
fn trim_back_len(s: &[char], n: usize, f: usize) -> (r: usize)
    requires
        n <= s.len(),
    ensures
        r <= n,
        s@.take(r as int) == trim_back(s@.take(n as int), f as int),
{
    let mut m: usize = n;
    let mut done = false;
    while !done
        invariant
            m <= n <= s.len(),
            trim_back(s@.take(n as int), f as int) == (if done {
                s@.take(m as int)
            } else {
                trim_back(s@.take(m as int), f as int)
            }),
        decreases m + (if done {
            0int
        } else {
            1int
        }),
    {
        if m <= f {
            done = true;
        } else {
            let ghost t = s@.take(m as int);
            let sl = rslash_exec(s, m, f);
            let (start, cut) = match sl {
                Some(i) => (i + 1, i),
                None => (f, f),
            };
            proof {
                lemma_rslash(t, f as int);
            }
            let empty = start == m;
            let dot = start < m && m - start == 1 && s[start] == '.';
            proof {
                let p = last_piece(t, f as int);
                assert(p =~= s@.subrange(start as int, m as int));
                if dot {
                    assert(p =~= seq!['.']);
                }
                if p == seq!['.'] {
                    assert(p.len() == 1 && p[0] == '.');
                }
            }
            if empty || dot {
                assert(t.take(cut as int) =~= s@.take(cut as int));
                m = cut;
            } else {
                done = true;
            }
        }
    }
    m
}

/// The parent of a path.
pub fn parent_of(s: &str) -> (r: Option<String>)
    ensures
        match r {
            Some(p) => parent(s@) == Some(p@),
            None => parent(s@) is None,
        },
{
    let v = chars_of(s);
    let absolute = v.len() > 0 && v[0] == '/';
    let cur = !absolute && v.len() > 0 && v[0] == '.' && (v.len() == 1 || v[1] == '/');
    let f: usize = if absolute || cur {
        1
    } else {
        0
    };
    assert(v@.take(v.len() as int) =~= v@);
    let t = trim_back_len(&v, v.len(), f);
    if t > f {
        let ghost tt = v@.take(t as int);
        proof {
            lemma_rslash(tt, f as int);
        }
        let cut = match rslash_exec(&v, t, f) {
            Some(i) => i,
            None => f,
        };
        assert(tt.take(cut as int) =~= v@.take(cut as int));
        let n = trim_back_len(&v, cut, f);
        let out = take_chars(&v, n);
        Some(string_of(&out))
    } else if cur {
        Some(String::new())
    } else {
        None
    }
}

// ---------------------------------------------------------------------------
// The order of paths (`Ord for Path`): components compared in turn, a root
// before `.` before `..` before names, names by their bytes.

/// The rank of a component's kind in the order of `std::path::Component`.
pub open spec fn comp_rank(c: Comp) -> int {
    match c {
        Comp::Root => 1,
        Comp::Cur => 2,
        Comp::Parent => 3,
        Comp::Normal(_) => 4,
    }
}

/// `a` sorts before `b` as components.
pub open spec fn comp_lt(a: Comp, b: Comp) -> bool {
    match (a, b) {
        (Comp::Normal(x), Comp::Normal(y)) => chars_lt(x, y),
        _ => comp_rank(a) < comp_rank(b),
    }
}

/// `a` sorts before `b` as component lists: lexicographically.
pub open spec fn comps_lt(a: Seq<Comp>, b: Seq<Comp>) -> bool
    decreases a.len(),
{
    if a.len() == 0 {
        b.len() > 0
    } else if b.len() == 0 {
        false
    } else if a[0] != b[0] {
        comp_lt(a[0], b[0])
    } else {
        comps_lt(a.drop_first(), b.drop_first())
    }
}

/// `a` sorts before `b` as paths.
pub open spec fn path_lt(a: Seq<char>, b: Seq<char>) -> bool {
    comps_lt(comps(a), comps(b))
}

proof fn lemma_comp_lt_irreflexive(a: Comp)
    ensures
        !comp_lt(a, a),
{
    if let Comp::Normal(x) = a {
        lemma_chars_lt_irreflexive(x);
    }
}

proof fn lemma_comp_lt_transitive(a: Comp, b: Comp, c: Comp)
    requires
        comp_lt(a, b),
        comp_lt(b, c),
    ensures
        comp_lt(a, c),
{
    if let (Comp::Normal(x), Comp::Normal(y), Comp::Normal(z)) = (a, b, c) {
        lemma_chars_lt_transitive(x, y, z);
    }
}

proof fn lemma_comp_lt_total(a: Comp, b: Comp)
    ensures
        a == b || comp_lt(a, b) || comp_lt(b, a),
{
    if let (Comp::Normal(x), Comp::Normal(y)) = (a, b) {
        lemma_chars_lt_total(x, y);
    }
}

/// The path order is irreflexive.
pub proof fn lemma_comps_lt_irreflexive(a: Seq<Comp>)
    ensures
        !comps_lt(a, a),
    decreases a.len(),
{
    if a.len() > 0 {
        lemma_comps_lt_irreflexive(a.drop_first());
    }
}

/// The path order is transitive.
pub proof fn lemma_comps_lt_transitive(a: Seq<Comp>, b: Seq<Comp>, c: Seq<Comp>)
    requires
        comps_lt(a, b),
        comps_lt(b, c),
    ensures
        comps_lt(a, c),
    decreases a.len(),
{
    if a.len() > 0 && b.len() > 0 && c.len() > 0 {
        if a[0] == b[0] && b[0] == c[0] {
            lemma_comps_lt_transitive(a.drop_first(), b.drop_first(), c.drop_first());
        } else if a[0] != b[0] && b[0] != c[0] {
            lemma_comp_lt_transitive(a[0], b[0], c[0]);
            if a[0] == c[0] {
                lemma_comp_lt_irreflexive(a[0]);
            }
        }
    }
}

/// Any two distinct component lists are ordered one way or the other.
pub proof fn lemma_comps_lt_total(a: Seq<Comp>, b: Seq<Comp>)
    ensures
        a == b || comps_lt(a, b) || comps_lt(b, a),
    decreases a.len(),
{
    if a.len() > 0 && b.len() > 0 {
        if a[0] == b[0] {
            lemma_comps_lt_total(a.drop_first(), b.drop_first());
            if a.drop_first() == b.drop_first() {
                assert(a =~= seq![a[0]] + a.drop_first());
                assert(b =~= seq![b[0]] + b.drop_first());
            }
        } else {
            lemma_comp_lt_total(a[0], b[0]);
        }
    } else if a.len() == 0 && b.len() == 0 {
        assert(a =~= b);
    }
}

/// The path order is asymmetric.
pub proof fn lemma_comps_lt_asymmetric(a: Seq<Comp>, b: Seq<Comp>)
    requires
        comps_lt(a, b),
    ensures
        !comps_lt(b, a),
{
    if comps_lt(b, a) {
        lemma_comps_lt_transitive(a, b, a);
        lemma_comps_lt_irreflexive(a);
    }
}

proof fn lemma_comps_lt_skip(a: Seq<Comp>, b: Seq<Comp>, i: int)
    requires
        0 <= i <= a.len(),
        i <= b.len(),
        a.take(i) == b.take(i),
    ensures
        comps_lt(a, b) == comps_lt(a.skip(i), b.skip(i)),
    decreases i,
{
    if i == 0 {
        assert(a.skip(0) =~= a);
        assert(b.skip(0) =~= b);
    } else {
        assert(a[0] == a.take(i)[0]);
        assert(b[0] == b.take(i)[0]);
        let a1 = a.drop_first();
        let b1 = b.drop_first();
        assert(a1.take(i - 1) =~= a.take(i).drop_first());
        assert(b1.take(i - 1) =~= b.take(i).drop_first());
        lemma_comps_lt_skip(a1, b1, i - 1);
        assert(a1.skip(i - 1) =~= a.skip(i));
        assert(b1.skip(i - 1) =~= b.skip(i));
    }
}

fn component_less(a: &Component, b: &Component) -> (r: bool)
    ensures
        r == comp_lt(a@, b@),
{
    match (a, b) {
        (Component::Normal(x), Component::Normal(y)) => chars_less(x, y),
        _ => component_rank(a) < component_rank(b),
    }
}

fn component_rank(c: &Component) -> (r: u8)
    ensures
        r == comp_rank(c@),
{
    match c {
        Component::Root => 1,
        Component::Cur => 2,
        Component::Parent => 3,
        Component::Normal(_) => 4,
    }
}

fn components_less(a: &Vec<Component>, b: &Vec<Component>) -> (r: bool)
    ensures
        r == comps_lt(comp_views(a@), comp_views(b@)),
{
    let ghost av = comp_views(a@);
    let ghost bv = comp_views(b@);
    let mut i: usize = 0;
    while i < a.len() && i < b.len() && component_eq(&a[i], &b[i])
        invariant
            i <= a.len(),
            i <= b.len(),
            av == comp_views(a@),
            bv == comp_views(b@),
            av.take(i as int) == bv.take(i as int),
        decreases a.len() - i,
    {
        assert(av.take(i + 1) =~= av.take(i as int).push(av[i as int]));
        assert(bv.take(i + 1) =~= bv.take(i as int).push(bv[i as int]));
        i = i + 1;
    }
    proof {
        lemma_comps_lt_skip(av, bv, i as int);
    }
    if i == a.len() {
        i < b.len()
    } else if i == b.len() {
        false
    } else {
        assert(av.skip(i as int)[0] == av[i as int]);
        assert(bv.skip(i as int)[0] == bv[i as int]);
        component_less(&a[i], &b[i])
    }
}

/// Whether `a` sorts before `b` as paths (`Path < Path`).
pub fn path_less(a: &str, b: &str) -> (r: bool)
    ensures
        r == path_lt(a@, b@),
{
    let ca = components(a);
    let cb = components(b);
    components_less(&ca, &cb)
}

// ---------------------------------------------------------------------------
// Components of a path extended by one piece.

/// The component a piece between separators names (when it names one).
pub open spec fn piece_comp(n: Seq<char>) -> Comp {
    if n == seq!['.', '.'] {
        Comp::Parent
    } else {
        Comp::Normal(n)
    }
}

/// A piece that names a component of its own: not empty, not `.`, no `/`.
pub open spec fn named_piece(n: Seq<char>) -> bool {
    !is_skipped_piece(n) && !n.contains('/')
}

/// Appending text without separators extends the last piece.
pub proof fn lemma_split_extend(t: Seq<char>, n: Seq<char>)
    requires
        !n.contains('/'),
    ensures
        split_slash(t + n) == split_slash(t).update(
            split_slash(t).len() - 1,
            split_slash(t).last() + n,
        ),
    decreases n.len(),
{
    lemma_split_slash_len(t);
    if n.len() == 0 {
        assert(t + n =~= t);
        assert(split_slash(t).last() + n =~= split_slash(t).last());
        assert(split_slash(t).update(split_slash(t).len() - 1, split_slash(t).last())
            =~= split_slash(t));
    } else {
        let m = n.drop_last();
        let c = n.last();
        assert(!m.contains('/')) by {
            if m.contains('/') {
                let k = choose|k: int| 0 <= k < m.len() && m[k] == '/';
                assert(n[k] == '/');
            }
        }
        assert(c != '/') by {
            assert(n[n.len() - 1] == c);
        }
        lemma_split_extend(t, m);
        assert((t + n).drop_last() =~= t + m);
        assert((t + n).last() == c);
        lemma_split_slash_len(t + m);
        assert(split_slash(t).last() + n =~= (split_slash(t).last() + m).push(c));
        assert(split_slash(t + n) =~= split_slash(t).update(
            split_slash(t).len() - 1,
            split_slash(t).last() + n,
        ));
    }
}

/// A separator starts a new, empty piece.
pub proof fn lemma_split_sep(t: Seq<char>)
    ensures
        split_slash(t.push('/')) == split_slash(t).push(Seq::<char>::empty()),
{
    assert(t.push('/').drop_last() =~= t);
}

/// A separator and then a piece add that piece.
pub proof fn lemma_split_add_piece(t: Seq<char>, n: Seq<char>)
    requires
        !n.contains('/'),
    ensures
        split_slash(t + seq!['/'] + n) == split_slash(t).push(n),
{
    lemma_split_sep(t);
    assert(t + seq!['/'] =~= t.push('/'));
    lemma_split_extend(t.push('/'), n);
    let p = split_slash(t.push('/'));
    assert(p.last() =~= Seq::<char>::empty());
    assert(p.last() + n =~= n);
    assert(p.update(p.len() - 1, n) =~= split_slash(t).push(n));
}

/// A piece adds its component after the others.
pub proof fn lemma_normal_comps_push(ps: Seq<Seq<char>>, n: Seq<char>)
    requires
        named_piece(n),
    ensures
        normal_comps(ps.push(n)) == normal_comps(ps).push(piece_comp(n)),
{
    assert(ps.push(n).drop_last() =~= ps);
}

/// The pieces of a path hold no separator.
pub proof fn lemma_split_pieces(s: Seq<char>)
    ensures
        forall|k: int| 0 <= k < split_slash(s).len() ==> !(#[trigger] split_slash(s)[k]).contains('/'),
    decreases s.len(),
{
    if s.len() > 0 {
        lemma_split_pieces(s.drop_last());
        lemma_split_slash_len(s.drop_last());
        let p = split_slash(s.drop_last());
        if s.last() != '/' {
            assert forall|k: int| 0 <= k < split_slash(s).len() implies !(#[trigger] split_slash(
                s,
            )[k]).contains('/') by {
                if k == p.len() - 1 {
                    let q = p.last().push(s.last());
                    assert(split_slash(s)[k] == q);
                    if q.contains('/') {
                        let j = choose|j: int| 0 <= j < q.len() && q[j] == '/';
                        if j < p.last().len() {
                            assert(p.last()[j] == '/');
                            assert(p[p.len() - 1].contains('/'));
                        }
                    }
                } else {
                    assert(split_slash(s)[k] == p[k]);
                }
            }
        } else {
            assert forall|k: int| 0 <= k < split_slash(s).len() implies !(#[trigger] split_slash(
                s,
            )[k]).contains('/') by {
                if k < p.len() {
                    assert(split_slash(s)[k] == p[k]);
                } else {
                    assert(split_slash(s)[k] =~= Seq::<char>::empty());
                }
            }
        }
    }
}

/// What `normal_comps` yields: parents, and names that are named pieces.
pub proof fn lemma_normal_comps_named(ps: Seq<Seq<char>>)
    requires
        forall|k: int| 0 <= k < ps.len() ==> !(#[trigger] ps[k]).contains('/'),
    ensures
        forall|k: int|
            0 <= k < normal_comps(ps).len() ==> (#[trigger] normal_comps(ps)[k] is Parent
                || (normal_comps(ps)[k] matches Comp::Normal(n) && named_piece(n) && n != seq![
                '.',
                '.',
            ])),
    decreases ps.len(),
{
    if ps.len() > 0 {
        let q = ps.drop_last();
        assert forall|k: int| 0 <= k < q.len() implies !(#[trigger] q[k]).contains('/') by {
            assert(q[k] == ps[k]);
        }
        lemma_normal_comps_named(q);
        assert(ps.last() == ps[ps.len() - 1]);
    }
}

/// The components of a path: a root or `.` can only come first, every other
/// component is `..` or a name that is a named piece.
pub open spec fn well_formed_comps(cs: Seq<Comp>) -> bool {
    forall|k: int|
        0 <= k < cs.len() ==> match #[trigger] cs[k] {
            Comp::Root => k == 0,
            Comp::Cur => k == 0,
            Comp::Parent => true,
            Comp::Normal(n) => named_piece(n) && n != seq!['.', '.'],
        }
}

/// Every path's components are well formed.
pub proof fn lemma_comps_well_formed(s: Seq<char>)
    ensures
        well_formed_comps(comps(s)),
{
    let pieces = split_slash(s);
    lemma_split_pieces(s);
    lemma_split_slash_len(s);
    if is_absolute(s) || starts_with_cur(s) {
        let rest = pieces.drop_first();
        assert forall|k: int| 0 <= k < rest.len() implies !(#[trigger] rest[k]).contains('/') by {
            assert(rest[k] == pieces[k + 1]);
        }
        lemma_normal_comps_named(rest);
        let head = if is_absolute(s) {
            Comp::Root
        } else {
            Comp::Cur
        };
        assert forall|k: int| 0 <= k < comps(s).len() implies match #[trigger] comps(s)[k] {
            Comp::Root => k == 0,
            Comp::Cur => k == 0,
            Comp::Parent => true,
            Comp::Normal(n) => named_piece(n) && n != seq!['.', '.'],
        } by {
            if k > 0 {
                assert(comps(s)[k] == normal_comps(rest)[k - 1]);
            }
        }
    } else {
        lemma_normal_comps_named(pieces);
    }
}

/// Joining a named piece onto a non-empty path that does not end in a
/// separator adds the piece's component.
pub proof fn lemma_comps_join_piece(t: Seq<char>, n: Seq<char>)
    requires
        t.len() > 0,
        t.last() != '/',
        named_piece(n),
    ensures
        joined(t, n) == t + seq!['/'] + n,
        comps(t + seq!['/'] + n) == comps(t).push(piece_comp(n)),
{
    let u = t + seq!['/'] + n;
    assert(!is_absolute(n)) by {
        if is_absolute(n) {
            assert(n.contains('/'));
        }
    }
    lemma_split_add_piece(t, n);
    lemma_split_slash_len(t);
    assert(u[0] == t[0]);
    assert(is_absolute(u) == is_absolute(t));
    if t.len() == 1 {
        assert(u[1] == '/');
    } else {
        assert(u[1] == t[1]);
    }
    assert(starts_with_cur(u) == starts_with_cur(t));
    let p = split_slash(t);
    assert(p.push(n).drop_first() =~= p.drop_first().push(n));
    lemma_normal_comps_push(p.drop_first(), n);
    lemma_normal_comps_push(p, n);
    if is_absolute(t) || starts_with_cur(t) {
        let head = if is_absolute(t) {
            Comp::Root
        } else {
            Comp::Cur
        };
        assert(comps(u) =~= seq![head] + normal_comps(p.drop_first()).push(piece_comp(n)));
        assert(comps(u) =~= comps(t).push(piece_comp(n)));
    }
}

/// A named piece on its own is one component.
pub proof fn lemma_comps_single_piece(n: Seq<char>)
    requires
        named_piece(n),
    ensures
        comps(n) == seq![piece_comp(n)],
{
    lemma_split_extend(Seq::<char>::empty(), n);
    assert(Seq::<char>::empty() + n =~= n);
    let e = split_slash(Seq::<char>::empty());
    assert(e =~= seq![Seq::<char>::empty()]);
    assert(split_slash(n) =~= seq![n]);
    assert(!is_absolute(n)) by {
        if is_absolute(n) {
            assert(n.contains('/'));
        }
    }
    if n.len() > 1 && n[0] == '.' && n[1] == '/' {
        assert(n.contains('/'));
    }
    if n.len() == 1 && n[0] == '.' {
        assert(n =~= seq!['.']);
    }
    assert(!starts_with_cur(n));
    assert(seq![n] =~= Seq::<Seq<char>>::empty().push(n));
    lemma_normal_comps_push(Seq::<Seq<char>>::empty(), n);
    assert(normal_comps(seq![n]) =~= seq![piece_comp(n)]);
}

/// The root followed by a named piece.
pub proof fn lemma_comps_root_piece(n: Seq<char>)
    requires
        named_piece(n),
    ensures
        comps(seq!['/'] + n) == seq![Comp::Root, piece_comp(n)],
{
    let r = seq!['/'];
    lemma_split_extend(r, n);
    lemma_split_sep(Seq::<char>::empty());
    assert(Seq::<char>::empty().push('/') =~= r);
    let e = split_slash(Seq::<char>::empty());
    assert(e =~= seq![Seq::<char>::empty()]);
    let p = split_slash(r);
    assert(p =~= seq![Seq::<char>::empty(), Seq::<char>::empty()]);
    assert(p.last() + n =~= n);
    assert(split_slash(r + n) =~= seq![Seq::<char>::empty(), n]);
    assert((r + n)[0] == '/');
    assert(split_slash(r + n).drop_first() =~= Seq::<Seq<char>>::empty().push(n));
    lemma_normal_comps_push(Seq::<Seq<char>>::empty(), n);
    assert(comps(r + n) =~= seq![Comp::Root, piece_comp(n)]);
}

/// A piece after a separator that ends the path takes the empty piece's place.
proof fn lemma_comps_after_sep(t: Seq<char>, n: Seq<char>)
    requires
        t.len() > 0,
        t.last() == '/',
        named_piece(n),
    ensures
        comps(t + n) == comps(t).push(piece_comp(n)),
{
    let u = t + n;
    let q = t.drop_last();
    assert(q.push('/') =~= t);
    lemma_split_sep(q);
    lemma_split_extend(t, n);
    lemma_split_slash_len(q);
    let p = split_slash(q);
    let st = split_slash(t);
    assert(st == p.push(Seq::<char>::empty()));
    assert(st.last() + n =~= n);
    assert(split_slash(u) =~= p.push(n));
    assert(n.len() > 0);
    assert(u[0] == t[0]);
    assert(is_absolute(u) == is_absolute(t));
    if t.len() == 1 {
        assert(is_absolute(t));
    } else {
        assert(u[1] == t[1]);
    }
    assert(starts_with_cur(u) == starts_with_cur(t));
    // The empty last piece of `t` names nothing.
    assert(is_skipped_piece(Seq::<char>::empty()));
    assert(p.push(Seq::<char>::empty()).drop_last() =~= p);
    assert(normal_comps(p.push(Seq::<char>::empty())) == normal_comps(p));
    lemma_normal_comps_push(p, n);
    if is_absolute(t) || starts_with_cur(t) {
        assert(p.len() >= 1);
        let d = p.drop_first();
        assert(p.push(Seq::<char>::empty()).drop_first() =~= d.push(Seq::<char>::empty()));
        assert(d.push(Seq::<char>::empty()).drop_last() =~= d);
        assert(normal_comps(d.push(Seq::<char>::empty())) == normal_comps(d));
        assert(p.push(n).drop_first() =~= d.push(n));
        lemma_normal_comps_push(d, n);
        let head = if is_absolute(t) {
            Comp::Root
        } else {
            Comp::Cur
        };
        assert(comps(t) =~= seq![head] + normal_comps(d));
        assert(comps(u) =~= seq![head] + normal_comps(d).push(piece_comp(n)));
        assert(comps(u) =~= comps(t).push(piece_comp(n)));
    }
}

/// Joining a named piece onto any path adds exactly that piece's component:
/// the result is a child of the path (its parent for `..`).
pub proof fn lemma_comps_join(t: Seq<char>, n: Seq<char>)
    requires
        named_piece(n),
    ensures
        comps(joined(t, n)) == comps(t).push(piece_comp(n)),
{
    assert(!is_absolute(n)) by {
        if is_absolute(n) {
            assert(n.contains('/'));
        }
    }
    if t.len() == 0 {
        lemma_comps_single_piece(n);
        assert(joined(t, n) =~= n);
        assert(split_slash(t) =~= seq![Seq::<char>::empty()]);
        let e = seq![Seq::<char>::empty()];
        assert(e.drop_last() =~= Seq::<Seq<char>>::empty());
        assert(normal_comps(Seq::<Seq<char>>::empty()) =~= Seq::<Comp>::empty());
        assert(is_skipped_piece(e.last()));
        assert(normal_comps(e) =~= Seq::<Comp>::empty());
        assert(comps(t) =~= Seq::<Comp>::empty());
        assert(comps(t).push(piece_comp(n)) =~= seq![piece_comp(n)]);
    } else if t.last() == '/' {
        lemma_comps_after_sep(t, n);
    } else {
        lemma_comps_join_piece(t, n);
    }
}

} // verus!
