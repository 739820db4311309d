//! The file manager's host-resident state: current folder, tabs, selection,
//! the image viewer, sort and hidden filter, recent folders.
//!
//! Every method is a pure state transition. Where a step depends on the
//! filesystem (does a folder exist, what does `canonicalize` give), the caller
//! asks and passes the answer in; saving the session is the caller's job after
//! the transitions that change what is saved.
use crate::fs_engine::{looks_like_image, is_image_path, FileEntry, SortKind};
use crate::paths::{
    comp_text, comp_views, component_text, components, comps, is_absolute, join, joined,
    lemma_comps_join, lemma_comps_join_piece, lemma_comps_root_piece, lemma_comps_single_piece,
    lemma_comps_well_formed, lemma_split_extend, lemma_split_sep, named_piece, parent, parent_of,
    is_skipped_piece, normal_comps, path_eq, path_is_absolute, piece_comp, same_path,
    split_slash, starts_with_cur,
    well_formed_comps, Comp,
};
use crate::text::{
    trim_start, chars_of, concat, has_char, lemma_trim_idempotent, owned, str_eq, string_of, trim, trim_str,
};
use vstd::prelude::*;

verus! {

/// At most this many recent folders are remembered.
pub const RECENT_LIMIT: usize = 20;

/// Opening a folder that is not yet a tab drops the oldest tab beyond this many.
pub const TABS_LIMIT: usize = 20;

/// How the folder contents are laid out.
#[derive(Debug, Clone, Copy, PartialEq, Eq, Structural)]
pub enum ViewMode {
    Details,
    Icons,
}

impl ViewMode {
    /// The keyword that names this layout.
    pub open spec fn keyword(self) -> Seq<char> {
        match self {
            ViewMode::Details => "details"@,
            ViewMode::Icons => "icons"@,
        }
    }

    /// The layout a keyword names, if any.
    pub open spec fn from_keyword(s: Seq<char>) -> Option<ViewMode> {
        if s == "details"@ {
            Some(ViewMode::Details)
        } else if s == "icons"@ {
            Some(ViewMode::Icons)
        } else {
            None
        }
    }

    /// The keyword of this layout.
    pub fn as_str(self) -> (r: &'static str)
        ensures
            r@ == self.keyword(),
    {
        match self {
            ViewMode::Details => "details",
            ViewMode::Icons => "icons",
        }
    }

    /// Reads a keyword: `details` or `icons`.
    pub fn parse(s: &str) -> (r: Option<ViewMode>)
        ensures
            r == ViewMode::from_keyword(s@),
    {
        if str_eq(s, "details") {
            Some(ViewMode::Details)
        } else if str_eq(s, "icons") {
            Some(ViewMode::Icons)
        } else {
            None
        }
    }
}

/// Reading back the keyword of a layout gives that layout.
pub proof fn lemma_view_mode_round_trip(m: ViewMode)
    ensures
        ViewMode::from_keyword(m.keyword()) == Some(m),
{
    reveal_strlit("details");
    reveal_strlit("icons");
    assert("details"@[0] != "icons"@[0]);
}

/// Picasa-style viewer state: which image is shown and the ordered filmstrip.
#[derive(Debug, Clone)]
pub struct ViewerState {
    pub image_path: String,
    pub images: Vec<String>,
    pub index: usize,
}

/// What the filesystem says about a path.
#[derive(Debug, Clone, Copy, PartialEq, Eq, Structural)]
pub enum PathKind {
    Missing,
    Directory,
    Other,
}

/// A path as the filesystem resolved it (`canonicalize`, or the path itself
/// when that fails) together with what is there.
#[derive(Debug, Clone)]
pub struct Resolved {
    pub path: String,
    pub kind: PathKind,
}

/// Why a state transition was refused.
#[derive(Debug, Clone, PartialEq)]
pub enum StoreError {
    DoesNotExist(String),
    NotADirectory(String),
    AlreadyAtRoot,
    FolderNameEmpty,
    NewNameEmpty,
    DestinationExists(String),
}

impl StoreError {
    /// The text shown to the user.
    pub open spec fn text(self) -> Seq<char> {
        match self {
            StoreError::DoesNotExist(p) => "path does not exist: "@ + p@,
            StoreError::NotADirectory(p) => "not a directory: "@ + p@,
            StoreError::AlreadyAtRoot => "already at root"@,
            StoreError::FolderNameEmpty => "folder name is empty"@,
            StoreError::NewNameEmpty => "new name is empty"@,
            StoreError::DestinationExists(p) => "destination exists: "@ + p@,
        }
    }

    /// The message for this error.
    pub fn message(&self) -> (r: String)
        ensures
            r@ == self.text(),
    {
        match self {
            StoreError::DoesNotExist(p) => concat("path does not exist: ", p.as_str()),
            StoreError::NotADirectory(p) => concat("not a directory: ", p.as_str()),
            StoreError::AlreadyAtRoot => owned("already at root"),
            StoreError::FolderNameEmpty => owned("folder name is empty"),
            StoreError::NewNameEmpty => owned("new name is empty"),
            StoreError::DestinationExists(p) => concat("destination exists: ", p.as_str()),
        }
    }
}

/// The saved session, as read back from its file; absent keys are `None`.
#[derive(Debug, Clone)]
pub struct SessionData {
    pub current_path: Option<String>,
    /// The saved tabs, item by item; `None` for an item that is not text.
    pub tabs: Option<Vec<Option<String>>>,
    pub show_hidden: Option<bool>,
    pub sort: Option<String>,
    /// The saved recent folders, item by item; `None` for an item that is not text.
    pub recent: Option<Vec<Option<String>>>,
    pub epoch: Option<u64>,
}

/// `new` is `old` with the saved session `data` taken over: each present key
/// replaces the current value; tabs keep only absolute paths; an unknown sort
/// keyword is ignored; the epoch never drops below 1.
pub open spec fn session_applied(old: Store, data: SessionData, new: Store) -> bool {
    &&& new.current_path == (match data.current_path {
        Some(p) => p,
        None => old.current_path,
    })
    &&& new.tabs@ == (match data.tabs {
        Some(t) => texts_present(t@).filter(|p: String| is_absolute(p@)),
        None => old.tabs@,
    })
    &&& new.show_hidden == (match data.show_hidden {
        Some(b) => b,
        None => old.show_hidden,
    })
    &&& new.sort == (match data.sort {
        Some(s) => match SortKind::from_keyword(s@) {
            Some(k) => k,
            None => old.sort,
        },
        None => old.sort,
    })
    &&& new.recent@ == (match data.recent {
        Some(r) => texts_present(r@),
        None => old.recent@,
    })
    &&& new.epoch == (match data.epoch {
        Some(e) => if e < 1 {
            1
        } else {
            e
        },
        None => old.epoch,
    })
    &&& new.selected == old.selected
    &&& new.viewer == old.viewer
    &&& new.view_mode == old.view_mode
    &&& new.home == old.home
}

/// The items that are text, in order.
pub open spec fn texts_present(v: Seq<Option<String>>) -> Seq<String>
    decreases v.len(),
{
    if v.len() == 0 {
        Seq::empty()
    } else {
        let rest = texts_present(v.drop_last());
        match v.last() {
            Some(x) => rest.push(x),
            None => rest,
        }
    }
}

/// The items of `v` that are text, in order.
fn present_texts(v: &Vec<Option<String>>) -> (r: Vec<String>)
    ensures
        r@ == texts_present(v@),
{
    let mut r: Vec<String> = Vec::new();
    let mut i: usize = 0;
    while i < v.len()
        invariant
            i <= v.len(),
            r@ == texts_present(v@.take(i as int)),
        decreases v.len() - i,
    {
        assert(v@.take(i + 1).drop_last() =~= v@.take(i as int));
        assert(v@.take(i + 1).last() == v@[i as int]);
        match &v[i] {
            Some(x) => r.push(x.clone()),
            None => {},
        }
        i = i + 1;
    }
    assert(v@.take(v.len() as int) =~= v@);
    r
}

/// Every string of `v` as a text item.
fn all_present(v: &Vec<String>) -> (r: Vec<Option<String>>)
    ensures
        texts_present(r@) == v@,
{
    let mut r: Vec<Option<String>> = Vec::new();
    let mut i: usize = 0;
    while i < v.len()
        invariant
            i <= v.len(),
            r@.len() == i,
            texts_present(r@) == v@.take(i as int),
        decreases v.len() - i,
    {
        let ghost before = r@;
        r.push(Some(v[i].clone()));
        assert(r@.drop_last() =~= before);
        assert(v@.take(i + 1) =~= v@.take(i as int).push(v@[i as int]));
        i = i + 1;
    }
    assert(v@.take(v.len() as int) =~= v@);
    r
}

/// `data` is what a session file keeps of `s`: every key present.
pub open spec fn session_of(s: Store, data: SessionData) -> bool {
    &&& data.current_path == Some(s.current_path)
    &&& data.tabs matches Some(t) && texts_present(t@) == s.tabs@
    &&& data.show_hidden == Some(s.show_hidden)
    &&& data.sort matches Some(k) && k@ == s.sort.keyword()
    &&& data.recent matches Some(r) && texts_present(r@) == s.recent@
    &&& data.epoch == Some(s.epoch)
}

/// Where a new folder goes: the cleaned name and the full path.
#[derive(Debug, Clone)]
pub struct FolderPlan {
    pub name: String,
    pub path: String,
}

/// What opening a path does.
#[derive(Debug, Clone, PartialEq)]
pub enum OpenPlan {
    /// A folder: navigate into it.
    Navigate,
    /// An image: scan this folder and show the image in the viewer.
    View(String),
    /// Any other file: select it.
    Select,
}

/// Host-resident file manager state.
pub struct Store {
    pub current_path: String,
    pub tabs: Vec<String>,
    pub selected: Option<String>,
    pub show_hidden: bool,
    pub sort: SortKind,
    pub view_mode: ViewMode,
    pub viewer: Option<ViewerState>,
    pub recent: Vec<String>,
    pub epoch: u64,
    /// The home folder the session is kept under.
    pub home: String,
}

/// The epoch after one change: `wrapping_add(1)`.
pub open spec fn next_epoch(e: u64) -> u64 {
    if e == u64::MAX {
        0
    } else {
        (e + 1) as u64
    }
}

/// Some element of `v` is the same path as `p`.
pub open spec fn contains_path(v: Seq<String>, p: Seq<char>) -> bool {
    exists|i: int| 0 <= i < v.len() && path_eq((#[trigger] v[i])@, p)
}

/// `v` without the elements that are the same path as `p` (`retain(|x| x != p)`).
pub open spec fn without_path(v: Seq<String>, p: Seq<char>) -> Seq<String> {
    v.filter(|x: String| !path_eq(x@, p))
}

/// The recent list after visiting `p`: `p` first, earlier visits of it removed,
/// at most `RECENT_LIMIT` long.
pub open spec fn recent_after(recent: Seq<String>, p: String) -> Seq<String> {
    let r = seq![p] + without_path(recent, p@);
    if r.len() > RECENT_LIMIT {
        r.take(RECENT_LIMIT as int)
    } else {
        r
    }
}

/// The tabs after visiting `p`: unchanged when `p` is open, else `p` added at
/// the end (the oldest tab dropped first when there are `TABS_LIMIT` or more).
pub open spec fn tabs_after(tabs: Seq<String>, p: String) -> Seq<String> {
    if contains_path(tabs, p@) {
        tabs
    } else if tabs.len() >= TABS_LIMIT {
        tabs.drop_first().push(p)
    } else {
        tabs.push(p)
    }
}

/// `name.trim()`, or empty when it holds a `/` or a NUL (path traversal).
pub open spec fn sanitized(name: Seq<char>) -> Seq<char> {
    let t = trim(name);
    if t.contains('/') || t.contains('\0') {
        Seq::<char>::empty()
    } else {
        t
    }
}

/// Cleans a user-typed file name: trims white space and refuses names that
/// could leave the folder.
pub fn sanitize_filename(name: &str) -> (r: String)
    ensures
        r@ == sanitized(name@),
        !r@.contains('/') && !r@.contains('\0'),
{
    let t = trim_str(name);
    let v = chars_of(t.as_str());
    if has_char(&v, '/') || has_char(&v, '\0') {
        String::new()
    } else {
        t
    }
}

/// Cleaning a name twice is cleaning it once.
pub proof fn lemma_sanitize_idempotent(name: Seq<char>)
    ensures
        sanitized(sanitized(name)) == sanitized(name),
{
    lemma_trim_idempotent(name);
    let t = sanitized(name);
    if t.len() == 0 {
        assert(trim_start(t) == t);
        assert(trim(t) =~= t);
    }
}

/// The viewer position after stepping forward through `n` images.
pub open spec fn next_index(i: usize, n: nat) -> usize {
    ((i + 1) % (n as int)) as usize
}

/// The viewer position after stepping back through `n` images.
pub open spec fn prev_index(i: usize, n: nat) -> usize {
    if i == 0 {
        (n - 1) as usize
    } else {
        (i - 1) as usize
    }
}

/// Stepping back undoes stepping forward, and the other way round.
pub proof fn lemma_viewer_steps_undo(i: usize, n: nat)
    requires
        i < n,
        n <= usize::MAX,
    ensures
        prev_index(next_index(i, n), n) == i,
        next_index(prev_index(i, n), n) == i,
{
    if i + 1 < n {
        assert((i + 1) % (n as int) == i + 1) by (nonlinear_arith)
            requires
                i + 1 < n,
                i >= 0,
        ;
    } else {
        assert((i + 1) % (n as int) == 0) by (nonlinear_arith)
            requires
                i + 1 == n,
        ;
    }
    if i == 0 {
        assert((n as int) % (n as int) == 0) by (nonlinear_arith)
            requires
                n > 0,
        ;
    } else {
        assert(((i - 1) + 1) % (n as int) == i) by (nonlinear_arith)
            requires
                0 < i < n,
        ;
    }
}

/// Stepping the viewer back after stepping it forward (or forward after
/// back) returns to the same image; the viewer is as it was when it showed
/// the image at its index.
pub proof fn lemma_viewer_step_round_trip(s: Store)
    requires
        s.viewer matches Some(v) && v.index < v.images@.len() && v.images@.len() <= usize::MAX,
    ensures
        ({
            let v = s.viewer->0;
            let back = stepped_prev(stepped_next(s)).viewer->0;
            let fwd = stepped_next(stepped_prev(s)).viewer->0;
            &&& back.index == v.index && back.image_path == v.images@[v.index as int]
            &&& back.images == v.images
            &&& fwd.index == v.index && fwd.image_path == v.images@[v.index as int]
            &&& fwd.images == v.images
            &&& v.image_path == v.images@[v.index as int] ==> stepped_prev(stepped_next(s)).viewer
                == s.viewer && stepped_next(stepped_prev(s)).viewer == s.viewer
        }),
{
    let v = s.viewer->0;
    lemma_viewer_steps_undo(v.index, v.images@.len());
}

/// The recent folders are newest first: entering `p` and then another
/// folder `q` leaves `q` as the most recent folder with `p` right behind it.
pub proof fn lemma_recent_newest_first(a: Store, b: Store, c: Store, p: String, q: String)
    requires
        navigated(a, b, p),
        navigated(b, c, q),
        !path_eq(p@, q@),
    ensures
        c.recent@.len() >= 2,
        c.recent@[0] == q,
        c.recent@[1] == p,
{
    let pred = |x: String| !path_eq(x@, q@);
    let rb = b.recent@;
    assert(rb[0] == p);
    assert(rb.len() >= 1);
    let tail = rb.drop_first();
    assert(rb =~= seq![p] + tail);
    tail.lemma_filter_prepend(p, pred);
    let w = without_path(rb, q@);
    assert(w == seq![p] + tail.filter(pred));
    assert(w[0] == p);
    let r = seq![q] + w;
    assert(r[1] == p);
}

/// Entering a folder with no open tab opens one for it as the last tab: the
/// tabs already open keep their order, and when `TABS_LIMIT` of them are
/// open the oldest closes to make room. Entering a folder that has a tab
/// leaves the tabs as they are.
pub proof fn lemma_navigation_tabs(old: Store, new: Store, target: String)
    requires
        navigated(old, new, target),
        old.tabs@.len() <= TABS_LIMIT,
    ensures
        contains_path(old.tabs@, target@) ==> new.tabs@ == old.tabs@,
        !contains_path(old.tabs@, target@) ==> {
            &&& new.tabs@.len() > 0 && new.tabs@.last() == target
            &&& new.tabs@.len() <= TABS_LIMIT
            &&& old.tabs@.len() < TABS_LIMIT ==> new.tabs@.drop_last() == old.tabs@
            &&& old.tabs@.len() == TABS_LIMIT ==> new.tabs@.drop_last() == old.tabs@.drop_first()
        },
{
    if !contains_path(old.tabs@, target@) {
        if old.tabs@.len() < TABS_LIMIT {
            assert(new.tabs@.drop_last() =~= old.tabs@);
        } else {
            assert(new.tabs@.drop_last() =~= old.tabs@.drop_first());
        }
    }
}

/// Entering a folder makes it the current folder, an open tab and the most
/// recent folder, with no other copy of it in the recent list, which stays
/// within `RECENT_LIMIT`.
pub proof fn lemma_navigated_tab_and_recent(old: Store, new: Store, target: String)
    requires
        navigated(old, new, target),
    ensures
        contains_path(new.tabs@, new.current_path@),
        new.recent@[0] == new.current_path,
        forall|i: int| 1 <= i < new.recent@.len() ==> !path_eq(#[trigger] new.recent@[i]@, target@),
        new.recent@.len() <= RECENT_LIMIT,
{
    let t = old.tabs@;
    if !contains_path(t, target@) {
        let n = new.tabs@;
        assert(n[n.len() - 1] == target);
        assert(path_eq(n[n.len() - 1]@, target@));
    }
    let pred = |x: String| !path_eq(x@, target@);
    let w = without_path(old.recent@, target@);
    let r = seq![target] + w;
    assert forall|i: int| 1 <= i < new.recent@.len() implies !path_eq(
        #[trigger] new.recent@[i]@,
        target@,
    ) by {
        assert(new.recent@[i] == r[i]);
        assert(r[i] == w[i - 1]);
        old.recent@.lemma_filter_pred(pred, i - 1);
    }
}

/// The folder of per-user state under `home`: `home/.yggterm/yfiles`.
pub open spec fn state_dir_of(home: Seq<char>) -> Seq<char> {
    joined(joined(home, ".yggterm"@), "yfiles"@)
}

/// The pieces of a breadcrumb bar: for each component, its text and the path
/// up to and including it.
pub open spec fn crumb_path(cs: Seq<Comp>) -> Seq<char>
    decreases cs.len(),
{
    if cs.len() == 0 {
        Seq::<char>::empty()
    } else {
        joined(crumb_path(cs.drop_last()), comp_text(cs.last()))
    }
}

/// `s` with the first element that is the same path as `p` replaced by `d`.
pub open spec fn replace_first_path(s: Seq<String>, p: Seq<char>, d: String) -> Seq<String> {
    if exists|i: int| 0 <= i < s.len() && path_eq((#[trigger] s[i])@, p) {
        let i = choose|i: int|
            0 <= i < s.len() && path_eq(s[i]@, p) && forall|k: int|
                0 <= k < i ==> !path_eq(#[trigger] s[k]@, p);
        s.update(i, d)
    } else {
        s
    }
}

/// The position of the first element that is the same path as `p`, or 0.
pub open spec fn first_path_index(s: Seq<String>, p: Seq<char>) -> int {
    if exists|i: int| 0 <= i < s.len() && path_eq((#[trigger] s[i])@, p) {
        choose|i: int|
            0 <= i < s.len() && path_eq(s[i]@, p) && forall|k: int|
                0 <= k < i ==> !path_eq(#[trigger] s[k]@, p)
    } else {
        0
    }
}

/// The images of a listing, in listing order.
pub open spec fn images_of(listing: Seq<FileEntry>) -> Seq<String> {
    listing.filter(|e: FileEntry| !e.is_dir && looks_like_image(e.path@)).map_values(
        |e: FileEntry| e.path,
    )
}

/// Index of the first element that is the same path as `p`.
fn position_of(s: &Vec<String>, p: &str) -> (r: Option<usize>)
    ensures
        match r {
            Some(i) => i < s.len() && path_eq(s@[i as int]@, p@) && forall|k: int|
                0 <= k < i ==> !path_eq(#[trigger] s@[k]@, p@),
            None => forall|k: int| 0 <= k < s.len() ==> !path_eq(#[trigger] s@[k]@, p@),
        },
{
    let mut i: usize = 0;
    while i < s.len()
        invariant
            i <= s.len(),
            forall|k: int| 0 <= k < i ==> !path_eq(#[trigger] s@[k]@, p@),
        decreases s.len() - i,
    {
        if same_path(s[i].as_str(), p) {
            return Some(i);
        }
        i = i + 1;
    }
    None
}

proof fn lemma_first_path_index(s: Seq<String>, p: Seq<char>, i: int)
    requires
        0 <= i < s.len(),
        path_eq(s[i]@, p),
        forall|k: int| 0 <= k < i ==> !path_eq(#[trigger] s[k]@, p),
    ensures
        first_path_index(s, p) == i,
        replace_first_path(s, p, s[i]) == s,
{
    let j = choose|j: int|
        0 <= j < s.len() && path_eq(s[j]@, p) && forall|k: int|
            0 <= k < j ==> !path_eq(#[trigger] s[k]@, p);
    assert(0 <= j < s.len() && path_eq(s[j]@, p) && forall|k: int|
        0 <= k < j ==> !path_eq(#[trigger] s[k]@, p));
    if j < i {
        assert(!path_eq(s[j]@, p));
    } else if j > i {
        assert(!path_eq(s[i]@, p));
    }
    assert(s.update(i, s[i]) =~= s);
}

/// `v` without the paths equal to `p`.
fn retain_other_paths(v: &Vec<String>, p: &str) -> (r: Vec<String>)
    ensures
        r@ == without_path(v@, p@),
{
    let mut r: Vec<String> = Vec::new();
    let mut i: usize = 0;
    while i < v.len()
        invariant
            i <= v.len(),
            r@ == without_path(v@.take(i as int), p@),
        decreases v.len() - i,
    {
        proof {
            reveal(Seq::filter);
            assert(v@.take(i + 1).drop_last() =~= v@.take(i as int));
            assert(v@.take(i + 1).last() == v@[i as int]);
        }
        if !same_path(v[i].as_str(), p) {
            r.push(v[i].clone());
        }
        i = i + 1;
    }
    assert(v@.take(v.len() as int) =~= v@);
    r
}

impl Store {
    /// A fresh state at `start_dir`: no tabs yet, nothing selected, sorted by
    /// name, hidden files not shown, epoch 1.
    pub fn new(home: String, start_dir: String) -> (r: Store)
        ensures
            r.current_path == start_dir,
            r.tabs@.len() == 0,
            r.selected is None,
            !r.show_hidden,
            r.sort == SortKind::Name,
            r.view_mode == ViewMode::Details,
            r.viewer is None,
            r.recent@.len() == 0,
            r.epoch == 1,
            r.home == home,
    {
        Store {
            current_path: start_dir,
            tabs: Vec::new(),
            selected: None,
            show_hidden: false,
            sort: SortKind::Name,
            view_mode: ViewMode::Details,
            viewer: None,
            recent: Vec::new(),
            epoch: 1,
            home,
        }
    }

    /// The folder of per-user state under `home`.
    pub fn state_dir(home: &str) -> (r: String)
        ensures
            r@ == state_dir_of(home@),
    {
        let a = join(home, ".yggterm");
        join(a.as_str(), "yfiles")
    }

    /// Where the session is saved: `state_dir/session.json`.
    pub fn session_path(&self) -> (r: String)
        ensures
            r@ == joined(state_dir_of(self.home@), "session.json"@),
    {
        let d = Store::state_dir(self.home.as_str());
        join(d.as_str(), "session.json")
    }

    /// What a session file keeps of this state.
    pub fn session_data(&self) -> (r: SessionData)
        ensures
            session_of(*self, r),
    {
        SessionData {
            current_path: Some(self.current_path.clone()),
            tabs: Some(all_present(&self.tabs)),
            show_hidden: Some(self.show_hidden),
            sort: Some(owned(self.sort.as_str())),
            recent: Some(all_present(&self.recent)),
            epoch: Some(self.epoch),
        }
    }

    /// Takes over what a saved session holds: each present key replaces the
    /// current value; tabs keep only absolute paths; an unknown sort keyword
    /// is ignored; the epoch never drops below 1.
    pub fn apply_session(&mut self, data: SessionData)
        ensures
            session_applied(*old(self), data, *final(self)),
    {
        if let Some(p) = data.current_path {
            self.current_path = p;
        }
        if let Some(items) = data.tabs {
            let t = present_texts(&items);
            let mut kept_tabs: Vec<String> = Vec::new();
            let mut i: usize = 0;
            while i < t.len()
                invariant
                    i <= t.len(),
                    kept_tabs@ == t@.take(i as int).filter(|p: String| is_absolute(p@)),
                decreases t.len() - i,
            {
                proof {
                    reveal(Seq::filter);
                    assert(t@.take(i + 1).drop_last() =~= t@.take(i as int));
                    assert(t@.take(i + 1).last() == t@[i as int]);
                }
                if path_is_absolute(t[i].as_str()) {
                    kept_tabs.push(t[i].clone());
                }
                i = i + 1;
            }
            assert(t@.take(t.len() as int) =~= t@);
            self.tabs = kept_tabs;
        }
        if let Some(b) = data.show_hidden {
            self.show_hidden = b;
        }
        if let Some(s) = data.sort {
            if let Some(k) = SortKind::parse(s.as_str()) {
                self.sort = k;
            }
        }
        if let Some(r) = data.recent {
            self.recent = present_texts(&r);
        }
        if let Some(e) = data.epoch {
            self.epoch = if e < 1 {
                1
            } else {
                e
            };
        }
    }

    /// After a restore: falls back to `fallback` when the current folder is
    /// gone, and opens the current folder as a tab when there are none.
    pub fn settle(&mut self, current_exists: bool, fallback: String)
        ensures
            final(self).current_path == (if current_exists {
                old(self).current_path
            } else {
                fallback
            }),
            final(self).tabs@ == (if old(self).tabs@.len() == 0 {
                seq![final(self).current_path]
            } else {
                old(self).tabs@
            }),
            final(self).epoch == old(self).epoch,
            final(self).recent@ == old(self).recent@,
            final(self).selected == old(self).selected,
            final(self).viewer == old(self).viewer,
            final(self).view_mode == old(self).view_mode,
            final(self).show_hidden == old(self).show_hidden,
            final(self).sort == old(self).sort,
            final(self).home == old(self).home,
    {
        if !current_exists {
            self.current_path = fallback;
        }
        if self.tabs.len() == 0 {
            self.tabs.push(self.current_path.clone());
            assert(self.tabs@ =~= seq![self.current_path]);
        }
    }

    /// Marks the state as changed: the epoch moves on by one (wrapping).
    pub fn touch(&mut self)
        ensures
            *final(self) == touched(*old(self)),
    {
        self.epoch = self.epoch.wrapping_add(1);
    }

    /// Puts `path` first in the recent list.
    fn push_recent(&mut self, path: String)
        ensures
            final(self).recent@ == recent_after(old(self).recent@, path),
            final(self).current_path == old(self).current_path,
            final(self).tabs == old(self).tabs,
            final(self).selected == old(self).selected,
            final(self).show_hidden == old(self).show_hidden,
            final(self).sort == old(self).sort,
            final(self).view_mode == old(self).view_mode,
            final(self).viewer == old(self).viewer,
            final(self).epoch == old(self).epoch,
            final(self).home == old(self).home,
    {
        let rest = retain_other_paths(&self.recent, path.as_str());
        let mut r: Vec<String> = Vec::new();
        r.push(path);
        let ghost head = r@;
        let mut i: usize = 0;
        while i < rest.len()
            invariant
                i <= rest.len(),
                r@ == head + rest@.take(i as int),
            decreases rest.len() - i,
        {
            r.push(rest[i].clone());
            i = i + 1;
            assert(r@ =~= head + rest@.take(i as int));
        }
        assert(rest@.take(rest.len() as int) =~= rest@);
        r.truncate(RECENT_LIMIT);
        self.recent = r;
    }

    /// Opens `path` as a tab unless it already is one.
    fn ensure_tab(&mut self, path: &String)
        ensures
            final(self).tabs@ == tabs_after(old(self).tabs@, *path),
            final(self).current_path == old(self).current_path,
            final(self).selected == old(self).selected,
            final(self).show_hidden == old(self).show_hidden,
            final(self).sort == old(self).sort,
            final(self).view_mode == old(self).view_mode,
            final(self).viewer == old(self).viewer,
            final(self).recent == old(self).recent,
            final(self).epoch == old(self).epoch,
            final(self).home == old(self).home,
    {
        match position_of(&self.tabs, path.as_str()) {
            Some(_) => {},
            None => {
                if self.tabs.len() >= TABS_LIMIT {
                    self.tabs.remove(0);
                    assert(old(self).tabs@.remove(0) =~= old(self).tabs@.drop_first());
                }
                self.tabs.push(path.clone());
            },
        }
    }

    /// The path `navigate` would look up for `path`: itself when absolute,
    /// otherwise relative to the current folder.
    pub fn resolve(&self, path: &str) -> (r: String)
        ensures
            r@ == (if is_absolute(path@) {
                path@
            } else {
                joined(self.current_path@, path@)
            }),
    {
        if path_is_absolute(path) {
            owned(path)
        } else {
            join(self.current_path.as_str(), path)
        }
    }

    /// Enters a folder. `target` is the looked-up path and `kind` what is
    /// there; only a directory is entered, and then the selection and viewer
    /// are cleared, it becomes the most recent folder and is opened as a tab.
    pub fn navigate(&mut self, target: String, kind: PathKind) -> (r: Result<(), StoreError>)
        ensures
            kind == PathKind::Missing ==> r == Err::<(), StoreError>(
                StoreError::DoesNotExist(target),
            ),
            kind == PathKind::Other ==> r == Err::<(), StoreError>(
                StoreError::NotADirectory(target),
            ),
            r is Err ==> *final(self) == *old(self),
            kind == PathKind::Directory ==> r is Ok && navigated(*old(self), *final(self), target),
    {
        match kind {
            PathKind::Missing => Err(StoreError::DoesNotExist(target)),
            PathKind::Other => Err(StoreError::NotADirectory(target)),
            PathKind::Directory => {
                self.current_path = target.clone();
                self.selected = None;
                self.viewer = None;
                self.push_recent(target.clone());
                self.ensure_tab(&target);
                self.touch();
                Ok(())
            },
        }
    }

    /// The folder above the current one, if there is one.
    pub fn up_target(&self) -> (r: Option<String>)
        ensures
            match r {
                Some(p) => parent(self.current_path@) == Some(p@),
                None => parent(self.current_path@) is None,
            },
    {
        parent_of(self.current_path.as_str())
    }

    /// Goes to the parent folder; `up` is what the filesystem says about
    /// `up_target()` (unused at the root, where this fails).
    pub fn navigate_up(&mut self, up: Resolved) -> (r: Result<(), StoreError>)
        ensures
            parent(old(self).current_path@) is None ==> r == Err::<(), StoreError>(
                StoreError::AlreadyAtRoot,
            ) && *final(self) == *old(self),
            parent(old(self).current_path@) is Some ==> {
                &&& up.kind == PathKind::Missing ==> r == Err::<(), StoreError>(
                    StoreError::DoesNotExist(up.path),
                )
                &&& up.kind == PathKind::Other ==> r == Err::<(), StoreError>(
                    StoreError::NotADirectory(up.path),
                )
                &&& r is Err ==> *final(self) == *old(self)
                &&& up.kind == PathKind::Directory ==> r is Ok && navigated(
                    *old(self),
                    *final(self),
                    up.path,
                )
            },
    {
        match self.up_target() {
            None => Err(StoreError::AlreadyAtRoot),
            Some(_) => self.navigate(up.path, up.kind),
        }
    }

    /// Switches to an open tab: the same as entering its folder.
    pub fn switch_tab(&mut self, target: String, kind: PathKind) -> (r: Result<(), StoreError>)
        ensures
            kind == PathKind::Missing ==> r == Err::<(), StoreError>(
                StoreError::DoesNotExist(target),
            ),
            kind == PathKind::Other ==> r == Err::<(), StoreError>(
                StoreError::NotADirectory(target),
            ),
            r is Err ==> *final(self) == *old(self),
            kind == PathKind::Directory ==> r is Ok && navigated(*old(self), *final(self), target),
    {
        self.navigate(target, kind)
    }

    /// Closes every tab that is the same path as `path`; there is always at
    /// least one tab left (the current folder). When the current folder was
    /// closed, returns the tab to enter next, and the caller moves the state
    /// on with `enter_next_tab`; otherwise the state is touched here.
    pub fn close_tab(&mut self, path: &str) -> (r: Option<String>)
        ensures
            final(self).tabs@.len() > 0,
            final(self).tabs@ == (if without_path(old(self).tabs@, path@).len() == 0 {
                seq![old(self).current_path]
            } else {
                without_path(old(self).tabs@, path@)
            }),
            path_eq(old(self).current_path@, path@) ==> r == Some(final(self).tabs@[0])
                && final(self).epoch == old(self).epoch,
            !path_eq(old(self).current_path@, path@) ==> r is None && final(self).epoch
                == next_epoch(old(self).epoch),
            final(self).current_path == old(self).current_path,
            final(self).selected == old(self).selected,
            final(self).viewer == old(self).viewer,
            final(self).recent == old(self).recent,
            final(self).show_hidden == old(self).show_hidden,
            final(self).sort == old(self).sort,
            final(self).view_mode == old(self).view_mode,
            final(self).home == old(self).home,
    {
        let mut t = retain_other_paths(&self.tabs, path);
        if t.len() == 0 {
            t.push(self.current_path.clone());
        }
        self.tabs = t;
        if same_path(self.current_path.as_str(), path) {
            Some(self.tabs[0].clone())
        } else {
            self.touch();
            None
        }
    }

    /// Enters the tab `close_tab` handed back, `next` being what the
    /// filesystem says about it. The state moves on exactly once either way:
    /// entering the folder does it, and when the folder cannot be entered the
    /// changed tab list is still marked by a touch.
    pub fn enter_next_tab(&mut self, next: Resolved) -> (r: Result<(), StoreError>)
        ensures
            next.kind == PathKind::Directory ==> r is Ok && navigated(
                *old(self),
                *final(self),
                next.path,
            ),
            next.kind == PathKind::Missing ==> r == Err::<(), StoreError>(
                StoreError::DoesNotExist(next.path),
            ) && *final(self) == touched(*old(self)),
            next.kind == PathKind::Other ==> r == Err::<(), StoreError>(
                StoreError::NotADirectory(next.path),
            ) && *final(self) == touched(*old(self)),
    {
        let r = self.navigate(next.path, next.kind);
        if r.is_err() {
            self.touch();
        }
        r
    }

    /// Shows or hides dotfiles.
    pub fn toggle_hidden(&mut self)
        ensures
            *final(self) == hidden_toggled(*old(self)),
    {
        self.show_hidden = !self.show_hidden;
        self.touch();
    }

    /// Changes the listing order.
    pub fn set_sort(&mut self, sort: SortKind)
        ensures
            *final(self) == sorted_by(*old(self), sort),
    {
        self.sort = sort;
        self.touch();
    }

    /// Changes the layout of the folder view.
    pub fn set_view_mode(&mut self, mode: ViewMode)
        ensures
            *final(self) == laid_out(*old(self), mode),
    {
        self.view_mode = mode;
        self.touch();
    }

    /// Selects a path.
    pub fn select(&mut self, path: String)
        ensures
            *final(self) == with_selection(*old(self), path),
    {
        self.selected = Some(path);
        self.touch();
    }

    /// Where a new folder called `name` would go: the cleaned name inside the
    /// current folder. An empty cleaned name is refused. The caller makes the
    /// folder with any missing parents, so one that is already there is fine.
    pub fn folder_target(&self, name: &str) -> (r: Result<FolderPlan, StoreError>)
        ensures
            sanitized(name@).len() == 0 ==> r == Err::<FolderPlan, StoreError>(
                StoreError::FolderNameEmpty,
            ),
            sanitized(name@).len() > 0 ==> (r matches Ok(plan) && plan.name@ == sanitized(name@)
                && plan.path@ == joined(self.current_path@, sanitized(name@))),
    {
        let s = sanitize_filename(name);
        if s.as_str().is_empty() {
            return Err(StoreError::FolderNameEmpty);
        }
        let p = join(self.current_path.as_str(), s.as_str());
        Ok(FolderPlan { name: s, path: p })
    }

    /// Where `from` goes when renamed to `new_name`: the cleaned name next to
    /// it (in the current folder when `from` has no parent). An empty cleaned
    /// name is refused.
    pub fn rename_target(&self, from: &str, new_name: &str) -> (r: Result<String, StoreError>)
        ensures
            sanitized(new_name@).len() == 0 ==> r == Err::<String, StoreError>(
                StoreError::NewNameEmpty,
            ),
            sanitized(new_name@).len() > 0 ==> (r matches Ok(d) && d@ == joined(
                match parent(from@) {
                    Some(p) => p,
                    None => self.current_path@,
                },
                sanitized(new_name@),
            )),
    {
        let s = sanitize_filename(new_name);
        if s.as_str().is_empty() {
            return Err(StoreError::NewNameEmpty);
        }
        let dir = match parent_of(from) {
            Some(p) => p,
            None => self.current_path.clone(),
        };
        Ok(join(dir.as_str(), s.as_str()))
    }

    /// Whether a rename may go to `dest`, given whether something is there
    /// already: an occupied destination is refused.
    pub fn free_destination(dest: String, exists: bool) -> (r: Result<String, StoreError>)
        ensures
            exists ==> r == Err::<String, StoreError>(StoreError::DestinationExists(dest)),
            !exists ==> r == Ok::<String, StoreError>(dest),
    {
        if exists {
            Err(StoreError::DestinationExists(dest))
        } else {
            Ok(dest)
        }
    }

    /// Records that `from` was renamed to `dest`: a selection of it follows
    /// the rename, and so does the viewer when it shows it.
    pub fn apply_rename(&mut self, from: &str, dest: String)
        ensures
            final(self).selected == (match old(self).selected {
                Some(s) => if path_eq(s@, from@) {
                    Some(dest)
                } else {
                    Some(s)
                },
                None => None::<String>,
            }),
            match old(self).viewer {
                Some(v) => if path_eq(v.image_path@, from@) {
                    final(self).viewer matches Some(w) && w.image_path == dest && w.index
                        == v.index && w.images@ == replace_first_path(v.images@, from@, dest)
                } else {
                    final(self).viewer == old(self).viewer
                },
                None => final(self).viewer is None,
            },
            old(self).viewer_ok() ==> final(self).viewer_ok(),
            final(self).epoch == next_epoch(old(self).epoch),
            final(self).current_path == old(self).current_path,
            final(self).tabs == old(self).tabs,
            final(self).show_hidden == old(self).show_hidden,
            final(self).sort == old(self).sort,
            final(self).recent == old(self).recent,
            final(self).home == old(self).home,
    {
        let new_selected = match &self.selected {
            Some(s) => if same_path(s.as_str(), from) {
                Some(dest.clone())
            } else {
                Some(s.clone())
            },
            None => None,
        };
        self.selected = new_selected;
        match self.viewer.take() {
            Some(mut v) => {
                if same_path(v.image_path.as_str(), from) {
                    let ghost old_images = v.images@;
                    match position_of(&v.images, from) {
                        Some(pos) => {
                            proof {
                                lemma_first_path_index(old_images, from@, pos as int);
                                assert(replace_first_path(old_images, from@, dest)
                                    == old_images.update(pos as int, dest));
                            }
                            v.images.set(pos, dest.clone());
                        },
                        None => {},
                    }
                    v.image_path = dest;
                }
                self.viewer = Some(v);
            },
            None => {},
        }
        self.touch();
    }

    /// Records that `path` went to the trash: its selection and its viewer close.
    pub fn apply_trash(&mut self, path: &str)
        ensures
            final(self).selected == (match old(self).selected {
                Some(s) => if path_eq(s@, path@) {
                    None
                } else {
                    Some(s)
                },
                None => None::<String>,
            }),
            final(self).viewer == (match old(self).viewer {
                Some(v) => if path_eq(v.image_path@, path@) {
                    None
                } else {
                    Some(v)
                },
                None => None::<ViewerState>,
            }),
            final(self).epoch == next_epoch(old(self).epoch),
            final(self).current_path == old(self).current_path,
            final(self).tabs == old(self).tabs,
            final(self).show_hidden == old(self).show_hidden,
            final(self).sort == old(self).sort,
            final(self).recent == old(self).recent,
            final(self).home == old(self).home,
    {
        let clear_selection = match &self.selected {
            Some(s) => same_path(s.as_str(), path),
            None => false,
        };
        if clear_selection {
            self.selected = None;
        }
        let clear_viewer = match &self.viewer {
            Some(v) => same_path(v.image_path.as_str(), path),
            None => false,
        };
        if clear_viewer {
            self.viewer = None;
        }
        self.touch();
    }

    /// Opens `path`, given whether it is a directory: a folder is to be
    /// entered (`Navigate`), an image shown in the viewer once its folder is
    /// listed (`View`, naming that folder); any other file is selected here.
    pub fn open(&mut self, path: String, is_dir: bool) -> (r: OpenPlan)
        ensures
            is_dir ==> r == OpenPlan::Navigate && *final(self) == *old(self),
            !is_dir && looks_like_image(path@) ==> (r matches OpenPlan::View(d) && d@ == (
            match parent(path@) {
                Some(p) => p,
                None => old(self).current_path@,
            })) && *final(self) == *old(self),
            !is_dir && !looks_like_image(path@) ==> r == OpenPlan::Select && *final(self)
                == with_selection(*old(self), path),
    {
        if is_dir {
            return OpenPlan::Navigate;
        }
        if is_image_path(path.as_str()) {
            let dir = match parent_of(path.as_str()) {
                Some(p) => p,
                None => self.current_path.clone(),
            };
            return OpenPlan::View(dir);
        }
        self.select(path);
        OpenPlan::Select
    }

    /// Opens the viewer on `image_path`; `listing` is its folder as listed by
    /// name with the current hidden filter. The filmstrip holds the listing's
    /// images in order, and the index points at `image_path` (0 when absent).
    pub fn open_viewer(&mut self, image_path: String, listing: &Vec<FileEntry>)
        ensures
            final(self).viewer matches Some(v) && v.image_path == image_path && v.images@
                == images_of(listing@) && v.index == first_path_index(
                images_of(listing@),
                image_path@,
            ),
            final(self).viewer_ok(),
            final(self).epoch == next_epoch(old(self).epoch),
            final(self).current_path == old(self).current_path,
            final(self).tabs == old(self).tabs,
            final(self).selected == old(self).selected,
            final(self).show_hidden == old(self).show_hidden,
            final(self).sort == old(self).sort,
            final(self).recent == old(self).recent,
            final(self).home == old(self).home,
    {
        let mut images: Vec<String> = Vec::new();
        let mut i: usize = 0;
        while i < listing.len()
            invariant
                i <= listing.len(),
                images@ == images_of(listing@.take(i as int)),
            decreases listing.len() - i,
        {
            proof {
                reveal(Seq::filter);
                assert(listing@.take(i + 1).drop_last() =~= listing@.take(i as int));
                assert(listing@.take(i + 1).last() == listing@[i as int]);
            }
            let e = &listing[i];
            if !e.is_dir && is_image_path(e.path.as_str()) {
                images.push(e.path.clone());
            }
            proof {
                let pre = listing@.take(i as int).filter(
                    |e: FileEntry| !e.is_dir && looks_like_image(e.path@),
                );
                let post = listing@.take(i + 1).filter(
                    |e: FileEntry| !e.is_dir && looks_like_image(e.path@),
                );
                if !e.is_dir && looks_like_image(e.path@) {
                    assert(post == pre.push(listing@[i as int]));
                    assert(post.map_values(|e: FileEntry| e.path) =~= pre.map_values(
                        |e: FileEntry| e.path,
                    ).push(listing@[i as int].path));
                } else {
                    assert(post == pre);
                }
            }
            i = i + 1;
        }
        assert(listing@.take(listing.len() as int) =~= listing@);
        let index = match position_of(&images, image_path.as_str()) {
            Some(p) => {
                proof {
                    lemma_first_path_index(images@, image_path@, p as int);
                }
                p
            },
            None => {
                proof {
                    assert(!exists|i: int|
                        0 <= i < images@.len() && path_eq((#[trigger] images@[i])@, image_path@));
                }
                0
            },
        };
        self.viewer = Some(ViewerState { image_path, images, index });
        self.touch();
    }

    /// Steps the viewer to the next image, wrapping around; the image shown
    /// becomes the selection. Nothing happens without a viewer or images.
    pub fn viewer_next(&mut self)
        requires
            old(self).viewer matches Some(v) ==> (v.images@.len() > 0 ==> v.index < usize::MAX),
        ensures
            *final(self) == stepped_next(*old(self)),
            old(self).viewer_ok() ==> final(self).viewer_ok(),
    {
        match self.viewer.take() {
            None => {},
            Some(mut v) => {
                if v.images.len() == 0 {
                    self.viewer = Some(v);
                    return ;
                }
                let i = (v.index + 1) % v.images.len();
                let p = v.images[i].clone();
                v.index = i;
                v.image_path = p.clone();
                self.viewer = Some(v);
                self.selected = Some(p);
                self.touch();
            },
        }
    }

    /// Steps the viewer to the previous image, wrapping around; the image
    /// shown becomes the selection. Nothing happens without a viewer or images.
    pub fn viewer_prev(&mut self)
        requires
            old(self).viewer matches Some(v) ==> (v.images@.len() > 0 ==> v.index <= v.images@.len()),
        ensures
            *final(self) == stepped_prev(*old(self)),
            old(self).viewer_ok() ==> final(self).viewer_ok(),
    {
        match self.viewer.take() {
            None => {},
            Some(mut v) => {
                if v.images.len() == 0 {
                    self.viewer = Some(v);
                    return ;
                }
                let i = if v.index == 0 {
                    v.images.len() - 1
                } else {
                    v.index - 1
                };
                let p = v.images[i].clone();
                v.index = i;
                v.image_path = p.clone();
                self.viewer = Some(v);
                self.selected = Some(p);
                self.touch();
            },
        }
    }

    /// Leaves the viewer.
    pub fn close_viewer(&mut self)
        ensures
            *final(self) == viewer_closed(*old(self)),
    {
        self.viewer = None;
        self.touch();
    }

    /// The breadcrumb bar: one `(label, path)` per component of the current
    /// folder, the path being the components up to and including it.
    pub fn breadcrumb_segments(&self) -> (r: Vec<(String, String)>)
        ensures
            r@.len() == crate::paths::comps(self.current_path@).len(),
            forall|i: int|
                0 <= i < r@.len() ==> (#[trigger] r@[i]).0@ == comp_text(
                    crate::paths::comps(self.current_path@)[i],
                ) && r@[i].1@ == crumb_path(crate::paths::comps(self.current_path@).take(i + 1)),
    {
        let cs = components(self.current_path.as_str());
        let ghost cv = comp_views(cs@);
        let mut segs: Vec<(String, String)> = Vec::new();
        let mut cur = String::new();
        let mut i: usize = 0;
        while i < cs.len()
            invariant
                i <= cs.len(),
                cv == comp_views(cs@),
                cur@ == crumb_path(cv.take(i as int)),
                segs@.len() == i,
                forall|k: int|
                    0 <= k < i ==> (#[trigger] segs@[k]).0@ == comp_text(cv[k]) && segs@[k].1@
                        == crumb_path(cv.take(k + 1)),
            decreases cs.len() - i,
        {
            let t = component_text(&cs[i]);
            assert(cv[i as int] == cs@[i as int]@);
            assert(cv.take(i + 1).drop_last() =~= cv.take(i as int));
            assert(cv.take(i + 1).last() == cv[i as int]);
            let label = string_of(&t);
            cur = join(cur.as_str(), label.as_str());
            segs.push((label, cur.clone()));
            i = i + 1;
        }
        segs
    }
}

impl Store {
    /// The viewer's index points into its filmstrip (or is 0 for an empty one).
    pub open spec fn viewer_ok(&self) -> bool {
        match self.viewer {
            Some(v) => v.index < v.images@.len() || v.index == 0,
            None => true,
        }
    }
}

/// The state after one change: only the epoch moves.
pub open spec fn touched(s: Store) -> Store {
    Store { epoch: next_epoch(s.epoch), ..s }
}

/// The state with hidden files shown or hidden the other way.
pub open spec fn hidden_toggled(s: Store) -> Store {
    Store { show_hidden: !s.show_hidden, epoch: next_epoch(s.epoch), ..s }
}

/// The state listing by `k`.
pub open spec fn sorted_by(s: Store, k: SortKind) -> Store {
    Store { sort: k, epoch: next_epoch(s.epoch), ..s }
}

/// The state with layout `m`.
pub open spec fn laid_out(s: Store, m: ViewMode) -> Store {
    Store { view_mode: m, epoch: next_epoch(s.epoch), ..s }
}

/// The state with `p` selected.
pub open spec fn with_selection(s: Store, p: String) -> Store {
    Store { selected: Some(p), epoch: next_epoch(s.epoch), ..s }
}

/// The state with the viewer closed.
pub open spec fn viewer_closed(s: Store) -> Store {
    Store { viewer: None, epoch: next_epoch(s.epoch), ..s }
}

/// The viewer moved to position `i` of its filmstrip, which becomes the selection.
pub open spec fn viewer_at(s: Store, v: ViewerState, i: usize) -> Store {
    Store {
        viewer: Some(ViewerState { index: i, image_path: v.images@[i as int], ..v }),
        selected: Some(v.images@[i as int]),
        epoch: next_epoch(s.epoch),
        ..s
    }
}

/// The state after stepping the viewer forward (unchanged without images).
pub open spec fn stepped_next(s: Store) -> Store {
    match s.viewer {
        Some(v) => if v.images@.len() == 0 {
            s
        } else {
            viewer_at(s, v, next_index(v.index, v.images@.len()))
        },
        None => s,
    }
}

/// The state after stepping the viewer back (unchanged without images).
pub open spec fn stepped_prev(s: Store) -> Store {
    match s.viewer {
        Some(v) => if v.images@.len() == 0 {
            s
        } else {
            viewer_at(s, v, prev_index(v.index, v.images@.len()))
        },
        None => s,
    }
}

/// The state after entering folder `target`.
pub open spec fn navigated(old: Store, new: Store, target: String) -> bool {
    &&& new.current_path == target
    &&& new.selected is None
    &&& new.viewer is None
    &&& new.recent@ == recent_after(old.recent@, target)
    &&& new.tabs@ == tabs_after(old.tabs@, target)
    &&& new.epoch == next_epoch(old.epoch)
    &&& new.show_hidden == old.show_hidden
    &&& new.sort == old.sort
    &&& new.view_mode == old.view_mode
    &&& new.home == old.home
}

/// The breadcrumb path of well-formed components names exactly them; it is
/// empty only for no components and ends in a separator only for the root.
proof fn lemma_crumb_path_shape(cs: Seq<Comp>)
    requires
        well_formed_comps(cs),
    ensures
        comps(crumb_path(cs)) == cs,
        crumb_path(cs).len() == 0 <==> cs.len() == 0,
        cs.len() > 0 && crumb_path(cs).last() == '/' ==> cs == seq![Comp::Root],
        cs == seq![Comp::Root] ==> crumb_path(cs) == seq!['/'],
    decreases cs.len(),
{
    if cs.len() == 0 {
        assert(split_slash(Seq::<char>::empty()) =~= seq![Seq::<char>::empty()]);
        let e = seq![Seq::<char>::empty()];
        assert(e.drop_last() =~= Seq::<Seq<char>>::empty());
        assert(normal_comps(Seq::<Seq<char>>::empty()) =~= Seq::<Comp>::empty());
        assert(is_skipped_piece(e.last()));
        assert(normal_comps(e) =~= Seq::<Comp>::empty());
        assert(!is_absolute(Seq::<char>::empty()) && !starts_with_cur(Seq::<char>::empty()));
        assert(comps(Seq::<char>::empty()) =~= Seq::<Comp>::empty());
    } else {
        let rest = cs.drop_last();
        let c = cs.last();
        assert(c == cs[cs.len() - 1]);
        assert forall|k: int| 0 <= k < rest.len() implies match #[trigger] rest[k] {
            Comp::Root => k == 0,
            Comp::Cur => k == 0,
            Comp::Parent => true,
            Comp::Normal(n) => named_piece(n) && n != seq!['.', '.'],
        } by {
            assert(rest[k] == cs[k]);
        }
        lemma_crumb_path_shape(rest);
        let p = crumb_path(rest);
        let t = comp_text(c);
        assert(crumb_path(cs) == joined(p, t));
        if rest.len() == 0 {
            match c {
                Comp::Root => {
                    let r = seq!['/'];
                    assert(joined(p, t) == r);
                    lemma_split_sep(Seq::<char>::empty());
                    assert(Seq::<char>::empty().push('/') =~= r);
                    assert(split_slash(Seq::<char>::empty()) =~= seq![Seq::<char>::empty()]);
                    assert(split_slash(r).drop_first() =~= seq![Seq::<char>::empty()]);
                    assert(seq![Seq::<char>::empty()] =~= Seq::<Seq<char>>::empty().push(
                        Seq::<char>::empty(),
                    ));
                    assert(comps(r) =~= seq![Comp::Root]);
                    assert(cs =~= seq![Comp::Root]);
                },
                Comp::Cur => {
                    let d = seq!['.'];
                    assert(joined(p, t) =~= d);
                    lemma_split_extend(Seq::<char>::empty(), d);
                    assert(Seq::<char>::empty() + d =~= d);
                    assert(split_slash(Seq::<char>::empty()) =~= seq![Seq::<char>::empty()]);
                    assert(split_slash(d) =~= seq![d]);
                    assert(starts_with_cur(d));
                    assert(split_slash(d).drop_first() =~= Seq::<Seq<char>>::empty());
                    assert(comps(d) =~= seq![Comp::Cur]);
                    assert(cs =~= seq![Comp::Cur]);
                },
                Comp::Parent => {
                    let d = seq!['.', '.'];
                    assert(!d.contains('/')) by {
                        if d.contains('/') {
                            let j = choose|j: int| 0 <= j < d.len() && d[j] == '/';
                        }
                    }
                    assert(named_piece(d));
                    lemma_comps_single_piece(d);
                    assert(joined(p, t) =~= d);
                    assert(cs =~= seq![Comp::Parent]);
                },
                Comp::Normal(n) => {
                    lemma_comps_single_piece(n);
                    assert(!is_absolute(n)) by {
                        if is_absolute(n) {
                            assert(n.contains('/'));
                        }
                    }
                    assert(joined(p, t) =~= n);
                    assert(cs =~= seq![Comp::Normal(n)]);
                    assert(n.last() != '/') by {
                        if n.last() == '/' {
                            assert(n[n.len() - 1] == '/');
                        }
                    }
                },
            }
        } else {
            assert(!(c is Root) && !(c is Cur));
            let d = seq!['.', '.'];
            assert(!d.contains('/')) by {
                if d.contains('/') {
                    let j = choose|j: int| 0 <= j < d.len() && d[j] == '/';
                }
            }
            assert(named_piece(t) && piece_comp(t) == c);
            assert(t.last() != '/') by {
                if t.last() == '/' {
                    assert(t[t.len() - 1] == '/');
                }
            }
            if rest == seq![Comp::Root] {
                lemma_comps_root_piece(t);
                assert(joined(p, t) =~= seq!['/'] + t);
                assert(cs =~= seq![Comp::Root, c]);
                assert((seq!['/'] + t).last() == t.last());
            } else {
                lemma_comps_join_piece(p, t);
                assert(cs =~= rest.push(c));
                assert((p + seq!['/'] + t).last() == t.last());
            }
        }
    }
}

/// Each breadcrumb enters exactly the components up to and including its
/// own, so the last breadcrumb is the current folder itself.
pub proof fn lemma_breadcrumbs_cover_path(s: Seq<char>, i: int)
    requires
        0 <= i < comps(s).len(),
    ensures
        comps(crumb_path(comps(s).take(i + 1))) == comps(s).take(i + 1),
        i == comps(s).len() - 1 ==> path_eq(crumb_path(comps(s).take(i + 1)), s),
{
    let cs = comps(s);
    lemma_comps_well_formed(s);
    let t = cs.take(i + 1);
    assert forall|k: int| 0 <= k < t.len() implies match #[trigger] t[k] {
        Comp::Root => k == 0,
        Comp::Cur => k == 0,
        Comp::Parent => true,
        Comp::Normal(n) => named_piece(n) && n != seq!['.', '.'],
    } by {
        assert(t[k] == cs[k]);
    }
    lemma_crumb_path_shape(t);
    if i == cs.len() - 1 {
        assert(t =~= cs);
    }
}

/// No two elements are the same path.
pub open spec fn distinct_paths(v: Seq<String>) -> bool {
    forall|i: int, j: int| 0 <= i < j < v.len() ==> !path_eq(#[trigger] v[i]@, #[trigger] v[j]@)
}

/// Dropping the copies of `p` keeps the others apart and leaves no copy of `p`.
proof fn lemma_without_path_distinct(v: Seq<String>, p: Seq<char>)
    requires
        distinct_paths(v),
    ensures
        distinct_paths(without_path(v, p)),
        forall|k: int| 0 <= k < without_path(v, p).len() ==> !path_eq((#[trigger] without_path(v, p)[k])@, p),
    decreases v.len(),
{
    let pred = |x: String| !path_eq(x@, p);
    reveal(Seq::filter);
    if v.len() > 0 {
        let u = v.drop_last();
        assert forall|i: int, j: int| 0 <= i < j < u.len() implies !path_eq(
            #[trigger] u[i]@,
            #[trigger] u[j]@,
        ) by {
            assert(u[i] == v[i] && u[j] == v[j]);
        }
        lemma_without_path_distinct(u, p);
        let f = without_path(u, p);
        assert(without_path(u, p) == u.filter(pred));
        if pred(v.last()) {
            assert(without_path(v, p) == f.push(v.last()));
            assert forall|k: int| 0 <= k < f.len() implies !path_eq((#[trigger] f[k])@, v.last()@) by {
                assert(f.contains(f[k]));
                u.lemma_filter_contains_rev(pred, f[k]);
                let m = choose|m: int| 0 <= m < u.len() && u[m] == f[k];
                assert(v[m] == u[m]);
                assert(v.last() == v[v.len() - 1]);
            }
            let g = f.push(v.last());
            assert forall|i: int, j: int| 0 <= i < j < g.len() implies !path_eq(
                #[trigger] g[i]@,
                #[trigger] g[j]@,
            ) by {
                if j == g.len() - 1 {
                    assert(g[i] == f[i]);
                } else {
                    assert(g[i] == f[i] && g[j] == f[j]);
                }
            }
        } else {
            assert(without_path(v, p) == f);
        }
    }
}

/// Entering a folder keeps the recent list free of repeated paths and the
/// tabs within `TABS_LIMIT`.
pub proof fn lemma_navigation_keeps_lists_tidy(old: Store, new: Store, target: String)
    requires
        navigated(old, new, target),
        distinct_paths(old.recent@),
        old.tabs@.len() <= TABS_LIMIT,
    ensures
        distinct_paths(new.recent@),
        new.tabs@.len() <= TABS_LIMIT,
{
    lemma_without_path_distinct(old.recent@, target@);
    let w = without_path(old.recent@, target@);
    let r = seq![target] + w;
    assert forall|i: int, j: int| 0 <= i < j < r.len() implies !path_eq(
        #[trigger] r[i]@,
        #[trigger] r[j]@,
    ) by {
        assert(r[j] == w[j - 1]);
        if i > 0 {
            assert(r[i] == w[i - 1]);
        } else {
            assert(!path_eq(w[j - 1]@, target@));
        }
    }
    let n = new.recent@;
    assert forall|i: int, j: int| 0 <= i < j < n.len() implies !path_eq(
        #[trigger] n[i]@,
        #[trigger] n[j]@,
    ) by {
        assert(n[i] == r[i] && n[j] == r[j]);
    }
}

/// A new folder, or the new name of a renamed entry, lands directly inside
/// its folder: joining a cleaned name other than `.` and `..` adds exactly
/// one named component to the folder's path.
pub proof fn lemma_cleaned_name_stays_inside(dir: Seq<char>, name: Seq<char>)
    requires
        sanitized(name).len() > 0,
        sanitized(name) != seq!['.'],
        sanitized(name) != seq!['.', '.'],
    ensures
        comps(joined(dir, sanitized(name))) == comps(dir).push(Comp::Normal(sanitized(name))),
{
    let n = sanitized(name);
    assert(named_piece(n));
    assert(piece_comp(n) == Comp::Normal(n));
    lemma_comps_join(dir, n);
}

/// Restoring a saved session brings back the folder, the hidden-files
/// setting, the order, the recent folders and the epoch of the state it was
/// saved from; its tabs come back without any relative path.
pub proof fn lemma_session_round_trip(s: Store, data: SessionData, before: Store, after: Store)
    requires
        session_of(s, data),
        session_applied(before, data, after),
        s.epoch >= 1,
    ensures
        after.current_path == s.current_path,
        after.show_hidden == s.show_hidden,
        after.sort == s.sort,
        after.recent@ == s.recent@,
        after.epoch == s.epoch,
        after.tabs@ == s.tabs@.filter(|p: String| is_absolute(p@)),
{
    crate::fs_engine::lemma_sort_keyword_round_trip(s.sort);
}

} // verus!
