//! The control endpoint's decisions: decoding `POST /action` into state
//! changes, and reading the request line and headers of a request. Sockets,
//! JSON and the filesystem stay with the caller, which performs the `Effect`
//! an action asks for.
use crate::fs_engine::{lemma_sort_keyword_round_trip, SortKind};
use crate::paths::path_eq;
use crate::schema::{
    bar_buttons, lemma_recent_rows_most_recent_first, lemma_viewer_bar_sends_its_steps, recent_rows,
    tab_row, viewer_bar, viewer_view,
};
use crate::state::{
    contains_path, hidden_toggled, laid_out, lemma_view_mode_round_trip, next_epoch, next_index, prev_index, sorted_by,
    stepped_next, stepped_prev, touched, viewer_closed, PathKind, Store, ViewMode, ViewerState,
};
use crate::text::{
    lemma_words_concat, lemma_words_single, lemma_first_index, ascii_lower, first_index, is_digit, is_ws, lemma_decimal_reads_back, lemma_trim_around,
    unsigned_digits, chars_eq_ignore_ascii_case, chars_of, concat, decimal, eq_ignore_ascii_case, fmt_u64,
    has_prefix, owned, parse_usize, split_once, split_once_chars, str_eq, str_starts_with,
    string_of, sub_chars, take_chars, trim, trim_chars, trim_str, unsigned_text, words,
    words_of,
};
use vstd::prelude::*;
use vstd::utf8::encode_utf8;

verus! {

/// UI-local transient state alongside the durable `Store`.
pub struct PaneState {
    pub store: Store,
    /// Path being renamed (in-place row field).
    pub renaming: Option<String>,
    /// Whether the "new folder" input is visible.
    pub show_new_folder: bool,
    /// File list filter (search-box).
    pub filter: String,
}

/// A `POST /action` body: the action text and the string-valued entries of
/// its `values` object (each key once).
#[derive(Debug, Clone)]
pub struct ActionRequest {
    pub action: String,
    pub values: Vec<(String, String)>,
}

/// What is left to do after an action was decoded and its state-only part applied.
#[derive(Debug, Clone, PartialEq)]
pub enum Effect {
    /// Nothing more.
    Done,
    /// Nothing more; show this message.
    Toast(String),
    /// The session changed: save it.
    Persist,
    /// Enter this folder (`Store::resolve` it, look it up, `navigate`, save);
    /// `report` says whether a failure is shown.
    Navigate { path: String, report: bool },
    /// Enter the parent folder.
    NavigateUp,
    /// Create a folder of this (non-blank) name.
    CreateFolder(String),
    /// Open this path (`Store::open`); `report` says whether a failure is shown.
    Open { path: String, report: bool },
    /// Switch to this tab.
    SwitchTab(String),
    /// Close this tab.
    CloseTab(String),
    /// Rename `target` to `new_name` (non-blank).
    Rename { target: String, new_name: String },
    /// Move this path to the trash.
    Trash(String),
}

/// What an `Effect` asks for, over plain text.
pub enum EffectView {
    Done,
    Toast(Seq<char>),
    Persist,
    Navigate { path: Seq<char>, report: bool },
    NavigateUp,
    CreateFolder(Seq<char>),
    Open { path: Seq<char>, report: bool },
    SwitchTab(Seq<char>),
    CloseTab(Seq<char>),
    Rename { target: Seq<char>, new_name: Seq<char> },
    Trash(Seq<char>),
}

impl View for Effect {
    type V = EffectView;

    open spec fn view(&self) -> EffectView {
        match self {
            Effect::Done => EffectView::Done,
            Effect::Toast(t) => EffectView::Toast(t@),
            Effect::Persist => EffectView::Persist,
            Effect::Navigate { path, report } => EffectView::Navigate { path: path@, report: *report },
            Effect::NavigateUp => EffectView::NavigateUp,
            Effect::CreateFolder(n) => EffectView::CreateFolder(n@),
            Effect::Open { path, report } => EffectView::Open { path: path@, report: *report },
            Effect::SwitchTab(p) => EffectView::SwitchTab(p@),
            Effect::CloseTab(p) => EffectView::CloseTab(p@),
            Effect::Rename { target, new_name } => EffectView::Rename {
                target: target@,
                new_name: new_name@,
            },
            Effect::Trash(p) => EffectView::Trash(p@),
        }
    }
}

/// The text of an optional string.
pub open spec fn opt_text(o: Option<String>) -> Option<Seq<char>> {
    match o {
        Some(s) => Some(s@),
        None => None,
    }
}

/// The value stored under `key`: the first entry with that key.
pub open spec fn lookup(values: Seq<(String, String)>, key: Seq<char>) -> Option<String>
    decreases values.len(),
{
    if values.len() == 0 {
        None
    } else if values[0].0@ == key {
        Some(values[0].1)
    } else {
        lookup(values.drop_first(), key)
    }
}

/// The value under `key`, if any.
pub fn value_of(values: &Vec<(String, String)>, key: &str) -> (r: Option<String>)
    ensures
        r == lookup(values@, key@),
{
    let mut i: usize = 0;
    assert(values@.skip(0) =~= values@);
    while i < values.len()
        invariant
            i <= values.len(),
            lookup(values@, key@) == lookup(values@.skip(i as int), key@),
        decreases values.len() - i,
    {
        assert(values@.skip(i as int)[0] == values@[i as int]);
        assert(values@.skip(i as int).drop_first() =~= values@.skip(i + 1));
        if str_eq(values[i].0.as_str(), key) {
            return Some(values[i].1.clone());
        }
        i = i + 1;
    }
    assert(values@.skip(i as int).len() == 0);
    None
}

/// The first of two optional values that is present.
pub open spec fn or_else<T>(a: Option<T>, b: Option<T>) -> Option<T> {
    match a {
        Some(x) => Some(x),
        None => b,
    }
}

fn either(a: Option<String>, b: Option<String>) -> (r: Option<String>)
    ensures
        r == or_else(a, b),
        opt_text(r) == or_else(opt_text(a), opt_text(b)),
{
    match a {
        Some(x) => Some(x),
        None => b,
    }
}

/// `~` or `~/…` with the home folder put in for the `~`; anything else as is.
pub open spec fn home_expanded(s: Seq<char>, home: Option<String>) -> Seq<char> {
    if (s == seq!['~'] || has_prefix(s, seq!['~', '/'])) && home is Some {
        home->0@ + s.skip(1)
    } else {
        s
    }
}

/// Expands a leading `~` to the home folder.
pub fn expand_home(s: &str, home: &Option<String>) -> (r: String)
    ensures
        r@ == home_expanded(s@, *home),
{
    let v = chars_of(s);
    let tilde = v.len() == 1 && v[0] == '~';
    let tilde_slash = v.len() >= 2 && v[0] == '~' && v[1] == '/';
    proof {
        if tilde {
            assert(v@ =~= seq!['~']);
        }
        if v@ == seq!['~'] {
            assert(v@.len() == 1 && v@[0] == '~');
        }
        if tilde_slash {
            assert(v@.take(2) =~= seq!['~', '/']);
        }
        if has_prefix(v@, seq!['~', '/']) {
            assert(v@.take(2)[0] == '~' && v@.take(2)[1] == '/');
        }
    }
    match home {
        Some(h) => {
            if tilde || tilde_slash {
                let rest = sub_chars(&v, 1, v.len());
                assert(rest@ =~= v@.skip(1));
                let rest_s = string_of(&rest);
                concat(h.as_str(), rest_s.as_str())
            } else {
                owned(s)
            }
        },
        None => owned(s),
    }
}

/// The action name and the text after its first `:` (`navigate:/home/user`).
pub open spec fn action_parts(raw: Seq<char>) -> (Seq<char>, Option<Seq<char>>) {
    match split_once(raw, ':') {
        Some((a, b)) => (a, Some(b)),
        None => (raw, None),
    }
}

/// The viewer can take the step the action `a` asks for: stepping forward
/// needs room to add one to its index, stepping back an index at most the
/// length of its (non-empty) filmstrip.
pub open spec fn steppable(s: Store, a: Seq<char>) -> bool {
    match s.viewer {
        Some(v) => {
            &&& a == "viewer_next"@ && v.images@.len() > 0 ==> v.index < usize::MAX
            &&& a == "viewer_prev"@ && v.images@.len() > 0 ==> v.index <= v.images@.len()
        },
        None => true,
    }
}

/// The filter draft sent with an action replaces the current filter (a
/// change of it moves the epoch); nothing else changes.
pub open spec fn filter_applied(old: PaneState, new: PaneState, values: Seq<(String, String)>) -> bool {
    &&& new == PaneState {
        filter: new.filter,
        store: Store { epoch: new.store.epoch, ..old.store },
        ..old
    }
    &&& match lookup(values, "filter"@) {
        Some(f) => if f@ != old.filter@ {
            new.filter == f && new.store.epoch == next_epoch(old.store.epoch)
        } else {
            new.filter == old.filter && new.store.epoch == old.store.epoch
        },
        None => new.filter == old.filter && new.store.epoch == old.store.epoch,
    }
}

impl PaneState {
    /// A pane over `store`: nothing being renamed, no new-folder field, no filter.
    pub fn new(store: Store) -> (r: PaneState)
        ensures
            r.store == store,
            r.renaming is None,
            !r.show_new_folder,
            r.filter@.len() == 0,
    {
        PaneState { store, renaming: None, show_new_folder: false, filter: String::new() }
    }

    /// The document version: the store's epoch in decimal.
    pub fn version_of(&self) -> (r: String)
        ensures
            r@ == decimal(self.store.epoch as nat),
    {
        fmt_u64(self.store.epoch)
    }

    /// Applies the filter draft sent with an action.
    fn take_filter(&mut self, values: &Vec<(String, String)>)
        ensures
            filter_applied(*old(self), *final(self), values@),
            final(self).renaming == old(self).renaming,
            final(self).show_new_folder == old(self).show_new_folder,
            final(self).store.current_path == old(self).store.current_path,
            final(self).store.tabs == old(self).store.tabs,
            final(self).store.selected == old(self).store.selected,
            final(self).store.viewer == old(self).store.viewer,
            final(self).store.show_hidden == old(self).store.show_hidden,
            final(self).store.sort == old(self).store.sort,
            final(self).store.view_mode == old(self).store.view_mode,
            final(self).store.recent == old(self).store.recent,
            final(self).store.home == old(self).store.home,
    {
        if let Some(f) = value_of(values, "filter") {
            if !str_eq(self.filter.as_str(), f.as_str()) {
                self.filter = f;
                self.store.touch();
            }
        }
    }

    /// Opens the current folder as a tab unless it is one; the state is
    /// touched once more either way. Returns whether a tab was added (the
    /// session is then to be saved).
    pub fn new_tab_here(&mut self) -> (added: bool)
        ensures
            added == !crate::state::contains_path(
                old(self).store.tabs@,
                old(self).store.current_path@,
            ),
            added ==> final(self).store.tabs@ == old(self).store.tabs@.push(
                old(self).store.current_path,
            ) && final(self).store.epoch == next_epoch(next_epoch(old(self).store.epoch)),
            !added ==> final(self).store == touched(old(self).store),
            final(self).store.current_path == old(self).store.current_path,
            final(self).store.viewer == old(self).store.viewer,
            final(self).store.selected == old(self).store.selected,
            final(self).store.recent == old(self).store.recent,
            final(self).store.show_hidden == old(self).store.show_hidden,
            final(self).store.sort == old(self).store.sort,
            final(self).store.view_mode == old(self).store.view_mode,
            final(self).store.home == old(self).store.home,
            final(self).renaming == old(self).renaming,
            final(self).show_new_folder == old(self).show_new_folder,
            final(self).filter == old(self).filter,
    {
        let cur = self.store.current_path.clone();
        let mut found = false;
        let mut i: usize = 0;
        while i < self.store.tabs.len()
            invariant
                i <= self.store.tabs.len(),
                cur == self.store.current_path,
                found == exists|k: int|
                    0 <= k < i && path_eq((#[trigger] self.store.tabs@[k])@, cur@),
            decreases self.store.tabs.len() - i,
        {
            if crate::paths::same_path(self.store.tabs[i].as_str(), cur.as_str()) {
                found = true;
            }
            i = i + 1;
        }
        if !found {
            self.store.tabs.push(cur);
            self.store.touch();
        }
        self.store.touch();
        !found
    }

    /// After a new folder was created at `path`: the field closes and the
    /// folder is selected.
    pub fn folder_created(&mut self, path: String)
        ensures
            !final(self).show_new_folder,
            final(self).store.selected == Some(path),
            final(self).store.epoch == next_epoch(next_epoch(old(self).store.epoch)),
            final(self).store.current_path == old(self).store.current_path,
            final(self).store.tabs == old(self).store.tabs,
            final(self).store.viewer == old(self).store.viewer,
            final(self).renaming == old(self).renaming,
            final(self).filter == old(self).filter,
    {
        self.store.touch();
        self.show_new_folder = false;
        self.store.select(path);
    }

    /// After an in-place rename to `dest` succeeded: the field closes and the
    /// renamed entry is selected.
    pub fn rename_done(&mut self, dest: String)
        ensures
            final(self).renaming is None,
            final(self).store.selected == Some(dest),
            final(self).store.epoch == next_epoch(old(self).store.epoch),
            final(self).store.current_path == old(self).store.current_path,
            final(self).store.tabs == old(self).store.tabs,
            final(self).store.viewer == old(self).store.viewer,
            final(self).show_new_folder == old(self).show_new_folder,
            final(self).filter == old(self).filter,
    {
        self.renaming = None;
        self.store.select(dest);
    }

    /// Decodes `POST /action` and applies what needs no filesystem: the filter
    /// draft first, then the action named before the first `:` of
    /// `req.action` (the rest being its argument). `home` is the home folder
    /// for `~` expansion. What is left to do comes back as an `Effect`.
    pub fn handle_action(&mut self, req: &ActionRequest, home: &Option<String>) -> (r: Effect)
        requires
            steppable(old(self).store, action_parts(req.action@).0),
        ensures
            old(self).store.viewer_ok() ==> final(self).store.viewer_ok(),
            exists|mid: PaneState|
                filter_applied(*old(self), mid, req.values@) && dispatched(
                    mid,
                    *final(self),
                    req.action@,
                    action_parts(req.action@).0,
                    action_parts(req.action@).1,
                    req.values@,
                    *home,
                    r@,
                ),
    {
        let ghost before = *self;
        self.take_filter(&req.values);
        let ghost mid = *self;
        let r = self.dispatch(req.action.as_str(), &req.values, home);
        assert(filter_applied(before, mid, req.values@));
        r
    }

    /// Applies one action (the filter draft already taken).
    fn dispatch(&mut self, action_raw: &str, values: &Vec<(String, String)>, home: &Option<
        String,
    >) -> (r: Effect)
        requires
            steppable(old(self).store, action_parts(action_raw@).0),
        ensures
            old(self).store.viewer_ok() ==> final(self).store.viewer_ok(),
            dispatched(
                *old(self),
                *final(self),
                action_raw@,
                action_parts(action_raw@).0,
                action_parts(action_raw@).1,
                values@,
                *home,
                r@,
            ),
    {
        let raw = chars_of(action_raw);
        let (action, arg) = match split_once_chars(&raw, ':') {
            Some((a, b)) => (string_of(&a), Some(string_of(&b))),
            None => (string_of(&raw), None),
        };
        assert(action@ == action_parts(action_raw@).0);
        assert(opt_text(arg) == action_parts(action_raw@).1);
        let a = action.as_str();
        if str_eq(a, "navigate") {
            let p = either(either(value_of(values, "path_input"), arg), value_of(values, "value"));
            match p {
                Some(s) => {
                    if s.as_str().is_empty() {
                        Effect::Done
                    } else {
                        Effect::Navigate { path: expand_home(s.as_str(), home), report: true }
                    }
                },
                None => Effect::Done,
            }
        } else if str_eq(a, "navigate_up") {
            Effect::NavigateUp
        } else if str_eq(a, "refresh") {
            self.store.touch();
            Effect::Done
        } else if str_eq(a, "toggle_hidden") {
            self.store.toggle_hidden();
            Effect::Persist
        } else if str_eq(a, "toggle_new_folder") {
            self.show_new_folder = !self.show_new_folder;
            self.store.touch();
            Effect::Done
        } else if str_eq(a, "create_folder") {
            let name = either(value_of(values, "new_folder_name"), value_of(values, "value"));
            match name {
                Some(n) => {
                    let t = trim_str(n.as_str());
                    if t.as_str().is_empty() {
                        Effect::Toast(owned("folder name is empty"))
                    } else {
                        Effect::CreateFolder(n)
                    }
                },
                None => Effect::Toast(owned("folder name is empty")),
            }
        } else if str_eq(a, "filter") {
            Effect::Done
        } else if str_eq(a, "set_sort") {
            let s = either(either(value_of(values, "sort"), value_of(values, "value")), arg);
            let k = match s {
                Some(t) => SortKind::parse(t.as_str()),
                None => SortKind::parse("name"),
            };
            match k {
                Some(kind) => {
                    self.store.set_sort(kind);
                    Effect::Persist
                },
                None => Effect::Done,
            }
        } else if str_eq(a, "set_view_mode") {
            let s = either(either(value_of(values, "view_mode"), value_of(values, "value")), arg);
            let m = match s {
                Some(t) => ViewMode::parse(t.as_str()),
                None => ViewMode::parse("details"),
            };
            match m {
                Some(mode) => {
                    self.store.set_view_mode(mode);
                    Effect::Done
                },
                None => Effect::Done,
            }
        } else if str_eq(a, "open_path") {
            match either(value_of(values, "value"), arg) {
                Some(s) => if s.as_str().is_empty() {
                    Effect::Done
                } else {
                    Effect::Open { path: s, report: true }
                },
                None => Effect::Done,
            }
        } else if str_eq(a, "switch_tab") {
            match either(arg, value_of(values, "value")) {
                Some(s) => if s.as_str().is_empty() {
                    Effect::Done
                } else {
                    Effect::SwitchTab(s)
                },
                None => Effect::Done,
            }
        } else if str_eq(a, "close_tab") {
            match either(arg, value_of(values, "value")) {
                Some(s) => if s.as_str().is_empty() {
                    Effect::Done
                } else {
                    Effect::CloseTab(s)
                },
                None => Effect::Done,
            }
        } else if str_eq(a, "new_tab_here") {
            if self.new_tab_here() {
                Effect::Persist
            } else {
                Effect::Done
            }
        } else if str_eq(a, "rename") {
            match either(value_of(values, "value"), arg) {
                Some(s) => if s.as_str().is_empty() {
                    Effect::Done
                } else {
                    self.renaming = Some(s);
                    self.store.touch();
                    Effect::Done
                },
                None => Effect::Done,
            }
        } else if str_eq(a, "start_rename") {
            let sel_opt = match &self.store.selected {
                Some(x) => Some(x.clone()),
                None => None,
            };
            match sel_opt {
                Some(sel) => {
                    self.renaming = Some(sel);
                    self.store.touch();
                    Effect::Done
                },
                None => Effect::Toast(owned("nothing selected to rename")),
            }
        } else if str_eq(a, "rename_apply") {
            let ren = match &self.renaming {
                Some(x) => Some(x.clone()),
                None => None,
            };
            match ren {
                Some(target) => {
                    let key = concat("rename:", target.as_str());
                    let n = either(value_of(values, key.as_str()), value_of(values, "value"));
                    match n {
                        Some(new_name) => {
                            let t = trim_str(new_name.as_str());
                            if t.as_str().is_empty() {
                                Effect::Toast(owned("name is empty"))
                            } else {
                                Effect::Rename { target, new_name }
                            }
                        },
                        None => Effect::Toast(owned("name is empty")),
                    }
                },
                None => Effect::Done,
            }
        } else if str_eq(a, "rename_cancel") {
            self.renaming = None;
            self.store.touch();
            Effect::Done
        } else if str_eq(a, "trash") {
            match either(value_of(values, "value"), arg) {
                Some(s) => if s.as_str().is_empty() {
                    Effect::Done
                } else {
                    Effect::Trash(s)
                },
                None => Effect::Done,
            }
        } else if str_eq(a, "trash_selected") {
            let sel_opt = match &self.store.selected {
                Some(x) => Some(x.clone()),
                None => None,
            };
            match sel_opt {
                Some(sel) => Effect::Trash(sel),
                None => Effect::Toast(owned("nothing selected")),
            }
        } else if str_eq(a, "properties") {
            match either(value_of(values, "value"), arg) {
                Some(s) => if s.as_str().is_empty() {
                    Effect::Done
                } else {
                    self.store.select(s);
                    Effect::Done
                },
                None => Effect::Done,
            }
        } else if str_eq(a, "viewer_next") {
            match &self.store.viewer {
                Some(v) => {},
                None => {},
            }
            self.store.viewer_next();
            Effect::Done
        } else if str_eq(a, "viewer_prev") {
            self.store.viewer_prev();
            Effect::Done
        } else if str_eq(a, "close_viewer") {
            self.store.close_viewer();
            Effect::Done
        } else if str_eq(a, "viewer_jump") {
            match either(arg, value_of(values, "value")) {
                Some(s) => if s.as_str().is_empty() {
                    Effect::Done
                } else {
                    Effect::Open { path: s, report: false }
                },
                None => Effect::Done,
            }
        } else {
            if str_starts_with(action_raw, "/") || str_starts_with(action_raw, "~/") {
                Effect::Navigate { path: expand_home(action_raw, home), report: false }
            } else {
                Effect::Done
            }
        }
    }
}

} // verus!

verus! {

/// A path argument that is present and not empty.
pub open spec fn usable(p: Option<Seq<char>>) -> bool {
    p matches Some(s) && s.len() > 0
}

/// The effect for an action that takes a path argument: `make` of it when
/// usable, otherwise nothing.
pub open spec fn with_path(p: Option<Seq<char>>, e: EffectView) -> EffectView {
    if usable(p) {
        e
    } else {
        EffectView::Done
    }
}

/// The pane with a different store.
pub open spec fn with_store(p: PaneState, s: Store) -> PaneState {
    PaneState { store: s, ..p }
}

/// What each action does, from the state `mid` (the filter draft already
/// taken) to `new`, and what is left for the caller (`r`). `raw` is the
/// action as sent, `a` its name and `arg` the text after its first `:`.
pub open spec fn dispatched(
    mid: PaneState,
    new: PaneState,
    raw: Seq<char>,
    a: Seq<char>,
    arg: Option<Seq<char>>,
    values: Seq<(String, String)>,
    home: Option<String>,
    r: EffectView,
) -> bool {
    let value = opt_text(lookup(values, "value"@));
    if a == "navigate"@ {
        let p = or_else(or_else(opt_text(lookup(values, "path_input"@)), arg), value);
        new == mid && r == with_path(
            p,
            EffectView::Navigate { path: home_expanded(p->0, home), report: true },
        )
    } else if a == "navigate_up"@ {
        new == mid && r == EffectView::NavigateUp
    } else if a == "refresh"@ {
        new == with_store(mid, touched(mid.store)) && r == EffectView::Done
    } else if a == "toggle_hidden"@ {
        new == with_store(mid, hidden_toggled(mid.store)) && r == EffectView::Persist
    } else if a == "toggle_new_folder"@ {
        new == PaneState { show_new_folder: !mid.show_new_folder, store: touched(mid.store), ..mid }
            && r == EffectView::Done
    } else if a == "create_folder"@ {
        let n = or_else(opt_text(lookup(values, "new_folder_name"@)), value);
        new == mid && r == (if n matches Some(t) && trim(t).len() > 0 {
            EffectView::CreateFolder(n->0)
        } else {
            EffectView::Toast("folder name is empty"@)
        })
    } else if a == "filter"@ {
        new == mid && r == EffectView::Done
    } else if a == "set_sort"@ {
        let s = or_else(or_else(opt_text(lookup(values, "sort"@)), value), arg);
        let k = SortKind::from_keyword(
            match s {
                Some(t) => t,
                None => "name"@,
            },
        );
        match k {
            Some(kind) => new == with_store(mid, sorted_by(mid.store, kind)) && r
                == EffectView::Persist,
            None => new == mid && r == EffectView::Done,
        }
    } else if a == "set_view_mode"@ {
        let s = or_else(or_else(opt_text(lookup(values, "view_mode"@)), value), arg);
        let m = ViewMode::from_keyword(
            match s {
                Some(t) => t,
                None => "details"@,
            },
        );
        r == EffectView::Done && match m {
            Some(mode) => new == with_store(mid, laid_out(mid.store, mode)),
            None => new == mid,
        }
    } else if a == "open_path"@ {
        let p = or_else(value, arg);
        new == mid && r == with_path(p, EffectView::Open { path: p->0, report: true })
    } else if a == "switch_tab"@ {
        let p = or_else(arg, value);
        new == mid && r == with_path(p, EffectView::SwitchTab(p->0))
    } else if a == "close_tab"@ {
        let p = or_else(arg, value);
        new == mid && r == with_path(p, EffectView::CloseTab(p->0))
    } else if a == "new_tab_here"@ {
        let added = !contains_path(mid.store.tabs@, mid.store.current_path@);
        &&& r == (if added {
            EffectView::Persist
        } else {
            EffectView::Done
        })
        &&& new.renaming == mid.renaming && new.show_new_folder == mid.show_new_folder
            && new.filter == mid.filter
        &&& added ==> new.store.tabs@ == mid.store.tabs@.push(mid.store.current_path)
            && new.store.epoch == next_epoch(next_epoch(mid.store.epoch))
        &&& !added ==> new.store == touched(mid.store)
        &&& new.store.current_path == mid.store.current_path && new.store.viewer
            == mid.store.viewer && new.store.selected == mid.store.selected
            && new.store.recent == mid.store.recent && new.store.show_hidden
            == mid.store.show_hidden && new.store.sort == mid.store.sort
            && new.store.view_mode == mid.store.view_mode && new.store.home == mid.store.home
    } else if a == "rename"@ {
        let p = or_else(value, arg);
        r == EffectView::Done && if usable(p) {
            new.renaming matches Some(t) && t@ == p->0 && new.store == touched(mid.store)
                && new.show_new_folder == mid.show_new_folder && new.filter == mid.filter
        } else {
            new == mid
        }
    } else if a == "start_rename"@ {
        match mid.store.selected {
            Some(sel) => new == PaneState {
                renaming: Some(sel),
                store: touched(mid.store),
                ..mid
            } && r == EffectView::Done,
            None => new == mid && r == EffectView::Toast("nothing selected to rename"@),
        }
    } else if a == "rename_apply"@ {
        match mid.renaming {
            Some(target) => {
                let n = or_else(
                    opt_text(lookup(values, "rename:"@ + target@)),
                    value,
                );
                new == mid && r == (if n matches Some(t) && trim(t).len() > 0 {
                    EffectView::Rename { target: target@, new_name: n->0 }
                } else {
                    EffectView::Toast("name is empty"@)
                })
            },
            None => new == mid && r == EffectView::Done,
        }
    } else if a == "rename_cancel"@ {
        new == PaneState { renaming: None, store: touched(mid.store), ..mid } && r
            == EffectView::Done
    } else if a == "trash"@ {
        let p = or_else(value, arg);
        new == mid && r == with_path(p, EffectView::Trash(p->0))
    } else if a == "trash_selected"@ {
        new == mid && r == (match mid.store.selected {
            Some(sel) => EffectView::Trash(sel@),
            None => EffectView::Toast("nothing selected"@),
        })
    } else if a == "properties"@ {
        let p = or_else(value, arg);
        r == EffectView::Done && if usable(p) {
            new.store.selected matches Some(t) && t@ == p->0 && new.store == Store {
                selected: new.store.selected,
                ..touched(mid.store)
            } && new.renaming == mid.renaming && new.show_new_folder == mid.show_new_folder
                && new.filter == mid.filter
        } else {
            new == mid
        }
    } else if a == "viewer_next"@ {
        new == with_store(mid, stepped_next(mid.store)) && r == EffectView::Done
    } else if a == "viewer_prev"@ {
        new == with_store(mid, stepped_prev(mid.store)) && r == EffectView::Done
    } else if a == "close_viewer"@ {
        new == with_store(mid, viewer_closed(mid.store)) && r == EffectView::Done
    } else if a == "viewer_jump"@ {
        let p = or_else(arg, value);
        new == mid && r == with_path(p, EffectView::Open { path: p->0, report: false })
    } else {
        new == mid && r == (if has_prefix(raw, "/"@) || has_prefix(raw, "~/"@) {
            EffectView::Navigate { path: home_expanded(raw, home), report: false }
        } else {
            EffectView::Done
        })
    }
}

/// `handle_action` took the pane from `old` to `new` on the action `raw` sent
/// with `values`, leaving `r` to do.
pub open spec fn handled(
    old: PaneState,
    new: PaneState,
    raw: Seq<char>,
    values: Seq<(String, String)>,
    home: Option<String>,
    r: EffectView,
) -> bool {
    exists|mid: PaneState|
        filter_applied(old, mid, values) && dispatched(
            mid,
            new,
            raw,
            action_parts(raw).0,
            action_parts(raw).1,
            values,
            home,
            r,
        )
}

/// The store once the filter draft sent with an action has been taken.
pub open spec fn store_after_filter(old: PaneState, values: Seq<(String, String)>) -> Store {
    Store { epoch: epoch_after_filter(old, values), ..old.store }
}

/// The epoch once the filter draft sent with an action has been taken: moved
/// on when the draft changed the filter.
pub open spec fn epoch_after_filter(old: PaneState, values: Seq<(String, String)>) -> u64 {
    match lookup(values, "filter"@) {
        Some(f) => if f@ != old.filter@ {
            next_epoch(old.store.epoch)
        } else {
            old.store.epoch
        },
        None => old.store.epoch,
    }
}

/// The viewer's Back action leaves the viewer: after `handle_action` with
/// `close_viewer` no image is shown, the epoch has moved on once past the
/// filter draft, nothing is left to do, and the folder, its tabs, the
/// selection and the recent folders are as they were.
pub proof fn lemma_close_viewer_leaves_viewer(
    old: PaneState,
    new: PaneState,
    raw: Seq<char>,
    values: Seq<(String, String)>,
    home: Option<String>,
    r: EffectView,
)
    requires
        action_parts(raw).0 == "close_viewer"@,
        handled(old, new, raw, values, home, r),
    ensures
        new.store.viewer is None,
        r == EffectView::Done,
        new.store.epoch == next_epoch(epoch_after_filter(old, values)),
        new.store.current_path == old.store.current_path,
        new.store.tabs == old.store.tabs,
        new.store.selected == old.store.selected,
        new.store.recent == old.store.recent,
        new.store.show_hidden == old.store.show_hidden,
        new.store.sort == old.store.sort,
        new.store.view_mode == old.store.view_mode,
        new.renaming == old.renaming,
        new.show_new_folder == old.show_new_folder,
{
    let mid = choose|mid: PaneState|
        filter_applied(old, mid, values) && dispatched(
            mid,
            new,
            raw,
            action_parts(raw).0,
            action_parts(raw).1,
            values,
            home,
            r,
        );
    lemma_action_name_shapes();
    assert(new == with_store(mid, viewer_closed(mid.store)));
}

/// The viewer's steps: `viewer_prev` shows the previous image of the
/// filmstrip and `viewer_next` the next one, wrapping round at either end;
/// the image shown becomes the selection and nothing is left to do.
pub proof fn lemma_viewer_steps(
    old: PaneState,
    new: PaneState,
    raw: Seq<char>,
    values: Seq<(String, String)>,
    home: Option<String>,
    r: EffectView,
    v: ViewerState,
)
    requires
        old.store.viewer == Some(v),
        v.images@.len() > 0,
        handled(old, new, raw, values, home, r),
    ensures
        action_parts(raw).0 == "viewer_prev"@ ==> {
            let i = prev_index(v.index, v.images@.len());
            &&& new.store.viewer == Some(
                ViewerState { index: i, image_path: v.images@[i as int], images: v.images },
            )
            &&& new.store.selected == Some(v.images@[i as int])
            &&& r == EffectView::Done
        },
        action_parts(raw).0 == "viewer_next"@ ==> {
            let i = next_index(v.index, v.images@.len());
            &&& new.store.viewer == Some(
                ViewerState { index: i, image_path: v.images@[i as int], images: v.images },
            )
            &&& new.store.selected == Some(v.images@[i as int])
            &&& r == EffectView::Done
        },
        action_parts(raw).0 == "viewer_prev"@ || action_parts(raw).0 == "viewer_next"@ ==> {
            &&& new.store.epoch == next_epoch(epoch_after_filter(old, values))
            &&& new.store.current_path == old.store.current_path
            &&& new.store.tabs == old.store.tabs
            &&& new.store.recent == old.store.recent
        },
{
    let mid = choose|mid: PaneState|
        filter_applied(old, mid, values) && dispatched(
            mid,
            new,
            raw,
            action_parts(raw).0,
            action_parts(raw).1,
            values,
            home,
            r,
        );
    lemma_action_name_shapes();
    assert(mid.store.viewer == Some(v));
}

/// The viewer's three actions carry no argument.
proof fn lemma_viewer_actions_plain()
    ensures
        action_parts("viewer_prev"@).0 == "viewer_prev"@,
        action_parts("viewer_next"@).0 == "viewer_next"@,
        action_parts("close_viewer"@).0 == "close_viewer"@,
{
    reveal_strlit("viewer_prev");
    reveal_strlit("viewer_next");
    reveal_strlit("close_viewer");
    assert(!"viewer_prev"@.contains(':')) by {
        if "viewer_prev"@.contains(':') {
            let k = choose|k: int| 0 <= k < "viewer_prev"@.len() && "viewer_prev"@[k] == ':';
        }
    }
    assert(!"viewer_next"@.contains(':')) by {
        if "viewer_next"@.contains(':') {
            let k = choose|k: int| 0 <= k < "viewer_next"@.len() && "viewer_next"@[k] == ':';
        }
    }
    assert(!"close_viewer"@.contains(':')) by {
        if "close_viewer"@.contains(':') {
            let k = choose|k: int| 0 <= k < "close_viewer"@.len() && "close_viewer"@[k] == ':';
        }
    }
}

/// The viewer's bar does what its buttons say: sending the action of the
/// button titled "Previous (←)" shows the previous image of the filmstrip
/// (the last one after the first), sending that of the button titled
/// "Next (→)" shows the next one (the first after the last), and sending that
/// of `← Back` leaves the viewer.
pub proof fn lemma_viewer_bar_steps(
    old: PaneState,
    new: PaneState,
    values: Seq<(String, String)>,
    home: Option<String>,
    r: EffectView,
    v: ViewerState,
    k: int,
)
    requires
        old.store.viewer == Some(v),
        v.images@.len() > 0,
        0 <= k < bar_buttons(viewer_view(v).widgets[0]).len(),
        handled(old, new, bar_buttons(viewer_view(v).widgets[0])[k].action, values, home, r),
    ensures
        bar_buttons(viewer_view(v).widgets[0])[k].title == Some("Previous (←)"@) ==> {
            let i = prev_index(v.index, v.images@.len());
            new.store.viewer matches Some(w) && w.index == i && w.image_path == v.images@[i as int]
        },
        bar_buttons(viewer_view(v).widgets[0])[k].title == Some("Next (→)"@) ==> {
            let i = next_index(v.index, v.images@.len());
            new.store.viewer matches Some(w) && w.index == i && w.image_path == v.images@[i as int]
        },
        bar_buttons(viewer_view(v).widgets[0])[k].label == "← Back"@ ==> new.store.viewer is None,
{
    lemma_viewer_bar_sends_its_steps(v);
    lemma_viewer_actions_plain();
    let b = bar_buttons(viewer_view(v).widgets[0])[k];
    assert(b == bar_buttons(viewer_bar())[k]);
    if b.title == Some("Previous (←)"@) || b.title == Some("Next (→)"@) {
        lemma_viewer_steps(old, new, b.action, values, home, r, v);
    }
    if b.label == "← Back"@ {
        lemma_close_viewer_leaves_viewer(old, new, b.action, values, home, r);
    }
}

/// The pane's switches: `navigate_up` leaves the state to the caller's move
/// to the parent folder; `refresh` only moves the epoch; `toggle_hidden`
/// shows hidden files the other way and asks for the session to be saved;
/// `toggle_new_folder` opens or closes the new-folder field. Nothing else of
/// the pane changes.
pub proof fn lemma_pane_switches(
    old: PaneState,
    new: PaneState,
    raw: Seq<char>,
    values: Seq<(String, String)>,
    home: Option<String>,
    r: EffectView,
)
    requires
        handled(old, new, raw, values, home, r),
    ensures
        action_parts(raw).0 == "navigate_up"@ ==> {
            &&& r == EffectView::NavigateUp
            &&& new.store == store_after_filter(old, values)
            &&& new.renaming == old.renaming && new.show_new_folder == old.show_new_folder
        },
        action_parts(raw).0 == "refresh"@ ==> {
            &&& r == EffectView::Done
            &&& new.store == touched(store_after_filter(old, values))
            &&& new.renaming == old.renaming && new.show_new_folder == old.show_new_folder
        },
        action_parts(raw).0 == "toggle_hidden"@ ==> {
            &&& r == EffectView::Persist
            &&& new.store.show_hidden == !old.store.show_hidden
            &&& new.store == hidden_toggled(store_after_filter(old, values))
            &&& new.renaming == old.renaming && new.show_new_folder == old.show_new_folder
        },
        action_parts(raw).0 == "toggle_new_folder"@ ==> {
            &&& r == EffectView::Done
            &&& new.show_new_folder == !old.show_new_folder
            &&& new.store == touched(store_after_filter(old, values))
            &&& new.renaming == old.renaming
        },
{
    reveal_strlit("navigate");
    reveal_strlit("navigate_up");
    reveal_strlit("refresh");
    reveal_strlit("toggle_hidden");
    reveal_strlit("toggle_new_folder");
    assert("navigate"@.len() == 8 && "navigate_up"@.len() == 11 && "refresh"@.len() == 7);
    assert("toggle_hidden"@.len() == 13 && "toggle_new_folder"@.len() == 17);
    let mid = choose|mid: PaneState|
        filter_applied(old, mid, values) && dispatched(
            mid,
            new,
            raw,
            action_parts(raw).0,
            action_parts(raw).1,
            values,
            home,
            r,
        );
    assert(mid.store == store_after_filter(old, values));
}

/// The action names `dispatched` knows, told apart by their length and
/// first letter.
proof fn lemma_action_name_shapes()
    ensures
        "navigate"@.len() == 8 && "navigate"@[0] == 'n',
        "navigate_up"@.len() == 11 && "navigate_up"@[0] == 'n',
        "refresh"@.len() == 7 && "refresh"@[0] == 'r',
        "toggle_hidden"@.len() == 13 && "toggle_hidden"@[0] == 't',
        "toggle_new_folder"@.len() == 17 && "toggle_new_folder"@[0] == 't',
        "create_folder"@.len() == 13 && "create_folder"@[0] == 'c',
        "filter"@.len() == 6 && "filter"@[0] == 'f',
        "set_sort"@.len() == 8 && "set_sort"@[0] == 's',
        "set_view_mode"@.len() == 13 && "set_view_mode"@[0] == 's',
        "open_path"@.len() == 9 && "open_path"@[0] == 'o',
        "switch_tab"@.len() == 10 && "switch_tab"@[0] == 's',
        "close_tab"@.len() == 9 && "close_tab"@[0] == 'c',
        "new_tab_here"@.len() == 12 && "new_tab_here"@[0] == 'n',
        "rename"@.len() == 6 && "rename"@[0] == 'r',
        "start_rename"@.len() == 12 && "start_rename"@[0] == 's',
        "rename_apply"@.len() == 12 && "rename_apply"@[0] == 'r',
        "rename_cancel"@.len() == 13 && "rename_cancel"@[0] == 'r',
        "trash"@.len() == 5 && "trash"@[0] == 't',
        "trash_selected"@.len() == 14 && "trash_selected"@[0] == 't',
        "properties"@.len() == 10 && "properties"@[0] == 'p',
        "viewer_next"@.len() == 11 && "viewer_next"@[0] == 'v',
        "viewer_prev"@.len() == 11 && "viewer_prev"@[0] == 'v',
        "close_viewer"@.len() == 12 && "close_viewer"@[0] == 'c',
        "viewer_jump"@.len() == 11 && "viewer_jump"@[0] == 'v',
        "viewer_next"@[7] == 'n' && "viewer_prev"@[7] == 'p' && "viewer_jump"@[7] == 'j',
{
    reveal_strlit("navigate");
    reveal_strlit("navigate_up");
    reveal_strlit("refresh");
    reveal_strlit("toggle_hidden");
    reveal_strlit("toggle_new_folder");
    reveal_strlit("create_folder");
    reveal_strlit("filter");
    reveal_strlit("set_sort");
    reveal_strlit("set_view_mode");
    reveal_strlit("open_path");
    reveal_strlit("switch_tab");
    reveal_strlit("close_tab");
    reveal_strlit("new_tab_here");
    reveal_strlit("rename");
    reveal_strlit("start_rename");
    reveal_strlit("rename_apply");
    reveal_strlit("rename_cancel");
    reveal_strlit("trash");
    reveal_strlit("trash_selected");
    reveal_strlit("properties");
    reveal_strlit("viewer_next");
    reveal_strlit("viewer_prev");
    reveal_strlit("close_viewer");
    reveal_strlit("viewer_jump");
}

/// What the actions on the selection do. `start_rename` opens the rename
/// field on the selected entry (with nothing selected it says so and changes
/// nothing); `rename_cancel` closes the field; `trash_selected` asks to move
/// the selected entry to the trash (with nothing selected it says so).
pub proof fn lemma_selection_actions(
    old: PaneState,
    new: PaneState,
    raw: Seq<char>,
    values: Seq<(String, String)>,
    home: Option<String>,
    r: EffectView,
)
    requires
        handled(old, new, raw, values, home, r),
    ensures
        action_parts(raw).0 == "start_rename"@ ==> match old.store.selected {
            Some(sel) => {
                &&& new.renaming == Some(sel)
                &&& new.store == touched(store_after_filter(old, values))
                &&& r == EffectView::Done
            },
            None => {
                &&& new.renaming == old.renaming
                &&& new.store == store_after_filter(old, values)
                &&& r == EffectView::Toast("nothing selected to rename"@)
            },
        },
        action_parts(raw).0 == "rename_cancel"@ ==> {
            &&& new.renaming is None
            &&& new.store == touched(store_after_filter(old, values))
            &&& r == EffectView::Done
        },
        action_parts(raw).0 == "trash_selected"@ ==> {
            &&& new.store == store_after_filter(old, values)
            &&& new.renaming == old.renaming
            &&& r == match old.store.selected {
                Some(sel) => EffectView::Trash(sel@),
                None => EffectView::Toast("nothing selected"@),
            }
        },
{
    lemma_action_name_shapes();
    let mid = choose|mid: PaneState|
        filter_applied(old, mid, values) && dispatched(
            mid,
            new,
            raw,
            action_parts(raw).0,
            action_parts(raw).1,
            values,
            home,
            r,
        );
    assert(mid.store == store_after_filter(old, values));
}

/// An action sent as `name:arg` reads back as that name and that argument
/// when the name holds no `:` (the argument may hold any).
pub proof fn lemma_action_parts_of(name: Seq<char>, arg: Seq<char>)
    requires
        !name.contains(':'),
    ensures
        action_parts(name + ":"@ + arg) == (name, Some(arg)),
{
    reveal_strlit(":");
    let s = name + ":"@ + arg;
    let i = name.len() as int;
    assert(s[i] == ':');
    assert forall|k: int| 0 <= k < i implies s[k] != ':' by {
        assert(s[k] == name[k]);
    }
    lemma_first_index(s, ':', i);
    assert(s.take(i) =~= name);
    assert(s.skip(i + 1) =~= arg);
}

/// The names of the actions that take a path hold no `:`.
proof fn lemma_path_action_names()
    ensures
        !"switch_tab"@.contains(':'),
        !"close_tab"@.contains(':'),
        !"open_path"@.contains(':'),
        !"trash"@.contains(':'),
        !"viewer_jump"@.contains(':'),
        !"navigate"@.contains(':'),
{
    reveal_strlit("switch_tab");
    assert(!"switch_tab"@.contains(':')) by {
        if "switch_tab"@.contains(':') {
            let k = choose|k: int| 0 <= k < "switch_tab"@.len() && "switch_tab"@[k] == ':';
        }
    }
    reveal_strlit("close_tab");
    assert(!"close_tab"@.contains(':')) by {
        if "close_tab"@.contains(':') {
            let k = choose|k: int| 0 <= k < "close_tab"@.len() && "close_tab"@[k] == ':';
        }
    }
    reveal_strlit("open_path");
    assert(!"open_path"@.contains(':')) by {
        if "open_path"@.contains(':') {
            let k = choose|k: int| 0 <= k < "open_path"@.len() && "open_path"@[k] == ':';
        }
    }
    reveal_strlit("trash");
    assert(!"trash"@.contains(':')) by {
        if "trash"@.contains(':') {
            let k = choose|k: int| 0 <= k < "trash"@.len() && "trash"@[k] == ':';
        }
    }
    reveal_strlit("viewer_jump");
    assert(!"viewer_jump"@.contains(':')) by {
        if "viewer_jump"@.contains(':') {
            let k = choose|k: int| 0 <= k < "viewer_jump"@.len() && "viewer_jump"@[k] == ':';
        }
    }
    reveal_strlit("navigate");
    assert(!"navigate"@.contains(':')) by {
        if "navigate"@.contains(':') {
            let k = choose|k: int| 0 <= k < "navigate"@.len() && "navigate"@[k] == ':';
        }
    }
}

/// Actions that carry a path act on that path: `switch_tab:P` switches to the
/// tab of `P`, `close_tab:P` closes it, `viewer_jump:P` opens `P` without
/// reporting a failure, and, when no `value` is sent along, `open_path:P`
/// opens `P`, `trash:P` moves it to the trash, and (with no typed path
/// either) `navigate:P` enters `P` with `~` put in for the home folder. The
/// pane itself stays as the filter draft left it.
pub proof fn lemma_path_actions(
    old: PaneState,
    new: PaneState,
    name: Seq<char>,
    p: Seq<char>,
    values: Seq<(String, String)>,
    home: Option<String>,
    r: EffectView,
)
    requires
        p.len() > 0,
        handled(old, new, name + ":"@ + p, values, home, r),
    ensures
        name == "switch_tab"@ ==> r == EffectView::SwitchTab(p),
        name == "close_tab"@ ==> r == EffectView::CloseTab(p),
        name == "viewer_jump"@ ==> r == (EffectView::Open { path: p, report: false }),
        name == "open_path"@ && lookup(values, "value"@) is None ==> r == (EffectView::Open {
            path: p,
            report: true,
        }),
        name == "trash"@ && lookup(values, "value"@) is None ==> r == EffectView::Trash(p),
        name == "navigate"@ && lookup(values, "path_input"@) is None ==> r == (
        EffectView::Navigate { path: home_expanded(p, home), report: true }),
        name == "switch_tab"@ || name == "close_tab"@ || name == "viewer_jump"@ || name
            == "open_path"@ || name == "trash"@ || name == "navigate"@ ==> {
            &&& new.store == store_after_filter(old, values)
            &&& new.renaming == old.renaming
            &&& new.show_new_folder == old.show_new_folder
        },
{
    lemma_action_name_shapes();
    lemma_path_action_names();
    let raw = name + ":"@ + p;
    let mid = choose|mid: PaneState|
        filter_applied(old, mid, values) && dispatched(
            mid,
            new,
            raw,
            action_parts(raw).0,
            action_parts(raw).1,
            values,
            home,
            r,
        );
    assert(mid.store == store_after_filter(old, values));
    if name == "switch_tab"@ {
        lemma_action_parts_of(name, p);
    } else if name == "close_tab"@ {
        lemma_action_parts_of(name, p);
    } else if name == "viewer_jump"@ {
        lemma_action_parts_of(name, p);
    } else if name == "open_path"@ {
        lemma_action_parts_of(name, p);
    } else if name == "trash"@ {
        lemma_action_parts_of(name, p);
    } else if name == "navigate"@ {
        lemma_action_parts_of(name, p);
    }
}

/// The row of an open tab does what it shows: clicking it switches to that
/// tab, and its close button closes that tab.
pub proof fn lemma_tab_row_acts(
    old: PaneState,
    new: PaneState,
    values: Seq<(String, String)>,
    home: Option<String>,
    r: EffectView,
    t: Seq<char>,
    cur: Seq<char>,
)
    requires
        t.len() > 0,
    ensures
        handled(old, new, tab_row(t, cur).row_action, values, home, r) ==> r
            == EffectView::SwitchTab(t),
        handled(old, new, tab_row(t, cur).actions[0].action, values, home, r) ==> r
            == EffectView::CloseTab(t),
{
    reveal_strlit("switch_tab:");
    reveal_strlit("switch_tab");
    reveal_strlit("close_tab:");
    reveal_strlit("close_tab");
    reveal_strlit(":");
    assert("switch_tab:"@ + t =~= "switch_tab"@ + ":"@ + t);
    assert("close_tab:"@ + t =~= "close_tab"@ + ":"@ + t);
    if handled(old, new, tab_row(t, cur).row_action, values, home, r) {
        lemma_path_actions(old, new, "switch_tab"@, t, values, home, r);
    }
    if handled(old, new, tab_row(t, cur).actions[0].action, values, home, r) {
        lemma_path_actions(old, new, "close_tab"@, t, values, home, r);
    }
}

/// A Recent row does what it shows: clicking the row `j` (counting from one)
/// enters the `j`-th most recent folder, with `~` put in for the home
/// folder, when no typed path is sent along.
pub proof fn lemma_recent_row_enters_folder(
    old: PaneState,
    new: PaneState,
    values: Seq<(String, String)>,
    home: Option<String>,
    r: EffectView,
    j: int,
)
    requires
        1 <= j < recent_rows(old.store.recent@).len(),
        old.store.recent@[j - 1]@.len() > 0,
        lookup(values, "path_input"@) is None,
        handled(old, new, recent_rows(old.store.recent@)[j]->Row_0.row_action, values, home, r),
    ensures
        r == (EffectView::Navigate {
            path: home_expanded(old.store.recent@[j - 1]@, home),
            report: true,
        }),
{
    lemma_recent_rows_most_recent_first(old.store.recent@);
    reveal_strlit("navigate:");
    reveal_strlit("navigate");
    reveal_strlit(":");
    assert("navigate:"@ + old.store.recent@[j - 1]@ =~= "navigate"@ + ":"@ + old.store.recent@[j
        - 1]@);
    lemma_path_actions(old, new, "navigate"@, old.store.recent@[j - 1]@, values, home, r);
}

/// Some position of `s` holds `c` with no `c` before it.
proof fn lemma_first_of(s: Seq<char>, c: char, j: int)
    requires
        0 <= j < s.len(),
        s[j] == c,
    ensures
        exists|i: int| 0 <= i <= j && s[i] == c && forall|k: int| 0 <= k < i ==> s[k] != c,
    decreases j,
{
    if exists|k: int| 0 <= k < j && s[k] == c {
        let k = choose|k: int| 0 <= k < j && s[k] == c;
        lemma_first_of(s, c, k);
    }
}

/// The name of an action sent as a path (it starts with `/`) starts with
/// `/` too, whatever follows.
proof fn lemma_path_like_name(raw: Seq<char>)
    requires
        raw.len() > 0,
        raw[0] == '/',
    ensures
        action_parts(raw).0.len() > 0,
        action_parts(raw).0[0] == '/',
{
    if raw.contains(':') {
        let j = choose|j: int| 0 <= j < raw.len() && raw[j] == ':';
        lemma_first_of(raw, ':', j);
        let i = choose|i: int|
            0 <= i <= j && raw[i] == ':' && forall|k: int| 0 <= k < i ==> raw[k] != ':';
        lemma_first_index(raw, ':', i);
        assert(i > 0);
        assert(action_parts(raw).0 == raw.take(i));
    }
}

/// What the settings and the value-driven actions do. `filter` only applies
/// the filter draft. `set_sort` with the keyword of an order in `sort` lists
/// by that order and asks for the session to be saved; `set_view_mode` with
/// the keyword of a layout in `view_mode` lays the folder out that way.
/// `create_folder` with a name that is not blank asks for a folder of that
/// name, and with no name at all says the name is empty. An action that is a
/// path (it starts with `/`) enters that folder without reporting a failure.
pub proof fn lemma_setting_actions(
    old: PaneState,
    new: PaneState,
    raw: Seq<char>,
    values: Seq<(String, String)>,
    home: Option<String>,
    r: EffectView,
    k: SortKind,
    m: ViewMode,
)
    requires
        handled(old, new, raw, values, home, r),
    ensures
        action_parts(raw).0 == "filter"@ ==> {
            &&& r == EffectView::Done
            &&& new.store == store_after_filter(old, values)
            &&& new.renaming == old.renaming && new.show_new_folder == old.show_new_folder
        },
        action_parts(raw).0 == "set_sort"@ && opt_text(lookup(values, "sort"@)) == Some(
            k.keyword(),
        ) ==> {
            &&& r == EffectView::Persist
            &&& new.store == sorted_by(store_after_filter(old, values), k)
            &&& new.renaming == old.renaming && new.show_new_folder == old.show_new_folder
        },
        action_parts(raw).0 == "set_view_mode"@ && opt_text(lookup(values, "view_mode"@)) == Some(
            m.keyword(),
        ) ==> {
            &&& r == EffectView::Done
            &&& new.store == laid_out(store_after_filter(old, values), m)
            &&& new.renaming == old.renaming && new.show_new_folder == old.show_new_folder
        },
        action_parts(raw).0 == "create_folder"@ ==> {
            &&& match lookup(values, "new_folder_name"@) {
                Some(n) => trim(n@).len() > 0 ==> r == EffectView::CreateFolder(n@),
                None => lookup(values, "value"@) is None ==> r == EffectView::Toast(
                    "folder name is empty"@,
                ),
            }
            &&& new.store == store_after_filter(old, values)
            &&& new.renaming == old.renaming && new.show_new_folder == old.show_new_folder
        },
        raw.len() > 0 && raw[0] == '/' ==> {
            &&& r == (EffectView::Navigate { path: home_expanded(raw, home), report: false })
            &&& new.store == store_after_filter(old, values)
            &&& new.renaming == old.renaming && new.show_new_folder == old.show_new_folder
        },
{
    lemma_action_name_shapes();
    lemma_sort_keyword_round_trip(k);
    lemma_view_mode_round_trip(m);
    let mid = choose|mid: PaneState|
        filter_applied(old, mid, values) && dispatched(
            mid,
            new,
            raw,
            action_parts(raw).0,
            action_parts(raw).1,
            values,
            home,
            r,
        );
    assert(mid.store == store_after_filter(old, values));
    if raw.len() > 0 && raw[0] == '/' {
        lemma_path_like_name(raw);
        reveal_strlit("/");
        assert(raw.take(1) =~= "/"@);
        assert(has_prefix(raw, "/"@));
    }
}



/// `rename_apply` asks to rename the entry being renamed to the name typed in
/// its field, when that is not blank, and says the name is empty when no name
/// came; with nothing being renamed it does nothing.
pub proof fn lemma_rename_apply(
    old: PaneState,
    new: PaneState,
    raw: Seq<char>,
    values: Seq<(String, String)>,
    home: Option<String>,
    r: EffectView,
)
    requires
        handled(old, new, raw, values, home, r),
        action_parts(raw).0 == "rename_apply"@,
    ensures
        new.store == store_after_filter(old, values),
        match old.renaming {
            Some(target) => match lookup(values, "rename:"@ + target@) {
                Some(n) => trim(n@).len() > 0 ==> r == (EffectView::Rename {
                    target: target@,
                    new_name: n@,
                }),
                None => lookup(values, "value"@) is None ==> r == EffectView::Toast(
                    "name is empty"@,
                ),
            },
            None => r == EffectView::Done,
        },
{
    lemma_action_name_shapes();
    let mid = choose|mid: PaneState|
        filter_applied(old, mid, values) && dispatched(
            mid,
            new,
            raw,
            action_parts(raw).0,
            action_parts(raw).1,
            values,
            home,
            r,
        );
    assert(mid.store == store_after_filter(old, values));
}

/// `new_tab_here` opens the current folder as a new last tab and asks for the
/// session to be saved, unless a tab of it is open already; then it only
/// moves the epoch.
pub proof fn lemma_new_tab_here(
    old: PaneState,
    new: PaneState,
    raw: Seq<char>,
    values: Seq<(String, String)>,
    home: Option<String>,
    r: EffectView,
)
    requires
        handled(old, new, raw, values, home, r),
        action_parts(raw).0 == "new_tab_here"@,
    ensures
        if contains_path(old.store.tabs@, old.store.current_path@) {
            &&& r == EffectView::Done
            &&& new.store == touched(store_after_filter(old, values))
        } else {
            &&& r == EffectView::Persist
            &&& new.store.tabs@ == old.store.tabs@.push(old.store.current_path)
            &&& new.store.current_path == old.store.current_path
            &&& new.store.viewer == old.store.viewer
        },
{
    lemma_action_name_shapes();
    let mid = choose|mid: PaneState|
        filter_applied(old, mid, values) && dispatched(
            mid,
            new,
            raw,
            action_parts(raw).0,
            action_parts(raw).1,
            values,
            home,
            r,
        );
    assert(mid.store == store_after_filter(old, values));
}

/// `rename:P` opens the rename field on `P` when no `value` is sent along.
pub proof fn lemma_rename_takes_its_path(
    old: PaneState,
    new: PaneState,
    p: Seq<char>,
    values: Seq<(String, String)>,
    home: Option<String>,
    r: EffectView,
)
    requires
        p.len() > 0,
        lookup(values, "value"@) is None,
        handled(old, new, "rename"@ + ":"@ + p, values, home, r),
    ensures
        r == EffectView::Done,
        new.renaming matches Some(t) && t@ == p,
        new.store == touched(store_after_filter(old, values)),
{
    lemma_action_name_shapes();
    reveal_strlit("rename");
    assert(!"rename"@.contains(':')) by {
        if "rename"@.contains(':') {
            let k = choose|k: int| 0 <= k < "rename"@.len() && "rename"@[k] == ':';
        }
    }
    lemma_action_parts_of("rename"@, p);
    let raw = "rename"@ + ":"@ + p;
    let mid = choose|mid: PaneState|
        filter_applied(old, mid, values) && dispatched(
            mid,
            new,
            raw,
            action_parts(raw).0,
            action_parts(raw).1,
            values,
            home,
            r,
        );
    assert(mid.store == store_after_filter(old, values));
}

/// `properties:P` selects `P` for the preview pane when no `value` is sent
/// along; the folder, the viewer and the tabs stay.
pub proof fn lemma_properties_takes_its_path(
    old: PaneState,
    new: PaneState,
    p: Seq<char>,
    values: Seq<(String, String)>,
    home: Option<String>,
    r: EffectView,
)
    requires
        p.len() > 0,
        lookup(values, "value"@) is None,
        handled(old, new, "properties"@ + ":"@ + p, values, home, r),
    ensures
        r == EffectView::Done,
        new.store.selected matches Some(t) && t@ == p,
        new.store.current_path == old.store.current_path,
        new.store.viewer == old.store.viewer,
        new.store.tabs == old.store.tabs,
{
    lemma_action_name_shapes();
    reveal_strlit("properties");
    assert(!"properties"@.contains(':')) by {
        if "properties"@.contains(':') {
            let k = choose|k: int| 0 <= k < "properties"@.len() && "properties"@[k] == ':';
        }
    }
    lemma_action_parts_of("properties"@, p);
    let raw = "properties"@ + ":"@ + p;
    let mid = choose|mid: PaneState|
        filter_applied(old, mid, values) && dispatched(
            mid,
            new,
            raw,
            action_parts(raw).0,
            action_parts(raw).1,
            values,
            home,
            r,
        );
    assert(mid.store == store_after_filter(old, values));
}

} // verus!

verus! {

/// The endpoints of the control server.
#[derive(Debug, Clone, Copy, PartialEq, Eq, Structural)]
pub enum Route {
    Open,
    Ping,
    PaneDoc,
    PanePlaces,
    PanePreview,
    Action,
    NotFound,
}

/// The method and the path (query dropped) of an HTTP request line: its first
/// two words, `""` and `/` when missing.
pub open spec fn request_parts(line: Seq<char>) -> (Seq<char>, Seq<char>) {
    let w = words(line);
    let method = if w.len() > 0 {
        w[0]
    } else {
        Seq::<char>::empty()
    };
    let target = if w.len() > 1 {
        w[1]
    } else {
        seq!['/']
    };
    let path = match split_once(target, '?') {
        Some((p, _)) => p,
        None => target,
    };
    (method, path)
}

/// Reads the method and path of a request line.
pub fn request_line(line: &str) -> (r: (String, String))
    ensures
        (r.0@, r.1@) == request_parts(line@),
{
    let v = chars_of(line);
    let w = words_of(&v);
    assert(w@.len() == words(v@).len());
    let method = if w.len() > 0 {
        assert(w@[0]@ == words(v@)[0]);
        string_of(&w[0])
    } else {
        String::new()
    };
    let target: Vec<char> = if w.len() > 1 {
        assert(w@[1]@ == words(v@)[1]);
        take_chars(&w[1], w[1].len())
    } else {
        let mut t = Vec::new();
        t.push('/');
        assert(t@ =~= seq!['/']);
        t
    };
    proof {
        if w.len() > 1 {
            assert(target@ =~= w@[1]@);
        }
    }
    let path = match split_once_chars(&target, '?') {
        Some((p, _)) => string_of(&p),
        None => string_of(&target),
    };
    (method, path)
}

/// When a header line names the content length: the number it gives, 0 when
/// that does not read as one.
pub open spec fn content_length_of(line: Seq<char>) -> Option<nat> {
    match split_once(line, ':') {
        Some((name, value)) => if eq_ignore_ascii_case(name, "content-length"@) {
            match unsigned_text(trim(value)) {
                Some(n) => if n <= usize::MAX {
                    Some(n)
                } else {
                    Some(0)
                },
                None => Some(0),
            }
        } else {
            None
        },
        None => None,
    }
}

/// Reads a `Content-Length` header line.
pub fn content_length_header(line: &str) -> (r: Option<usize>)
    ensures
        match r {
            Some(n) => content_length_of(line@) == Some(n as nat),
            None => content_length_of(line@) is None,
        },
{
    let v = chars_of(line);
    match split_once_chars(&v, ':') {
        None => None,
        Some((name, value)) => {
            let key = chars_of("content-length");
            if chars_eq_ignore_ascii_case(&name, &key) {
                let t = trim_chars(&value);
                match parse_usize(&t) {
                    Some(n) => Some(n),
                    None => Some(0),
                }
            } else {
                None
            }
        },
    }
}

/// The endpoint for a method and path.
pub open spec fn route_of(method: Seq<char>, path: Seq<char>) -> Route {
    if method == "POST"@ && path == "/open"@ {
        Route::Open
    } else if method == "GET"@ && path == "/ping"@ {
        Route::Ping
    } else if method == "GET"@ && path == "/pane/doc"@ {
        Route::PaneDoc
    } else if method == "GET"@ && path == "/pane/places"@ {
        Route::PanePlaces
    } else if method == "GET"@ && path == "/pane/preview"@ {
        Route::PanePreview
    } else if method == "POST"@ && path == "/action"@ {
        Route::Action
    } else {
        Route::NotFound
    }
}

/// Picks the endpoint for a request.
pub fn route(method: &str, path: &str) -> (r: Route)
    ensures
        r == route_of(method@, path@),
{
    if str_eq(method, "POST") && str_eq(path, "/open") {
        Route::Open
    } else if str_eq(method, "GET") && str_eq(path, "/ping") {
        Route::Ping
    } else if str_eq(method, "GET") && str_eq(path, "/pane/doc") {
        Route::PaneDoc
    } else if str_eq(method, "GET") && str_eq(path, "/pane/places") {
        Route::PanePlaces
    } else if str_eq(method, "GET") && str_eq(path, "/pane/preview") {
        Route::PanePreview
    } else if str_eq(method, "POST") && str_eq(path, "/action") {
        Route::Action
    } else {
        Route::NotFound
    }
}

/// The head of a JSON reply: status `code`, a body of `body_len` bytes, and
/// the connection closed after it.
pub open spec fn reply_head_of(code: u16, body_len: nat) -> Seq<char> {
    "HTTP/1.1 "@ + decimal(code as nat) + " OK\r\nContent-Type: application/json\r\nContent-Length: "@
        + decimal(body_len) + "\r\nConnection: close\r\n\r\n"@
}

/// The head of a JSON reply carrying `body`.
pub fn reply_head(code: u16, body: &str) -> (r: String)
    ensures
        r@ == reply_head_of(code, encode_utf8(body@).len()),
{
    let len = body.as_bytes().len();
    let a = concat("HTTP/1.1 ", fmt_u64(code as u64).as_str());
    let b = concat(
        a.as_str(),
        " OK\r\nContent-Type: application/json\r\nContent-Length: ",
    );
    let c = concat(b.as_str(), fmt_u64(len as u64).as_str());
    concat(c.as_str(), "\r\nConnection: close\r\n\r\n")
}

/// The `Content-Length` header line a client writes for `n` bytes reads back
/// as `n`: the daemon takes in exactly the body the client announced.
pub proof fn lemma_content_length_round_trip(n: nat)
    requires
        n <= usize::MAX,
    ensures
        content_length_of("Content-Length: "@ + decimal(n) + "\r\n"@) == Some(n),
{
    reveal_strlit("Content-Length: ");
    reveal_strlit("\r\n");
    reveal_strlit("content-length");
    lemma_decimal_reads_back(n);
    let head = "Content-Length: "@;
    let tail = "\r\n"@;
    let d = decimal(n);
    let line = head + d + tail;
    assert(head.len() == 16);
    assert forall|k: int| 0 <= k < 16 implies line[k] == head[k] by {}
    assert(line[14] == ':');
    assert(forall|k: int| 0 <= k < 14 ==> line[k] != ':');
    assert(line.contains(':'));
    let i = first_index(line, ':');
    assert(0 <= i < line.len() && line[i] == ':' && forall|k: int| 0 <= k < i ==> line[k] != ':');
    if i > 14 {
        assert(line[14] != ':');
    }
    assert(i == 14);
    let name = line.take(14);
    let value = line.skip(15);
    let key = "content-length"@;
    assert(key.len() == 14);
    assert forall|k: int| 0 <= k < 14 implies ascii_lower(name[k]) == ascii_lower(key[k]) by {
        assert(name[k] == head[k]);
    }
    assert(eq_ignore_ascii_case(name, key));
    assert(value =~= seq![' '] + d + tail);
    assert forall|k: int| 0 <= k < d.len() implies !is_ws(#[trigger] d[k]) by {
        assert(is_digit(d[k]));
    }
    assert(!is_ws(d[0]));
    assert(!is_ws(d.last())) by {
        assert(d.last() == d[d.len() - 1]);
    }
    assert forall|k: int| 0 <= k < 1 implies is_ws(#[trigger] seq![' '][k]) by {}
    assert forall|k: int| 0 <= k < tail.len() implies is_ws(#[trigger] tail[k]) by {}
    lemma_trim_around(seq![' '], d, tail);
    assert(is_digit(d[0]));
    assert(unsigned_digits(d) == d);
    assert(unsigned_text(trim(value)) == Some(n));
}

/// The request line a client writes, `method path HTTP/1.1`, reads back as
/// that method and path (for a path without white space or `?`).
pub proof fn lemma_request_line_round_trip(method: Seq<char>, path: Seq<char>)
    requires
        method.len() > 0,
        path.len() > 0,
        forall|k: int| 0 <= k < method.len() ==> !is_ws(#[trigger] method[k]),
        forall|k: int| 0 <= k < path.len() ==> !is_ws(#[trigger] path[k]),
        !path.contains('?'),
    ensures
        request_parts(method + " "@ + path + " HTTP/1.1\r\n"@) == (method, path),
{
    reveal_strlit(" ");
    reveal_strlit(" HTTP/1.1\r\n");
    let version = seq!['H', 'T', 'T', 'P', '/', '1', '.', '1'];
    let ver = " HTTP/1.1\r\n"@;
    let line = method + " "@ + path + ver;
    let a = method.push(' ');
    let b = path.push(' ');
    let r = version.push('\r').push('\n');
    assert(line =~= a + (b + r));
    assert(ver =~= seq![' '] + r);
    // The method, then a space.
    assert(a.drop_last() =~= method);
    lemma_words_single(method);
    assert(words(a) == words(method));
    lemma_words_concat(a, b + r);
    // The path, then a space, then the version and the line end.
    assert(b.drop_last() =~= path);
    lemma_words_single(path);
    assert(words(b) == words(path));
    lemma_words_concat(b, r);
    assert forall|k: int| 0 <= k < version.len() implies !is_ws(#[trigger] version[k]) by {}
    lemma_words_single(version);
    let r1 = version.push('\r');
    assert(r1.drop_last() =~= version);
    assert(words(r1) == words(version));
    assert(r.drop_last() =~= r1);
    assert(words(r) == words(r1));
    let w = words(line);
    assert(w =~= seq![method, path, version]);
    assert(split_once(path, '?') is None);
}

/// Each endpoint answers one method and path and no other: a request goes to
/// the preview pane exactly when it is `GET /pane/preview`, to the places pane
/// exactly when it is `GET /pane/places`, and so on for every endpoint; so no
/// two endpoints share a route, and anything else is not found.
pub proof fn lemma_route_endpoints(method: Seq<char>, path: Seq<char>)
    ensures
        (route_of(method, path) == Route::Open) <==> (method == "POST"@ && path == "/open"@),
        (route_of(method, path) == Route::Ping) <==> (method == "GET"@ && path == "/ping"@),
        (route_of(method, path) == Route::PaneDoc) <==> (method == "GET"@ && path == "/pane/doc"@),
        (route_of(method, path) == Route::PanePlaces) <==> (method == "GET"@ && path
            == "/pane/places"@),
        (route_of(method, path) == Route::PanePreview) <==> (method == "GET"@ && path
            == "/pane/preview"@),
        (route_of(method, path) == Route::Action) <==> (method == "POST"@ && path == "/action"@),
{
    reveal_strlit("GET");
    reveal_strlit("POST");
    reveal_strlit("/open");
    reveal_strlit("/ping");
    reveal_strlit("/pane/doc");
    reveal_strlit("/pane/places");
    reveal_strlit("/pane/preview");
    reveal_strlit("/action");
    assert("GET"@.len() != "POST"@.len());
    assert("/open"@[1] != "/ping"@[1]);
    assert("/pane/doc"@.len() != "/pane/places"@.len());
    assert("/pane/doc"@.len() != "/pane/preview"@.len());
    assert("/pane/places"@.len() != "/pane/preview"@.len());
    assert("/open"@.len() != "/action"@.len());
}

} // verus!
