//! The widget documents the host renders: the viewport (folder listing or
//! image viewer) and the two sidebar panes. Each builder takes the pane state
//! and the facts read from the filesystem, and returns the document whose
//! shape its contract states.
use crate::fs_engine::{format_size_decimal, human_size, is_image_path, looks_like_image, FileEntry, InspectInfo};
use crate::paths::{join, joined, comps, extension, extension_of, file_name, file_name_of, path_eq, same_path, Comp, comp_text};
use crate::server::{opt_text, PaneState};
use crate::state::{crumb_path, Store, ViewerState};
use crate::text::{
    chars_of, concat, decimal, string_of, take_chars, find_pattern, first_occurrence, fmt_u64, lowercase, occurs_at, owned,
    to_lower, trim, trim_str,
};
use vstd::prelude::*;

verus! {

/// A toolbar button, or an entry of a row's action strip or menu.
#[derive(Debug, Clone, PartialEq)]
pub struct ToolButton {
    pub action: String,
    pub label: String,
    pub title: Option<String>,
}

pub struct ButtonV {
    pub action: Seq<char>,
    pub label: Seq<char>,
    pub title: Option<Seq<char>>,
}

impl View for ToolButton {
    type V = ButtonV;

    open spec fn view(&self) -> ButtonV {
        ButtonV { action: self.action@, label: self.label@, title: opt_text(self.title) }
    }
}

/// The views of a run of buttons.
pub open spec fn buttons_view(v: Seq<ToolButton>) -> Seq<ButtonV> {
    v.map_values(|b: ToolButton| b@)
}

/// One row of a list.
#[derive(Debug, Clone, PartialEq)]
pub struct Row {
    pub id: String,
    pub icon: String,
    pub title: String,
    pub subtitle: Option<String>,
    pub selected: Option<bool>,
    pub row_action: String,
    pub actions: Vec<ToolButton>,
    pub menu: Vec<ToolButton>,
    /// The starting text of an in-place rename field, when one is open.
    pub rename: Option<String>,
}

pub struct RowV {
    pub id: Seq<char>,
    pub icon: Seq<char>,
    pub title: Seq<char>,
    pub subtitle: Option<Seq<char>>,
    pub selected: Option<bool>,
    pub row_action: Seq<char>,
    pub actions: Seq<ButtonV>,
    pub menu: Seq<ButtonV>,
    pub rename: Option<Seq<char>>,
}

impl View for Row {
    type V = RowV;

    open spec fn view(&self) -> RowV {
        RowV {
            id: self.id@,
            icon: self.icon@,
            title: self.title@,
            subtitle: opt_text(self.subtitle),
            selected: self.selected,
            row_action: self.row_action@,
            actions: buttons_view(self.actions@),
            menu: buttons_view(self.menu@),
            rename: opt_text(self.rename),
        }
    }
}

/// A widget of a document.
#[derive(Debug, Clone, PartialEq)]
#[allow(inconsistent_fields)]
pub enum Widget {
    Toolbar { id: String, buttons: Vec<ToolButton> },
    TextInput { id: String, placeholder: String, value: String, action: String },
    SearchBox { id: String, placeholder: String, value: String, action: String },
    /// A tab strip: `tabs` holds `(id, label)` pairs.
    Tabs { id: String, action: String, active: String, tabs: Vec<(String, String)> },
    Row(Row),
    Label { text: String, muted: bool },
    /// A section heading, with an optional action button beside it.
    Section { text: String, card: bool, action: Option<ToolButton> },
    Markdown { id: String, source: String },
    Button { id: String, label: String, action: String },
}

#[allow(inconsistent_fields)]
pub enum WidgetV {
    Toolbar { id: Seq<char>, buttons: Seq<ButtonV> },
    TextInput { id: Seq<char>, placeholder: Seq<char>, value: Seq<char>, action: Seq<char> },
    SearchBox { id: Seq<char>, placeholder: Seq<char>, value: Seq<char>, action: Seq<char> },
    Tabs { id: Seq<char>, action: Seq<char>, active: Seq<char>, tabs: Seq<(Seq<char>, Seq<char>)> },
    Row(RowV),
    Label { text: Seq<char>, muted: bool },
    Section { text: Seq<char>, card: bool, action: Option<ButtonV> },
    Markdown { id: Seq<char>, source: Seq<char> },
    Button { id: Seq<char>, label: Seq<char>, action: Seq<char> },
}

pub open spec fn tabs_view(v: Seq<(String, String)>) -> Seq<(Seq<char>, Seq<char>)> {
    v.map_values(|t: (String, String)| (t.0@, t.1@))
}

pub open spec fn opt_button(b: Option<ToolButton>) -> Option<ButtonV> {
    match b {
        Some(b) => Some(b@),
        None => None,
    }
}

impl View for Widget {
    type V = WidgetV;

    open spec fn view(&self) -> WidgetV {
        match self {
            Widget::Toolbar { id, buttons } => WidgetV::Toolbar {
                id: id@,
                buttons: buttons_view(buttons@),
            },
            Widget::TextInput { id, placeholder, value, action } => WidgetV::TextInput {
                id: id@,
                placeholder: placeholder@,
                value: value@,
                action: action@,
            },
            Widget::SearchBox { id, placeholder, value, action } => WidgetV::SearchBox {
                id: id@,
                placeholder: placeholder@,
                value: value@,
                action: action@,
            },
            Widget::Tabs { id, action, active, tabs } => WidgetV::Tabs {
                id: id@,
                action: action@,
                active: active@,
                tabs: tabs_view(tabs@),
            },
            Widget::Row(r) => WidgetV::Row(r@),
            Widget::Label { text, muted } => WidgetV::Label { text: text@, muted: *muted },
            Widget::Section { text, card, action } => WidgetV::Section {
                text: text@,
                card: *card,
                action: opt_button(*action),
            },
            Widget::Markdown { id, source } => WidgetV::Markdown { id: id@, source: source@ },
            Widget::Button { id, label, action } => WidgetV::Button {
                id: id@,
                label: label@,
                action: action@,
            },
        }
    }
}

/// The views of a run of widgets.
pub open spec fn widgets_view(v: Seq<Widget>) -> Seq<WidgetV> {
    v.map_values(|w: Widget| w@)
}

/// A whole document: a title, its widgets and, for some, a footer.
#[derive(Debug, Clone, PartialEq)]
pub struct Document {
    pub title: String,
    pub widgets: Vec<Widget>,
    pub footer: Option<Vec<Widget>>,
}

pub struct DocumentV {
    pub title: Seq<char>,
    pub widgets: Seq<WidgetV>,
    pub footer: Option<Seq<WidgetV>>,
}

impl View for Document {
    type V = DocumentV;

    open spec fn view(&self) -> DocumentV {
        DocumentV {
            title: self.title@,
            widgets: widgets_view(self.widgets@),
            footer: match self.footer {
                Some(f) => Some(widgets_view(f@)),
                None => None,
            },
        }
    }
}

// ---------------------------------------------------------------------------
// Small constructors.

pub open spec fn titled(action: Seq<char>, label: Seq<char>, title: Seq<char>) -> ButtonV {
    ButtonV { action, label, title: Some(title) }
}

pub open spec fn untitled(action: Seq<char>, label: Seq<char>) -> ButtonV {
    ButtonV { action, label, title: None }
}

pub open spec fn label_v(text: Seq<char>) -> WidgetV {
    WidgetV::Label { text, muted: false }
}

pub open spec fn muted_v(text: Seq<char>) -> WidgetV {
    WidgetV::Label { text, muted: true }
}

pub open spec fn section_v(text: Seq<char>, card: bool) -> WidgetV {
    WidgetV::Section { text, card, action: None }
}

fn titled_button(action: String, label: &str, title: String) -> (b: ToolButton)
    ensures
        b@ == titled(action@, label@, title@),
{
    ToolButton { action, label: owned(label), title: Some(title) }
}

fn fixed_button(action: &str, label: &str, title: &str) -> (b: ToolButton)
    ensures
        b@ == titled(action@, label@, title@),
{
    ToolButton { action: owned(action), label: owned(label), title: Some(owned(title)) }
}

fn bare_button(action: &str, label: &str) -> (b: ToolButton)
    ensures
        b@ == untitled(action@, label@),
{
    ToolButton { action: owned(action), label: owned(label), title: None }
}

fn label(text: String) -> (w: Widget)
    ensures
        w@ == label_v(text@),
{
    Widget::Label { text, muted: false }
}

fn muted(text: String) -> (w: Widget)
    ensures
        w@ == muted_v(text@),
{
    Widget::Label { text, muted: true }
}

fn section(text: &str, card: bool) -> (w: Widget)
    ensures
        w@ == section_v(text@, card),
{
    Widget::Section { text: owned(text), card, action: None }
}

/// Whether a string is empty.
fn no_text(s: &str) -> (r: bool)
    ensures
        r == (s@.len() == 0),
{
    chars_of(s).len() == 0
}

/// `a + b + c` as text.
fn concat3(a: &str, b: &str, c: &str) -> (r: String)
    ensures
        r@ == a@ + b@ + c@,
{
    let ab = concat(a, b);
    concat(ab.as_str(), c)
}

/// The file name of a path as text, or `otherwise` when it has none.
pub open spec fn name_or(path: Seq<char>, otherwise: Seq<char>) -> Seq<char> {
    match file_name(path) {
        Some(n) => n,
        None => otherwise,
    }
}

fn file_name_or(path: &str, otherwise: &str) -> (r: String)
    ensures
        r@ == name_or(path@, otherwise@),
{
    match file_name_of(path) {
        Some(n) => n,
        None => owned(otherwise),
    }
}

/// The markdown that shows an image by its `file://` address.
pub open spec fn image_markdown(name: Seq<char>, path: Seq<char>) -> Seq<char> {
    "!["@ + name + "](file://"@ + path + ")"@
}

fn image_source(name: &str, path: &str) -> (r: String)
    ensures
        r@ == image_markdown(name@, path@),
{
    let a = concat3("![", name, "](file://");
    concat3(a.as_str(), path, ")")
}

// ---------------------------------------------------------------------------
// The folder listing.

/// The text the filter asks names to contain: trimmed and lowercased (a
/// blank filter asks for nothing).
pub open spec fn needle_of(filter: Seq<char>) -> Seq<char> {
    if trim(filter).len() == 0 {
        Seq::empty()
    } else {
        lowercase(trim(filter))
    }
}

/// `pat` occurs somewhere in `s`.
pub open spec fn contains_text(s: Seq<char>, pat: Seq<char>) -> bool {
    first_occurrence(s, pat) is Some
}

/// An entry passes the filter when the filter is blank or its lowercased name
/// contains the needle.
pub open spec fn passes(needle: Seq<char>, e: FileEntry) -> bool {
    needle.len() == 0 || contains_text(lowercase(e.name@), needle)
}

/// The second line of a file's row: its size and date, as far as known.
pub open spec fn entry_subtitle(e: FileEntry) -> Seq<char> {
    if e.is_dir {
        Seq::empty()
    } else if e.size_display@.len() == 0 {
        e.modified_display@
    } else if e.modified_display@.len() == 0 {
        e.size_display@
    } else {
        e.size_display@ + "  •  "@ + e.modified_display@
    }
}

/// The optional path names the same path as `p`.
pub open spec fn names_path(o: Option<String>, p: Seq<char>) -> bool {
    match o {
        Some(s) => path_eq(s@, p),
        None => false,
    }
}

pub open spec fn entry_menu() -> Seq<ButtonV> {
    seq![
        titled("rename"@, "Rename"@, "Rename (F2)"@),
        titled("trash"@, "Move to Trash"@, "Move to Trash"@),
        titled("properties"@, "Properties"@, "Show properties"@),
    ]
}

/// The row of a listing entry.
pub open spec fn entry_row(e: FileEntry, selected: Option<String>, renaming: Option<String>) -> RowV {
    RowV {
        id: e.path@,
        icon: e.icon@,
        title: e.name@,
        subtitle: Some(entry_subtitle(e)),
        selected: Some(names_path(selected, e.path@)),
        row_action: "open_path"@,
        actions: seq![titled("trash"@, "icon:trash"@, "Move to Trash (Delete)"@)],
        menu: entry_menu(),
        rename: if names_path(renaming, e.path@) {
            Some(e.name@)
        } else {
            None
        },
    }
}

/// The rows of the entries that pass the filter, in listing order.
pub open spec fn listing_rows(
    es: Seq<FileEntry>,
    needle: Seq<char>,
    selected: Option<String>,
    renaming: Option<String>,
) -> Seq<WidgetV>
    decreases es.len(),
{
    if es.len() == 0 {
        Seq::empty()
    } else {
        let rest = listing_rows(es.drop_last(), needle, selected, renaming);
        if passes(needle, es.last()) {
            rest.push(WidgetV::Row(entry_row(es.last(), selected, renaming)))
        } else {
            rest
        }
    }
}

/// The filter matches anywhere in a name: an entry passes a non-blank needle
/// exactly when the needle occurs as a contiguous run of the entry's
/// lowercased name, at its start, its end or anywhere between.
pub proof fn lemma_filter_matches_substring(needle: Seq<char>, e: FileEntry)
    ensures
        passes(needle, e) <==> (needle.len() == 0 || exists|i: int|
            0 <= i && i + needle.len() <= lowercase(e.name@).len() && #[trigger] lowercase(
                e.name@,
            ).subrange(i, i + needle.len()) == needle),
{
    reveal(first_occurrence);
    let s = lowercase(e.name@);
    if exists|i: int|
        0 <= i && i + needle.len() <= s.len() && #[trigger] s.subrange(i, i + needle.len())
            == needle {
        let i = choose|i: int|
            0 <= i && i + needle.len() <= s.len() && #[trigger] s.subrange(i, i + needle.len())
                == needle;
        assert(occurs_at(s, needle, i));
    }
    if contains_text(s, needle) {
        let i = choose|i: int| #[trigger] occurs_at(s, needle, i);
        assert(s.subrange(i, i + needle.len()) == needle);
    }
}

/// The folder view's rows are those of the entries whose lowercased name
/// holds the needle as a contiguous run (every entry for a blank needle), in
/// listing order.
pub proof fn lemma_listing_rows_are_matches(
    es: Seq<FileEntry>,
    needle: Seq<char>,
    selected: Option<String>,
    renaming: Option<String>,
)
    ensures
        listing_rows(es, needle, selected, renaming) == es.filter(
            |e: FileEntry|
                needle.len() == 0 || exists|i: int|
                    0 <= i && i + needle.len() <= lowercase(e.name@).len() && #[trigger] lowercase(
                        e.name@,
                    ).subrange(i, i + needle.len()) == needle,
        ).map_values(|e: FileEntry| WidgetV::Row(entry_row(e, selected, renaming))),
    decreases es.len(),
{
    let pred = |e: FileEntry|
        needle.len() == 0 || exists|i: int|
            0 <= i && i + needle.len() <= lowercase(e.name@).len() && #[trigger] lowercase(
                e.name@,
            ).subrange(i, i + needle.len()) == needle;
    let row = |e: FileEntry| WidgetV::Row(entry_row(e, selected, renaming));
    if es.len() == 0 {
        reveal(Seq::filter);
        assert(es.filter(pred).map_values(row) =~= Seq::<WidgetV>::empty());
    } else {
        let init = es.drop_last();
        lemma_listing_rows_are_matches(init, needle, selected, renaming);
        lemma_filter_matches_substring(needle, es.last());
        assert(init.push(es.last()) =~= es);
        init.lemma_filter_push(es.last(), pred);
        if pred(es.last()) {
            assert(init.filter(pred).push(es.last()).map_values(row) =~= init.filter(pred).map_values(
                row,
            ).push(row(es.last())));
        }
    }
}

/// A blank filter keeps every entry: the folder view shows one row per entry
/// of the listing, in the listing's order (the order the headless `list`
/// verb prints).
pub proof fn lemma_blank_filter_lists_all(
    es: Seq<FileEntry>,
    filter: Seq<char>,
    selected: Option<String>,
    renaming: Option<String>,
)
    requires
        trim(filter).len() == 0,
    ensures
        listing_rows(es, needle_of(filter), selected, renaming) == Seq::new(
            es.len(),
            |i: int| WidgetV::Row(entry_row(es[i], selected, renaming)),
        ),
    decreases es.len(),
{
    let rows = Seq::new(es.len(), |i: int| WidgetV::Row(entry_row(es[i], selected, renaming)));
    if es.len() > 0 {
        let init = es.drop_last();
        lemma_blank_filter_lists_all(init, filter, selected, renaming);
        assert(passes(needle_of(filter), es.last()));
        assert(Seq::new(init.len(), |i: int| WidgetV::Row(entry_row(init[i], selected, renaming))).push(
            WidgetV::Row(entry_row(es.last(), selected, renaming)),
        ) =~= rows);
    } else {
        assert(rows =~= Seq::<WidgetV>::empty());
    }
}

/// A breadcrumb's label: its component's text, `/` for an empty one.
pub open spec fn crumb_label(t: Seq<char>) -> Seq<char> {
    if t.len() == 0 {
        "/"@
    } else {
        t
    }
}

/// One button per component of the folder's path, each entering the path up
/// to and including it.
pub open spec fn crumb_buttons(cs: Seq<Comp>) -> Seq<ButtonV> {
    Seq::new(
        cs.len(),
        |i: int|
            titled(
                "navigate:"@ + crumb_path(cs.take(i + 1)),
                crumb_label(comp_text(cs[i])),
                crumb_path(cs.take(i + 1)),
            ),
    )
}

pub open spec fn hidden_label(show_hidden: bool) -> Seq<char> {
    if show_hidden {
        "Hide hidden"@
    } else {
        "Show hidden"@
    }
}

pub open spec fn actions_bar(show_hidden: bool) -> WidgetV {
    WidgetV::Toolbar {
        id: "actions"@,
        buttons: seq![
            titled("navigate_up"@, "↑"@, "Go to parent (Backspace)"@),
            titled("toggle_new_folder"@, "＋ New folder"@, "Create new folder"@),
            titled("toggle_hidden"@, hidden_label(show_hidden), "Toggle hidden files (Ctrl+H)"@),
            titled("refresh"@, "↻"@, "Refresh (F5)"@),
        ],
    }
}

pub open spec fn new_folder_input() -> WidgetV {
    WidgetV::TextInput {
        id: "new_folder_name"@,
        placeholder: "new folder name…"@,
        value: Seq::empty(),
        action: "create_folder"@,
    }
}

pub open spec fn filter_box(filter: Seq<char>) -> WidgetV {
    WidgetV::SearchBox { id: "filter"@, placeholder: "Filter…"@, value: filter, action: "filter"@ }
}

pub open spec fn view_mode_tabs(active: Seq<char>) -> WidgetV {
    WidgetV::Tabs {
        id: "view_mode"@,
        action: "set_view_mode"@,
        active,
        tabs: seq![("details"@, "Details"@), ("icons"@, "Icons"@)],
    }
}

pub open spec fn sort_tabs(active: Seq<char>) -> WidgetV {
    WidgetV::Tabs {
        id: "sort"@,
        action: "set_sort"@,
        active,
        tabs: seq![("name"@, "Name"@), ("size"@, "Size"@), ("modified"@, "Modified"@), ("kind"@, "Kind"@)],
    }
}

/// The note under the rows: an empty folder, or a filter that matched nothing.
pub open spec fn listing_note(total: nat, shown: nat, filter: Seq<char>) -> Seq<WidgetV> {
    if total == 0 {
        seq![muted_v("Empty folder."@)]
    } else if shown == 0 {
        seq![muted_v("No match for \""@ + filter + "\"."@)]
    } else {
        Seq::empty()
    }
}

/// The free space of the folder's filesystem as text, empty when unknown.
pub open spec fn free_text(free: Option<u64>) -> Seq<char> {
    match free {
        Some(b) => human_size(b),
        None => Seq::empty(),
    }
}

pub open spec fn selected_note(selected: Option<String>) -> Seq<char> {
    match selected {
        Some(s) => " Selected: "@ + name_or(s@, Seq::empty()),
        None => Seq::empty(),
    }
}

/// The status line: how many entries, what is selected, how much space is free.
pub open spec fn status_text(total: nat, selected: Option<String>, free: Option<u64>) -> Seq<char> {
    decimal(total) + " items"@ + selected_note(selected) + "  •  Free: "@ + free_text(free)
}

/// The widgets of the folder view, top to bottom.
pub open spec fn browse_widgets(p: PaneState, entries: Seq<FileEntry>) -> Seq<WidgetV> {
    let s = p.store;
    let rows = listing_rows(entries, needle_of(p.filter@), s.selected, p.renaming);
    seq![
        WidgetV::Toolbar { id: "breadcrumbs"@, buttons: crumb_buttons(comps(s.current_path@)) },
        actions_bar(s.show_hidden),
    ] + (if p.show_new_folder {
        seq![new_folder_input()]
    } else {
        Seq::empty()
    }) + seq![filter_box(p.filter@), view_mode_tabs(s.view_mode.keyword()), sort_tabs(s.sort.keyword())]
        + rows + listing_note(entries.len(), rows.len(), p.filter@)
}

/// The folder view of a pane whose folder lists `entries` (in listing order)
/// on a filesystem with `free` bytes free.
pub open spec fn browse_view(p: PaneState, entries: Seq<FileEntry>, free: Option<u64>) -> DocumentV {
    DocumentV {
        title: p.store.current_path@,
        widgets: browse_widgets(p, entries),
        footer: Some(seq![label_v(status_text(entries.len(), p.store.selected, free))]),
    }
}

/// Whether the optional path names the same path as `p`.
fn is_named(o: &Option<String>, p: &str) -> (r: bool)
    ensures
        r == names_path(*o, p@),
{
    match o {
        Some(s) => same_path(s.as_str(), p),
        None => false,
    }
}

/// Whether the entry passes the filter whose needle is `needle`.
fn passes_filter(needle: &str, e: &FileEntry) -> (r: bool)
    ensures
        r == passes(needle@, *e),
{
    let pat = chars_of(needle);
    if pat.len() == 0 {
        return true;
    }
    let name = to_lower(e.name.as_str());
    let text = chars_of(name.as_str());
    find_pattern(&text, &pat).is_some()
}

fn subtitle_of(e: &FileEntry) -> (r: String)
    ensures
        r@ == entry_subtitle(*e),
{
    if e.is_dir {
        String::new()
    } else if no_text(e.size_display.as_str()) {
        e.modified_display.clone()
    } else if no_text(e.modified_display.as_str()) {
        e.size_display.clone()
    } else {
        concat3(e.size_display.as_str(), "  •  ", e.modified_display.as_str())
    }
}

fn row_of_entry(e: &FileEntry, selected: &Option<String>, renaming: &Option<String>) -> (r: Row)
    ensures
        r@ == entry_row(*e, *selected, *renaming),
{
    let mut actions: Vec<ToolButton> = Vec::new();
    actions.push(fixed_button("trash", "icon:trash", "Move to Trash (Delete)"));
    let mut menu: Vec<ToolButton> = Vec::new();
    menu.push(fixed_button("rename", "Rename", "Rename (F2)"));
    menu.push(fixed_button("trash", "Move to Trash", "Move to Trash"));
    menu.push(fixed_button("properties", "Properties", "Show properties"));
    assert(buttons_view(actions@) =~= seq![titled("trash"@, "icon:trash"@, "Move to Trash (Delete)"@)]);
    assert(buttons_view(menu@) =~= entry_menu());
    let rename = if is_named(renaming, e.path.as_str()) {
        Some(e.name.clone())
    } else {
        None
    };
    Row {
        id: e.path.clone(),
        icon: e.icon.clone(),
        title: e.name.clone(),
        subtitle: Some(subtitle_of(e)),
        selected: Some(is_named(selected, e.path.as_str())),
        row_action: owned("open_path"),
        actions,
        menu,
        rename,
    }
}

fn rows_of_listing(
    entries: &Vec<FileEntry>,
    needle: &str,
    selected: &Option<String>,
    renaming: &Option<String>,
) -> (rows: Vec<Widget>)
    ensures
        widgets_view(rows@) == listing_rows(entries@, needle@, *selected, *renaming),
{
    let mut rows: Vec<Widget> = Vec::new();
    let mut i: usize = 0;
    while i < entries.len()
        invariant
            i <= entries.len(),
            widgets_view(rows@) == listing_rows(entries@.take(i as int), needle@, *selected, *renaming),
        decreases entries.len() - i,
    {
        let e = &entries[i];
        assert(entries@.take(i + 1).drop_last() =~= entries@.take(i as int));
        assert(entries@.take(i + 1).last() == entries@[i as int]);
        let ghost before = rows@;
        if passes_filter(needle, e) {
            let r = row_of_entry(e, selected, renaming);
            rows.push(Widget::Row(r));
            assert(widgets_view(rows@) =~= widgets_view(before).push(WidgetV::Row(r@)));
        }
        i = i + 1;
    }
    assert(entries@.take(entries.len() as int) =~= entries@);
    rows
}

fn crumb_bar(pane: &PaneState) -> (w: Widget)
    ensures
        w@ == (WidgetV::Toolbar {
            id: "breadcrumbs"@,
            buttons: crumb_buttons(comps(pane.store.current_path@)),
        }),
{
    let segs = pane.store.breadcrumb_segments();
    let ghost cs = comps(pane.store.current_path@);
    let mut buttons: Vec<ToolButton> = Vec::new();
    let mut i: usize = 0;
    while i < segs.len()
        invariant
            i <= segs.len(),
            segs@.len() == cs.len(),
            forall|k: int|
                0 <= k < segs@.len() ==> (#[trigger] segs@[k]).0@ == comp_text(cs[k]) && segs@[k].1@
                    == crumb_path(cs.take(k + 1)),
            buttons_view(buttons@) == crumb_buttons(cs).take(i as int),
        decreases segs.len() - i,
    {
        let (text, path) = (&segs[i].0, &segs[i].1);
        let shown = if no_text(text.as_str()) {
            owned("/")
        } else {
            text.clone()
        };
        assert(shown@ == crumb_label(comp_text(cs[i as int])));
        let b = ToolButton {
            action: concat("navigate:", path.as_str()),
            label: shown,
            title: Some(path.clone()),
        };
        let ghost before = buttons@;
        buttons.push(b);
        assert(buttons_view(buttons@) =~= crumb_buttons(cs).take(i + 1)) by {
            assert(buttons_view(buttons@) =~= buttons_view(before).push(b@));
        }
        i = i + 1;
    }
    assert(crumb_buttons(cs).take(segs.len() as int) =~= crumb_buttons(cs));
    Widget::Toolbar { id: owned("breadcrumbs"), buttons }
}

fn actions_toolbar(show_hidden: bool) -> (w: Widget)
    ensures
        w@ == actions_bar(show_hidden),
{
    let mut buttons: Vec<ToolButton> = Vec::new();
    buttons.push(fixed_button("navigate_up", "↑", "Go to parent (Backspace)"));
    buttons.push(fixed_button("toggle_new_folder", "＋ New folder", "Create new folder"));
    let hidden = if show_hidden {
        "Hide hidden"
    } else {
        "Show hidden"
    };
    buttons.push(fixed_button("toggle_hidden", hidden, "Toggle hidden files (Ctrl+H)"));
    buttons.push(fixed_button("refresh", "↻", "Refresh (F5)"));
    let w = Widget::Toolbar { id: owned("actions"), buttons };
    assert(buttons_view(buttons@) =~= seq![
        titled("navigate_up"@, "↑"@, "Go to parent (Backspace)"@),
        titled("toggle_new_folder"@, "＋ New folder"@, "Create new folder"@),
        titled("toggle_hidden"@, hidden_label(show_hidden), "Toggle hidden files (Ctrl+H)"@),
        titled("refresh"@, "↻"@, "Refresh (F5)"@),
    ]);
    w
}

fn tab_pair(id: &str, label: &str) -> (t: (String, String))
    ensures
        t.0@ == id@,
        t.1@ == label@,
{
    (owned(id), owned(label))
}

fn view_tabs(active: &str) -> (w: Widget)
    ensures
        w@ == view_mode_tabs(active@),
{
    let mut tabs: Vec<(String, String)> = Vec::new();
    tabs.push(tab_pair("details", "Details"));
    tabs.push(tab_pair("icons", "Icons"));
    assert(tabs_view(tabs@) =~= seq![("details"@, "Details"@), ("icons"@, "Icons"@)]);
    Widget::Tabs {
        id: owned("view_mode"),
        action: owned("set_view_mode"),
        active: owned(active),
        tabs,
    }
}

fn order_tabs(active: &str) -> (w: Widget)
    ensures
        w@ == sort_tabs(active@),
{
    let mut tabs: Vec<(String, String)> = Vec::new();
    tabs.push(tab_pair("name", "Name"));
    tabs.push(tab_pair("size", "Size"));
    tabs.push(tab_pair("modified", "Modified"));
    tabs.push(tab_pair("kind", "Kind"));
    assert(tabs_view(tabs@) =~= seq![
        ("name"@, "Name"@),
        ("size"@, "Size"@),
        ("modified"@, "Modified"@),
        ("kind"@, "Kind"@),
    ]);
    Widget::Tabs { id: owned("sort"), action: owned("set_sort"), active: owned(active), tabs }
}

fn status_line(total: usize, selected: &Option<String>, free: Option<u64>) -> (r: String)
    ensures
        r@ == status_text(total as nat, *selected, free),
{
    let count = fmt_u64(total as u64);
    proof {
        reveal_strlit("");
        assert(""@ =~= Seq::<char>::empty());
    }
    let note = match selected {
        Some(s) => {
            let n = file_name_or(s.as_str(), "");
            concat(" Selected: ", n.as_str())
        },
        None => String::new(),
    };
    let room = match free {
        Some(b) => format_size_decimal(b),
        None => String::new(),
    };
    let a = concat3(count.as_str(), " items", note.as_str());
    concat3(a.as_str(), "  •  Free: ", room.as_str())
}

/// Appends `more` to `w`.
fn append_widgets(w: &mut Vec<Widget>, more: Vec<Widget>)
    ensures
        widgets_view(final(w)@) == widgets_view(old(w)@) + widgets_view(more@),
{
    let mut more = more;
    let ghost a = w@;
    let ghost b = more@;
    w.append(&mut more);
    assert(w@ =~= a + b);
    assert(widgets_view(w@) =~= widgets_view(a) + widgets_view(b));
}

/// The folder view: breadcrumbs, actions, filter, layout and order tabs, one
/// row per entry that passes the filter, and a status line. `entries` is the
/// folder's listing in the order it is shown; `free` the free space of its
/// filesystem, when known.
pub fn browse_document(pane: &PaneState, entries: &Vec<FileEntry>, free: Option<u64>) -> (d: Document)
    ensures
        d@ == browse_view(*pane, entries@, free),
{
    let store = &pane.store;
    let mut widgets: Vec<Widget> = Vec::new();
    widgets.push(crumb_bar(pane));
    widgets.push(actions_toolbar(store.show_hidden));
    if pane.show_new_folder {
        let w = Widget::TextInput {
            id: owned("new_folder_name"),
            placeholder: owned("new folder name…"),
            value: String::new(),
            action: owned("create_folder"),
        };
        widgets.push(w);
    }
    widgets.push(
        Widget::SearchBox {
            id: owned("filter"),
            placeholder: owned("Filter…"),
            value: pane.filter.clone(),
            action: owned("filter"),
        },
    );
    widgets.push(view_tabs(store.view_mode.as_str()));
    widgets.push(order_tabs(store.sort.as_str()));
    let ghost head = widgets_view(widgets@);
    assert(head =~= seq![
        WidgetV::Toolbar {
            id: "breadcrumbs"@,
            buttons: crumb_buttons(comps(store.current_path@)),
        },
        actions_bar(store.show_hidden),
    ] + (if pane.show_new_folder {
        seq![new_folder_input()]
    } else {
        Seq::empty()
    }) + seq![
        filter_box(pane.filter@),
        view_mode_tabs(store.view_mode.keyword()),
        sort_tabs(store.sort.keyword()),
    ]);
    let trimmed = trim_str(pane.filter.as_str());
    let needle = to_lower(trimmed.as_str());
    proof {
        if trimmed@.len() == 0 {
            assert(needle@ =~= Seq::<char>::empty());
        }
        assert(needle@ == needle_of(pane.filter@));
    }
    let rows = rows_of_listing(entries, needle.as_str(), &store.selected, &pane.renaming);
    let shown = rows.len();
    append_widgets(&mut widgets, rows);
    let mut note: Vec<Widget> = Vec::new();
    if entries.len() == 0 {
        note.push(muted(owned("Empty folder.")));
    } else if shown == 0 {
        note.push(muted(concat3("No match for \"", pane.filter.as_str(), "\".")));
    }
    assert(widgets_view(note@) =~= listing_note(entries@.len(), shown as nat, pane.filter@));
    append_widgets(&mut widgets, note);
    let mut footer: Vec<Widget> = Vec::new();
    footer.push(label(status_line(entries.len(), &store.selected, free)));
    assert(widgets_view(footer@) =~= seq![
        label_v(status_text(entries@.len(), store.selected, free)),
    ]);
    Document { title: store.current_path.clone(), widgets, footer: Some(footer) }
}

// ---------------------------------------------------------------------------
// The image viewer.

/// "k / n": the image's place in the filmstrip, counted from one (an empty
/// filmstrip counts as one).
pub open spec fn position_text(v: ViewerState) -> Seq<char> {
    decimal((v.index + 1) as nat) + " / "@ + decimal(
        if v.images@.len() == 0 {
            1nat
        } else {
            v.images@.len()
        },
    )
}

/// The lowercased extension of a path, empty when it has none.
pub open spec fn lower_extension(path: Seq<char>) -> Seq<char> {
    match extension(path) {
        Some(e) => lowercase(e),
        None => Seq::empty(),
    }
}

/// A filmstrip badge: the first four characters of the lowercased extension,
/// or a dot for a file without one.
pub open spec fn strip_badge(path: Seq<char>) -> Seq<char> {
    let e = lower_extension(path);
    if e.len() == 0 {
        "·"@
    } else if e.len() <= 4 {
        e
    } else {
        e.take(4)
    }
}

/// The filmstrip row of one image.
pub open spec fn strip_row(path: Seq<char>, current: bool) -> RowV {
    RowV {
        id: "strip:"@ + path,
        icon: "file:"@ + strip_badge(path),
        title: name_or(path, Seq::empty()),
        subtitle: None,
        selected: Some(current),
        row_action: "viewer_jump:"@ + path,
        actions: Seq::empty(),
        menu: Seq::empty(),
        rename: None,
    }
}

pub open spec fn strip_rows(images: Seq<String>, index: usize) -> Seq<WidgetV> {
    Seq::new(images.len(), |k: int| WidgetV::Row(strip_row(images[k]@, k == index)))
}

pub open spec fn viewer_bar() -> WidgetV {
    WidgetV::Toolbar {
        id: "viewer_bar"@,
        buttons: seq![
            titled("close_viewer"@, "← Back"@, "Back to folder"@),
            titled("viewer_prev"@, "‹"@, "Previous (←)"@),
            titled("viewer_next"@, "›"@, "Next (→)"@),
        ],
    }
}

/// The viewer: a bar, the image with its name and place, the filmstrip, and a
/// footer that leads back to the folder.
pub open spec fn viewer_view(v: ViewerState) -> DocumentV {
    let name = name_or(v.image_path@, Seq::empty());
    let pos = position_text(v);
    DocumentV {
        title: name,
        widgets: seq![
            viewer_bar(),
            label_v(name + "  —  "@ + pos),
            WidgetV::Markdown { id: "viewer_image"@, source: image_markdown(name, v.image_path@) },
        ] + (if v.images@.len() == 0 {
            Seq::empty()
        } else {
            seq![section_v("Filmstrip"@, false)] + strip_rows(v.images@, v.index)
        }),
        footer: Some(
            seq![
                label_v(v.image_path@ + "  "@ + pos),
                WidgetV::Button { id: "viewer_close"@, label: "Back to folder"@, action: "close_viewer"@ },
            ],
        ),
    }
}

fn badge_of(path: &str) -> (r: String)
    ensures
        r@ == strip_badge(path@),
{
    let e = match extension_of(path) {
        Some(e) => to_lower(e.as_str()),
        None => String::new(),
    };
    let v = chars_of(e.as_str());
    if v.len() == 0 {
        owned("·")
    } else if v.len() <= 4 {
        e
    } else {
        string_of(&take_chars(&v, 4))
    }
}

fn strip_row_of(path: &String, current: bool) -> (r: Row)
    ensures
        r@ == strip_row(path@, current),
{
    let badge = badge_of(path.as_str());
    proof {
        reveal_strlit("");
        assert(""@ =~= Seq::<char>::empty());
    }
    let actions: Vec<ToolButton> = Vec::new();
    let menu: Vec<ToolButton> = Vec::new();
    assert(buttons_view(actions@) =~= Seq::<ButtonV>::empty());
    assert(buttons_view(menu@) =~= Seq::<ButtonV>::empty());
    Row {
        id: concat("strip:", path.as_str()),
        icon: concat("file:", badge.as_str()),
        title: file_name_or(path.as_str(), ""),
        subtitle: None,
        selected: Some(current),
        row_action: concat("viewer_jump:", path.as_str()),
        actions,
        menu,
        rename: None,
    }
}

/// Appends the filmstrip rows of the viewer.
fn push_strip(widgets: &mut Vec<Widget>, viewer: &ViewerState)
    ensures
        widgets_view(final(widgets)@) == widgets_view(old(widgets)@) + strip_rows(
            viewer.images@,
            viewer.index,
        ),
{
    let ghost base = widgets_view(widgets@);
    let ghost all = strip_rows(viewer.images@, viewer.index);
    let mut k: usize = 0;
    while k < viewer.images.len()
        invariant
            k <= viewer.images.len(),
            all == strip_rows(viewer.images@, viewer.index),
            widgets_view(widgets@) == base + all.take(k as int),
        decreases viewer.images.len() - k,
    {
        let r = strip_row_of(&viewer.images[k], k == viewer.index);
        let ghost before = widgets@;
        widgets.push(Widget::Row(r));
        assert(widgets_view(widgets@) =~= widgets_view(before).push(WidgetV::Row(r@)));
        assert(all[k as int] == WidgetV::Row(r@));
        assert(base + all.take(k + 1) =~= (base + all.take(k as int)).push(WidgetV::Row(r@)));
        k = k + 1;
    }
    assert(all.take(viewer.images.len() as int) =~= all);
}

fn position_of_viewer(viewer: &ViewerState) -> (r: String)
    requires
        viewer.index < usize::MAX,
    ensures
        r@ == position_text(*viewer),
{
    let shown: usize = if viewer.images.len() == 0 {
        1
    } else {
        viewer.images.len()
    };
    concat3(fmt_u64((viewer.index + 1) as u64).as_str(), " / ", fmt_u64(shown as u64).as_str())
}

fn viewer_toolbar() -> (w: Widget)
    ensures
        w@ == viewer_bar(),
{
    let mut bar: Vec<ToolButton> = Vec::new();
    bar.push(fixed_button("close_viewer", "← Back", "Back to folder"));
    bar.push(fixed_button("viewer_prev", "‹", "Previous (←)"));
    bar.push(fixed_button("viewer_next", "›", "Next (→)"));
    assert(buttons_view(bar@) =~= seq![
        titled("close_viewer"@, "← Back"@, "Back to folder"@),
        titled("viewer_prev"@, "‹"@, "Previous (←)"@),
        titled("viewer_next"@, "›"@, "Next (→)"@),
    ]);
    Widget::Toolbar { id: owned("viewer_bar"), buttons: bar }
}

/// The viewer document of an open viewer.
pub fn viewer_document(viewer: &ViewerState) -> (d: Document)
    requires
        viewer.index < usize::MAX,
    ensures
        d@ == viewer_view(*viewer),
{
    proof {
        reveal_strlit("");
        assert(""@ =~= Seq::<char>::empty());
    }
    let name = file_name_or(viewer.image_path.as_str(), "");
    let pos = position_of_viewer(viewer);
    let mut widgets: Vec<Widget> = Vec::new();
    widgets.push(viewer_toolbar());
    widgets.push(label(concat3(name.as_str(), "  —  ", pos.as_str())));
    widgets.push(
        Widget::Markdown {
            id: owned("viewer_image"),
            source: image_source(name.as_str(), viewer.image_path.as_str()),
        },
    );
    let ghost head = widgets_view(widgets@);
    assert(head =~= seq![
        viewer_bar(),
        label_v(name@ + "  —  "@ + pos@),
        WidgetV::Markdown { id: "viewer_image"@, source: image_markdown(name@, viewer.image_path@) },
    ]);
    if viewer.images.len() > 0 {
        widgets.push(section("Filmstrip", false));
        assert(widgets_view(widgets@) =~= head + seq![section_v("Filmstrip"@, false)]);
        push_strip(&mut widgets, viewer);
        assert(widgets_view(widgets@) =~= head + (seq![section_v("Filmstrip"@, false)]
            + strip_rows(viewer.images@, viewer.index)));
    } else {
        assert(widgets_view(widgets@) =~= head + Seq::<WidgetV>::empty());
    }
    let mut footer: Vec<Widget> = Vec::new();
    footer.push(label(concat3(viewer.image_path.as_str(), "  ", pos.as_str())));
    footer.push(
        Widget::Button {
            id: owned("viewer_close"),
            label: owned("Back to folder"),
            action: owned("close_viewer"),
        },
    );
    assert(widgets_view(footer@) =~= seq![
        label_v(viewer.image_path@ + "  "@ + pos@),
        WidgetV::Button { id: "viewer_close"@, label: "Back to folder"@, action: "close_viewer"@ },
    ]);
    Document { title: name, widgets, footer: Some(footer) }
}

/// The viewport document: the viewer when one is open, else the folder view.
pub open spec fn document_view(p: PaneState, entries: Seq<FileEntry>, free: Option<u64>) -> DocumentV {
    match p.store.viewer {
        Some(v) => viewer_view(v),
        None => browse_view(p, entries, free),
    }
}

/// The viewport document. `entries` and `free` describe the current folder and
/// are read only when no viewer is open.
pub fn document(pane: &PaneState, entries: &Vec<FileEntry>, free: Option<u64>) -> (d: Document)
    requires
        match pane.store.viewer {
            Some(v) => v.index < usize::MAX,
            None => true,
        },
    ensures
        d@ == document_view(*pane, entries@, free),
{
    match &pane.store.viewer {
        Some(v) => viewer_document(v),
        None => browse_document(pane, entries, free),
    }
}

// ---------------------------------------------------------------------------
// The places pane.

/// The places offered in the sidebar, as `(label, path)`: home, the root, and
/// the usual folders under home.
pub open spec fn place_list(home: Seq<char>) -> Seq<(Seq<char>, Seq<char>)> {
    seq![
        ("Home"@, home),
        ("Root"@, "/"@),
        ("Documents"@, joined(home, "Documents"@)),
        ("Downloads"@, joined(home, "Downloads"@)),
        ("Pictures"@, joined(home, "Pictures"@)),
        ("Videos"@, joined(home, "Videos"@)),
    ]
}

pub open spec fn pairs_view(v: Seq<(String, String)>) -> Seq<(Seq<char>, Seq<char>)> {
    v.map_values(|t: (String, String)| (t.0@, t.1@))
}

/// The places under `home`, in the order the sidebar lists them; the caller
/// probes which of them exist.
pub fn place_candidates(home: &str) -> (r: Vec<(String, String)>)
    ensures
        pairs_view(r@) == place_list(home@),
{
    let mut v: Vec<(String, String)> = Vec::new();
    v.push((owned("Home"), owned(home)));
    v.push((owned("Root"), owned("/")));
    v.push((owned("Documents"), join(home, "Documents")));
    v.push((owned("Downloads"), join(home, "Downloads")));
    v.push((owned("Pictures"), join(home, "Pictures")));
    v.push((owned("Videos"), join(home, "Videos")));
    assert(pairs_view(v@) =~= place_list(home@));
    v
}

/// A sidebar row that enters a folder.
pub open spec fn folder_row(id: Seq<char>, title: Seq<char>, path: Seq<char>, selected: Option<bool>) -> RowV {
    RowV {
        id,
        icon: "icon:folder"@,
        title,
        subtitle: Some(path),
        selected,
        row_action: "navigate:"@ + path,
        actions: Seq::empty(),
        menu: Seq::empty(),
        rename: None,
    }
}

/// Whether the place at `k` is listed: home and the root always are, the
/// others when the caller found them (`present[k]`).
pub open spec fn place_listed(present: Seq<bool>, k: int) -> bool {
    k < 2 || (k < present.len() && present[k])
}

/// The rows of the listed places.
pub open spec fn place_rows(
    places: Seq<(Seq<char>, Seq<char>)>,
    present: Seq<bool>,
    current: Seq<char>,
) -> Seq<WidgetV>
    decreases places.len(),
{
    if places.len() == 0 {
        Seq::empty()
    } else {
        let k = places.len() - 1;
        let rest = place_rows(places.drop_last(), present, current);
        let (label, path) = places[k];
        if place_listed(present, k) {
            rest.push(
                WidgetV::Row(
                    folder_row("place:"@ + path, label, path, Some(path_eq(current, path))),
                ),
            )
        } else {
            rest
        }
    }
}

/// A path's name for a sidebar title: its file name, or the whole path.
pub open spec fn title_of(path: Seq<char>) -> Seq<char> {
    name_or(path, path)
}

/// The devices section: at most ten mount points.
pub open spec fn device_rows(mounts: Seq<String>, current: Seq<char>) -> Seq<WidgetV> {
    if mounts.len() == 0 {
        Seq::empty()
    } else {
        seq![section_v("Devices"@, false)] + Seq::new(
            if mounts.len() <= 10 {
                mounts.len()
            } else {
                10
            },
            |i: int|
                WidgetV::Row(
                    folder_row(
                        "mount:"@ + mounts[i]@,
                        title_of(mounts[i]@),
                        mounts[i]@,
                        Some(path_eq(current, mounts[i]@)),
                    ),
                ),
        )
    }
}

/// The row of an open tab: entering it, closing it.
pub open spec fn tab_row(t: Seq<char>, current: Seq<char>) -> RowV {
    RowV {
        id: "tab:"@ + t,
        icon: "icon:folder"@,
        title: title_of(t),
        subtitle: Some(t),
        selected: Some(path_eq(current, t)),
        row_action: "switch_tab:"@ + t,
        actions: seq![titled("close_tab:"@ + t, "icon:close"@, "Close tab"@)],
        menu: seq![
            titled("switch_tab:"@ + t, "Open"@, "Open this tab"@),
            titled("close_tab:"@ + t, "Close"@, "Close tab"@),
        ],
        rename: None,
    }
}

pub open spec fn tabs_heading() -> WidgetV {
    WidgetV::Section {
        text: "Tabs"@,
        card: false,
        action: Some(titled("new_tab_here"@, "+"@, "New tab here"@)),
    }
}

/// The recent section: at most eight recent folders.
pub open spec fn recent_rows(recent: Seq<String>) -> Seq<WidgetV> {
    if recent.len() == 0 {
        Seq::empty()
    } else {
        seq![section_v("Recent"@, false)] + Seq::new(
            if recent.len() <= 8 {
                recent.len()
            } else {
                8
            },
            |i: int|
                WidgetV::Row(folder_row("recent:"@ + recent[i]@, title_of(recent[i]@), recent[i]@, None)),
        )
    }
}

/// The Recent section lists the most recent folders first: under its heading
/// come at most eight rows, and the row `j` (counting from one) enters the
/// `j`-th most recent folder, `recent[j - 1]`, shown by its path and known
/// by the id `recent:` and that path. No recent folders, no section.
pub proof fn lemma_recent_rows_most_recent_first(recent: Seq<String>)
    ensures
        recent_rows(recent).len() == (if recent.len() == 0 {
            0
        } else if recent.len() <= 8 {
            recent.len() + 1
        } else {
            9
        }),
        recent.len() > 0 ==> recent_rows(recent)[0] == section_v("Recent"@, false),
        forall|j: int|
            1 <= j < recent_rows(recent).len() ==> (#[trigger] recent_rows(recent)[j] matches WidgetV::Row(
                r,
            ) && r.id == "recent:"@ + recent[j - 1]@ && r.row_action == "navigate:"@ + recent[j
                - 1]@ && r.subtitle == Some(recent[j - 1]@) && r.title == title_of(recent[j - 1]@)),
{
}

/// The Devices section lists the mount points in the order given: under its
/// heading come at most ten rows, and the row `j` (counting from one) enters
/// `mounts[j - 1]`, known by the id `mount:` and that path and selected when
/// it is the current folder. No mount points, no section.
pub proof fn lemma_device_rows_in_order(mounts: Seq<String>, current: Seq<char>)
    ensures
        device_rows(mounts, current).len() == (if mounts.len() == 0 {
            0
        } else if mounts.len() <= 10 {
            mounts.len() + 1
        } else {
            11
        }),
        mounts.len() > 0 ==> device_rows(mounts, current)[0] == section_v("Devices"@, false),
        forall|j: int|
            1 <= j < device_rows(mounts, current).len() ==> (#[trigger] device_rows(mounts, current)[j] matches WidgetV::Row(
                r,
            ) && r.id == "mount:"@ + mounts[j - 1]@ && r.row_action == "navigate:"@ + mounts[j
                - 1]@ && r.selected == Some(path_eq(current, mounts[j - 1]@))),
{
}

/// The places pane: places, devices, open tabs and recent folders.
pub open spec fn places_view(p: PaneState, home: Seq<char>, present: Seq<bool>, mounts: Seq<String>) -> DocumentV {
    let s = p.store;
    let cur = s.current_path@;
    DocumentV {
        title: "Places & Tabs"@,
        widgets: seq![section_v("Places"@, false)] + place_rows(place_list(home), present, cur)
            + device_rows(mounts, cur) + seq![tabs_heading()] + Seq::new(
            s.tabs@.len(),
            |i: int| WidgetV::Row(tab_row(s.tabs@[i]@, cur)),
        ) + recent_rows(s.recent@),
        footer: None,
    }
}

/// The places pane lists, after the places and the devices, a Tabs heading
/// and then one row per open tab in the order the tabs were opened: row `i`
/// is known by `tab:` and the tab's path, switches to that tab when clicked,
/// is selected when the tab is the current folder, and carries a button that
/// closes the tab. The Recent section comes last.
pub proof fn lemma_places_tabs_in_order(
    p: PaneState,
    home: Seq<char>,
    present: Seq<bool>,
    mounts: Seq<String>,
)
    ensures
        ({
            let cur = p.store.current_path@;
            let w = places_view(p, home, present, mounts).widgets;
            let start = 2 + place_rows(place_list(home), present, cur).len() + device_rows(
                mounts,
                cur,
            ).len();
            &&& w.len() == start + p.store.tabs@.len() + recent_rows(p.store.recent@).len()
            &&& w[start - 1] == tabs_heading()
            &&& forall|i: int|
                0 <= i < p.store.tabs@.len() ==> (#[trigger] w[start + i] matches WidgetV::Row(r)
                    && r.id == "tab:"@ + p.store.tabs@[i]@ && r.row_action == "switch_tab:"@
                    + p.store.tabs@[i]@ && r.selected == Some(path_eq(cur, p.store.tabs@[i]@))
                    && r.actions.len() == 1 && r.actions[0].action == "close_tab:"@
                    + p.store.tabs@[i]@)
            &&& w.skip((start + p.store.tabs@.len()) as int) == recent_rows(p.store.recent@)
        }),
{
    let cur = p.store.current_path@;
    let w = places_view(p, home, present, mounts).widgets;
    let start = 2 + place_rows(place_list(home), present, cur).len() + device_rows(mounts, cur).len();
    let head = seq![section_v("Places"@, false)] + place_rows(place_list(home), present, cur)
        + device_rows(mounts, cur) + seq![tabs_heading()];
    let tabs = Seq::new(p.store.tabs@.len(), |i: int| WidgetV::Row(tab_row(p.store.tabs@[i]@, cur)));
    assert(w == head + tabs + recent_rows(p.store.recent@));
    assert(head.len() == start);
    assert forall|i: int| 0 <= i < p.store.tabs@.len() implies #[trigger] w[start + i] == tabs[i] by {}
    assert(w.skip((start + p.store.tabs@.len()) as int) =~= recent_rows(p.store.recent@));
}

fn folder_row_of(prefix: &str, title: String, path: &str, selected: Option<bool>) -> (r: Row)
    ensures
        r@ == folder_row(prefix@ + path@, title@, path@, selected),
{
    let actions: Vec<ToolButton> = Vec::new();
    let menu: Vec<ToolButton> = Vec::new();
    assert(buttons_view(actions@) =~= Seq::<ButtonV>::empty());
    assert(buttons_view(menu@) =~= Seq::<ButtonV>::empty());
    Row {
        id: concat(prefix, path),
        icon: owned("icon:folder"),
        title,
        subtitle: Some(owned(path)),
        selected,
        row_action: concat("navigate:", path),
        actions,
        menu,
        rename: None,
    }
}

fn push_places(widgets: &mut Vec<Widget>, home: &str, present: &Vec<bool>, current: &str)
    ensures
        widgets_view(final(widgets)@) == widgets_view(old(widgets)@) + place_rows(
            place_list(home@),
            present@,
            current@,
        ),
{
    let places = place_candidates(home);
    let ghost pl = place_list(home@);
    let ghost base = widgets_view(widgets@);
    let mut k: usize = 0;
    while k < places.len()
        invariant
            k <= places.len(),
            pairs_view(places@) == pl,
            pl == place_list(home@),
            widgets_view(widgets@) == base + place_rows(pl.take(k as int), present@, current@),
        decreases places.len() - k,
    {
        assert(pl.take(k + 1).drop_last() =~= pl.take(k as int));
        assert(pl.take(k + 1)[k as int] == pl[k as int]);
        assert(pl[k as int] == (places@[k as int].0@, places@[k as int].1@));
        let listed = k < 2 || (k < present.len() && present[k]);
        if listed {
            let (label, path) = (&places[k].0, &places[k].1);
            let sel = same_path(current, path.as_str());
            let r = folder_row_of("place:", label.clone(), path.as_str(), Some(sel));
            let ghost before = widgets@;
            widgets.push(Widget::Row(r));
            assert(widgets_view(widgets@) =~= widgets_view(before).push(WidgetV::Row(r@)));
        }
        k = k + 1;
    }
    assert(pl.take(places.len() as int) =~= pl);
}

fn push_devices(widgets: &mut Vec<Widget>, mounts: &Vec<String>, current: &str)
    ensures
        widgets_view(final(widgets)@) == widgets_view(old(widgets)@) + device_rows(mounts@, current@),
{
    let ghost base = widgets_view(widgets@);
    if mounts.len() == 0 {
        assert(widgets_view(widgets@) =~= base + Seq::<WidgetV>::empty());
        return;
    }
    widgets.push(section("Devices", false));
    let ghost head = widgets_view(widgets@);
    assert(head =~= base + seq![section_v("Devices"@, false)]);
    let n: usize = if mounts.len() <= 10 {
        mounts.len()
    } else {
        10
    };
    let ghost rows = Seq::new(
        n as nat,
        |i: int|
            WidgetV::Row(
                folder_row(
                    "mount:"@ + mounts@[i]@,
                    title_of(mounts@[i]@),
                    mounts@[i]@,
                    Some(path_eq(current@, mounts@[i]@)),
                ),
            ),
    );
    let mut i: usize = 0;
    while i < n
        invariant
            i <= n,
            n <= mounts.len(),
            widgets_view(widgets@) == head + rows.take(i as int),
            rows == Seq::new(
                n as nat,
                |i: int|
                    WidgetV::Row(
                        folder_row(
                            "mount:"@ + mounts@[i]@,
                            title_of(mounts@[i]@),
                            mounts@[i]@,
                            Some(path_eq(current@, mounts@[i]@)),
                        ),
                    ),
            ),
        decreases n - i,
    {
        let m = &mounts[i];
        let title = file_name_or(m.as_str(), m.as_str());
        let sel = same_path(current, m.as_str());
        let r = folder_row_of("mount:", title, m.as_str(), Some(sel));
        let ghost before = widgets@;
        widgets.push(Widget::Row(r));
        assert(widgets_view(widgets@) =~= widgets_view(before).push(WidgetV::Row(r@)));
        assert(head + rows.take(i + 1) =~= (head + rows.take(i as int)).push(rows[i as int]));
        i = i + 1;
    }
    assert(rows.take(n as int) =~= rows);
    assert(widgets_view(widgets@) =~= base + (seq![section_v("Devices"@, false)] + rows));
}

fn tab_row_of(t: &String, current: &str) -> (r: Row)
    ensures
        r@ == tab_row(t@, current@),
{
    let mut actions: Vec<ToolButton> = Vec::new();
    actions.push(titled_button(concat("close_tab:", t.as_str()), "icon:close", owned("Close tab")));
    let mut menu: Vec<ToolButton> = Vec::new();
    menu.push(titled_button(concat("switch_tab:", t.as_str()), "Open", owned("Open this tab")));
    menu.push(titled_button(concat("close_tab:", t.as_str()), "Close", owned("Close tab")));
    assert(buttons_view(actions@) =~= seq![titled("close_tab:"@ + t@, "icon:close"@, "Close tab"@)]);
    assert(buttons_view(menu@) =~= seq![
        titled("switch_tab:"@ + t@, "Open"@, "Open this tab"@),
        titled("close_tab:"@ + t@, "Close"@, "Close tab"@),
    ]);
    Row {
        id: concat("tab:", t.as_str()),
        icon: owned("icon:folder"),
        title: file_name_or(t.as_str(), t.as_str()),
        subtitle: Some(t.clone()),
        selected: Some(same_path(current, t.as_str())),
        row_action: concat("switch_tab:", t.as_str()),
        actions,
        menu,
        rename: None,
    }
}

fn push_tabs(widgets: &mut Vec<Widget>, tabs: &Vec<String>, current: &str)
    ensures
        widgets_view(final(widgets)@) == widgets_view(old(widgets)@) + Seq::new(
            tabs@.len(),
            |i: int| WidgetV::Row(tab_row(tabs@[i]@, current@)),
        ),
{
    let ghost base = widgets_view(widgets@);
    let ghost rows = Seq::new(tabs@.len(), |i: int| WidgetV::Row(tab_row(tabs@[i]@, current@)));
    let mut i: usize = 0;
    while i < tabs.len()
        invariant
            i <= tabs.len(),
            rows == Seq::new(tabs@.len(), |i: int| WidgetV::Row(tab_row(tabs@[i]@, current@))),
            widgets_view(widgets@) == base + rows.take(i as int),
        decreases tabs.len() - i,
    {
        let r = tab_row_of(&tabs[i], current);
        let ghost before = widgets@;
        widgets.push(Widget::Row(r));
        assert(widgets_view(widgets@) =~= widgets_view(before).push(WidgetV::Row(r@)));
        assert(base + rows.take(i + 1) =~= (base + rows.take(i as int)).push(rows[i as int]));
        i = i + 1;
    }
    assert(rows.take(tabs.len() as int) =~= rows);
}

fn push_recent(widgets: &mut Vec<Widget>, recent: &Vec<String>)
    ensures
        widgets_view(final(widgets)@) == widgets_view(old(widgets)@) + recent_rows(recent@),
{
    let ghost base = widgets_view(widgets@);
    if recent.len() == 0 {
        assert(widgets_view(widgets@) =~= base + Seq::<WidgetV>::empty());
        return;
    }
    widgets.push(section("Recent", false));
    let ghost head = widgets_view(widgets@);
    assert(head =~= base + seq![section_v("Recent"@, false)]);
    let n: usize = if recent.len() <= 8 {
        recent.len()
    } else {
        8
    };
    let ghost rows = Seq::new(
        n as nat,
        |i: int| WidgetV::Row(folder_row("recent:"@ + recent@[i]@, title_of(recent@[i]@), recent@[i]@, None)),
    );
    let mut i: usize = 0;
    while i < n
        invariant
            i <= n,
            n <= recent.len(),
            widgets_view(widgets@) == head + rows.take(i as int),
            rows == Seq::new(
                n as nat,
                |i: int|
                    WidgetV::Row(
                        folder_row("recent:"@ + recent@[i]@, title_of(recent@[i]@), recent@[i]@, None),
                    ),
            ),
        decreases n - i,
    {
        let p = &recent[i];
        let title = file_name_or(p.as_str(), p.as_str());
        let r = folder_row_of("recent:", title, p.as_str(), None);
        let ghost before = widgets@;
        widgets.push(Widget::Row(r));
        assert(widgets_view(widgets@) =~= widgets_view(before).push(WidgetV::Row(r@)));
        assert(head + rows.take(i + 1) =~= (head + rows.take(i as int)).push(rows[i as int]));
        i = i + 1;
    }
    assert(rows.take(n as int) =~= rows);
    assert(widgets_view(widgets@) =~= base + (seq![section_v("Recent"@, false)] + rows));
}

/// The places pane. `home` is the user's home folder; `present[k]` says
/// whether the `k`-th of `place_candidates(home)` exists; `mounts` are the
/// mount points in the order they are shown.
pub fn places_document(pane: &PaneState, home: &str, present: &Vec<bool>, mounts: &Vec<String>) -> (d: Document)
    ensures
        d@ == places_view(*pane, home@, present@, mounts@),
{
    let store = &pane.store;
    let current = store.current_path.as_str();
    let mut widgets: Vec<Widget> = Vec::new();
    widgets.push(section("Places", false));
    let ghost w0 = widgets_view(widgets@);
    assert(w0 =~= seq![section_v("Places"@, false)]);
    push_places(&mut widgets, home, present, current);
    push_devices(&mut widgets, mounts, current);
    let heading = Widget::Section {
        text: owned("Tabs"),
        card: false,
        action: Some(fixed_button("new_tab_here", "+", "New tab here")),
    };
    let ghost w2 = widgets_view(widgets@);
    widgets.push(heading);
    assert(widgets_view(widgets@) =~= w2 + seq![tabs_heading()]);
    push_tabs(&mut widgets, &store.tabs, current);
    push_recent(&mut widgets, &store.recent);
    let d = Document { title: owned("Places & Tabs"), widgets, footer: None };
    assert(d@.widgets =~= places_view(*pane, home@, present@, mounts@).widgets);
    d
}

// ---------------------------------------------------------------------------
// The preview pane.

/// What the filesystem says about the path the preview pane shows.
#[derive(Debug)]
pub struct PathFacts {
    /// It is a regular file.
    pub is_file: bool,
    /// It is a directory.
    pub is_dir: bool,
    /// Its inspection record, or the message of the failure to read it.
    pub info: Result<InspectInfo, String>,
}

/// The path the preview pane shows: the viewer's image, else the selection,
/// else the current folder.
pub open spec fn preview_path(s: Store) -> Seq<char> {
    match s.viewer {
        Some(v) => v.image_path@,
        None => match s.selected {
            Some(p) => p@,
            None => s.current_path@,
        },
    }
}

/// The path the preview pane shows; the caller probes it into `PathFacts`.
pub fn preview_target(pane: &PaneState) -> (r: String)
    ensures
        r@ == preview_path(pane.store),
{
    match &pane.store.viewer {
        Some(v) => v.image_path.clone(),
        None => match &pane.store.selected {
            Some(p) => p.clone(),
            None => pane.store.current_path.clone(),
        },
    }
}

/// The preview image of a path.
pub open spec fn preview_image(path: Seq<char>) -> WidgetV {
    WidgetV::Markdown {
        id: "preview_image"@,
        source: image_markdown(name_or(path, Seq::empty()), path),
    }
}

/// The size, date and mode lines of the viewer's image.
pub open spec fn viewer_info_lines(info: Result<InspectInfo, String>) -> Seq<WidgetV> {
    match info {
        Ok(i) => seq![
            label_v(i.size_display@ + "  •  "@ + i.mime@),
            label_v("Modified: "@ + i.modified_display@),
            label_v("Mode: "@ + i.mode_display@),
        ],
        Err(_) => Seq::empty(),
    }
}

pub open spec fn viewer_preview_bar() -> WidgetV {
    WidgetV::Toolbar {
        id: "viewer_preview_actions"@,
        buttons: seq![
            untitled("viewer_prev"@, "‹ Prev"@),
            untitled("viewer_next"@, "Next ›"@),
            untitled("close_viewer"@, "Back"@),
        ],
    }
}

/// The kind line: the image itself, "Folder", or the file's extension.
pub open spec fn kind_widget(path: Seq<char>, facts: PathFacts) -> WidgetV {
    if looks_like_image(path) && facts.is_file {
        preview_image(path)
    } else if facts.is_dir {
        label_v("Folder"@)
    } else {
        let e = match extension(path) {
            Some(e) => e,
            None => Seq::empty(),
        };
        label_v(
            "File  •  "@ + if e.len() == 0 {
                "no extension"@
            } else {
                e
            },
        )
    }
}

/// The property lines of an inspected path, or why it could not be inspected.
pub open spec fn property_lines(info: Result<InspectInfo, String>) -> Seq<WidgetV> {
    match info {
        Ok(i) => seq![
            label_v("Name: "@ + i.name@),
            label_v("Path: "@ + i.path@),
            label_v("Type: "@ + i.mime@),
        ] + (if !i.is_dir {
            seq![label_v("Size: "@ + i.size_display@)]
        } else {
            match i.child_count {
                Some(c) => seq![label_v("Items: "@ + decimal(c as nat))],
                None => Seq::empty(),
            }
        }) + seq![
            label_v("Modified: "@ + i.modified_display@),
            label_v("Permissions: "@ + i.mode_display@),
        ] + (if i.is_hidden {
            seq![label_v("Hidden file"@)]
        } else {
            Seq::empty()
        }),
        Err(e) => seq![muted_v("Cannot inspect: "@ + e@)],
    }
}

pub open spec fn preview_actions_bar() -> WidgetV {
    WidgetV::Toolbar {
        id: "preview_actions"@,
        buttons: seq![
            titled("start_rename"@, "✎ Rename"@, "Rename (F2)"@),
            titled("trash_selected"@, "🗑 Trash"@, "Move to Trash"@),
        ],
    }
}

/// The preview pane, given the facts about `preview_path(p.store)`.
pub open spec fn preview_view(p: PaneState, facts: PathFacts) -> DocumentV {
    let s = p.store;
    match s.viewer {
        Some(v) => DocumentV {
            title: "Preview"@,
            widgets: seq![section_v("Preview"@, true), preview_image(v.image_path@)]
                + viewer_info_lines(facts.info) + seq![viewer_preview_bar()],
            footer: None,
        },
        None => {
            let t = preview_path(s);
            DocumentV {
                title: "Preview & Properties"@,
                widgets: seq![section_v("Preview"@, true), kind_widget(t, facts)] + property_lines(
                    facts.info,
                ) + seq![section_v("Actions"@, true), preview_actions_bar()],
                footer: Some(seq![label_v(t)]),
            }
        },
    }
}

fn preview_image_of(path: &str) -> (w: Widget)
    ensures
        w@ == preview_image(path@),
{
    proof {
        reveal_strlit("");
        assert(""@ =~= Seq::<char>::empty());
    }
    let name = file_name_or(path, "");
    Widget::Markdown { id: owned("preview_image"), source: image_source(name.as_str(), path) }
}

fn kind_widget_of(path: &str, facts: &PathFacts) -> (w: Widget)
    ensures
        w@ == kind_widget(path@, *facts),
{
    if is_image_path(path) && facts.is_file {
        preview_image_of(path)
    } else if facts.is_dir {
        label(owned("Folder"))
    } else {
        let e = match extension_of(path) {
            Some(e) => e,
            None => String::new(),
        };
        let shown = if no_text(e.as_str()) {
            owned("no extension")
        } else {
            e
        };
        label(concat("File  •  ", shown.as_str()))
    }
}

fn property_widgets(info: &Result<InspectInfo, String>) -> (r: Vec<Widget>)
    ensures
        widgets_view(r@) == property_lines(*info),
{
    let mut w: Vec<Widget> = Vec::new();
    match info {
        Ok(i) => {
            w.push(label(concat("Name: ", i.name.as_str())));
            w.push(label(concat("Path: ", i.path.as_str())));
            w.push(label(concat("Type: ", i.mime.as_str())));
            let ghost a = widgets_view(w@);
            if !i.is_dir {
                w.push(label(concat("Size: ", i.size_display.as_str())));
            } else {
                match i.child_count {
                    Some(c) => {
                        let n = fmt_u64(c as u64);
                        w.push(label(concat("Items: ", n.as_str())));
                    },
                    None => {},
                }
            }
            let ghost b = widgets_view(w@);
            w.push(label(concat("Modified: ", i.modified_display.as_str())));
            w.push(label(concat("Permissions: ", i.mode_display.as_str())));
            let ghost c = widgets_view(w@);
            if i.is_hidden {
                w.push(label(owned("Hidden file")));
            }
            assert(widgets_view(w@) =~= property_lines(*info));
        },
        Err(e) => {
            w.push(muted(concat("Cannot inspect: ", e.as_str())));
            assert(widgets_view(w@) =~= property_lines(*info));
        },
    }
    w
}

fn viewer_preview(v: &ViewerState, facts: &PathFacts) -> (d: Document)
    ensures
        d@ == (DocumentV {
            title: "Preview"@,
            widgets: seq![section_v("Preview"@, true), preview_image(v.image_path@)]
                + viewer_info_lines(facts.info) + seq![viewer_preview_bar()],
            footer: None,
        }),
{
    let mut widgets: Vec<Widget> = Vec::new();
    widgets.push(section("Preview", true));
    widgets.push(preview_image_of(v.image_path.as_str()));
    let ghost head = widgets_view(widgets@);
    assert(head =~= seq![section_v("Preview"@, true), preview_image(v.image_path@)]);
    match &facts.info {
        Ok(i) => {
            widgets.push(label(concat3(i.size_display.as_str(), "  •  ", i.mime.as_str())));
            widgets.push(label(concat("Modified: ", i.modified_display.as_str())));
            widgets.push(label(concat("Mode: ", i.mode_display.as_str())));
        },
        Err(_) => {},
    }
    assert(widgets_view(widgets@) =~= head + viewer_info_lines(facts.info));
    let mut bar: Vec<ToolButton> = Vec::new();
    bar.push(bare_button("viewer_prev", "‹ Prev"));
    bar.push(bare_button("viewer_next", "Next ›"));
    bar.push(bare_button("close_viewer", "Back"));
    assert(buttons_view(bar@) =~= seq![
        untitled("viewer_prev"@, "‹ Prev"@),
        untitled("viewer_next"@, "Next ›"@),
        untitled("close_viewer"@, "Back"@),
    ]);
    let ghost mid = widgets_view(widgets@);
    widgets.push(Widget::Toolbar { id: owned("viewer_preview_actions"), buttons: bar });
    assert(widgets_view(widgets@) =~= mid + seq![viewer_preview_bar()]);
    let d = Document { title: owned("Preview"), widgets, footer: None };
    assert(d@.widgets =~= seq![section_v("Preview"@, true), preview_image(v.image_path@)]
        + viewer_info_lines(facts.info) + seq![viewer_preview_bar()]);
    d
}

#[verifier::rlimit(40)]
fn selection_preview(target: String, facts: &PathFacts) -> (d: Document)
    ensures
        d@ == (DocumentV {
            title: "Preview & Properties"@,
            widgets: seq![section_v("Preview"@, true), kind_widget(target@, *facts)] + property_lines(
                facts.info,
            ) + seq![section_v("Actions"@, true), preview_actions_bar()],
            footer: Some(seq![label_v(target@)]),
        }),
{
    let mut widgets: Vec<Widget> = Vec::new();
    widgets.push(section("Preview", true));
    widgets.push(kind_widget_of(target.as_str(), facts));
    let ghost head = widgets_view(widgets@);
    assert(head =~= seq![section_v("Preview"@, true), kind_widget(target@, *facts)]);
    let props = property_widgets(&facts.info);
    append_widgets(&mut widgets, props);
    let ghost mid = widgets_view(widgets@);
    widgets.push(section("Actions", true));
    let mut bar: Vec<ToolButton> = Vec::new();
    bar.push(fixed_button("start_rename", "✎ Rename", "Rename (F2)"));
    bar.push(fixed_button("trash_selected", "🗑 Trash", "Move to Trash"));
    assert(buttons_view(bar@) =~= seq![
        titled("start_rename"@, "✎ Rename"@, "Rename (F2)"@),
        titled("trash_selected"@, "🗑 Trash"@, "Move to Trash"@),
    ]);
    widgets.push(Widget::Toolbar { id: owned("preview_actions"), buttons: bar });
    assert(widgets_view(widgets@) =~= mid + seq![section_v("Actions"@, true), preview_actions_bar()]);
    let mut footer: Vec<Widget> = Vec::new();
    footer.push(label(target.clone()));
    assert(widgets_view(footer@) =~= seq![label_v(target@)]);
    let d = Document { title: owned("Preview & Properties"), widgets, footer: Some(footer) };
    assert(d@.widgets =~= seq![section_v("Preview"@, true), kind_widget(target@, *facts)]
        + property_lines(facts.info) + seq![section_v("Actions"@, true), preview_actions_bar()]);
    d
}

/// The preview pane: for an open viewer its image, a few facts and the viewer
/// buttons; else the kind and properties of the selection (or the current
/// folder) and the rename and trash buttons. `facts` describe
/// `preview_target(pane)`.
pub fn preview_document(pane: &PaneState, facts: &PathFacts) -> (d: Document)
    ensures
        d@ == preview_view(*pane, *facts),
{
    match &pane.store.viewer {
        Some(v) => viewer_preview(v, facts),
        None => selection_preview(preview_target(pane), facts),
    }
}

/// The buttons of a toolbar (none for another widget).
pub open spec fn bar_buttons(w: WidgetV) -> Seq<ButtonV> {
    match w {
        WidgetV::Toolbar { buttons, .. } => buttons,
        _ => Seq::empty(),
    }
}

/// The viewer's bar sends what its buttons say. On the bar at the top of the
/// viewer's document, the button titled "Previous (←)" is the one that sends
/// `viewer_prev`, the one titled "Next (→)" the one that sends `viewer_next`,
/// and `← Back` the one that sends `close_viewer`; each of them is there.
pub proof fn lemma_viewer_bar_sends_its_steps(v: ViewerState)
    ensures
        viewer_view(v).widgets[0] == viewer_bar(),
        forall|k: int|
            #![trigger bar_buttons(viewer_bar())[k]]
            0 <= k < bar_buttons(viewer_bar()).len() ==> {
                let b = bar_buttons(viewer_bar())[k];
                &&& (b.title == Some("Previous (←)"@) <==> b.action == "viewer_prev"@)
                &&& (b.title == Some("Next (→)"@) <==> b.action == "viewer_next"@)
                &&& (b.label == "← Back"@ <==> b.action == "close_viewer"@)
            },
        exists|k: int|
            0 <= k < bar_buttons(viewer_bar()).len() && #[trigger] bar_buttons(viewer_bar())[k].title
                == Some("Previous (←)"@),
        exists|k: int|
            0 <= k < bar_buttons(viewer_bar()).len() && #[trigger] bar_buttons(viewer_bar())[k].title
                == Some("Next (→)"@),
        exists|k: int|
            0 <= k < bar_buttons(viewer_bar()).len() && #[trigger] bar_buttons(viewer_bar())[k].label
                == "← Back"@,
{
    reveal_strlit("viewer_prev");
    reveal_strlit("viewer_next");
    reveal_strlit("close_viewer");
    reveal_strlit("Previous (←)");
    reveal_strlit("Next (→)");
    reveal_strlit("Back to folder");
    reveal_strlit("← Back");
    reveal_strlit("‹");
    reveal_strlit("›");
    assert("viewer_prev"@[7] != "viewer_next"@[7]);
    assert("‹"@[0] != "← Back"@[0]);
    assert("›"@[0] != "← Back"@[0]);
    let bs = bar_buttons(viewer_bar());
    assert(bs[0].label == "← Back"@);
    assert(bs[1].title == Some("Previous (←)"@));
    assert(bs[2].title == Some("Next (→)"@));
    assert("Back to folder"@.len() == 14 && "Previous (←)"@.len() == 12 && "Next (→)"@.len() == 8);
    assert("close_viewer"@.len() == 12 && "viewer_prev"@.len() == 11);
    assert(bs.len() == 3);
    assert forall|k: int| 0 <= k < bs.len() implies {
        let b = #[trigger] bs[k];
        &&& (b.title == Some("Previous (←)"@) <==> b.action == "viewer_prev"@)
        &&& (b.title == Some("Next (→)"@) <==> b.action == "viewer_next"@)
        &&& (b.label == "← Back"@ <==> b.action == "close_viewer"@)
    } by {
        if k == 0 {
            assert(bs[0].title != Some("Previous (←)"@));
            assert(bs[0].title != Some("Next (→)"@));
        } else if k == 1 {
            assert(bs[1].title != Some("Next (→)"@));
        } else {
            assert(bs[2].title != Some("Previous (←)"@));
        }
    }
}

/// Beside an open viewer the preview pane ends with a bar whose `‹ Prev`,
/// `Next ›` and `Back` are the buttons that send `viewer_prev`, `viewer_next`
/// and `close_viewer`; each of them is there.
pub proof fn lemma_preview_bar_sends_its_steps(p: PaneState, facts: PathFacts)
    ensures
        p.store.viewer is Some ==> preview_view(p, facts).widgets.last() == viewer_preview_bar(),
        forall|k: int|
            #![trigger bar_buttons(viewer_preview_bar())[k]]
            0 <= k < bar_buttons(viewer_preview_bar()).len() ==> {
                let b = bar_buttons(viewer_preview_bar())[k];
                &&& (b.label == "‹ Prev"@ <==> b.action == "viewer_prev"@)
                &&& (b.label == "Next ›"@ <==> b.action == "viewer_next"@)
                &&& (b.label == "Back"@ <==> b.action == "close_viewer"@)
            },
        exists|k: int|
            0 <= k < bar_buttons(viewer_preview_bar()).len() && #[trigger] bar_buttons(
                viewer_preview_bar(),
            )[k].label == "‹ Prev"@,
        exists|k: int|
            0 <= k < bar_buttons(viewer_preview_bar()).len() && #[trigger] bar_buttons(
                viewer_preview_bar(),
            )[k].label == "Next ›"@,
        exists|k: int|
            0 <= k < bar_buttons(viewer_preview_bar()).len() && #[trigger] bar_buttons(
                viewer_preview_bar(),
            )[k].label == "Back"@,
{
    reveal_strlit("viewer_prev");
    reveal_strlit("viewer_next");
    reveal_strlit("close_viewer");
    reveal_strlit("‹ Prev");
    reveal_strlit("Next ›");
    reveal_strlit("Back");
    assert("viewer_prev"@[7] != "viewer_next"@[7]);
    assert("‹ Prev"@[0] != "Next ›"@[0]);
    let ps = bar_buttons(viewer_preview_bar());
    assert(ps[0].label == "‹ Prev"@);
    assert(ps[1].label == "Next ›"@);
    assert(ps[2].label == "Back"@);
}

} // verus!
