//! Directory entries and their metadata: what every view and every headless
//! verb reads. The filesystem itself is read by the caller, which hands the
//! raw facts (`FileMeta`) in; everything derived from them is computed here.
use crate::paths::{extension, extension_of, file_name, file_name_of};
use crate::text::{
    chars_of, concat, fmt_octal4, has_prefix, lowercase, octal4, owned, str_eq, str_starts_with,
    to_lower,
};
use vstd::prelude::*;
use vstd::utf8::{decode_utf8, encode_utf8, is_char_boundary};

verus! {

/// Sort order for directory listings.
#[derive(Debug, Clone, Copy, PartialEq, Eq, Structural)]
pub enum SortKind {
    Name,
    Size,
    Modified,
    Kind,
}

impl SortKind {
    /// The keyword that names this order.
    pub open spec fn keyword(self) -> Seq<char> {
        match self {
            SortKind::Name => "name"@,
            SortKind::Size => "size"@,
            SortKind::Modified => "modified"@,
            SortKind::Kind => "kind"@,
        }
    }

    /// The order a keyword names, if any.
    pub open spec fn from_keyword(s: Seq<char>) -> Option<SortKind> {
        if s == "name"@ {
            Some(SortKind::Name)
        } else if s == "size"@ {
            Some(SortKind::Size)
        } else if s == "modified"@ {
            Some(SortKind::Modified)
        } else if s == "kind"@ {
            Some(SortKind::Kind)
        } else {
            None
        }
    }

    /// The keyword of this order.
    pub fn as_str(self) -> (r: &'static str)
        ensures
            r@ == self.keyword(),
    {
        match self {
            SortKind::Name => "name",
            SortKind::Size => "size",
            SortKind::Modified => "modified",
            SortKind::Kind => "kind",
        }
    }

    /// Reads a keyword: `name`, `size`, `modified` or `kind`.
    pub fn parse(s: &str) -> (r: Option<SortKind>)
        ensures
            r == SortKind::from_keyword(s@),
    {
        if str_eq(s, "name") {
            Some(SortKind::Name)
        } else if str_eq(s, "size") {
            Some(SortKind::Size)
        } else if str_eq(s, "modified") {
            Some(SortKind::Modified)
        } else if str_eq(s, "kind") {
            Some(SortKind::Kind)
        } else {
            None
        }
    }
}

/// Reading back the keyword of an order gives that order.
pub proof fn lemma_sort_keyword_round_trip(k: SortKind)
    ensures
        SortKind::from_keyword(k.keyword()) == Some(k),
{
    reveal_strlit("name");
    reveal_strlit("size");
    reveal_strlit("modified");
    reveal_strlit("kind");
    assert("name"@[0] != "size"@[0]);
    assert("name"@[0] != "modified"@[0]);
    assert("name"@[0] != "kind"@[0]);
    assert("size"@[0] != "modified"@[0]);
    assert("size"@[0] != "kind"@[0]);
    assert("modified"@[0] != "kind"@[0]);
}

/// What the filesystem says about a path: the raw facts an entry is built from.
#[derive(Debug, Clone)]
pub struct FileMeta {
    pub is_dir: bool,
    /// Length in bytes as `Metadata::len` reports it.
    pub len: u64,
    /// Raw `st_mode`.
    pub mode: u32,
    /// Modification time in milliseconds since the Unix epoch, when known
    /// and not before the epoch.
    pub modified: Option<i64>,
    /// The modification time rendered in the machine's local time
    /// (`%Y-%m-%d %H:%M`), when the filesystem reports one (also before the
    /// epoch).
    pub modified_local: Option<String>,
}

/// One entry in a directory listing — the atom the GUI and JSON verbs share.
#[derive(Debug, Clone, PartialEq)]
pub struct FileEntry {
    pub name: String,
    pub path: String,
    pub is_dir: bool,
    pub is_hidden: bool,
    /// Bytes on disk; 0 for directories.
    pub size: u64,
    pub modified: Option<i64>,
    pub modified_display: String,
    pub mime: String,
    pub extension: String,
    /// Unix mode bits (e.g. 0o755).
    pub mode: u32,
    /// Human-readable size (e.g. "1.4 MB").
    pub size_display: String,
    /// Icon token for the widget layer: `icon:folder` or `file:<ext>`.
    pub icon: String,
}

/// What `mime_guess::from_path(path).first()` renders to, as text.
pub uninterp spec fn guessed_mime(path: Seq<char>) -> Option<Seq<char>>;

/// `mime_guess::from_path(path).first()`, rendered with `to_string`. The guess
/// is a table lookup on the path's extension; the contract only names it.
#[verifier::external_body]
fn guess_mime(path: &str) -> (r: Option<String>)
    ensures
        match r {
            Some(m) => guessed_mime(path@) == Some(m@),
            None => guessed_mime(path@) is None,
        },
{
    mime_guess::from_path(path).first().map(|m| m.to_string())
}

/// What `humansize::format_size(n, humansize::DECIMAL)` returns.
pub uninterp spec fn human_size(n: u64) -> Seq<char>;

/// `humansize::format_size(n, humansize::DECIMAL)`: a decimal-unit size such as
/// "1.4 MB". The float formatting is not restated; the result is named.
#[verifier::external_body]
pub fn format_size_decimal(n: u64) -> (r: String)
    ensures
        r@ == human_size(n),
{
    humansize::format_size(n, humansize::DECIMAL)
}

/// The name shown for a path: its file name, or the whole path when it has none.
pub open spec fn entry_name(path: Seq<char>) -> Seq<char> {
    match file_name(path) {
        Some(n) => n,
        None => path,
    }
}

/// The lower-cased extension of a file; empty for directories and extension-less names.
pub open spec fn entry_extension(path: Seq<char>, is_dir: bool) -> Seq<char> {
    if is_dir {
        Seq::<char>::empty()
    } else {
        match extension(path) {
            Some(e) => lowercase(e),
            None => Seq::<char>::empty(),
        }
    }
}

/// The MIME type recorded for an entry.
pub open spec fn entry_mime(path: Seq<char>, is_dir: bool) -> Seq<char> {
    if is_dir {
        "inode/directory"@
    } else {
        match guessed_mime(path) {
            Some(m) => m,
            None => "application/octet-stream"@,
        }
    }
}

/// The first four bytes of the lower-cased extension (`String::truncate(4)`),
/// read back as characters.
pub open spec fn badge(ext: Seq<char>) -> Seq<char> {
    let l = lowercase(ext);
    let b = encode_utf8(l);
    if b.len() <= 4 {
        l
    } else {
        decode_utf8(b.subrange(0, 4))
    }
}

/// `String::truncate(4)` on the lower-cased extension does not panic: either
/// nothing is cut, or the cut falls on a character boundary.
pub open spec fn badge_cut_ok(ext: Seq<char>) -> bool {
    let b = encode_utf8(lowercase(ext));
    b.len() <= 4 || is_char_boundary(b, 4)
}

/// The icon token for an entry.
pub open spec fn icon_token(ext: Seq<char>, is_dir: bool) -> Seq<char> {
    if is_dir {
        "icon:folder"@
    } else if ext.len() == 0 {
        "file:·"@
    } else {
        "file:"@ + badge(ext)
    }
}

/// `icon_for` does not panic on these arguments.
pub open spec fn icon_ok(ext: Seq<char>, is_dir: bool) -> bool {
    is_dir || ext.len() == 0 || badge_cut_ok(ext)
}

/// The icon token for an entry: a folder, or a file badge showing up to the
/// first four bytes of the lower-cased extension. `mime` is kept for filtering only.
pub fn icon_for(mime: &str, ext: &str, is_dir: bool) -> (r: String)
    requires
        icon_ok(ext@, is_dir),
    ensures
        r@ == icon_token(ext@, is_dir),
{
    if is_dir {
        return owned("icon:folder");
    }
    if ext.is_empty() {
        return owned("file:·");
    }
    let lower = to_lower(ext);
    let l = lower.as_str();
    proof {
        vstd::utf8::encode_utf8_decode_utf8(l@);
    }
    if l.as_bytes().len() <= 4 {
        concat("file:", l)
    } else {
        let (head, _) = l.split_at(4);
        proof {
            vstd::utf8::encode_utf8_decode_utf8(head@);
        }
        concat("file:", head)
    }
}

/// Whether `icon_for` can build the badge for this extension without panicking.
pub fn icon_can_build(ext: &str, is_dir: bool) -> (r: bool)
    ensures
        r == icon_ok(ext@, is_dir),
{
    if is_dir || ext.is_empty() {
        return true;
    }
    let lower = to_lower(ext);
    let l = lower.as_str();
    l.as_bytes().len() <= 4 || l.is_char_boundary(4)
}

/// The shown modification time: the local rendering, empty when the
/// filesystem reports no time.
pub open spec fn local_text(t: Option<String>) -> Seq<char> {
    match t {
        Some(x) => x@,
        None => Seq::<char>::empty(),
    }
}

/// The entry that `from_path` builds for `path` with facts `meta`.
pub open spec fn entry_for(path: Seq<char>, meta: FileMeta, e: FileEntry) -> bool {
    let ext = entry_extension(path, meta.is_dir);
    &&& e.name@ == entry_name(path)
    &&& e.path@ == path
    &&& e.is_dir == meta.is_dir
    &&& e.is_hidden == has_prefix(entry_name(path), seq!['.'])
    &&& e.size == (if meta.is_dir {
        0
    } else {
        meta.len
    })
    &&& e.modified == meta.modified
    &&& e.modified_display@ == local_text(meta.modified_local)
    &&& e.mime@ == entry_mime(path, meta.is_dir)
    &&& e.extension@ == ext
    &&& e.mode == meta.mode & 0o7777
    &&& e.size_display@ == (if meta.is_dir {
        Seq::<char>::empty()
    } else {
        human_size(meta.len)
    })
    &&& e.icon@ == icon_token(ext, meta.is_dir)
}

impl FileEntry {
    /// Builds the entry for `path` from the filesystem's facts about it.
    pub fn from_path(path: String, meta: &FileMeta) -> (r: FileEntry)
        requires
            icon_ok(entry_extension(path@, meta.is_dir), meta.is_dir),
        ensures
            entry_for(path@, *meta, r),
    {
        let is_dir = meta.is_dir;
        let name = match file_name_of(path.as_str()) {
            Some(n) => n,
            None => path.clone(),
        };
        let is_hidden = str_starts_with(name.as_str(), ".");
        proof {
            reveal_strlit(".");
            assert("."@ =~= seq!['.']);
        }
        let size = if is_dir {
            0
        } else {
            meta.len
        };
        let mode = meta.mode & 0o7777;
        let extension = if is_dir {
            String::new()
        } else {
            match extension_of(path.as_str()) {
                Some(e) => to_lower(e.as_str()),
                None => String::new(),
            }
        };
        let mime = if is_dir {
            owned("inode/directory")
        } else {
            match guess_mime(path.as_str()) {
                Some(m) => m,
                None => owned("application/octet-stream"),
            }
        };
        let icon = icon_for(mime.as_str(), extension.as_str(), is_dir);
        let size_display = if is_dir {
            String::new()
        } else {
            format_size_decimal(size)
        };
        FileEntry {
            name,
            path,
            is_dir,
            is_hidden,
            size,
            modified: meta.modified,
            modified_display: match &meta.modified_local {
                Some(t) => t.clone(),
                None => String::new(),
            },
            mime,
            extension,
            mode,
            size_display,
            icon,
        }
    }

    /// Builds the entry when its icon badge can be built; `None` exactly where
    /// `from_path` would cut the extension inside a character.
    pub fn try_from_path(path: String, meta: &FileMeta) -> (r: Option<FileEntry>)
        ensures
            match r {
                Some(e) => icon_ok(entry_extension(path@, meta.is_dir), meta.is_dir) && entry_for(
                    path@,
                    *meta,
                    e,
                ),
                None => !icon_ok(entry_extension(path@, meta.is_dir), meta.is_dir),
            },
    {
        let ext = if meta.is_dir {
            String::new()
        } else {
            match extension_of(path.as_str()) {
                Some(e) => to_lower(e.as_str()),
                None => String::new(),
            }
        };
        if icon_can_build(ext.as_str(), meta.is_dir) {
            Some(FileEntry::from_path(path, meta))
        } else {
            None
        }
    }

    /// A field-by-field copy.
    pub fn copy(&self) -> (r: FileEntry)
        ensures
            r == *self,
    {
        FileEntry {
            name: self.name.clone(),
            path: self.path.clone(),
            is_dir: self.is_dir,
            is_hidden: self.is_hidden,
            size: self.size,
            modified: self.modified,
            modified_display: self.modified_display.clone(),
            mime: self.mime.clone(),
            extension: self.extension.clone(),
            mode: self.mode,
            size_display: self.size_display.clone(),
            icon: self.icon.clone(),
        }
    }
}

/// Extensions shown as images even when the MIME guess does not say so.
pub open spec fn image_extension(l: Seq<char>) -> bool {
    ||| l == "jpg"@
    ||| l == "jpeg"@
    ||| l == "png"@
    ||| l == "gif"@
    ||| l == "webp"@
    ||| l == "bmp"@
    ||| l == "svg"@
}

/// A path previewable inline as an image: its MIME guess is `image/*`, or its
/// lower-cased extension is one of the known image extensions.
pub open spec fn looks_like_image(path: Seq<char>) -> bool {
    ||| (guessed_mime(path) matches Some(m) && has_prefix(m, "image/"@))
    ||| (extension(path) matches Some(e) && image_extension(lowercase(e)))
}

/// Whether `path` looks like an image that can be previewed inline.
pub fn is_image_path(path: &str) -> (r: bool)
    ensures
        r == looks_like_image(path@),
{
    let by_mime = match guess_mime(path) {
        Some(m) => str_starts_with(m.as_str(), "image/"),
        None => false,
    };
    if by_mime {
        return true;
    }
    match extension_of(path) {
        None => false,
        Some(e) => {
            let l = to_lower(e.as_str());
            let s = l.as_str();
            str_eq(s, "jpg") || str_eq(s, "jpeg") || str_eq(s, "png") || str_eq(s, "gif")
                || str_eq(s, "webp") || str_eq(s, "bmp") || str_eq(s, "svg")
        },
    }
}

/// Full metadata for a single path — the `inspect` verb and preview pane.
#[derive(Debug, Clone, PartialEq)]
pub struct InspectInfo {
    pub path: String,
    pub name: String,
    pub is_dir: bool,
    pub is_hidden: bool,
    pub size: u64,
    pub size_display: String,
    pub mime: String,
    pub extension: String,
    pub mode: u32,
    pub mode_display: String,
    pub modified: Option<i64>,
    pub modified_display: String,
    pub is_image: bool,
    pub is_video: bool,
    pub is_audio: bool,
    /// For directories, number of direct children (best-effort).
    pub child_count: Option<usize>,
}

/// The inspection record for an entry; `child_count` is what the caller
/// counted for a directory (the count is dropped for files).
pub fn inspect_entry(fe: FileEntry, child_count: Option<usize>) -> (r: InspectInfo)
    ensures
        r.path == fe.path,
        r.name == fe.name,
        r.is_dir == fe.is_dir,
        r.is_hidden == fe.is_hidden,
        r.size == fe.size,
        r.size_display == fe.size_display,
        r.mime == fe.mime,
        r.extension == fe.extension,
        r.mode == fe.mode,
        r.mode_display@ == octal4(fe.mode as nat),
        r.modified == fe.modified,
        r.modified_display == fe.modified_display,
        r.is_image == has_prefix(fe.mime@, "image/"@),
        r.is_video == has_prefix(fe.mime@, "video/"@),
        r.is_audio == has_prefix(fe.mime@, "audio/"@),
        r.child_count == (if fe.is_dir {
            child_count
        } else {
            None
        }),
{
    let child_count = if fe.is_dir {
        child_count
    } else {
        None
    };
    let mode_display = fmt_octal4(fe.mode);
    let is_image = str_starts_with(fe.mime.as_str(), "image/");
    let is_video = str_starts_with(fe.mime.as_str(), "video/");
    let is_audio = str_starts_with(fe.mime.as_str(), "audio/");
    InspectInfo {
        path: fe.path,
        name: fe.name,
        is_dir: fe.is_dir,
        is_hidden: fe.is_hidden,
        size: fe.size,
        size_display: fe.size_display,
        mime: fe.mime,
        extension: fe.extension,
        mode: fe.mode,
        mode_display,
        modified: fe.modified,
        modified_display: fe.modified_display,
        is_image,
        is_video,
        is_audio,
        child_count,
    }
}

} // verus!
