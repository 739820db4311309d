//! What the command-line client decides: where the daemon's address is kept,
//! how that address and a reply are read, and how the headless `rename` and
//! `move` verbs check and place their arguments.
use crate::paths::{file_name, file_name_of, join, joined, parent, parent_of};
use crate::state::{state_dir_of, Store};
use crate::server::reply_head_of;
use crate::text::{
    is_ws, lemma_trim_around, is_digit, lemma_decimal_reads_back, lemma_first_occurrence, occurs_at, concat, decimal, fmt_u64, chars_of, first_occurrence, find_pattern, has_char, split_chars, split_on,
    split_once, split_once_chars, string_of, strip_prefix_chars, sub_chars, trim, trim_chars,
    trim_str, take_chars, has_prefix,
};
use vstd::prelude::*;
use vstd::utf8::encode_utf8;

verus! {

/// Where the daemon writes its control URL: `state_dir/control-url`.
pub fn control_url_path(home: &str) -> (r: String)
    ensures
        r@ == joined(state_dir_of(home@), "control-url"@),
{
    let d = Store::state_dir(home);
    join(d.as_str(), "control-url")
}

/// The `host:port` of an `http://` control URL: what follows the scheme, up
/// to the first `/`.
pub open spec fn control_address_of(url: Seq<char>) -> Option<Seq<char>> {
    if has_prefix(url, "http://"@) {
        let rest = url.skip(7);
        match split_once(rest, '/') {
            Some((hp, _)) => Some(hp),
            None => Some(rest),
        }
    } else {
        None
    }
}

/// Reads the `host:port` of a control URL; `None` when it is not `http://`.
pub fn control_address(url: &str) -> (r: Option<String>)
    ensures
        match r {
            Some(a) => control_address_of(url@) == Some(a@),
            None => control_address_of(url@) is None,
        },
{
    let v = chars_of(url);
    let scheme = chars_of("http://");
    proof {
        reveal_strlit("http://");
    }
    match strip_prefix_chars(&v, &scheme) {
        None => None,
        Some(rest) => match split_once_chars(&rest, '/') {
            Some((hp, _)) => Some(string_of(&hp)),
            None => Some(string_of(&rest)),
        },
    }
}

/// The blank line that ends the head of an HTTP message.
pub open spec fn head_end() -> Seq<char> {
    seq!['\r', '\n', '\r', '\n']
}

/// The body of an HTTP reply as `raw.split("\r\n\r\n").nth(1)` gives it: the
/// text after the first blank line, up to the next one if any.
pub open spec fn reply_body_of(raw: Seq<char>) -> Option<Seq<char>> {
    match first_occurrence(raw, head_end()) {
        None => None,
        Some(i) => {
            let rest = raw.skip(i + 4);
            match first_occurrence(rest, head_end()) {
                Some(j) => Some(rest.take(j)),
                None => Some(rest),
            }
        },
    }
}

/// Reads the body of an HTTP reply.
pub fn reply_body(raw: &str) -> (r: Option<String>)
    ensures
        match r {
            Some(b) => reply_body_of(raw@) == Some(b@),
            None => reply_body_of(raw@) is None,
        },
{
    let v = chars_of(raw);
    let mut sep: Vec<char> = Vec::new();
    sep.push('\r');
    sep.push('\n');
    sep.push('\r');
    sep.push('\n');
    assert(sep@ =~= head_end());
    match find_pattern(&v, &sep) {
        None => None,
        Some(i) => {
            assert(sep@.len() == 4);
            let n = v.len();
            assert(i + sep@.len() <= n);
            let rest = sub_chars(&v, i + 4, n);
            assert(rest@ =~= v@.skip(i + 4));
            match find_pattern(&rest, &sep) {
                Some(j) => {
                    let b = take_chars(&rest, j);
                    Some(string_of(&b))
                },
                None => Some(string_of(&rest)),
            }
        },
    }
}

/// A name the headless `rename` verb accepts: no `/`, no NUL, not blank.
pub open spec fn new_name_ok(name: Seq<char>) -> bool {
    !name.contains('/') && !name.contains('\0') && trim(name).len() > 0
}

/// Whether the headless `rename` verb accepts `name`.
pub fn valid_new_name(name: &str) -> (r: bool)
    ensures
        r == new_name_ok(name@),
{
    let v = chars_of(name);
    if has_char(&v, '/') || has_char(&v, '\0') {
        return false;
    }
    let t = trim_chars(&v);
    t.len() > 0
}

/// Where the headless `rename` verb puts `path`: `new_name` next to it
/// (relative to `.` when it has no parent).
pub fn rename_destination(path: &str, new_name: &str) -> (r: String)
    ensures
        r@ == joined(
            match parent(path@) {
                Some(p) => p,
                None => seq!['.'],
            },
            new_name@,
        ),
{
    let dir = match parent_of(path) {
        Some(p) => p,
        None => {
            let mut d: Vec<char> = Vec::new();
            d.push('.');
            assert(d@ =~= seq!['.']);
            string_of(&d)
        },
    };
    join(dir.as_str(), new_name)
}

/// The sources of the headless `move` verb: the comma-separated items,
/// trimmed, blanks dropped.
pub open spec fn move_sources_of(sources: Seq<char>) -> Seq<Seq<char>> {
    split_on(sources, ',').map_values(|p: Seq<char>| trim(p)).filter(
        |p: Seq<char>| p.len() > 0,
    )
}

/// Splits the `--sources` list of the headless `move` verb.
pub fn move_sources(sources: &str) -> (r: Vec<String>)
    ensures
        r@.map_values(|s: String| s@) == move_sources_of(sources@),
{
    let v = chars_of(sources);
    let pieces = split_chars(&v, ',');
    let ghost ps = pieces@.map_values(|x: Vec<char>| x@);
    let ghost trimmed = ps.map_values(|p: Seq<char>| trim(p));
    let mut out: Vec<String> = Vec::new();
    let mut i: usize = 0;
    while i < pieces.len()
        invariant
            i <= pieces.len(),
            ps == pieces@.map_values(|x: Vec<char>| x@),
            ps == split_on(v@, ','),
            trimmed == ps.map_values(|p: Seq<char>| trim(p)),
            out@.map_values(|s: String| s@) == trimmed.take(i as int).filter(
                |p: Seq<char>| p.len() > 0,
            ),
        decreases pieces.len() - i,
    {
        proof {
            reveal(Seq::filter);
            assert(trimmed.take(i + 1).drop_last() =~= trimmed.take(i as int));
            assert(trimmed.take(i + 1).last() == trimmed[i as int]);
        }
        let t = trim_chars(&pieces[i]);
        assert(t@ == trimmed[i as int]);
        let ghost before = out@.map_values(|s: String| s@);
        if t.len() > 0 {
            out.push(string_of(&t));
            assert(out@.map_values(|s: String| s@) =~= before.push(t@));
        }
        i = i + 1;
    }
    assert(trimmed.take(pieces.len() as int) =~= trimmed);
    out
}

/// Where the headless `move` verb puts `src`: its file name inside
/// `destination`; `None` when it has no file name.
pub fn move_destination(destination: &str, src: &str) -> (r: Option<String>)
    ensures
        match r {
            Some(d) => file_name(src@) matches Some(n) && d@ == joined(destination@, n),
            None => file_name(src@) is None,
        },
{
    match file_name_of(src) {
        Some(n) => Some(join(destination, n.as_str())),
        None => None,
    }
}

// ---------------------------------------------------------------------------
// Bringing up the daemon: probe, spawn once, then wait for it a bounded
// number of times.

/// How many times the client waits for a freshly spawned daemon.
pub const STARTUP_WAITS: u32 = 50;

/// The control URL kept in the URL file: its text trimmed, when not blank.
pub fn control_url_text(raw: &str) -> (r: Option<String>)
    ensures
        match r {
            Some(u) => u@ == trim(raw@) && u@.len() > 0,
            None => trim(raw@).len() == 0,
        },
{
    let t = trim_str(raw);
    if chars_of(t.as_str()).len() == 0 {
        None
    } else {
        Some(t)
    }
}

/// Where bringing up the daemon stands.
#[derive(Debug, Clone, Copy, PartialEq, Eq)]
pub struct Startup {
    /// The daemon was spawned by this client.
    pub spawned: bool,
    /// Probes that failed since it was spawned.
    pub waits: u32,
}

/// What the client does next.
#[derive(Debug, Clone, PartialEq)]
pub enum StartupAction {
    /// Use the daemon at this URL.
    Use(String),
    /// Spawn the daemon, then wait a moment and probe again.
    Spawn,
    /// Wait a moment and probe again.
    Wait,
    /// The daemon did not come up.
    GiveUp,
}

impl Startup {
    /// Nothing probed or spawned yet.
    pub fn new() -> (r: Startup)
        ensures
            !r.spawned,
            r.waits == 0,
    {
        Startup { spawned: false, waits: 0 }
    }

    /// Takes the outcome of one probe: the control URL that answered a ping,
    /// if any. A daemon that answers is used; otherwise the first failure
    /// spawns one, and later failures wait, up to `STARTUP_WAITS` of them.
    pub fn step(&mut self, answered: Option<String>) -> (a: StartupAction)
        requires
            old(self).waits <= STARTUP_WAITS,
        ensures
            final(self).waits <= STARTUP_WAITS,
            answered is Some ==> a == StartupAction::Use(answered->0) && *final(self) == *old(self),
            answered is None && !old(self).spawned ==> a == StartupAction::Spawn && final(self).spawned
                && final(self).waits == 0,
            answered is None && old(self).spawned && old(self).waits + 1 < STARTUP_WAITS ==> a
                == StartupAction::Wait && final(self).spawned && final(self).waits == old(self).waits
                + 1,
            answered is None && old(self).spawned && old(self).waits + 1 >= STARTUP_WAITS ==> a
                == StartupAction::GiveUp && final(self).spawned && final(self).waits == STARTUP_WAITS,
    {
        match answered {
            Some(u) => StartupAction::Use(u),
            None => {
                if !self.spawned {
                    self.spawned = true;
                    self.waits = 0;
                    StartupAction::Spawn
                } else if self.waits + 1 < STARTUP_WAITS {
                    self.waits = self.waits + 1;
                    StartupAction::Wait
                } else {
                    self.waits = STARTUP_WAITS;
                    StartupAction::GiveUp
                }
            },
        }
    }
}

/// The request that asks the daemon at `host_port` whether it is up.
pub open spec fn ping_request_of(host_port: Seq<char>) -> Seq<char> {
    "GET /ping HTTP/1.1\r\nHost: "@ + host_port + "\r\nConnection: close\r\n\r\n"@
}

/// Frames the ping request.
pub fn ping_request(host_port: &str) -> (r: String)
    ensures
        r@ == ping_request_of(host_port@),
{
    let a = concat("GET /ping HTTP/1.1\r\nHost: ", host_port);
    concat(a.as_str(), "\r\nConnection: close\r\n\r\n")
}

/// The request that posts the JSON text `payload` to `path` on the daemon at
/// `host_port`, announcing its length in bytes.
pub open spec fn post_request_of(path: Seq<char>, host_port: Seq<char>, payload: Seq<char>) -> Seq<char> {
    "POST "@ + path + " HTTP/1.1\r\nHost: "@ + host_port
        + "\r\nContent-Type: application/json\r\nContent-Length: "@ + decimal(encode_utf8(payload).len())
        + "\r\nConnection: close\r\n\r\n"@ + payload
}

/// Frames a post request.
pub fn post_request(path: &str, host_port: &str, payload: &str) -> (r: String)
    ensures
        r@ == post_request_of(path@, host_port@, payload@),
{
    let len = payload.as_bytes().len();
    let a = concat("POST ", path);
    let b = concat(a.as_str(), " HTTP/1.1\r\nHost: ");
    let c = concat(b.as_str(), host_port);
    let d = concat(c.as_str(), "\r\nContent-Type: application/json\r\nContent-Length: ");
    let e = concat(d.as_str(), fmt_u64(len as u64).as_str());
    let f = concat(e.as_str(), "\r\nConnection: close\r\n\r\n");
    concat(f.as_str(), payload)
}

/// The client reads back the body the daemon framed: the reply head ends at
/// its first blank line, so a body without a blank line comes back whole.
pub proof fn lemma_reply_round_trip(code: u16, body: Seq<char>)
    requires
        first_occurrence(body, head_end()) is None,
    ensures
        reply_body_of(reply_head_of(code, encode_utf8(body).len()) + body) == Some(body),
{
    reveal_strlit("HTTP/1.1 ");
    reveal_strlit(" OK\r\nContent-Type: application/json\r\nContent-Length: ");
    reveal_strlit("\r\nConnection: close\r\n\r\n");
    let h1 = "HTTP/1.1 "@;
    let h2 = " OK\r\nContent-Type: application/json\r\nContent-Length: "@;
    let h3 = "\r\nConnection: close\r\n\r\n"@;
    let n = encode_utf8(body).len();
    let d1 = decimal(code as nat);
    let d2 = decimal(n);
    lemma_decimal_reads_back(code as nat);
    lemma_decimal_reads_back(n);
    let s = h1 + d1 + h2 + d2 + h3 + body;
    assert(reply_head_of(code, n) + body =~= s);
    assert(h1.len() == 9 && h2.len() == 53 && h3.len() == 23);
    let o2: int = 9 + d1.len() as int;
    let o3: int = o2 + 53 + d2.len() as int;
    let p: int = o3 + 19;
    let t = head_end();
    assert(forall|k: int| 0 <= k < 9 ==> h1[k] != '\r');
    assert(forall|k: int| 0 <= k < 53 && h2[k] == '\r' ==> k == 3 || k == 35);
    assert(h2[5] == 'C' && h2[37] == 'C');
    assert(forall|k: int| 0 <= k < 19 && h3[k] == '\r' ==> k == 0);
    assert(h3[2] == 'C');
    assert forall|i: int| 0 <= i < p implies !#[trigger] occurs_at(s, t, i) by {
        if occurs_at(s, t, i) {
            let w = s.subrange(i, i + 4);
            assert(w == t);
            assert(s[i] == w[0] && s[i + 2] == w[2]);
            assert(s[i] == '\r' && s[i + 2] == '\r');
            if i < 9 {
                assert(s[i] == h1[i]);
            } else if i < o2 {
                assert(s[i] == d1[i - 9]);
                assert(is_digit(d1[i - 9]));
            } else if i < o2 + 53 {
                let k = i - o2;
                assert(s[i] == h2[k]);
                assert(s[i + 2] == h2[k + 2]);
            } else if i < o3 {
                assert(s[i] == d2[i - o2 - 53]);
                assert(is_digit(d2[i - o2 - 53]));
            } else {
                let k = i - o3;
                assert(s[i] == h3[k]);
                assert(s[i + 2] == h3[k + 2]);
            }
        }
    }
    assert(s[p] == h3[19] && s[p + 1] == h3[20] && s[p + 2] == h3[21] && s[p + 3] == h3[22]);
    assert(s.subrange(p, p + 4) =~= t);
    assert(occurs_at(s, t, p));
    lemma_first_occurrence(s, t, p);
    assert(s.skip(p + 4) =~= body);
}

/// The control URL of a daemon listening on `port` of the loopback address.
pub open spec fn control_url_of(port: u16) -> Seq<char> {
    "http://127.0.0.1:"@ + decimal(port as nat)
}

/// The URL the daemon publishes for its control endpoint.
pub fn control_url(port: u16) -> (r: String)
    ensures
        r@ == control_url_of(port),
{
    concat("http://127.0.0.1:", fmt_u64(port as u64).as_str())
}

/// The URL the daemon publishes reads back, on the client side, as the
/// loopback address and port it listens on.
pub proof fn lemma_control_url_round_trip(port: u16)
    ensures
        control_address_of(control_url_of(port)) == Some("127.0.0.1:"@ + decimal(port as nat)),
        trim(control_url_of(port)) == control_url_of(port),
{
    reveal_strlit("http://127.0.0.1:");
    reveal_strlit("127.0.0.1:");
    reveal_strlit("http://");
    let d = decimal(port as nat);
    lemma_decimal_reads_back(port as nat);
    let url = control_url_of(port);
    let rest = "127.0.0.1:"@ + d;
    assert(url.take(7) =~= "http://"@);
    assert(has_prefix(url, "http://"@));
    assert(url.skip(7) =~= rest);
    assert(!rest.contains('/')) by {
        if rest.contains('/') {
            let k = choose|k: int| 0 <= k < rest.len() && rest[k] == '/';
            if k >= 10 {
                assert(rest[k] == d[k - 10]);
                assert(is_digit(d[k - 10]));
            }
        }
    }
    assert(split_once(rest, '/') is None);
    assert forall|k: int| 0 <= k < d.len() implies !is_ws(#[trigger] d[k]) by {
        assert(is_digit(d[k]));
    }
    assert(d.last() == d[d.len() - 1]);
    assert(url =~= Seq::<char>::empty() + url + Seq::<char>::empty());
    lemma_trim_around(Seq::<char>::empty(), url, Seq::<char>::empty());
}

} // verus!
