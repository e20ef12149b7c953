//! The microphone in the browser: what the two sides know of each other, and
//! how requests are answered.

use crate::audio;
use crate::clock::{Duration, SECOND};
use crate::json;
use crate::json::{Json, Tree};
use crate::pictures;
use crate::pictures::{Picture, decode_image};
use crate::telemetry;
use crate::text;
use crate::text::{
    cat4, cat5, chars_of, decimal_u64, join, lines, lossy, parse_u32, push_to, rsplit_once, same,
    same_str, split, split_once, starts, string_of, trim_end_char, trim_start_char, trimmed,
    utf8_text, words,
};
use std::collections::VecDeque;
use vstd::prelude::*;

verus! {

/// The port that the browser is served on.
pub const PORT: u16 = 8787;

/// The recogniser is stopped after so many seconds without sound.
pub const IDLE_STT_STOP_SECS: u64 = 30;

/// A client is active for so many seconds after its last sound.
pub const CLIENT_ACTIVE_SECS: u64 = 2;

/// The most bytes of sound that are read from a request.
pub const MAX_BODY: usize = 2097152;

/// So many of the latest lines are kept.
pub const LINES_CAP: usize = 200;

/// The most bytes that a message may have.
pub const MSG_MAX: usize = 65536;

/// So many of the latest posts are kept.
pub const POSTS_CAP: usize = 30;

// ---------------------------------------------------------------------------
// What both sides know
// ---------------------------------------------------------------------------

/// Something that was sent from the browser, with its number.
#[derive(Debug, PartialEq)]
pub enum Post {
    Text(u64, String),
    Image(u64, Picture),
}

/// What was said and sent, and what was put away of it.
pub struct Shared {
    pub lines: VecDeque<String>,
    pub partial: String,
    pub stt_on: bool,
    /// When the last sound came, counted from the program's start.
    pub last_audio: Option<Duration>,
    pub posts: VecDeque<Post>,
    pub next_post_id: u64,
    pub cleared_lines: Option<VecDeque<String>>,
    pub cleared_posts: Option<VecDeque<Post>>,
}

/// What a stash holds.
pub open spec fn stash<T>(s: Option<VecDeque<T>>) -> Option<Seq<T>> {
    match s {
        Some(q) => Some(q@),
        None => None,
    }
}

/// `item` behind the latest items, of which the first leaves where there is no
/// room.
pub open spec fn latest_with<T>(items: Seq<T>, item: T, cap: nat) -> Seq<T> {
    if items.len() >= cap {
        items.skip(1).push(item)
    } else {
        items.push(item)
    }
}

/// The last `cap` of the items.
pub open spec fn last_of<T>(items: Seq<T>, cap: nat) -> Seq<T> {
    if items.len() <= cap {
        items
    } else {
        items.skip(items.len() - cap)
    }
}

/// Items and a stash after the items were put away: where there are none the
/// stash stays.
pub open spec fn cleared<T>(items: Seq<T>, put_away: Option<Seq<T>>) -> (Seq<T>, Option<Seq<T>>) {
    if items.len() == 0 {
        (items, put_away)
    } else {
        (Seq::empty(), Some(items))
    }
}

/// Items and a stash after the stash was brought back, before what has come
/// since.
pub open spec fn restored<T>(items: Seq<T>, put_away: Option<Seq<T>>, cap: nat) -> (
    Seq<T>,
    Option<Seq<T>>,
) {
    match put_away {
        Some(old) => (last_of(old + items, cap), None),
        None => (items, None),
    }
}

/// What was put away comes back, and what has come since stands behind it, as
/// far as there is room; a second time nothing changes.
pub proof fn clear_then_undo<T>(items: Seq<T>, put_away: Option<Seq<T>>, fresh: Seq<T>, cap: nat)
    requires
        0 < items.len() <= cap,
    ensures
        ({
            let (_, kept) = cleared(items, put_away);
            let (back, none) = restored(fresh, kept, cap);
            &&& back == last_of(items + fresh, cap)
            &&& fresh.len() == 0 ==> back == items
            &&& restored(back, none, cap) == (back, none)
        }),
{
    if fresh.len() == 0 {
        assert(items + fresh =~= items);
    }
}

/// To put away nothing keeps what was put away before.
pub proof fn clear_of_nothing_keeps_stash<T>(items: Seq<T>, put_away: Option<Seq<T>>)
    ensures
        ({
            let (left, kept) = cleared(items, put_away);
            cleared(left, kept) == (left, kept)
        }),
{
}

fn cut<T>(items: &mut VecDeque<T>, cap: usize)
    ensures
        final(items)@ == last_of(old(items)@, cap as nat),
{
    let ghost all = items@;
    let ghost mut gone: int = 0;
    assert(all.skip(0) =~= all);
    while items.len() > cap
        invariant
            0 <= gone <= all.len(),
            items@ == all.skip(gone),
            gone == 0 || items@.len() >= cap,
        decreases items@.len(),
    {
        items.pop_front();
        proof {
            gone = gone + 1;
        }
        assert(items@ =~= all.skip(gone));
    }
}

fn bring_back<T>(items: &mut VecDeque<T>, put_away: &mut Option<VecDeque<T>>, cap: usize)
    ensures
        (final(items)@, stash(*final(put_away))) == restored(
            old(items)@,
            stash(*old(put_away)),
            cap as nat,
        ),
{
    if let Some(old) = put_away.take() {
        let mut all = old;
        all.append(items);
        cut(&mut all, cap);
        *items = all;
    }
}

fn put_by<T>(items: &mut VecDeque<T>, put_away: &mut Option<VecDeque<T>>)
    ensures
        (final(items)@, stash(*final(put_away))) == cleared(old(items)@, stash(*old(put_away))),
{
    if items.len() > 0 {
        let mut all: VecDeque<T> = VecDeque::new();
        all.append(items);
        assert(all@ =~= old(items)@);
        *put_away = Some(all);
    }
}

fn keep<T>(items: &mut VecDeque<T>, item: T, cap: usize)
    requires
        cap > 0,
    ensures
        final(items)@ == latest_with(old(items)@, item, cap as nat),
{
    if items.len() >= cap {
        items.pop_front();
        assert(items@ =~= old(items)@.skip(1));
    }
    items.push_back(item);
}

/// Whether a client is active: `last` is when its last sound came.
pub open spec fn active_of(last: Option<int>, now: int) -> bool {
    match last {
        Some(t) => now - t < CLIENT_ACTIVE_SECS * SECOND,
        None => false,
    }
}

/// A client is active for two seconds after its last sound, and not before its
/// first.
pub proof fn client_is_active_for_two_seconds(last: int, now: int)
    ensures
        active_of(Some(last), now) <==> now < last + 2_000_000_000,
        !active_of(None, now),
{
}

impl Default for Shared {
    fn default() -> (r: Shared)
        ensures
            r.lines@ == Seq::<String>::empty(),
            r.partial@ == Seq::<char>::empty(),
            !r.stt_on,
            r.last_audio is None,
            r.posts@ == Seq::<Post>::empty(),
            r.next_post_id == 0,
            r.cleared_lines is None,
            r.cleared_posts is None,
    {
        let r = Shared {
            lines: VecDeque::new(),
            partial: String::new(),
            stt_on: false,
            last_audio: None,
            posts: VecDeque::new(),
            next_post_id: 0,
            cleared_lines: None,
            cleared_posts: None,
        };
        assert(r.partial@ =~= Seq::empty());
        r
    }
}

impl Shared {
    /// Whether sound has come within the last two seconds.
    pub fn client_active(&self, now: Duration) -> (r: bool)
        ensures
            r == active_of(
                match self.last_audio {
                    Some(t) => Some(t@),
                    None => None,
                },
                now@,
            ),
    {
        match self.last_audio {
            Some(t) => if now.at_least_as(&t) {
                !now.minus(&t).at_least(CLIENT_ACTIVE_SECS)
            } else {
                true
            },
            None => false,
        }
    }

    /// Takes in a post, which is made with the next number.
    pub fn push_post(&mut self, make: impl FnOnce(u64) -> Post)
        requires
            old(self).next_post_id < u64::MAX,
            call_requires(make, ((old(self).next_post_id + 1) as u64,)),
        ensures
            final(self).next_post_id == old(self).next_post_id + 1,
            final(self).posts@.len() > 0,
            call_ensures(make, (final(self).next_post_id,), final(self).posts@.last()),
            final(self).posts@ == latest_with(
                old(self).posts@,
                final(self).posts@.last(),
                POSTS_CAP as nat,
            ),
            final(self).lines == old(self).lines,
            final(self).partial == old(self).partial,
            final(self).stt_on == old(self).stt_on,
            final(self).last_audio == old(self).last_audio,
            final(self).cleared_lines == old(self).cleared_lines,
            final(self).cleared_posts == old(self).cleared_posts,
    {
        self.next_post_id = self.next_post_id + 1;
        let post = make(self.next_post_id);
        keep(&mut self.posts, post, POSTS_CAP);
    }

    /// Puts away what was said.
    pub fn clear_said(&mut self)
        ensures
            (final(self).lines@, stash(final(self).cleared_lines)) == cleared(
                old(self).lines@,
                stash(old(self).cleared_lines),
            ),
            final(self).partial@ == Seq::<char>::empty(),
            final(self).stt_on == old(self).stt_on,
            final(self).last_audio == old(self).last_audio,
            final(self).posts == old(self).posts,
            final(self).next_post_id == old(self).next_post_id,
            final(self).cleared_posts == old(self).cleared_posts,
    {
        put_by(&mut self.lines, &mut self.cleared_lines);
        self.partial = String::new();
        assert(self.partial@ =~= Seq::empty());
    }

    /// Brings back what was put away of what was said.
    pub fn undo_said(&mut self)
        ensures
            (final(self).lines@, stash(final(self).cleared_lines)) == restored(
                old(self).lines@,
                stash(old(self).cleared_lines),
                LINES_CAP as nat,
            ),
            final(self).partial == old(self).partial,
            final(self).stt_on == old(self).stt_on,
            final(self).last_audio == old(self).last_audio,
            final(self).posts == old(self).posts,
            final(self).next_post_id == old(self).next_post_id,
            final(self).cleared_posts == old(self).cleared_posts,
    {
        bring_back(&mut self.lines, &mut self.cleared_lines, LINES_CAP);
    }

    /// Puts away what was sent.
    pub fn clear_sent(&mut self)
        ensures
            (final(self).posts@, stash(final(self).cleared_posts)) == cleared(
                old(self).posts@,
                stash(old(self).cleared_posts),
            ),
            final(self).lines == old(self).lines,
            final(self).partial == old(self).partial,
            final(self).stt_on == old(self).stt_on,
            final(self).last_audio == old(self).last_audio,
            final(self).next_post_id == old(self).next_post_id,
            final(self).cleared_lines == old(self).cleared_lines,
    {
        put_by(&mut self.posts, &mut self.cleared_posts);
    }

    /// Brings back what was put away of what was sent.
    pub fn undo_sent(&mut self)
        ensures
            (final(self).posts@, stash(final(self).cleared_posts)) == restored(
                old(self).posts@,
                stash(old(self).cleared_posts),
                POSTS_CAP as nat,
            ),
            final(self).lines == old(self).lines,
            final(self).partial == old(self).partial,
            final(self).stt_on == old(self).stt_on,
            final(self).last_audio == old(self).last_audio,
            final(self).next_post_id == old(self).next_post_id,
            final(self).cleared_lines == old(self).cleared_lines,
    {
        bring_back(&mut self.posts, &mut self.cleared_posts, POSTS_CAP);
    }
}

// ---------------------------------------------------------------------------
// Addresses
// ---------------------------------------------------------------------------

/// The value of the first of the pairs whose name is `key`.
pub open spec fn first_param(pairs: Seq<Seq<char>>, key: Seq<char>) -> Option<Seq<char>>
    decreases pairs.len(),
{
    if pairs.len() == 0 {
        None
    } else {
        match text::split_once_of(pairs[0], "="@) {
            Some((k, v)) if k == key => Some(v),
            _ => first_param(pairs.skip(1), key),
        }
    }
}

/// The value of the parameter `key` in an address.
pub open spec fn query_param_of(url: Seq<char>, key: Seq<char>) -> Option<Seq<char>> {
    match text::split_once_of(url, "?"@) {
        Some((_, q)) => first_param(text::split_of(q, '&'), key),
        None => None,
    }
}

/// The value of the parameter `key` in an address.
pub fn query_param(url: &str, key: &str) -> (r: Option<String>)
    ensures
        text::opt_text(r) == query_param_of(url@, key@),
{
    let chars = chars_of(url);
    let name = chars_of(key);
    let mark = chars_of("?");
    let equals = chars_of("=");
    let q = match split_once(chars.as_slice(), mark.as_slice()) {
        Some((_, q)) => q,
        None => return None,
    };
    let pairs = split(q, '&');
    let ghost all = text::split_of(q@, '&');
    let mut i: usize = 0;
    assert(all.skip(0) =~= all);
    while i < pairs.len()
        invariant
            i <= pairs@.len(),
            all == text::views(pairs@),
            name@ == key@,
            equals@ == "="@,
            query_param_of(url@, key@) == first_param(all, key@),
            first_param(all, key@) == first_param(all.skip(i as int), key@),
        decreases pairs.len() - i,
    {
        assert(all.skip(i as int)[0] == pairs@[i as int]@);
        assert(all.skip(i as int).skip(1) =~= all.skip(i + 1));
        if let Some((k, v)) = split_once(pairs[i], equals.as_slice()) {
            if same(k, name.as_slice()) {
                return Some(string_of(v));
            }
        }
        i = i + 1;
    }
    None
}

/// The part of an address before its parameters.
pub open spec fn path_of(url: Seq<char>) -> Seq<char> {
    text::split_of(url, '?')[0]
}

/// The part of an address before its parameters.
pub fn path(url: &str) -> (r: String)
    ensures
        r@ == path_of(url@),
{
    let chars = chars_of(url);
    let parts = split(chars.as_slice(), '?');
    proof {
        text::lemma_split_nonempty(url@, '?');
    }
    assert(text::views(parts@)[0] == parts@[0]@);
    string_of(parts[0])
}

pub open spec fn needs_token_of(path: Seq<char>) -> bool {
    path == "/"@ || path == "/index.html"@ || text::starts_of(path, "/api/"@)
}

/// Whether a path is served only to those who know the token.
pub fn needs_token(path: &str) -> (r: bool)
    ensures
        r == needs_token_of(path@),
{
    same_str(path, "/") || same_str(path, "/index.html") || starts(
        chars_of(path).as_slice(),
        chars_of("/api/").as_slice(),
    )
}

/// Whether an address holds the token.
pub fn token_ok(url: &str, token: &str) -> (r: bool)
    ensures
        r == (query_param_of(url@, "t"@) == Some(token@)),
{
    match query_param(url, "t") {
        Some(t) => same_str(t.as_str(), token),
        None => false,
    }
}

pub open spec fn rate_of(url: Seq<char>) -> nat {
    match query_param_of(url, "rate"@) {
        Some(v) => match text::parse_unsigned_of(v, u32::MAX as nat) {
            Some(n) if 8000 <= n <= 192_000 => n,
            _ => 48_000,
        },
        None => 48_000,
    }
}

/// The sample rate that an address names, where it is a usual one.
pub fn rate_from_url(url: &str) -> (r: u32)
    ensures
        r == rate_of(url@),
{
    match query_param(url, "rate") {
        Some(v) => match parse_u32(chars_of(v.as_str()).as_slice()) {
            Some(n) => if 8000 <= n && n <= 192_000 {
                n
            } else {
                48_000
            },
            None => 48_000,
        },
        None => 48_000,
    }
}

/// What stands behind the last dot of a path, all of it where there is none.
pub open spec fn extension_of(path: Seq<char>) -> Seq<char> {
    match text::rsplit_once_of(path, "."@) {
        Some((_, e)) => e,
        None => path,
    }
}

pub open spec fn content_type_of(path: Seq<char>) -> Seq<char> {
    let e = extension_of(path);
    if e == "html"@ {
        "text/html; charset=utf-8"@
    } else if e == "js"@ {
        "application/javascript"@
    } else if e == "css"@ {
        "text/css"@
    } else if e == "svg"@ {
        "image/svg+xml"@
    } else if e == "json"@ {
        "application/json"@
    } else if e == "ico"@ {
        "image/x-icon"@
    } else if e == "woff2"@ {
        "font/woff2"@
    } else {
        "application/octet-stream"@
    }
}

/// The content type of a file, by the end of its name.
pub fn content_type(path: &str) -> (r: &'static str)
    ensures
        r@ == content_type_of(path@),
{
    let chars = chars_of(path);
    let e = match rsplit_once(chars.as_slice(), chars_of(".").as_slice()) {
        Some((_, e)) => string_of(e),
        None => path.to_owned(),
    };
    let e = e.as_str();
    if same_str(e, "html") {
        "text/html; charset=utf-8"
    } else if same_str(e, "js") {
        "application/javascript"
    } else if same_str(e, "css") {
        "text/css"
    } else if same_str(e, "svg") {
        "image/svg+xml"
    } else if same_str(e, "json") {
        "application/json"
    } else if same_str(e, "ico") {
        "image/x-icon"
    } else if same_str(e, "woff2") {
        "font/woff2"
    } else {
        "application/octet-stream"
    }
}

/// A path that leads up out of its directory.
pub open spec fn leads_up(rel: Seq<char>) -> bool {
    exists|i: int| 0 <= i < text::split_of(rel, '/').len() && #[trigger] text::split_of(rel, '/')[i] == ".."@
}

/// The file that is served for a path: its name below the root, none where it
/// leads up.
pub open spec fn static_of(path: Seq<char>) -> Option<Seq<char>> {
    let rel = text::trim_start_char_of(path, '/');
    let name = if rel.len() == 0 {
        "index.html"@
    } else {
        rel
    };
    if leads_up(name) {
        None
    } else {
        Some(name)
    }
}

/// What is served never leads up out of the root.
pub proof fn static_never_leads_up(path: Seq<char>)
    ensures
        static_of(path) matches Some(name) ==> !leads_up(name) && name.len() > 0,
{
    reveal_strlit("index.html");
}

/// A step up is refused wherever it stands in a path, and only a whole step is
/// one.
pub proof fn every_step_up_is_refused(a: Seq<char>, b: Seq<char>)
    requires
        !a.contains('/'),
    ensures
        a == ".."@ ==> leads_up(a) && leads_up(a + seq!['/'] + b),
        leads_up(b) ==> leads_up(a + seq!['/'] + b),
        a != ".."@ ==> !leads_up(a),
        a != ".."@ && !leads_up(b) ==> !leads_up(a + seq!['/'] + b),
{
    text::split_cuts_at_the_first(a, '/', b);
    let s = a + seq!['/'] + b;
    let ps = text::split_of(s, '/');
    let qs = text::split_of(b, '/');
    assert(ps == seq![a] + qs);
    assert(ps[0] == a);
    assert(text::split_of(a, '/')[0] == a);
    if leads_up(b) {
        let i = choose|i: int| 0 <= i < qs.len() && #[trigger] qs[i] == ".."@;
        assert(ps[i + 1] == ".."@);
    }
    if a != ".."@ && !leads_up(b) && leads_up(s) {
        let i = choose|i: int| 0 <= i < ps.len() && #[trigger] ps[i] == ".."@;
        assert(qs[i - 1] == ".."@);
    }
}

/// The name below the root of the file that is served for a path, and its
/// content type.
pub fn static_file(path: &str) -> (r: Option<(String, &'static str)>)
    ensures
        match r {
            Some((name, mime)) => static_of(path@) == Some(name@) && mime@ == content_type_of(
                name@,
            ),
            None => static_of(path@) is None,
        },
{
    let chars = chars_of(path);
    let rel = trim_start_char(chars.as_slice(), '/');
    let name = if rel.len() == 0 {
        "index.html".to_owned()
    } else {
        string_of(rel)
    };
    let letters = chars_of(name.as_str());
    let parts = split(letters.as_slice(), '/');
    let up = chars_of("..");
    let ghost all = text::split_of(name@, '/');
    let mut i: usize = 0;
    while i < parts.len()
        invariant
            i <= parts@.len(),
            all == text::views(parts@),
            all == text::split_of(name@, '/'),
            up@ == ".."@,
            static_of(path@) == if leads_up(name@) {
                None
            } else {
                Some(name@)
            },
            forall|k: int| 0 <= k < i ==> #[trigger] all[k] != ".."@,
        decreases parts.len() - i,
    {
        assert(all[i as int] == parts@[i as int]@);
        if same(parts[i], up.as_slice()) {
            assert(text::split_of(name@, '/')[i as int] == ".."@);
            return None;
        }
        i = i + 1;
    }
    let mime = content_type(name.as_str());
    Some((name, mime))
}

/// The address that the browser is to open.
pub fn hint_url(host: &str, token: &str) -> (r: String)
    ensures
        r@ == hint_of(host@, Some(token@)),
{
    let mut s = cat4("https://", host, ":", decimal_u64(PORT as u64).as_str());
    s.append("/?t=");
    s.append(token);
    s
}

pub open spec fn hint_of(host: Seq<char>, token: Option<Seq<char>>) -> Seq<char> {
    match token {
        Some(t) => "https://"@ + host + ":"@ + text::decimal_of(PORT as nat) + "/?t="@ + t,
        None => "https://"@ + host + ":"@ + text::decimal_of(PORT as nat) + "/"@,
    }
}

pub open spec fn hints_of(hosts: Seq<Seq<char>>, token: Option<Seq<char>>) -> Seq<char> {
    text::join_of(hosts.map_values(|h: Seq<char>| hint_of(h, token)), "\n"@)
}

/// The addresses that the browser is to open, one a line.
pub fn hint(hosts: &Vec<String>, token: Option<&str>) -> (r: String)
    ensures
        r@ == hints_of(text::texts(hosts@), text::opt_str(token)),
{
    let ghost all = text::texts(hosts@).map_values(|h: Seq<char>| hint_of(h, text::opt_str(token)));
    let mut urls: Vec<String> = Vec::new();
    let mut i: usize = 0;
    while i < hosts.len()
        invariant
            i <= hosts@.len(),
            all == text::texts(hosts@).map_values(|h: Seq<char>| hint_of(h, text::opt_str(token))),
            urls@.len() == i,
            forall|k: int| 0 <= k < i ==> (#[trigger] urls@[k])@ == all[k],
        decreases hosts.len() - i,
    {
        let url = match token {
            Some(t) => hint_url(hosts[i].as_str(), t),
            None => cat5(
                "https://",
                hosts[i].as_str(),
                ":",
                decimal_u64(PORT as u64).as_str(),
                "/",
            ),
        };
        urls.push(url);
        i = i + 1;
    }
    assert(text::texts(urls@) =~= all);
    join(&urls, "\n")
}

/// The hosts under which this machine is reached: the one that was set, or the
/// one in the private network and the public or else the local one.
pub open spec fn hosts_of(
    chosen: Option<Seq<char>>,
    vpn: Option<Seq<char>>,
    public: Option<Seq<char>>,
    lan: Option<Seq<char>>,
) -> Seq<Seq<char>> {
    let second = match public {
        Some(p) => Some(p),
        None => lan,
    };
    match chosen {
        Some(h) if h.len() > 0 => seq![h],
        _ => match (vpn, second) {
            (Some(a), Some(b)) => seq![a, b],
            (Some(a), None) => seq![a],
            (None, Some(b)) => seq![b],
            (None, None) => seq!["<ip-компа>"@],
        },
    }
}

/// The hosts under which this machine is reached.
pub fn hosts(
    chosen: Option<&str>,
    vpn: Option<&str>,
    public: Option<&str>,
    lan: Option<&str>,
) -> (r: Vec<String>)
    ensures
        text::texts(r@) == hosts_of(text::opt_str(chosen), text::opt_str(vpn), text::opt_str(public), text::opt_str(lan)),
{
    let mut v: Vec<String> = Vec::new();
    assert(text::texts(v@) =~= Seq::empty());
    if let Some(h) = chosen {
        if chars_of(h).len() > 0 {
            push_to(&mut v, h);
            assert(text::texts(v@) =~= seq![h@]);
            return v;
        }
    }
    if let Some(a) = vpn {
        push_to(&mut v, a);
    }
    let second = match public {
        Some(p) => Some(p),
        None => lan,
    };
    if let Some(b) = second {
        push_to(&mut v, b);
    }
    if v.len() == 0 {
        push_to(&mut v, "<ip-компа>");
    }
    assert(text::texts(v@) =~= hosts_of(text::opt_str(chosen), text::opt_str(vpn), text::opt_str(public), text::opt_str(lan)));
    v
}

/// The word at place `n` of the first line.
pub open spec fn word_of_first_line(t: Seq<char>, n: int) -> Option<Seq<char>> {
    let ls = text::lines_of(t);
    if ls.len() == 0 || n >= text::words_of(ls[0]).len() {
        None
    } else {
        Some(text::words_of(ls[0])[n])
    }
}

fn first_line_word(t: &str, n: usize) -> (r: Option<String>)
    ensures
        text::opt_text(r) == word_of_first_line(t@, n as int),
{
    let chars = chars_of(t);
    let ls = lines(chars.as_slice());
    if ls.len() == 0 {
        return None;
    }
    assert(text::views(ls@)[0] == ls@[0]@);
    let ws = words(ls[0]);
    if n >= ws.len() {
        return None;
    }
    assert(text::views(ws@)[n as int] == ws@[n as int]@);
    Some(string_of(ws[n]))
}

/// The name of the device in a list of links: the second word, colons behind it
/// aside.
pub fn wg_dev_from(t: &str) -> (r: Option<String>)
    ensures
        text::opt_text(r) == match word_of_first_line(t@, 1) {
            Some(w) => Some(text::trim_end_char_of(w, ':')),
            None => None,
        },
{
    match first_line_word(t, 1) {
        Some(w) => Some(string_of(trim_end_char(chars_of(w.as_str()).as_slice(), ':'))),
        None => None,
    }
}

/// The address in a list of addresses: the fourth word, up to a slash.
pub fn ip_from_addr_line(t: &str) -> (r: Option<String>)
    ensures
        text::opt_text(r) == match word_of_first_line(t@, 3) {
            Some(w) => Some(text::split_of(w, '/')[0]),
            None => None,
        },
{
    match first_line_word(t, 3) {
        Some(w) => {
            let chars = chars_of(w.as_str());
            let parts = split(chars.as_slice(), '/');
            proof {
                text::lemma_split_nonempty(w@, '/');
            }
            assert(text::views(parts@)[0] == parts@[0]@);
            Some(string_of(parts[0]))
        },
        None => None,
    }
}

/// A character that an address of a machine is made of.
pub open spec fn address_char(c: char) -> bool {
    ('0' <= c && c <= '9') || ('a' <= c && c <= 'f') || ('A' <= c && c <= 'F') || c == '.' || c
        == ':'
}

/// What a service said the address of this machine is, where it is one.
pub open spec fn public_ip_of(said: Seq<char>) -> Option<Seq<char>> {
    let ip = text::trim_of(said);
    if ip.len() > 0 && forall|i: int| 0 <= i < ip.len() ==> address_char(#[trigger] ip[i]) {
        Some(ip)
    } else {
        None
    }
}

/// An address is taken as it was said, white space round it aside, and nothing
/// is taken that holds a character that no address has.
pub proof fn only_addresses_are_taken(said: Seq<char>, i: int)
    ensures
        public_ip_of(said) matches Some(ip) ==> ip.len() > 0 && ip == text::trim_of(said),
        0 <= i < text::trim_of(said).len() && !"0123456789abcdefABCDEF.:"@.contains(
            text::trim_of(said)[i],
        ) ==> public_ip_of(said) is None,
        text::trim_of(said).len() == 0 ==> public_ip_of(said) is None,
        text::trim_of(said).len() > 0 && (forall|j: int|
            0 <= j < text::trim_of(said).len() ==> "0123456789abcdefABCDEF.:"@.contains(
                #[trigger] text::trim_of(said)[j],
            )) ==> public_ip_of(said) is Some,
{
    reveal_strlit("0123456789abcdefABCDEF.:");
    let all = "0123456789abcdefABCDEF.:"@;
    let ip = text::trim_of(said);
    assert(all.len() == 24);
    assert forall|c: char| all.contains(c) <==> #[trigger] address_char(c) by {
        if all.contains(c) {
            let k = choose|k: int| 0 <= k < all.len() && all[k] == c;
            assert(address_char(all[k]));
        }
        if address_char(c) {
            let n = c as int;
            if '0' <= c && c <= '9' {
                assert(all[n - 48] == c);
            } else if 'a' <= c && c <= 'f' {
                assert(all[n - 97 + 10] == c);
            } else if 'A' <= c && c <= 'F' {
                assert(all[n - 65 + 16] == c);
            } else if c == '.' {
                assert(all[22] == c);
            } else {
                assert(all[23] == c);
            }
        }
    }
    if 0 <= i < ip.len() && !all.contains(ip[i]) {
        assert(!address_char(ip[i]));
    }
    if forall|j: int| 0 <= j < ip.len() ==> all.contains(#[trigger] ip[j]) {
        assert forall|j: int| 0 <= j < ip.len() implies address_char(#[trigger] ip[j]) by {
            assert(all.contains(ip[j]));
        }
    }
}

/// What a service said the address of this machine is, where it is one.
pub fn public_ip(said: &str) -> (r: Option<String>)
    ensures
        text::opt_text(r) == public_ip_of(said@),
{
    let ip = trimmed(said);
    let chars = chars_of(ip.as_str());
    if chars.len() == 0 {
        return None;
    }
    let mut i: usize = 0;
    while i < chars.len()
        invariant
            i <= chars@.len(),
            chars@ == text::trim_of(said@),
            chars@.len() > 0,
            forall|k: int| 0 <= k < i ==> address_char(#[trigger] chars@[k]),
        decreases chars.len() - i,
    {
        let c: char = chars[i];
        if !(('0' <= c && c <= '9') || ('a' <= c && c <= 'f') || ('A' <= c && c <= 'F') || c == '.'
            || c == ':') {
            assert(!address_char(text::trim_of(said@)[i as int]));
            return None;
        }
        i = i + 1;
    }
    Some(ip)
}

/// The first of the addresses of this machine.
pub fn lan_ip(said: &str) -> (r: Option<String>)
    ensures
        text::opt_text(r) == if text::words_of(said@).len() > 0 {
            Some(text::words_of(said@)[0])
        } else {
            None
        },
{
    let chars = chars_of(said);
    let ws = words(chars.as_slice());
    if ws.len() == 0 {
        return None;
    }
    assert(text::views(ws@)[0] == ws@[0]@);
    Some(string_of(ws[0]))
}

/// The token in a file or in what its maker printed, where there is one.
pub open spec fn token_of(said: Seq<char>) -> Option<Seq<char>> {
    if text::trim_of(said).len() > 0 {
        Some(text::trim_of(said))
    } else {
        None
    }
}

/// A token that was written down as it is is read back.
pub proof fn token_reads_back(said: Seq<char>)
    ensures
        token_of(said) matches Some(t) ==> token_of(t) == Some(t),
{
    text::trim_is_idempotent(said);
}

/// The token in a file or in what its maker printed, where there is one.
pub fn token_from(said: &str) -> (r: Option<String>)
    ensures
        text::opt_text(r) == token_of(said@),
{
    let t = trimmed(said);
    if chars_of(t.as_str()).len() > 0 {
        Some(t)
    } else {
        None
    }
}

/// A new token, from what its maker printed and whether it went well.
pub fn new_token(success: bool, printed: &[u8]) -> (r: Result<String, String>)
    ensures
        match r {
            Ok(t) => success && token_of(text::lossy_of(printed@)) == Some(t@),
            Err(e) => if success {
                &&& e@ == "пустой токен"@
                &&& token_of(text::lossy_of(printed@)) is None
            } else {
                e@ == "openssl rand не отработал"@
            },
        },
{
    if !success {
        return Err("openssl rand не отработал".to_owned());
    }
    match token_from(lossy(printed).as_str()) {
        Some(t) => Ok(t),
        None => Err("пустой токен".to_owned()),
    }
}

// ---------------------------------------------------------------------------
// Requests
// ---------------------------------------------------------------------------

/// What a request asks for.
#[derive(Debug, Clone, Copy, PartialEq, Eq, Structural)]
pub enum Route {
    /// The token is missing or wrong.
    Forbidden,
    /// Sound comes.
    Audio,
    /// A message comes.
    Msg,
    /// The stream of what is heard in a call.
    Zoom,
    /// Something is put away.
    Clear,
    /// What was put away is brought back.
    Undo,
    /// A picture comes.
    Img,
    /// A file is asked for.
    Static,
}

pub open spec fn route_of(post: bool, url: Seq<char>, token: Option<Seq<char>>) -> Route {
    let p = path_of(url);
    if token is Some && needs_token_of(p) && query_param_of(url, "t"@) != token {
        Route::Forbidden
    } else if post && p == "/api/audio"@ {
        Route::Audio
    } else if post && p == "/api/msg"@ {
        Route::Msg
    } else if p == "/api/zoom"@ {
        Route::Zoom
    } else if post && p == "/api/clear"@ {
        Route::Clear
    } else if post && p == "/api/undo"@ {
        Route::Undo
    } else if post && p == "/api/img"@ {
        Route::Img
    } else {
        Route::Static
    }
}

/// What a request asks for, by its method and its address.
pub fn route(post: bool, url: &str, token: Option<&str>) -> (r: Route)
    ensures
        r == route_of(post, url@, text::opt_str(token)),
{
    let p = path(url);
    if let Some(t) = token {
        if needs_token(p.as_str()) && !token_ok(url, t) {
            return Route::Forbidden;
        }
    }
    let p = p.as_str();
    if post && same_str(p, "/api/audio") {
        Route::Audio
    } else if post && same_str(p, "/api/msg") {
        Route::Msg
    } else if same_str(p, "/api/zoom") {
        Route::Zoom
    } else if post && same_str(p, "/api/clear") {
        Route::Clear
    } else if post && same_str(p, "/api/undo") {
        Route::Undo
    } else if post && same_str(p, "/api/img") {
        Route::Img
    } else {
        Route::Static
    }
}

/// The status of an answer that does not depend on what was sent. `there` is
/// whether the file that is asked for was read, or the stream was accepted.
pub open spec fn status_of(route: Route, there: bool) -> Option<u16> {
    match route {
        Route::Forbidden => Some(403),
        Route::Audio => Some(200),
        Route::Zoom => Some(
            if there {
                101
            } else {
                400
            },
        ),
        Route::Static => Some(
            if there {
                200
            } else {
                404
            },
        ),
        Route::Msg | Route::Clear | Route::Undo | Route::Img => None,
    }
}

/// The status of an answer that does not depend on what was sent.
pub fn status(route: Route, there: bool) -> (r: Option<u16>)
    ensures
        r == status_of(route, there),
{
    match route {
        Route::Forbidden => Some(403),
        Route::Audio => Some(200),
        Route::Zoom => if there {
            Some(101)
        } else {
            Some(400)
        },
        Route::Static => if there {
            Some(200)
        } else {
            Some(404)
        },
        Route::Msg | Route::Clear | Route::Undo | Route::Img => None,
    }
}

/// Where there is a token, nothing below `/api/` is done for those who do not
/// know it: they are refused.
pub proof fn api_needs_the_token(post: bool, url: Seq<char>, token: Seq<char>, there: bool)
    requires
        text::starts_of(path_of(url), "/api/"@),
        query_param_of(url, "t"@) != Some(token),
    ensures
        route_of(post, url, Some(token)) == Route::Forbidden,
        status_of(route_of(post, url, Some(token)), there) == Some(403u16),
{
}

/// An address has its path before the first question mark and its parameters
/// behind it. The first pair with a name gives the parameter of that name, and
/// pairs with other names are passed over.
pub proof fn parameters_are_found(
    p: Seq<char>,
    k: Seq<char>,
    v: Seq<char>,
    rest: Seq<char>,
    other: Seq<char>,
)
    requires
        !p.contains('?'),
        !k.contains('=') && !k.contains('&'),
        !v.contains('&'),
    ensures
        path_of(p) == p,
        path_of(p + seq!['?'] + rest) == p,
        query_param_of(p, k) is None,
        query_param_of(p + seq!['?'] + (k + seq!['='] + v), k) == Some(v),
        query_param_of(p + seq!['?'] + (k + seq!['='] + v + seq!['&'] + rest), k) == Some(v),
        other != k ==> query_param_of(
            p + seq!['?'] + (k + seq!['='] + v + seq!['&'] + rest),
            other,
        ) == query_param_of(p + seq!['?'] + rest, other),
{
    reveal_strlit("?");
    reveal_strlit("=");
    assert("?"@ =~= seq!['?']);
    assert("="@ =~= seq!['=']);
    let pair = k + seq!['='] + v;
    let more = pair + seq!['&'] + rest;
    text::split_cuts_at_the_first(p, '?', rest);
    text::split_once_cuts_at_one_place(p, '?', rest);
    text::split_once_cuts_at_one_place(p, '?', pair);
    text::split_once_cuts_at_one_place(p, '?', more);
    text::split_once_cuts_at_one_place(k, '=', v);
    assert(!pair.contains('&')) by {
        assert forall|i: int| 0 <= i < pair.len() implies pair[i] != '&' by {
            if i < k.len() {
                assert(k.contains(k[i]));
            } else if i > k.len() {
                assert(v.contains(v[i - k.len() - 1]));
            }
        }
    }
    text::split_cuts_at_the_first(pair, '&', rest);
    assert((seq![pair] + text::split_of(rest, '&')).skip(1) =~= text::split_of(rest, '&'));
}

/// With the right token each address below `/api/` has its own route, whatever
/// parameters stand behind it, and nothing else has that route. `q` is what
/// stands behind the question mark, where there is one.
pub proof fn each_address_has_its_route(
    post: bool,
    p: Seq<char>,
    q: Option<Seq<char>>,
    token: Option<Seq<char>>,
)
    requires
        !p.contains('?'),
        token is None || query_param_of(
            match q {
                Some(q) => p + seq!['?'] + q,
                None => p,
            },
            "t"@,
        ) == token,
    ensures
        ({
            let r = route_of(
                post,
                match q {
                    Some(q) => p + seq!['?'] + q,
                    None => p,
                },
                token,
            );
            &&& r == Route::Audio <==> post && p == "/api/audio"@
            &&& r == Route::Msg <==> post && p == "/api/msg"@
            &&& r == Route::Zoom <==> p == "/api/zoom"@
            &&& r == Route::Clear <==> post && p == "/api/clear"@
            &&& r == Route::Undo <==> post && p == "/api/undo"@
            &&& r == Route::Img <==> post && p == "/api/img"@
            &&& r != Route::Forbidden
        }),
{
    if let Some(q) = q {
        text::split_cuts_at_the_first(p, '?', q);
    } else {
        text::split_cuts_at_the_first(p, '?', Seq::empty());
    }
    reveal_strlit("/api/audio");
    reveal_strlit("/api/msg");
    reveal_strlit("/api/zoom");
    reveal_strlit("/api/clear");
    reveal_strlit("/api/undo");
    reveal_strlit("/api/img");
    assert("/api/audio"@[5] == 'a' && "/api/msg"@[5] == 'm' && "/api/zoom"@[5] == 'z');
    assert("/api/clear"@[5] == 'c' && "/api/undo"@[5] == 'u' && "/api/img"@[5] == 'i');
}

/// Without the right token the page itself and all below `/api/` are refused;
/// the other files are served to everybody.
pub proof fn token_guards_the_page(
    post: bool,
    p: Seq<char>,
    q: Seq<char>,
    token: Seq<char>,
    below: Seq<char>,
)
    requires
        !p.contains('?'),
        query_param_of(p + seq!['?'] + q, "t"@) != Some(token),
    ensures
        ({
            let r = route_of(post, p + seq!['?'] + q, Some(token));
            &&& p == "/"@ || p == "/index.html"@ || p == "/api/"@ + below ==> r == Route::Forbidden
            &&& p != "/"@ && p != "/index.html"@ && !text::starts_of(p, "/api/"@) ==> r
                == Route::Static
        }),
{
    text::split_cuts_at_the_first(p, '?', q);
    reveal_strlit("/api/");
    reveal_strlit("/api/audio");
    reveal_strlit("/api/msg");
    reveal_strlit("/api/zoom");
    reveal_strlit("/api/clear");
    reveal_strlit("/api/undo");
    reveal_strlit("/api/img");
    let api = "/api/"@;
    assert((api + below).subrange(0, 5) =~= api);
    assert("/api/audio"@.subrange(0, 5) =~= api);
    assert("/api/msg"@.subrange(0, 5) =~= api);
    assert("/api/zoom"@.subrange(0, 5) =~= api);
    assert("/api/clear"@.subrange(0, 5) =~= api);
    assert("/api/undo"@.subrange(0, 5) =~= api);
    assert("/api/img"@.subrange(0, 5) =~= api);
}

/// The rate is the one that the address names where it is from 8000 to 192000,
/// and 48000 where it is not.
pub proof fn rate_is_the_named_one(url: Seq<char>, n: nat)
    ensures
        8000 <= rate_of(url) <= 192_000,
        query_param_of(url, "rate"@) == Some(text::decimal_of(n)) ==> rate_of(url) == if 8000 <= n
            <= 192_000 {
            n
        } else {
            48_000
        },
        query_param_of(url, "rate"@) is None ==> rate_of(url) == 48_000,
{
    text::decimal_reads_back(n as int);
    text::lemma_decimal(n);
}

/// A file has the type that the end of its name tells, whatever stands before
/// the last dot.
pub proof fn end_of_a_name_tells_its_type(name: Seq<char>, end: Seq<char>)
    requires
        !end.contains('.'),
    ensures
        content_type_of(name + "."@ + "html"@) == "text/html; charset=utf-8"@,
        content_type_of(name + "."@ + "js"@) == "application/javascript"@,
        content_type_of(name + "."@ + "css"@) == "text/css"@,
        content_type_of(name + "."@ + "svg"@) == "image/svg+xml"@,
        content_type_of(name + "."@ + "json"@) == "application/json"@,
        content_type_of(name + "."@ + "ico"@) == "image/x-icon"@,
        content_type_of(name + "."@ + "woff2"@) == "font/woff2"@,
        end != "html"@ && end != "js"@ && end != "css"@ && end != "svg"@ && end != "json"@ && end
            != "ico"@ && end != "woff2"@ ==> content_type_of(name + "."@ + end)
            == "application/octet-stream"@,
{
    reveal_strlit(".");
    reveal_strlit("html");
    reveal_strlit("js");
    reveal_strlit("css");
    reveal_strlit("svg");
    reveal_strlit("json");
    reveal_strlit("ico");
    reveal_strlit("woff2");
    assert("."@ =~= seq!['.']);
    assert("html"@[0] == 'h' && "js"@.len() == 2 && "css"@[0] == 'c' && "svg"@[0] == 's');
    assert("json"@[0] == 'j' && "json"@.len() == 4 && "ico"@[0] == 'i' && "woff2"@[0] == 'w');
    text::split_once_cuts_at_one_place(name, '.', "html"@);
    text::split_once_cuts_at_one_place(name, '.', "js"@);
    text::split_once_cuts_at_one_place(name, '.', "css"@);
    text::split_once_cuts_at_one_place(name, '.', "svg"@);
    text::split_once_cuts_at_one_place(name, '.', "json"@);
    text::split_once_cuts_at_one_place(name, '.', "ico"@);
    text::split_once_cuts_at_one_place(name, '.', "woff2"@);
    text::split_once_cuts_at_one_place(name, '.', end);
}

/// The file below the root that a path names is served, the page for the root
/// itself.
pub proof fn named_file_is_served(name: Seq<char>)
    requires
        name.len() > 0 && name[0] != '/',
    ensures
        !leads_up(name) ==> static_of(seq!['/'] + name) == Some(name) && static_of(name) == Some(
            name,
        ),
        leads_up(name) ==> static_of(seq!['/'] + name) is None,
        static_of(seq!['/']) == static_of(seq!['/'] + "index.html"@),
{
    reveal_strlit("index.html");
    let page = "index.html"@;
    let f = seq!['/'] + name;
    assert(f.skip(1) =~= name);
    assert((seq!['/'] + page).skip(1) =~= page);
    assert(page[0] == 'i');
    assert(seq!['/'].skip(1) =~= Seq::<char>::empty());
    assert(text::trim_start_char_of(name, '/') == name);
    assert(text::trim_start_char_of(f, '/') == text::trim_start_char_of(f.skip(1), '/'));
    assert(text::trim_start_char_of(page, '/') == page);
    assert(text::trim_start_char_of(seq!['/'] + page, '/') == text::trim_start_char_of(page, '/'));
    assert(text::trim_start_char_of(seq!['/'], '/') == text::trim_start_char_of(
        seq!['/'].skip(1),
        '/',
    ));
}

/// The address that the user is told leads to the page on port 8787 of the host,
/// and carries the token.
pub proof fn told_address_carries_the_token(host: Seq<char>, token: Seq<char>)
    requires
        !host.contains('?'),
        !token.contains('&'),
    ensures
        query_param_of(hint_of(host, Some(token)), "t"@) == Some(token),
        path_of(hint_of(host, Some(token))) == hint_of(host, None),
        hint_of(host, None) == "https://"@ + host + ":8787/"@,
{
    reveal_strlit("https://");
    reveal_strlit(":");
    reveal_strlit("/");
    reveal_strlit(":8787/");
    reveal_strlit("/?t=");
    reveal_strlit("t");
    reveal_with_fuel(text::decimal_of, 5);
    let d = text::decimal_of(8787);
    assert(d =~= seq!['8', '7', '8', '7']);
    let p = "https://"@ + host + ":8787/"@;
    assert(hint_of(host, None) =~= p);
    assert("t"@ =~= seq!['t']);
    assert(hint_of(host, Some(token)) =~= p + seq!['?'] + ("t"@ + seq!['='] + token));
    assert(!p.contains('?')) by {
        assert forall|i: int| 0 <= i < p.len() implies p[i] != '?' by {
            if 8 <= i < 8 + host.len() {
                assert(host.contains(host[i - 8]));
            }
        }
    }
    parameters_are_found(p, "t"@, token, "t"@ + seq!['='] + token, "t"@);
}

/// Every host has its own line, in the order of the hosts.
pub proof fn every_host_has_its_line(hosts: Seq<Seq<char>>, host: Seq<char>, token: Option<Seq<char>>)
    ensures
        hints_of(seq![host], token) == hint_of(host, token),
        hosts.len() > 0 ==> hints_of(hosts.push(host), token) == hints_of(hosts, token) + "\n"@
            + hint_of(host, token),
{
    let f = |h: Seq<char>| hint_of(h, token);
    let none = Seq::<Seq<char>>::empty();
    assert(seq![host].map_values(f) =~= seq![hint_of(host, token)]);
    let all = hosts.push(host).map_values(f);
    assert(all.drop_last() =~= hosts.map_values(f));
    assert(all.last() == hint_of(host, token));
    reveal_with_fuel(text::join_of, 2);
    assert(hints_of(seq![host], token) =~= hint_of(host, token));
}

/// The host that was set is the only one that is told. Where none is set, the
/// one in the private network and the public one are both told, the local one
/// only for want of a public one; there is always something to tell.
pub proof fn known_hosts_are_told(
    chosen: Seq<char>,
    vpn: Option<Seq<char>>,
    public: Option<Seq<char>>,
    lan: Option<Seq<char>>,
)
    ensures
        chosen.len() > 0 ==> hosts_of(Some(chosen), vpn, public, lan) == seq![chosen],
        hosts_of(Some(Seq::empty()), vpn, public, lan) == hosts_of(None, vpn, public, lan),
        hosts_of(None, vpn, public, lan).len() > 0,
        hosts_of(None, None, None, None) == seq!["<ip-компа>"@],
        vpn matches Some(h) ==> hosts_of(None, vpn, public, lan)[0] == h,
        public matches Some(h) ==> hosts_of(None, vpn, public, lan).last() == h && hosts_of(
            None,
            vpn,
            public,
            lan,
        ) == hosts_of(None, vpn, public, None),
        public is None ==> hosts_of(None, vpn, None, lan) == hosts_of(None, vpn, lan, None),
        vpn is Some && (public is Some || lan is Some) ==> hosts_of(None, vpn, public, lan).len()
            == 2,
        vpn is Some && public is None && lan is None ==> hosts_of(None, vpn, public, lan).len()
            == 1,
        vpn is None ==> hosts_of(None, vpn, public, lan).len() == 1,
{
}

/// The body of an answer with a status.
pub fn reply_body(code: u16) -> (r: &'static str)
    ensures
        r@ == if code == 200 {
            "{\"ok\":true}"@
        } else {
            "{\"ok\":false}"@
        },
{
    if code == 200 {
        "{\"ok\":true}"
    } else {
        "{\"ok\":false}"
    }
}

/// The text of a message, or the status of the answer where it is refused: 413
/// where it is too long, 400 where it is no text or has only white space.
pub open spec fn msg_of(body: Seq<u8>) -> Result<Seq<char>, u16> {
    if body.len() > MSG_MAX {
        Err(413)
    } else if !vstd::utf8::valid_utf8(body) {
        Err(400)
    } else if text::trim_of(vstd::utf8::decode_utf8(body)).len() == 0 {
        Err(400)
    } else {
        Ok(text::trim_of(vstd::utf8::decode_utf8(body)))
    }
}

/// A message is taken as it was typed, white space round it aside; one that is
/// empty, no text or too long is refused, each with its own status.
pub proof fn message_is_taken_as_typed(body: Seq<u8>, typed: Seq<char>)
    ensures
        typed.len() > 0 && text::trim_of(typed) == typed && vstd::utf8::encode_utf8(typed).len()
            <= 65_536 ==> msg_of(vstd::utf8::encode_utf8(typed)) == Ok::<Seq<char>, u16>(typed),
        msg_of(body) matches Ok(t) ==> t.len() > 0 && !text::is_space_of(t[0])
            && !text::is_space_of(t.last()) && body.len() <= 65_536,
        body.len() > 65_536 <==> msg_of(body) == Err::<Seq<char>, u16>(413),
        msg_of(body) matches Err(code) ==> code == 413 || code == 400,
        !vstd::utf8::valid_utf8(body) ==> msg_of(body) is Err,
{
    vstd::utf8::encode_utf8_valid_utf8(typed);
    vstd::utf8::encode_utf8_decode_utf8(typed);
    text::lemma_trim(vstd::utf8::decode_utf8(body));
}

/// The text of a message, or the status of the answer where it is refused.
pub fn msg_from(body: &[u8]) -> (r: Result<String, u16>)
    ensures
        match r {
            Ok(t) => msg_of(body@) == Ok::<Seq<char>, u16>(t@),
            Err(code) => msg_of(body@) == Err::<Seq<char>, u16>(code),
        },
{
    if body.len() > MSG_MAX {
        return Err(413);
    }
    match utf8_text(body) {
        Some(t) => {
            let t = trimmed(t.as_str());
            if chars_of(t.as_str()).len() == 0 {
                Err(400)
            } else {
                Ok(t)
            }
        },
        None => Err(400),
    }
}

/// The samples in bytes, by the bits of each.
pub fn pcm_from_le(b: &[u8]) -> (r: Vec<u32>)
    ensures
        r@ == audio::words_of(b@),
{
    audio::words(b)
}

pub open spec fn starts_stt_of(samples: nat, running: bool) -> bool {
    samples > 0 && !running
}

/// `silent_for` is how long no sound has come, none where none ever came.
pub open spec fn stops_stt_of(running: bool, silent_for: Option<int>) -> bool {
    running && match silent_for {
        Some(d) => d > IDLE_STT_STOP_SECS * SECOND,
        None => false,
    }
}

/// The recogniser is started by sound alone and stopped by half a minute
/// without it; what runs is not started, what does not run is not stopped.
pub proof fn recogniser_follows_the_sound(samples: nat, running: bool, silent_for: int)
    ensures
        !(starts_stt_of(samples, running) && stops_stt_of(running, Some(silent_for))),
        starts_stt_of(0, running) == false,
        samples > 0 ==> starts_stt_of(samples, running) == !running,
        silent_for <= 30 * 1_000_000_000 ==> !stops_stt_of(running, Some(silent_for)),
        silent_for > 30 * 1_000_000_000 ==> stops_stt_of(true, Some(silent_for)),
        !stops_stt_of(false, Some(silent_for)) && !stops_stt_of(running, None),
{
}

/// Whether the recogniser is started: sound has come, and it does not run.
pub fn starts_stt(samples: usize, running: bool) -> (r: bool)
    ensures
        r == starts_stt_of(samples as nat, running),
{
    samples > 0 && !running
}

/// Whether a running recogniser is stopped: no sound has come for long.
pub fn stops_stt(running: bool, silent_for: Option<Duration>) -> (r: bool)
    ensures
        r == stops_stt_of(
            running,
            match silent_for {
                Some(d) => Some(d@),
                None => None,
            },
        ),
{
    match silent_for {
        Some(d) => running && d.exceeds(IDLE_STT_STOP_SECS),
        None => false,
    }
}

/// The lines with each of the phrases behind them, in turn.
pub open spec fn with_lines(old: Seq<String>, phrases: Seq<String>) -> Seq<String>
    decreases phrases.len(),
{
    if phrases.len() == 0 {
        old
    } else {
        latest_with(with_lines(old, phrases.drop_last()), phrases.last(), LINES_CAP as nat)
    }
}

/// The answer to sound: what was recognised.
pub open spec fn audio_reply_of(finals: Seq<Seq<char>>, partial: Seq<char>, stt: bool) -> Tree {
    Tree::Object(
        json::object_of(
            seq![
                ("finals"@, Tree::List(finals.map_values(|f: Seq<char>| Tree::Text(f)))),
                ("partial"@, Tree::Text(partial)),
                ("stt"@, Tree::Bool(stt)),
            ],
        ),
    )
}

proof fn lemma_plain_entry(es: Seq<(Seq<char>, Tree)>, key: Seq<char>, value: Tree)
    requires
        json::proper(Tree::Object(es)),
        json::proper(value),
        json::whole(value),
        json::nested(value, 99),
        forall|i: int| 0 <= i < es.len() ==> json::whole((#[trigger] es[i]).1),
        forall|i: int| 0 <= i < es.len() ==> json::nested((#[trigger] es[i]).1, 99),
    ensures
        json::proper(Tree::Object(json::put_of(es, key, value))),
        forall|i: int|
            0 <= i < json::put_of(es, key, value).len() ==> json::whole(
                (#[trigger] json::put_of(es, key, value)[i]).1,
            ),
        forall|i: int|
            0 <= i < json::put_of(es, key, value).len() ==> json::nested(
                (#[trigger] json::put_of(es, key, value)[i]).1,
                99,
            ),
{
    json::put_is_proper(es, key, value);
    json::lemma_put_members(es, key, value);
    let r = json::put_of(es, key, value);
    assert forall|i: int| 0 <= i < r.len() implies json::whole((#[trigger] r[i]).1) && json::nested(
        r[i].1,
        99,
    ) by {
        if r[i] != (key, value) {
            let j = choose|j: int| 0 <= j < es.len() && es[j] == r[i];
            assert(json::whole(es[j].1) && json::nested(es[j].1, 99));
        }
    }
}

proof fn lemma_reply(finals: Seq<Seq<char>>, partial: Seq<char>, stt: bool)
    ensures
        json::proper(audio_reply_of(finals, partial, stt)),
        json::whole(audio_reply_of(finals, partial, stt)),
        json::nested(audio_reply_of(finals, partial, stt), 100),
{
    let list = finals.map_values(|f: Seq<char>| Tree::Text(f));
    let v = Tree::List(list);
    assert forall|i: int| 0 <= i < list.len() implies json::proper(#[trigger] list[i])
        && json::whole(list[i]) && json::nested(list[i], 98) by {
        assert(list[i] == Tree::Text(finals[i]));
    }
    assert(json::proper(v));
    assert(json::whole(v));
    assert(json::nested(v, 99));
    let none = Seq::<(Seq<char>, Tree)>::empty();
    let p1 = seq![("finals"@, v)];
    let p2 = p1.push(("partial"@, Tree::Text(partial)));
    let p3 = p2.push(("stt"@, Tree::Bool(stt)));
    assert(p3 =~= seq![
        ("finals"@, v),
        ("partial"@, Tree::Text(partial)),
        ("stt"@, Tree::Bool(stt)),
    ]);
    assert(p1.drop_last() =~= none && p2.drop_last() =~= p1 && p3.drop_last() =~= p2);
    assert(json::object_of(none) =~= none);
    assert(json::proper(Tree::Object(none)));
    lemma_plain_entry(none, "finals"@, v);
    lemma_plain_entry(json::object_of(p1), "partial"@, Tree::Text(partial));
    lemma_plain_entry(json::object_of(p2), "stt"@, Tree::Bool(stt));
    assert(json::object_of(p1) == json::put_of(none, "finals"@, v));
    assert(json::object_of(p2) == json::put_of(
        json::object_of(p1),
        "partial"@,
        Tree::Text(partial),
    ));
    assert(json::object_of(p3) == json::put_of(json::object_of(p2), "stt"@, Tree::Bool(stt)));
}

/// Whether an edit is of what was said.
pub open spec fn names_said(what: Option<Seq<char>>) -> bool {
    what == Some("said"@)
}

/// Whether an edit is of what was sent.
pub open spec fn names_sent(what: Option<Seq<char>>) -> bool {
    what == Some("sent"@)
}

/// The status of the answer to an edit: 400 where it is not said of what.
pub open spec fn edit_status_of(what: Option<Seq<char>>) -> u16 {
    if names_said(what) || names_sent(what) {
        200
    } else {
        400
    }
}

/// Items and a stash after an edit, `named` where it is of them.
pub open spec fn edited<T>(
    named: bool,
    undo: bool,
    items: Seq<T>,
    put_away: Option<Seq<T>>,
    cap: nat,
) -> (Seq<T>, Option<Seq<T>>) {
    if !named {
        (items, put_away)
    } else if undo {
        restored(items, put_away, cap)
    } else {
        cleared(items, put_away)
    }
}

/// An edit is of what was said or of what was sent, never of both, and one of
/// neither is refused.
pub proof fn edit_is_of_one_side(what: Seq<char>)
    ensures
        names_said(Some("said"@)) && !names_sent(Some("said"@)),
        names_sent(Some("sent"@)) && !names_said(Some("sent"@)),
        what != "said"@ && what != "sent"@ ==> !names_said(Some(what)) && !names_sent(Some(what)),
        !names_said(None) && !names_sent(None) && edit_status_of(None) == 400u16,
        edit_status_of(Some(what)) == 200u16 <==> what == "said"@ || what == "sent"@,
        edit_status_of(Some(what)) != 200u16 ==> edit_status_of(Some(what)) == 400u16,
{
    reveal_strlit("said");
    reveal_strlit("sent");
    assert("said"@[1] != "sent"@[1]);
}

/// An edit leaves alone what it does not name. What it does name is put away
/// whole, and an undo brings it back whole, before what has come since.
pub proof fn edit_then_undo<T>(
    undo: bool,
    items: Seq<T>,
    put_away: Option<Seq<T>>,
    fresh: Seq<T>,
    cap: nat,
)
    requires
        items.len() + fresh.len() <= cap,
    ensures
        edited(false, undo, items, put_away, cap) == (items, put_away),
        edited(true, false, items, put_away, cap).0.len() == 0,
        items.len() > 0 ==> edited(
            true,
            true,
            fresh,
            edited(true, false, items, put_away, cap).1,
            cap,
        ) == (items + fresh, None::<Seq<T>>),
        edited(true, true, items, None, cap) == (items, None::<Seq<T>>),
{
}

/// The lines are the last of all that was said, in order: nothing is lost but
/// the oldest, and no more are kept than two hundred.
pub proof fn lines_are_the_latest(old: Seq<String>, phrases: Seq<String>)
    requires
        old.len() <= 200,
    ensures
        with_lines(old, phrases).len() == if old.len() + phrases.len() <= 200 {
            old.len() + phrases.len()
        } else {
            200
        },
        with_lines(old, phrases) == (old + phrases).skip(
            old.len() + phrases.len() - with_lines(old, phrases).len(),
        ),
    decreases phrases.len(),
{
    if phrases.len() > 0 {
        let init = phrases.drop_last();
        lines_are_the_latest(old, init);
        let k = old.len() + init.len() - with_lines(old, init).len();
        let all = old + phrases;
        assert(all =~= (old + init).push(phrases.last()));
        let n = old.len() + phrases.len() - with_lines(old, phrases).len();
        if with_lines(old, init).len() >= 200 {
            assert(with_lines(old, phrases) =~= all.skip(k + 1));
        } else {
            assert(with_lines(old, phrases) =~= all.skip(k));
        }
    } else {
        assert((old + phrases).skip(0) =~= old);
    }
}

/// The answer to sound holds each phrase, the unfinished one and whether the
/// recogniser runs, each under its own name.
pub proof fn answer_to_sound_is_whole(finals: Seq<Seq<char>>, partial: Seq<char>, stt: bool, i: int)
    requires
        0 <= i < finals.len(),
    ensures
        ({
            let r = audio_reply_of(finals, partial, stt);
            &&& json::field_of(r, "finals"@) matches Some(Tree::List(fs))
            &&& fs.len() == finals.len()
            &&& fs[i] == Tree::Text(finals[i])
            &&& json::field_of(r, "partial"@) == Some(Tree::Text(partial))
            &&& json::field_of(r, "stt"@) == Some(Tree::Bool(stt))
        }),
{
    reveal_strlit("finals");
    reveal_strlit("partial");
    reveal_strlit("stt");
    assert("finals"@.len() == 6 && "partial"@.len() == 7 && "stt"@.len() == 3);
    let list = Tree::List(finals.map_values(|f: Seq<char>| Tree::Text(f)));
    let none = Seq::<(Seq<char>, Tree)>::empty();
    let a = none.push(("finals"@, list));
    let b = a.push(("partial"@, Tree::Text(partial)));
    let c = b.push(("stt"@, Tree::Bool(stt)));
    assert(c =~= seq![
        ("finals"@, list),
        ("partial"@, Tree::Text(partial)),
        ("stt"@, Tree::Bool(stt)),
    ]);
    json::last_pair_counts(none, "finals"@, list, "finals"@);
    json::last_pair_counts(a, "partial"@, Tree::Text(partial), "finals"@);
    json::last_pair_counts(a, "partial"@, Tree::Text(partial), "partial"@);
    json::last_pair_counts(b, "stt"@, Tree::Bool(stt), "finals"@);
    json::last_pair_counts(b, "stt"@, Tree::Bool(stt), "partial"@);
    json::last_pair_counts(b, "stt"@, Tree::Bool(stt), "stt"@);
}

impl Shared {
    /// Takes in what came of sound, and answers with it.
    pub fn on_audio(
        &mut self,
        finals: &Vec<String>,
        partial: &str,
        stt_alive: bool,
        last_audio: Option<Duration>,
    ) -> (r: String)
        ensures
            final(self).lines@ == with_lines(old(self).lines@, finals@),
            final(self).partial@ == partial@,
            final(self).stt_on == stt_alive,
            final(self).last_audio == last_audio,
            final(self).posts == old(self).posts,
            final(self).next_post_id == old(self).next_post_id,
            final(self).cleared_lines == old(self).cleared_lines,
            final(self).cleared_posts == old(self).cleared_posts,
            r@ == json::written_of(audio_reply_of(text::texts(finals@), partial@, stt_alive)),
            json::document_of(r@) == Some(audio_reply_of(text::texts(finals@), partial@, stt_alive)),
    {
        self.stt_on = stt_alive;
        self.last_audio = last_audio;
        self.partial = partial.to_owned();
        let ghost list = text::texts(finals@).map_values(|f: Seq<char>| Tree::Text(f));
        let mut said: Vec<Json> = Vec::new();
        let mut i: usize = 0;
        assert(finals@.take(0) =~= Seq::empty());
        while i < finals.len()
            invariant
                i <= finals@.len(),
                self.partial@ == partial@,
                self.stt_on == stt_alive,
                self.last_audio == last_audio,
                self.posts == old(self).posts,
                self.next_post_id == old(self).next_post_id,
                self.cleared_lines == old(self).cleared_lines,
                self.cleared_posts == old(self).cleared_posts,
                self.lines@ == with_lines(old(self).lines@, finals@.take(i as int)),
                said@.len() == i,
                forall|k: int| 0 <= k < i ==> (#[trigger] said@[k])@ == Tree::Text(finals@[k]@),
            decreases finals.len() - i,
        {
            assert(finals@.take(i + 1).drop_last() =~= finals@.take(i as int));
            keep(&mut self.lines, finals[i].clone(), LINES_CAP);
            said.push(Json::Text(finals[i].clone()));
            i = i + 1;
        }
        assert(finals@.take(finals@.len() as int) =~= finals@);
        let list_json = Json::List(said);
        assert(list_json@ == Tree::List(list)) by {
            assert(list_json@->List_0 =~= list);
        }
        let mut pairs: Vec<(String, Json)> = Vec::new();
        pairs.push(("finals".to_owned(), list_json));
        pairs.push(("partial".to_owned(), telemetry::text(partial)));
        pairs.push(("stt".to_owned(), Json::Bool(stt_alive)));
        assert(json::entries(pairs@) =~= seq![
            ("finals"@, Tree::List(list)),
            ("partial"@, Tree::Text(partial@)),
            ("stt"@, Tree::Bool(stt_alive)),
        ]);
        proof {
            lemma_reply(text::texts(finals@), partial@, stt_alive);
        }
        json::write(&json::object(pairs))
    }

    /// The recogniser was stopped for want of sound.
    pub fn stt_stopped(&mut self)
        ensures
            !final(self).stt_on,
            final(self).partial@ == Seq::<char>::empty(),
            *final(self) == (Shared {
                stt_on: false,
                partial: final(self).partial,
                ..*old(self)
            }),
    {
        self.stt_on = false;
        self.partial = String::new();
        assert(self.partial@ =~= Seq::empty());
    }

    /// Takes in a message; what comes back is the status of the answer.
    pub fn on_msg(&mut self, body: &[u8]) -> (r: u16)
        requires
            old(self).next_post_id < u64::MAX,
        ensures
            match msg_of(body@) {
                Ok(t) => {
                    &&& r == 200
                    &&& final(self).next_post_id == old(self).next_post_id + 1
                    &&& final(self).posts@.len() > 0
                    &&& final(self).posts@ == latest_with(
                        old(self).posts@,
                        final(self).posts@.last(),
                        POSTS_CAP as nat,
                    )
                    &&& final(self).posts@.last() matches Post::Text(id, s) && id
                        == old(self).next_post_id + 1 && s@ == t
                },
                Err(code) => r == code && *final(self) == *old(self),
            },
            *final(self) == (Shared {
                posts: final(self).posts,
                next_post_id: final(self).next_post_id,
                ..*old(self)
            }),
    {
        match msg_from(body) {
            Ok(t) => {
                self.next_post_id = self.next_post_id + 1;
                keep(&mut self.posts, Post::Text(self.next_post_id, t), POSTS_CAP);
                200
            },
            Err(code) => code,
        }
    }

    /// Takes in a picture; what comes back is the status of the answer.
    pub fn on_img(&mut self, body: &[u8], content_type: &str) -> (r: u16)
        requires
            old(self).next_post_id < u64::MAX,
        ensures
            pictures::too_large(body@.len()) ==> r == 413 && *final(self) == *old(self),
            !pictures::too_large(body@.len()) ==> {
                let img = match pictures::img_format_of(content_type@) {
                    Some(format) => pictures::decoded_of(body@, format),
                    None => None,
                };
                match img {
                    Some(i) => {
                        &&& r == 200
                        &&& final(self).next_post_id == old(self).next_post_id + 1
                        &&& final(self).posts@.len() > 0
                        &&& final(self).posts@ == latest_with(
                            old(self).posts@,
                            final(self).posts@.last(),
                            POSTS_CAP as nat,
                        )
                        &&& final(self).posts@.last() matches Post::Image(id, p) && id
                            == old(self).next_post_id + 1 && pictures::shows(p@, i)
                    },
                    None => r == 415 && *final(self) == *old(self),
                }
            },
            *final(self) == (Shared {
                posts: final(self).posts,
                next_post_id: final(self).next_post_id,
                ..*old(self)
            }),
    {
        match decode_image(body, content_type) {
            Ok(px) => {
                self.next_post_id = self.next_post_id + 1;
                keep(&mut self.posts, Post::Image(self.next_post_id, px), POSTS_CAP);
                200
            },
            Err(code) => code,
        }
    }

    /// Puts away what was said or sent, or brings it back; what comes back is
    /// the status of the answer, 400 where it is not said which.
    pub fn on_edit(&mut self, undo: bool, what: Option<&str>) -> (r: u16)
        ensures
            r == edit_status_of(text::opt_str(what)),
            (final(self).lines@, stash(final(self).cleared_lines)) == edited(
                names_said(text::opt_str(what)),
                undo,
                old(self).lines@,
                stash(old(self).cleared_lines),
                LINES_CAP as nat,
            ),
            (final(self).posts@, stash(final(self).cleared_posts)) == edited(
                names_sent(text::opt_str(what)),
                undo,
                old(self).posts@,
                stash(old(self).cleared_posts),
                POSTS_CAP as nat,
            ),
            final(self).partial@ == if names_said(text::opt_str(what)) && !undo {
                Seq::<char>::empty()
            } else {
                old(self).partial@
            },
            final(self).next_post_id == old(self).next_post_id,
            final(self).stt_on == old(self).stt_on,
            final(self).last_audio == old(self).last_audio,
    {
        proof {
            reveal_strlit("said");
            reveal_strlit("sent");
            assert("said"@[1] != "sent"@[1]);
        }
        match what {
            Some(w) => if same_str(w, "said") {
                if undo {
                    self.undo_said();
                } else {
                    self.clear_said();
                }
                200
            } else if same_str(w, "sent") {
                if undo {
                    self.undo_sent();
                } else {
                    self.clear_sent();
                }
                200
            } else {
                400
            },
            None => 400,
        }
    }
}

} // verus!
