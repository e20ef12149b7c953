//! What was said, and the calls in which it was said.

use crate::call_store;
use crate::call_store::{Stored, StoredTrack, StoredView, TrackRow};
use crate::paths;
use crate::paths::{in_app, join};
use crate::text;
use crate::text::{
    cat, cat3, chars_of, decimal_i64, is_space, push_to, same_str, string_of, trim_char, trimmed,
};
use vstd::prelude::*;

verus! {

/// The file of everything that was said, in the program's directory.
pub const DB_FILE: &'static str = "transcripts.db";

/// The directory of the calls' sound tracks, in the program's directory.
pub const CALLS_DIR: &'static str = "calls";

/// The column by which a line belongs to a call.
pub const CALL_COLUMN: &'static str = "call_id";

/// One line that was said.
#[derive(Debug, PartialEq)]
pub struct Line {
    pub ts: String,
    pub channel: String,
    pub text: String,
}

/// A line that is to be kept.
#[derive(Debug, PartialEq)]
pub struct Row {
    pub session: String,
    pub call_id: Option<i64>,
    pub channel: String,
    pub text: String,
}

/// The keeping of one run of the program: its mark, and the call that is going
/// on.
pub struct TranscriptLog {
    pub session: String,
    pub current_call: Option<i64>,
}

/// The call that goes on once a call has been started; `id` is nothing where
/// that failed.
pub open spec fn started_of(current: Option<i64>, id: Option<i64>) -> Option<i64> {
    match id {
        Some(_) => id,
        None => current,
    }
}

/// The call that goes on once the call `id` has ended.
pub open spec fn ended_of(current: Option<i64>, id: i64) -> Option<i64> {
    if current == Some(id) {
        None
    } else {
        current
    }
}

/// A call goes on from its start until it is ended, and the end of another call
/// does not end it.
pub proof fn call_goes_on(current: Option<i64>, id: i64, other: i64)
    ensures
        started_of(current, Some(id)) == Some(id),
        ended_of(started_of(current, Some(id)), id) is None,
        other != id ==> ended_of(started_of(current, Some(id)), other) == Some(id),
{
}

/// What is kept of a text that was said: the run, the call, the channel and the
/// text.
pub open spec fn row_of(
    session: Seq<char>,
    call: Option<i64>,
    channel: Seq<char>,
    said: Seq<char>,
) -> Option<(Seq<char>, Option<i64>, Seq<char>, Seq<char>)> {
    if text::trim_of(said).len() == 0 {
        None
    } else {
        Some((session, call, channel, text::trim_of(said)))
    }
}

/// Whatever says something is kept, without the white space round it, with the
/// run, the channel and the call that goes on; what says nothing is not.
pub proof fn what_is_said_belongs_to_its_call(
    session: Seq<char>,
    id: i64,
    channel: Seq<char>,
    said: Seq<char>,
)
    requires
        said.len() > 0 && text::trim_of(said) == said,
    ensures
        row_of(session, started_of(None, Some(id)), channel, said) == Some(
            (session, Some(id), channel, said),
        ),
        row_of(session, ended_of(Some(id), id), channel, said) == Some(
            (session, None::<i64>, channel, said),
        ),
        row_of(session, Some(id), channel, Seq::empty()) is None,
{
}

impl TranscriptLog {
    /// A run that is starting: `session` is its mark.
    pub fn open(session: String) -> (r: TranscriptLog)
        ensures
            r.session@ == session@,
            r.current_call is None,
    {
        TranscriptLog { session, current_call: None }
    }

    /// What is kept of a text that was said: nothing where it is only white
    /// space. It belongs to the call that is going on.
    pub fn append(&self, channel: &str, said: &str) -> (r: Option<Row>)
        ensures
            match r {
                Some(row) => row_of(self.session@, self.current_call, channel@, said@) == Some(
                    (row.session@, row.call_id, row.channel@, row.text@),
                ),
                None => row_of(self.session@, self.current_call, channel@, said@) is None,
            },
    {
        let t = trimmed(said);
        if chars_of(t.as_str()).len() == 0 {
            return None;
        }
        Some(
            Row {
                session: self.session.clone(),
                call_id: self.current_call,
                channel: channel.to_owned(),
                text: t,
            },
        )
    }

    /// A call was started: `id` is the number that it got, nothing where that
    /// failed.
    pub fn start_call(&mut self, id: Option<i64>) -> (r: Option<i64>)
        ensures
            r == id,
            final(self).current_call == started_of(old(self).current_call, id),
            final(self).session@ == old(self).session@,
    {
        if id.is_some() {
            self.current_call = id;
        }
        id
    }

    /// A call has ended: it no longer goes on, and its end is set, unless it was.
    pub fn end_call(&mut self, id: i64, stored: &mut Stored, now: &str)
        ensures
            final(self).current_call == ended_of(old(self).current_call, id),
            final(self).session@ == old(self).session@,
            final(stored)@ == call_store::end_of(old(stored)@, id, now@),
    {
        stored.end(id, now);
        if let Some(current) = self.current_call {
            if current == id {
                self.current_call = None;
            }
        }
    }

    /// The sound of a channel of a call is at `path`.
    pub fn add_track(stored: &mut Stored, call_id: i64, channel: &str, path: &str)
        ensures
            final(stored)@ == (StoredView {
                tracks: call_store::put_track(
                    old(stored)@.tracks,
                    TrackRow { call_id, channel: channel@, path: path@ },
                ),
                ..old(stored)@
            }),
    {
        stored.add_track(call_id, channel, path)
    }
}

/// A line as it is shown.
pub open spec fn line_of(l: Line) -> Seq<char> {
    "["@ + l.ts@ + "] "@ + l.channel@ + ": "@ + l.text@ + "\n"@
}

/// Lines as they are shown, one below the other.
pub open spec fn dump_of(lines: Seq<Line>) -> Seq<char>
    decreases lines.len(),
{
    if lines.len() == 0 {
        Seq::empty()
    } else {
        dump_of(lines.drop_last()) + line_of(lines.last())
    }
}

fn add_line(out: &mut String, l: &Line)
    ensures
        final(out)@ == old(out)@ + line_of(*l),
{
    let mut one = cat("[", l.ts.as_str());
    one.append("] ");
    one.append(l.channel.as_str());
    one.append(": ");
    one.append(l.text.as_str());
    one.append("\n");
    out.append(one.as_str());
}

fn add_lines(out: &mut String, lines: &Vec<Line>)
    ensures
        final(out)@ == old(out)@ + dump_of(lines@),
{
    let ghost start = out@;
    let mut i: usize = 0;
    assert(lines@.take(0) =~= Seq::empty());
    assert(out@ =~= start + dump_of(lines@.take(0)));
    while i < lines.len()
        invariant
            i <= lines@.len(),
            out@ == start + dump_of(lines@.take(i as int)),
        decreases lines.len() - i,
    {
        assert(lines@.take(i + 1).drop_last() =~= lines@.take(i as int));
        add_line(out, &lines[i]);
        assert(out@ =~= start + dump_of(lines@.take(i + 1)));
        i = i + 1;
    }
    assert(lines@.take(lines@.len() as int) =~= lines@);
}

/// What was said is shown line by line, in its order: lines that are shown
/// together are shown as they are one behind the other.
pub proof fn lines_are_shown_in_turn(a: Seq<Line>, b: Seq<Line>)
    ensures
        dump_of(a + b) == dump_of(a) + dump_of(b),
    decreases b.len(),
{
    if b.len() > 0 {
        lines_are_shown_in_turn(a, b.drop_last());
        assert((a + b).drop_last() =~= a + b.drop_last());
        assert(dump_of(a + b) =~= dump_of(a) + dump_of(b));
    } else {
        assert(a + b =~= a);
        assert(dump_of(a) + dump_of(b) =~= dump_of(a));
    }
}

impl TranscriptLog {
    /// Everything that was said, from the lines in their order.
    pub fn dump(lines: &Vec<Line>) -> (r: String)
        ensures
            r@ == dump_of(lines@),
    {
        let mut out = String::new();
        add_lines(&mut out, lines);
        assert(out@ =~= dump_of(lines@));
        out
    }

    /// The calls that are stored, with their tracks, in their order.
    pub fn list_calls(stored: &Stored) -> (r: String)
        ensures
            r@ == call_store::listing_of(stored@),
    {
        stored.listing()
    }
}

/// What is told of a call that is not there.
pub fn call_not_found(id: i64) -> (r: String)
    ensures
        r@ == "кол #"@ + text::decimal_int_of(id as int) + " не найден"@,
{
    cat3("кол #", decimal_i64(id).as_str(), " не найден")
}

/// The directory that a call is copied to, in the one that was given.
pub fn export_dir(id: i64, name: &str, dest: &str) -> (r: String)
    ensures
        r@ == paths::join_of(
            dest@,
            text::decimal_int_of(id as int) + "-"@ + sanitize_of(name@),
        ),
{
    join(dest, cat3(decimal_i64(id).as_str(), "-", sanitize(name).as_str()).as_str())
}

/// The text that goes along with a call that is copied: when it was, and what
/// was said in it.
pub fn export_text(id: i64, name: &str, started: &str, ended: &str, lines: &Vec<Line>) -> (r: String)
    ensures
        r@ == "Кол #"@ + text::decimal_int_of(id as int) + ": "@ + name@ + "\n"@ + started@
            + " → "@ + ended@ + "\n\n"@ + dump_of(lines@),
{
    let mut out = cat("Кол #", decimal_i64(id).as_str());
    out.append(": ");
    out.append(name);
    out.append("\n");
    out.append(started);
    out.append(" → ");
    out.append(ended);
    out.append("\n\n");
    add_lines(&mut out, lines);
    out
}

/// The name under which a track is copied: that of its file, where it has one.
pub fn track_name(file: Option<&str>) -> (r: &str)
    ensures
        r@ == match file {
            Some(f) => f@,
            None => "track.wav"@,
        },
{
    match file {
        Some(f) => f,
        None => "track.wav",
    }
}

/// The paths of the tracks that could not be copied, in their order. `copied` is
/// whether each could.
pub open spec fn missing_of(tracks: Seq<TrackRow>, copied: Seq<bool>) -> Seq<Seq<char>>
    decreases tracks.len(),
{
    if tracks.len() == 0 {
        Seq::empty()
    } else if copied[tracks.len() - 1] {
        missing_of(tracks.drop_last(), copied)
    } else {
        missing_of(tracks.drop_last(), copied).push(tracks.last().path)
    }
}

/// A track is told to be missing exactly where it could not be copied.
pub proof fn missing_are_those_not_copied(tracks: Seq<TrackRow>, copied: Seq<bool>, path: Seq<char>)
    requires
        copied.len() >= tracks.len(),
    ensures
        missing_of(tracks, copied).contains(path) <==> exists|i: int|
            0 <= i < tracks.len() && (#[trigger] tracks[i]).path == path && !copied[i],
        missing_of(tracks, copied).len() <= tracks.len(),
    decreases tracks.len(),
{
    if tracks.len() > 0 {
        let init = tracks.drop_last();
        missing_are_those_not_copied(init, copied, path);
        let most = missing_of(init, copied);
        let all = missing_of(tracks, copied);
        assert(tracks[tracks.len() - 1] == tracks.last());
        if all.contains(path) {
            let j = choose|j: int| 0 <= j < all.len() && all[j] == path;
            if j < most.len() {
                assert(most[j] == path);
                let i = choose|i: int|
                    0 <= i < init.len() && (#[trigger] init[i]).path == path && !copied[i];
                assert(tracks[i].path == path);
            }
        }
        if exists|i: int|
            0 <= i < tracks.len() && (#[trigger] tracks[i]).path == path && !copied[i] {
            let i = choose|i: int|
                0 <= i < tracks.len() && (#[trigger] tracks[i]).path == path && !copied[i];
            if i < init.len() {
                assert(init[i].path == path);
                let j = choose|j: int| 0 <= j < most.len() && most[j] == path;
                assert(all[j] == path);
            } else {
                assert(all[most.len() as int] == path);
            }
        }
    }
}

/// The paths of the tracks that could not be copied.
pub fn missing(tracks: &Vec<&StoredTrack>, copied: &Vec<bool>) -> (r: Vec<String>)
    requires
        copied@.len() == tracks@.len(),
    ensures
        text::texts(r@) == missing_of(call_store::track_refs(tracks@), copied@),
{
    let ghost rows = call_store::track_refs(tracks@);
    let mut out: Vec<String> = Vec::new();
    let mut i: usize = 0;
    assert(rows.take(0) =~= Seq::empty());
    assert(text::texts(out@) =~= Seq::empty());
    while i < tracks.len()
        invariant
            i <= tracks@.len(),
            copied@.len() == tracks@.len(),
            rows == call_store::track_refs(tracks@),
            text::texts(out@) == missing_of(rows.take(i as int), copied@),
        decreases tracks.len() - i,
    {
        assert(rows.take(i + 1).drop_last() =~= rows.take(i as int));
        assert(rows.take(i + 1).last() == tracks@[i as int]@);
        if !copied[i] {
            push_to(&mut out, tracks[i].path.as_str());
        }
        i = i + 1;
    }
    assert(rows.take(rows.len() as int) =~= rows);
    out
}

/// What is told of tracks whose files are gone; nothing where none is.
pub fn missing_notice(missing: &Vec<String>) -> (r: Option<String>)
    ensures
        text::opt_text(r) == if missing@.len() == 0 {
            None
        } else {
            Some("⚠ не найдены файлы дорожек: "@ + text::join_of(text::texts(missing@), ", "@))
        },
{
    if missing.len() == 0 {
        None
    } else {
        Some(cat("⚠ не найдены файлы дорожек: ", text::join(missing, ", ").as_str()))
    }
}

/// A character that no directory's name should hold.
pub open spec fn forbidden(c: char) -> bool {
    c == '/' || c == '\\' || c == ':' || c == '*' || c == '?' || c == '"' || c == '<' || c == '>'
        || c == '|'
}

/// A name with underscores for white space, and without the characters that no
/// directory's name should hold.
pub open spec fn cleaned(s: Seq<char>) -> Seq<char>
    decreases s.len(),
{
    if s.len() == 0 {
        s
    } else if text::is_space_of(s.last()) {
        cleaned(s.drop_last()).push('_')
    } else if forbidden(s.last()) {
        cleaned(s.drop_last())
    } else {
        cleaned(s.drop_last()).push(s.last())
    }
}

/// A call's name as a directory's.
pub open spec fn sanitize_of(name: Seq<char>) -> Seq<char> {
    let s = text::trim_char_of(cleaned(name), '_');
    if s.len() == 0 {
        "без_названия"@
    } else {
        s
    }
}

/// A call's name as a directory's.
pub fn sanitize(name: &str) -> (r: String)
    ensures
        r@ == sanitize_of(name@),
{
    let chars = chars_of(name);
    let mut kept: Vec<char> = Vec::new();
    let mut i: usize = 0;
    assert(name@.take(0) =~= Seq::empty());
    while i < chars.len()
        invariant
            i <= chars@.len(),
            chars@ == name@,
            kept@ == cleaned(name@.take(i as int)),
        decreases chars.len() - i,
    {
        assert(name@.take(i + 1).drop_last() =~= name@.take(i as int));
        let c = chars[i];
        if is_space(c) {
            kept.push('_');
        } else if !(c == '/' || c == '\\' || c == ':' || c == '*' || c == '?' || c == '"' || c
            == '<' || c == '>' || c == '|') {
            kept.push(c);
        }
        i = i + 1;
    }
    assert(name@.take(name@.len() as int) =~= name@);
    let s = trim_char(kept.as_slice(), '_');
    if s.len() == 0 {
        "без_названия".to_owned()
    } else {
        string_of(s)
    }
}

/// A text that can be a directory's name: it is not empty, and holds neither
/// white space nor a forbidden character.
pub open spec fn safe(s: Seq<char>) -> bool {
    forall|i: int| 0 <= i < s.len() ==> !text::is_space_of(#[trigger] s[i]) && !forbidden(s[i])
}

proof fn lemma_cleaned_safe(s: Seq<char>)
    ensures
        safe(cleaned(s)),
    decreases s.len(),
{
    if s.len() > 0 {
        lemma_cleaned_safe(s.drop_last());
    }
}

proof fn lemma_trim_start_safe(s: Seq<char>, c: char)
    requires
        safe(s),
    ensures
        safe(text::trim_start_char_of(s, c)),
    decreases s.len(),
{
    if s.len() > 0 && s[0] == c {
        assert(safe(s.skip(1))) by {
            assert forall|i: int| 0 <= i < s.skip(1).len() implies !text::is_space_of(
                #[trigger] s.skip(1)[i],
            ) && !forbidden(s.skip(1)[i]) by {
                assert(s.skip(1)[i] == s[i + 1]);
            }
        }
        lemma_trim_start_safe(s.skip(1), c);
    }
}

proof fn lemma_trim_end_safe(s: Seq<char>, c: char)
    requires
        safe(s),
    ensures
        safe(text::trim_end_char_of(s, c)),
    decreases s.len(),
{
    if s.len() > 0 && s.last() == c {
        lemma_trim_end_safe(s.drop_last(), c);
    }
}

proof fn lemma_safe_stays(s: Seq<char>)
    requires
        safe(s),
    ensures
        cleaned(s) == s,
    decreases s.len(),
{
    if s.len() > 0 {
        assert(safe(s.drop_last()));
        lemma_safe_stays(s.drop_last());
        assert(!text::is_space_of(s[s.len() - 1]) && !forbidden(s[s.len() - 1]));
        assert(s.drop_last().push(s.last()) =~= s);
    }
}

proof fn lemma_trim_start_bare(s: Seq<char>, c: char)
    ensures
        text::trim_start_char_of(s, c).len() > 0 ==> text::trim_start_char_of(s, c)[0] != c,
    decreases s.len(),
{
    if s.len() > 0 && s[0] == c {
        lemma_trim_start_bare(s.skip(1), c);
    }
}

proof fn lemma_trim_end_bare(s: Seq<char>, c: char)
    ensures
        text::trim_end_char_of(s, c).len() > 0 ==> text::trim_end_char_of(s, c).last() != c
            && text::trim_end_char_of(s, c)[0] == s[0],
    decreases s.len(),
{
    if s.len() > 0 && s.last() == c {
        lemma_trim_end_bare(s.drop_last(), c);
    }
}

/// A call's name can always be a directory's: it is not empty, holds neither
/// white space nor a character that no directory's name should hold, and has no
/// underscore at its ends. Making a name safe again changes nothing.
pub proof fn sanitized_is_safe(name: Seq<char>)
    ensures
        sanitize_of(name).len() > 0,
        safe(sanitize_of(name)),
        sanitize_of(name)[0] != '_',
        sanitize_of(name).last() != '_',
        sanitize_of(sanitize_of(name)) == sanitize_of(name),
{
    let start = text::trim_start_char_of(cleaned(name), '_');
    lemma_cleaned_safe(name);
    lemma_trim_start_safe(cleaned(name), '_');
    lemma_trim_start_bare(cleaned(name), '_');
    lemma_trim_end_safe(start, '_');
    lemma_trim_end_bare(start, '_');
    reveal_strlit("без_названия");
    lemma_safe_stays(sanitize_of(name));
}

/// A name that can be a directory's already is kept as it is, and within any
/// name every character that may stand in one is kept, in its order.
pub proof fn safe_name_is_kept(name: Seq<char>, a: Seq<char>, c: char)
    ensures
        safe(name) && name.len() > 0 && name[0] != '_' && name.last() != '_' ==> sanitize_of(name)
            == name,
        cleaned(a.push(c)) == if text::is_space_of(c) {
            cleaned(a).push('_')
        } else if "/\\:*?\"<>|"@.contains(c) {
            cleaned(a)
        } else {
            cleaned(a).push(c)
        },
{
    reveal_strlit("/\\:*?\"<>|");
    let bad = "/\\:*?\"<>|"@;
    assert(a.push(c).drop_last() =~= a);
    assert(bad.len() == 9);
    assert(bad[0] == '/' && bad[1] == '\\' && bad[2] == ':' && bad[3] == '*' && bad[4] == '?');
    assert(bad[5] == '"' && bad[6] == '<' && bad[7] == '>' && bad[8] == '|');
    assert(forbidden(c) <==> bad.contains(c)) by {
        if bad.contains(c) {
            let i = choose|i: int| 0 <= i < bad.len() && bad[i] == c;
            assert(forbidden(bad[i]));
        }
    }
    if safe(name) && name.len() > 0 && name[0] != '_' && name.last() != '_' {
        lemma_cleaned_keeps(name);
    }
}

proof fn lemma_cleaned_keeps(s: Seq<char>)
    requires
        safe(s),
    ensures
        cleaned(s) == s,
    decreases s.len(),
{
    if s.len() > 0 {
        let t = s.drop_last();
        assert forall|i: int| 0 <= i < t.len() implies !text::is_space_of(#[trigger] t[i])
            && !forbidden(t[i]) by {
            assert(t[i] == s[i]);
        }
        lemma_cleaned_keeps(t);
        assert(s.last() == s[s.len() - 1]);
        assert(t.push(s.last()) =~= s);
    }
}

/// The path of the file of everything that was said, below the user's directory
/// for data.
pub fn db_path(data_dir: Option<&str>) -> (r: Option<String>)
    ensures
        text::opt_text(r) == paths::in_app_of(text::opt_str(data_dir), DB_FILE@),
{
    in_app(data_dir, DB_FILE)
}

/// The directory of the calls' sound tracks.
pub fn calls_dir(data_dir: Option<&str>) -> (r: Option<String>)
    ensures
        text::opt_text(r) == paths::in_app_of(text::opt_str(data_dir), CALLS_DIR@),
{
    in_app(data_dir, CALLS_DIR)
}

/// The directory of a call's sound tracks.
pub fn call_dir(data_dir: Option<&str>, call_id: i64) -> (r: Option<String>)
    ensures
        text::opt_text(r) == match paths::in_app_of(text::opt_str(data_dir), CALLS_DIR@) {
            Some(dir) => Some(paths::join_of(dir, text::decimal_int_of(call_id as int))),
            None => None,
        },
{
    match calls_dir(data_dir) {
        Some(dir) => Some(join(dir.as_str(), decimal_i64(call_id).as_str())),
        None => None,
    }
}

/// Whether the file still has to learn to which call a line belongs: it has a
/// table of lines, and the table has no such column. Nothing is done where the
/// columns are not known.
pub fn needs_call_column(columns: Option<&Vec<String>>) -> (r: bool)
    ensures
        r == match columns {
            Some(c) => !text::texts(c@).contains(CALL_COLUMN@),
            None => false,
        },
{
    let c = match columns {
        Some(c) => c,
        None => {
            return false;
        },
    };
    let ghost all = text::texts(c@);
    let mut i: usize = 0;
    while i < c.len()
        invariant
            i <= c@.len(),
            columns == Some(c),
            all == text::texts(c@),
            forall|k: int| 0 <= k < i ==> #[trigger] all[k] != CALL_COLUMN@,
        decreases c.len() - i,
    {
        assert(all[i as int] == c@[i as int]@);
        if same_str(c[i].as_str(), CALL_COLUMN) {
            return false;
        }
        i = i + 1;
    }
    true
}

} // verus!
