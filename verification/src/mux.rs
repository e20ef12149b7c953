//! Putting the parts of a call together.

use crate::hr_reply;
use crate::hr_reply::last_line;
use crate::json;
use crate::json::Tree;
use crate::paths;
use crate::paths::join;
use crate::telemetry;
use crate::telemetry::Event;
use crate::text;
use crate::text::{cat, chars_of, lossy, parse_i64, push_to, same_str};
use vstd::prelude::*;

verus! {

/// The file of a call that was put together.
pub const COMBINED: &'static str = "combined.mp4";

/// The same file while it is being made.
pub const PART: &'static str = "combined.mp4.part";

/// The tracks of a call, and the directory of its frames.
pub const MIC: &'static str = "mic.wav";

pub const ZOOM: &'static str = "zoom.wav";

pub const FRAMES: &'static str = "frames";

/// What is told where the tool is missing: then no other call is tried.
pub const NO_TOOL: &'static str = "нет ffmpeg";

/// How far it is.
#[derive(Debug, PartialEq, Eq)]
pub enum GlueStatus {
    Idle,
    Working { done: usize, total: usize },
    Done(usize),
    Failed(String),
}

/// What stands in the directory of the calls: its path and its name, where that
/// is a text, whether it is a directory, and what is in it.
pub struct Entry {
    pub path: String,
    pub name: Option<String>,
    pub is_dir: bool,
    pub combined: bool,
    pub mic: bool,
    pub zoom: bool,
    pub frame: bool,
}

/// The number of the call whose directory this is, where it still has to be put
/// together: its name is a number other than that of the call that goes on, it
/// was not put together, and it has a track or a frame.
pub open spec fn pending_id(e: Entry, active: Option<i64>) -> Option<int> {
    match e.name {
        Some(n) if e.is_dir => match text::parse_signed_of(n@, i64::MIN as int, i64::MAX as int) {
            Some(id) => if active == Some(id as i64) || e.combined || !(e.mic || e.zoom
                || e.frame) {
                None
            } else {
                Some(id)
            },
            None => None,
        },
        _ => None,
    }
}

/// The numbers and paths of the calls that still have to be put together.
pub open spec fn found(entries: Seq<Entry>, active: Option<i64>) -> Seq<(int, Seq<char>)>
    decreases entries.len(),
{
    if entries.len() == 0 {
        Seq::empty()
    } else {
        match pending_id(entries.last(), active) {
            Some(id) => place(found(entries.drop_last(), active), id, entries.last().path@),
            None => found(entries.drop_last(), active),
        }
    }
}

/// A call in its place: behind those with a smaller number or the same.
pub open spec fn place(v: Seq<(int, Seq<char>)>, id: int, path: Seq<char>) -> Seq<(int, Seq<char>)>
    decreases v.len(),
{
    if v.len() == 0 || v.last().0 <= id {
        v.push((id, path))
    } else {
        place(v.drop_last(), id, path).push(v.last())
    }
}

/// The numbers ascend.
pub open spec fn in_order(v: Seq<(int, Seq<char>)>) -> bool {
    forall|i: int, j: int| 0 <= i < j < v.len() ==> (#[trigger] v[i]).0 <= (#[trigger] v[j]).0
}

proof fn lemma_place(v: Seq<(int, Seq<char>)>, id: int, path: Seq<char>)
    requires
        in_order(v),
    ensures
        in_order(place(v, id, path)),
        place(v, id, path).len() == v.len() + 1,
        forall|e: (int, Seq<char>)|
            #![trigger place(v, id, path).contains(e)]
            place(v, id, path).contains(e) <==> (e == (id, path) || v.contains(e)),
        v.len() > 0 && v.last().0 > id ==> place(v, id, path).last() == v.last(),
        v.len() == 0 || v.last().0 <= id ==> place(v, id, path).last() == (id, path),
    decreases v.len(),
{
    let r = place(v, id, path);
    if v.len() == 0 || v.last().0 <= id {
        assert forall|e: (int, Seq<char>)| r.contains(e) <==> (e == (id, path) || v.contains(e)) by {
            if v.contains(e) {
                let i = choose|i: int| 0 <= i < v.len() && v[i] == e;
                assert(r[i] == e);
            }
            if e == (id, path) {
                assert(r[v.len() as int] == e);
            }
            if r.contains(e) {
                let i = choose|i: int| 0 <= i < r.len() && r[i] == e;
                if i < v.len() {
                    assert(v[i] == e);
                }
            }
        }
        assert forall|i: int, j: int| 0 <= i < j < r.len() implies (#[trigger] r[i]).0 <= (
        #[trigger] r[j]).0 by {
            if j == v.len() && v.len() > 0 {
                assert(v[i].0 <= v[v.len() - 1].0);
            }
        }
    } else {
        let init = v.drop_last();
        lemma_place(init, id, path);
        let p = place(init, id, path);
        assert(r == p.push(v.last()));
        assert forall|e: (int, Seq<char>)| r.contains(e) <==> (e == (id, path) || v.contains(e)) by {
            assert(p.contains(e) <==> (e == (id, path) || init.contains(e)));
            if r.contains(e) {
                let i = choose|i: int| 0 <= i < r.len() && r[i] == e;
                if i < p.len() {
                    assert(p[i] == e);
                    assert(p.contains(e));
                    if init.contains(e) {
                        let k = choose|k: int| 0 <= k < init.len() && init[k] == e;
                        assert(v[k] == e);
                    }
                } else {
                    assert(v[v.len() - 1] == e);
                }
            }
            if e == (id, path) || init.contains(e) {
                assert(p.contains(e));
                let i = choose|i: int| 0 <= i < p.len() && p[i] == e;
                assert(r[i] == e);
            }
            if v.contains(e) {
                let k = choose|k: int| 0 <= k < v.len() && v[k] == e;
                if k < init.len() {
                    assert(init[k] == e);
                    assert(init.contains(e));
                } else {
                    assert(r[p.len() as int] == e);
                }
            }
        }
        assert forall|i: int, j: int| 0 <= i < j < r.len() implies (#[trigger] r[i]).0 <= (
        #[trigger] r[j]).0 by {
            if j == p.len() {
                assert(p.contains(p[i]));
                if p[i] != (id, path) {
                    let k = choose|k: int| 0 <= k < init.len() && init[k] == p[i];
                    assert(v[k].0 <= v[v.len() - 1].0);
                }
            }
        }
    }
}

/// A directory is taken for a call that still has to be put together just where
/// its name is a number, that call does not go on, nothing was put together in it
/// yet, and there is something to put together.
pub proof fn only_unfinished_calls_are_taken(e: Entry, active: Option<i64>, id: int)
    ensures
        pending_id(e, active) == Some(id) <==> {
            &&& e.is_dir
            &&& e.name is Some
            &&& text::parse_signed_of(e.name->Some_0@, i64::MIN as int, i64::MAX as int) == Some(id)
            &&& active != Some(id as i64)
            &&& !e.combined
            &&& e.mic || e.zoom || e.frame
        },
{
}

/// The calls that still have to be put together come in the order of their
/// numbers; they are exactly those that have to be.
pub proof fn pending_is_exact_and_in_order(entries: Seq<Entry>, active: Option<i64>)
    ensures
        in_order(found(entries, active)),
        forall|id: int, path: Seq<char>|
            #![trigger found(entries, active).contains((id, path))]
            found(entries, active).contains((id, path)) <==> exists|i: int|
                0 <= i < entries.len() && pending_id(#[trigger] entries[i], active) == Some(id)
                    && entries[i].path@ == path,
    decreases entries.len(),
{
    if entries.len() > 0 {
        let init = entries.drop_last();
        let last = entries.last();
        pending_is_exact_and_in_order(init, active);
        let f = found(init, active);
        let r = found(entries, active);
        if let Some(id) = pending_id(last, active) {
            lemma_place(f, id, last.path@);
        }
        assert forall|id: int, path: Seq<char>| r.contains((id, path)) <==> exists|i: int|
            0 <= i < entries.len() && pending_id(#[trigger] entries[i], active) == Some(id)
                && entries[i].path@ == path by {
            assert(f.contains((id, path)) <==> exists|i: int|
                0 <= i < init.len() && pending_id(#[trigger] init[i], active) == Some(id)
                    && init[i].path@ == path);
            if r.contains((id, path)) {
                if f.contains((id, path)) {
                    let i = choose|i: int|
                        0 <= i < init.len() && pending_id(#[trigger] init[i], active) == Some(id)
                            && init[i].path@ == path;
                    assert(entries[i] == init[i]);
                } else {
                    assert(entries[entries.len() - 1] == last);
                }
            }
            if exists|i: int|
                0 <= i < entries.len() && pending_id(#[trigger] entries[i], active) == Some(id)
                    && entries[i].path@ == path {
                let i = choose|i: int|
                    0 <= i < entries.len() && pending_id(#[trigger] entries[i], active) == Some(id)
                        && entries[i].path@ == path;
                if i < init.len() {
                    assert(init[i] == entries[i]);
                    assert(f.contains((id, path)));
                    assert(r.contains((id, path)));
                }
            }
        }
    } else {
        assert(found(entries, active) =~= Seq::empty());
    }
}

fn pending_number(e: &Entry, active: Option<i64>) -> (r: Option<i64>)
    ensures
        match r {
            Some(id) => pending_id(*e, active) == Some(id as int),
            None => pending_id(*e, active) is None,
        },
{
    if !e.is_dir {
        return None;
    }
    let name = match &e.name {
        Some(n) => n,
        None => {
            return None;
        },
    };
    let chars = chars_of(name.as_str());
    let id = match parse_i64(chars.as_slice()) {
        Some(n) => n,
        None => {
            return None;
        },
    };
    if let Some(a) = active {
        if a == id {
            return None;
        }
    }
    if e.combined || !(e.mic || e.zoom || e.frame) {
        return None;
    }
    Some(id)
}

/// The numbers and paths of calls.
pub open spec fn call_views(v: Seq<(i64, String)>) -> Seq<(int, Seq<char>)> {
    v.map_values(|p: (i64, String)| (p.0 as int, p.1@))
}

fn put_in_place(v: &mut Vec<(i64, String)>, id: i64, path: String)
    ensures
        call_views(final(v)@) == place(call_views(old(v)@), id as int, path@),
{
    let ghost all = call_views(v@);
    let ghost start = v@;
    let mut n: usize = v.len();
    assert(all.take(n as int) =~= all);
    assert(all.skip(n as int) =~= Seq::empty());
    assert(place(all, id as int, path@) =~= place(all.take(n as int), id as int, path@) + all.skip(
        n as int,
    ));
    while n > 0 && v[n - 1].0 > id
        invariant
            n <= v@.len(),
            v@ == start,
            all == call_views(start),
            place(all, id as int, path@) == place(all.take(n as int), id as int, path@)
                + all.skip(n as int),
        decreases n,
    {
        assert(all[n - 1] == (start[n - 1].0 as int, start[n - 1].1@));
        assert(all.take(n as int).drop_last() =~= all.take(n - 1));
        assert(all.take(n as int).last() == all[n - 1]);
        assert(place(all.take(n as int), id as int, path@) == place(
            all.take(n - 1),
            id as int,
            path@,
        ).push(all[n - 1]));
        assert(place(all.take(n as int), id as int, path@) + all.skip(n as int) =~= place(
            all.take(n - 1),
            id as int,
            path@,
        ) + all.skip(n - 1));
        n = n - 1;
    }
    proof {
        if n > 0 {
            assert(all[n - 1] == (start[n - 1].0 as int, start[n - 1].1@));
            assert(all.take(n as int).last() == all[n - 1]);
        }
    }
    v.insert(n, (id, path));
    assert(call_views(v@) =~= all.take(n as int).push((id as int, path@)) + all.skip(n as int));
}

/// The paths of calls.
pub open spec fn paths_of(v: Seq<(int, Seq<char>)>) -> Seq<Seq<char>> {
    v.map_values(|p: (int, Seq<char>)| p.1)
}

/// The directories of the calls that still have to be put together, in the order
/// of their numbers.
pub fn select_pending(entries: &Vec<Entry>, active: Option<i64>) -> (r: Vec<String>)
    ensures
        text::texts(r@) == paths_of(found(entries@, active)),
{
    let mut calls: Vec<(i64, String)> = Vec::new();
    let mut i: usize = 0;
    assert(entries@.take(0) =~= Seq::empty());
    assert(call_views(calls@) =~= Seq::empty());
    while i < entries.len()
        invariant
            i <= entries@.len(),
            call_views(calls@) == found(entries@.take(i as int), active),
        decreases entries.len() - i,
    {
        assert(entries@.take(i + 1).drop_last() =~= entries@.take(i as int));
        assert(entries@.take(i + 1).last() == entries@[i as int]);
        if let Some(id) = pending_number(&entries[i], active) {
            put_in_place(&mut calls, id, entries[i].path.clone());
        }
        i = i + 1;
    }
    assert(entries@.take(entries@.len() as int) =~= entries@);
    let ghost all = paths_of(found(entries@, active));
    let mut out: Vec<String> = Vec::new();
    let mut k: usize = 0;
    assert(text::texts(out@) =~= all.take(0));
    while k < calls.len()
        invariant
            k <= calls@.len(),
            all == paths_of(call_views(calls@)),
            text::texts(out@) == all.take(k as int),
        decreases calls.len() - k,
    {
        push_to(&mut out, calls[k].1.as_str());
        assert(call_views(calls@)[k as int].1 == calls@[k as int].1@);
        assert(all.take(k + 1) =~= all.take(k as int).push(all[k as int]));
        k = k + 1;
    }
    assert(all.take(all.len() as int) =~= all);
    out
}

/// The directories of the calls that still have to be put together; none where
/// the calls' directory cannot be read.
pub fn pending(entries: Option<&Vec<Entry>>, active: Option<i64>) -> (r: Vec<String>)
    ensures
        text::texts(r@) == match entries {
            Some(v) => paths_of(found(v@, active)),
            None => Seq::empty(),
        },
{
    match entries {
        Some(v) => select_pending(v, active),
        None => {
            let none: Vec<String> = Vec::new();
            assert(text::texts(none@) =~= Seq::empty());
            none
        },
    }
}

/// The words of the command that puts a call together, from what there is of it.
pub open spec fn glue_args_of(dir: Seq<char>, mic: bool, zoom: bool, video: bool) -> Seq<Seq<char>> {
    let start = seq!["-y"@, "-hide_banner"@, "-loglevel"@, "error"@];
    let frames = if video {
        seq![
            "-framerate"@,
            "1"@,
            "-pattern_type"@,
            "glob"@,
            "-i"@,
            paths::join_of(paths::join_of(dir, FRAMES@), "*.jpg"@),
        ]
    } else {
        Seq::empty()
    };
    let mic_in = if mic {
        seq!["-i"@, paths::join_of(dir, MIC@)]
    } else {
        Seq::empty()
    };
    let zoom_in = if zoom {
        seq!["-i"@, paths::join_of(dir, ZOOM@)]
    } else {
        Seq::empty()
    };
    let mix = if mic && zoom {
        seq![
            "-filter_complex"@,
            (if video {
                "[1:a][2:a]"@
            } else {
                "[0:a][1:a]"@
            }) + "amix=inputs=2:normalize=0[a]"@,
        ]
    } else {
        Seq::empty()
    };
    let map_video = if video {
        seq!["-map"@, "0:v"@]
    } else {
        Seq::empty()
    };
    let map_sound = if mic || zoom {
        seq![
            "-map"@,
            if mic && zoom {
                "[a]"@
            } else if video {
                "1:a"@
            } else {
                "0:a"@
            },
        ]
    } else {
        Seq::empty()
    };
    let code_video = if video {
        seq!["-c:v"@, "libx264"@, "-pix_fmt"@, "yuv420p"@]
    } else {
        Seq::empty()
    };
    let code_sound = if mic || zoom {
        seq!["-c:a"@, "aac"@]
    } else {
        Seq::empty()
    };
    start + frames + mic_in + zoom_in + mix + map_video + map_sound + code_video + code_sound
        + seq![paths::join_of(dir, PART@)]
}

/// The files that a command reads: what stands behind each `-i`, in order. They
/// are numbered from 0.
pub open spec fn inputs_of(args: Seq<Seq<char>>) -> Seq<Seq<char>>
    decreases args.len(),
{
    if args.len() < 2 {
        Seq::empty()
    } else if args[0] == "-i"@ {
        seq![args[1]] + inputs_of(args.skip(2))
    } else {
        inputs_of(args.skip(1))
    }
}

/// The word `what` stands behind the word `name`.
pub open spec fn given(args: Seq<Seq<char>>, name: Seq<char>, what: Seq<char>) -> bool {
    exists|i: int| 0 <= i < args.len() - 1 && #[trigger] args[i] == name && args[i + 1] == what
}

proof fn lemma_inputs_behind(a: Seq<Seq<char>>, b: Seq<Seq<char>>)
    requires
        forall|i: int| 0 <= i < a.len() ==> #[trigger] a[i] != "-i"@,
    ensures
        inputs_of(a + b) == inputs_of(b),
        b.len() == 0 ==> inputs_of(a + b) == Seq::<Seq<char>>::empty(),
    decreases a.len(),
{
    if a.len() == 0 {
        assert(a + b =~= b);
    } else {
        let rest = a.skip(1);
        assert forall|i: int| 0 <= i < rest.len() implies #[trigger] rest[i] != "-i"@ by {
            assert(rest[i] == a[i + 1]);
        }
        lemma_inputs_behind(rest, b);
        assert((a + b).skip(1) =~= rest + b);
        assert((a + b)[0] == a[0]);
        if (a + b).len() < 2 {
            assert(rest + b =~= Seq::empty());
        }
    }
}

proof fn lemma_input(f: Seq<char>, b: Seq<Seq<char>>)
    ensures
        inputs_of(seq!["-i"@, f] + b) == seq![f] + inputs_of(b),
{
    assert((seq!["-i"@, f] + b).skip(2) =~= b);
}

/// What stands before the files, between them and behind them in the command.
proof fn lemma_glue_inputs(dir: Seq<char>, mic: bool, zoom: bool, video: bool)
    ensures
        inputs_of(glue_args_of(dir, mic, zoom, video)) == (if video {
            seq![paths::join_of(paths::join_of(dir, FRAMES@), "*.jpg"@)]
        } else {
            Seq::empty()
        }) + (if mic {
            seq![paths::join_of(dir, MIC@)]
        } else {
            Seq::empty()
        }) + (if zoom {
            seq![paths::join_of(dir, ZOOM@)]
        } else {
            Seq::empty()
        }),
{
    let none = Seq::<Seq<char>>::empty();
    let args = glue_args_of(dir, mic, zoom, video);
    let start = seq!["-y"@, "-hide_banner"@, "-loglevel"@, "error"@];
    let rate = seq!["-framerate"@, "1"@, "-pattern_type"@, "glob"@];
    let film = paths::join_of(paths::join_of(dir, FRAMES@), "*.jpg"@);
    let at = 4 + (if video {
        6int
    } else {
        0
    }) + (if mic {
        2int
    } else {
        0
    }) + (if zoom {
        2int
    } else {
        0
    });
    let tail = args.skip(at);
    reveal_strlit("-i");
    reveal_strlit("-y");
    reveal_strlit("-hide_banner");
    reveal_strlit("-loglevel");
    reveal_strlit("error");
    reveal_strlit("-framerate");
    reveal_strlit("1");
    reveal_strlit("-pattern_type");
    reveal_strlit("glob");
    reveal_strlit("-filter_complex");
    reveal_strlit("amix=inputs=2:normalize=0[a]");
    reveal_strlit("-map");
    reveal_strlit("0:v");
    reveal_strlit("0:a");
    reveal_strlit("1:a");
    reveal_strlit("[a]");
    reveal_strlit("-c:v");
    reveal_strlit("libx264");
    reveal_strlit("-pix_fmt");
    reveal_strlit("yuv420p");
    reveal_strlit("-c:a");
    reveal_strlit("aac");
    reveal_strlit("combined.mp4.part");
    assert("-y"@[1] == 'y' && "-i"@[1] == 'i');
    assert forall|i: int| 0 <= i < tail.len() implies #[trigger] tail[i] != "-i"@ by {
        assert(tail[i].len() > 2);
    }
    lemma_inputs_behind(tail, none);
    assert(tail + none =~= tail);
    let from_zoom = if zoom {
        seq!["-i"@, paths::join_of(dir, ZOOM@)] + tail
    } else {
        tail
    };
    lemma_input(paths::join_of(dir, ZOOM@), tail);
    let from_mic = if mic {
        seq!["-i"@, paths::join_of(dir, MIC@)] + from_zoom
    } else {
        from_zoom
    };
    lemma_input(paths::join_of(dir, MIC@), from_zoom);
    let from_film = if video {
        rate + (seq!["-i"@, film] + from_mic)
    } else {
        from_mic
    };
    lemma_input(film, from_mic);
    assert forall|i: int| 0 <= i < rate.len() implies #[trigger] rate[i] != "-i"@ by {
        assert(rate[0].len() == 10 && rate[1].len() == 1 && rate[2].len() == 13 && rate[3].len()
            == 4);
    }
    lemma_inputs_behind(rate, seq!["-i"@, film] + from_mic);
    lemma_inputs_behind(start, from_film);
    assert(args =~= start + from_film);
}

/// All that there is of a call reaches the film: every track and the frames are
/// read, each once, and each is mapped by the number that it is read under.
/// Where there are both tracks, the two that are mixed are theirs, and the mix
/// is what is mapped. The film is written to the file that is not yet done.
pub proof fn every_track_reaches_the_film(dir: Seq<char>, mic: bool, zoom: bool, video: bool)
    ensures
        ({
            let args = glue_args_of(dir, mic, zoom, video);
            let ins = inputs_of(args);
            let mic_at = if video {
                1int
            } else {
                0
            };
            let zoom_at = ins.len() - 1;
            &&& ins.len() == (if mic {
                1int
            } else {
                0
            }) + (if zoom {
                1int
            } else {
                0
            }) + (if video {
                1int
            } else {
                0
            })
            &&& mic ==> ins[mic_at] == paths::join_of(dir, "mic.wav"@)
            &&& zoom ==> ins[zoom_at] == paths::join_of(dir, "zoom.wav"@)
            &&& video ==> ins[0] == paths::join_of(paths::join_of(dir, "frames"@), "*.jpg"@)
                && given(args, "-map"@, text::decimal_of(0) + ":v"@)
            &&& mic && zoom ==> mic_at != zoom_at && given(
                args,
                "-filter_complex"@,
                "["@ + text::decimal_of(mic_at as nat) + ":a]["@ + text::decimal_of(
                    zoom_at as nat,
                ) + ":a]amix=inputs=2:normalize=0[a]"@,
            ) && given(args, "-map"@, "[a]"@)
            &&& mic && !zoom ==> given(args, "-map"@, text::decimal_of(mic_at as nat) + ":a"@)
            &&& zoom && !mic ==> given(args, "-map"@, text::decimal_of(zoom_at as nat) + ":a"@)
            &&& args.last() == paths::join_of(dir, "combined.mp4.part"@)
        }),
{
    lemma_glue_inputs(dir, mic, zoom, video);
    let args = glue_args_of(dir, mic, zoom, video);
    reveal_strlit("[");
    reveal_strlit(":a][");
    reveal_strlit(":a]amix=inputs=2:normalize=0[a]");
    reveal_strlit("amix=inputs=2:normalize=0[a]");
    reveal_strlit("[1:a][2:a]");
    reveal_strlit("[0:a][1:a]");
    reveal_strlit(":a");
    reveal_strlit(":v");
    reveal_strlit("0:a");
    reveal_strlit("1:a");
    reveal_strlit("0:v");
    assert(text::decimal_of(0) =~= seq!['0']);
    assert(text::decimal_of(1) =~= seq!['1']);
    assert(text::decimal_of(2) =~= seq!['2']);
    assert(text::decimal_of(0) + ":v"@ =~= "0:v"@);
    assert(text::decimal_of(0) + ":a"@ =~= "0:a"@);
    assert(text::decimal_of(1) + ":a"@ =~= "1:a"@);
    let at = 4 + (if video {
        6int
    } else {
        0
    }) + (if mic {
        2int
    } else {
        0
    }) + (if zoom {
        2int
    } else {
        0
    });
    let map_at = if mic && zoom {
        at + 2
    } else {
        at
    };
    if mic && zoom {
        assert(args[at] == "-filter_complex"@);
        if video {
            assert("["@ + text::decimal_of(1) + ":a]["@ + text::decimal_of(2)
                + ":a]amix=inputs=2:normalize=0[a]"@ =~= "[1:a][2:a]"@
                + "amix=inputs=2:normalize=0[a]"@);
        } else {
            assert("["@ + text::decimal_of(0) + ":a]["@ + text::decimal_of(1)
                + ":a]amix=inputs=2:normalize=0[a]"@ =~= "[0:a][1:a]"@
                + "amix=inputs=2:normalize=0[a]"@);
        }
    }
    if video {
        assert(args[map_at] == "-map"@ && args[map_at + 1] == "0:v"@);
    }
    if mic || zoom {
        let sound_at = if video {
            map_at + 2
        } else {
            map_at
        };
        assert(args[sound_at] == "-map"@);
        if mic && zoom {
            assert(args[sound_at + 1] == "[a]"@);
        }
    }
}

/// The words of the command that puts a call together, or why it cannot be.
pub fn glue_args(dir: &str, mic: bool, zoom: bool, video: bool) -> (r: Result<Vec<String>, String>)
    ensures
        match r {
            Ok(args) => {
                &&& mic || zoom || video
                &&& text::texts(args@) == glue_args_of(dir@, mic, zoom, video)
            },
            Err(m) => !mic && !zoom && !video && m@ == "нет ни кадров, ни аудиодорожек"@,
        },
{
    if !mic && !zoom && !video {
        return Err("нет ни кадров, ни аудиодорожек".to_owned());
    }
    let mut v: Vec<String> = Vec::new();
    assert(text::texts(v@) =~= Seq::empty());
    push_to(&mut v, "-y");
    push_to(&mut v, "-hide_banner");
    push_to(&mut v, "-loglevel");
    push_to(&mut v, "error");
    if video {
        push_to(&mut v, "-framerate");
        push_to(&mut v, "1");
        push_to(&mut v, "-pattern_type");
        push_to(&mut v, "glob");
        push_to(&mut v, "-i");
        push_to(&mut v, join(join(dir, FRAMES).as_str(), "*.jpg").as_str());
    }
    if mic {
        push_to(&mut v, "-i");
        push_to(&mut v, join(dir, MIC).as_str());
    }
    if zoom {
        push_to(&mut v, "-i");
        push_to(&mut v, join(dir, ZOOM).as_str());
    }
    if mic && zoom {
        let inputs = if video {
            "[1:a][2:a]"
        } else {
            "[0:a][1:a]"
        };
        push_to(&mut v, "-filter_complex");
        push_to(&mut v, cat(inputs, "amix=inputs=2:normalize=0[a]").as_str());
    }
    if video {
        push_to(&mut v, "-map");
        push_to(&mut v, "0:v");
    }
    if mic || zoom {
        let from = if mic && zoom {
            "[a]"
        } else if video {
            "1:a"
        } else {
            "0:a"
        };
        push_to(&mut v, "-map");
        push_to(&mut v, from);
    }
    if video {
        push_to(&mut v, "-c:v");
        push_to(&mut v, "libx264");
        push_to(&mut v, "-pix_fmt");
        push_to(&mut v, "yuv420p");
    }
    if mic || zoom {
        push_to(&mut v, "-c:a");
        push_to(&mut v, "aac");
    }
    push_to(&mut v, join(dir, PART).as_str());
    assert(text::texts(v@) =~= glue_args_of(dir@, mic, zoom, video));
    Ok(v)
}

/// What went wrong with the command: it could not be started, or it failed, and
/// then its last line says why. `printed` is what it said, where it was started.
pub open spec fn glue_fault_of(printed: Option<(bool, &[u8])>) -> Option<Seq<char>> {
    match printed {
        None => Some(NO_TOOL@),
        Some((true, _)) => None,
        Some((false, bytes)) => Some(
            hr_reply::last_line_or(text::lossy_of(bytes@), "ffmpeg упал"@),
        ),
    }
}

/// What went wrong with the command.
pub fn glue_fault(printed: Option<(bool, &[u8])>) -> (r: Option<String>)
    ensures
        text::opt_text(r) == glue_fault_of(printed),
{
    match printed {
        None => Some(NO_TOOL.to_owned()),
        Some((success, bytes)) => if success {
            None
        } else {
            Some(last_line(lossy(bytes).as_str(), "ffmpeg упал"))
        },
    }
}

/// What is done with the files of a call.
#[derive(Debug, Clone, Copy, PartialEq, Eq, Structural)]
pub enum GlueStep {
    /// What was made of it is removed.
    RemovePart,
    /// What was made of it gets its name.
    Rename,
    /// The frames that it was made of are removed.
    RemoveFrames,
}

/// What is done once the command has ended: a part that it left is removed, and
/// what it made gets its name.
pub open spec fn after_tool_of(printed: Option<(bool, &[u8])>) -> Option<GlueStep> {
    match printed {
        None => None,
        Some((true, _)) => Some(GlueStep::Rename),
        Some((false, _)) => Some(GlueStep::RemovePart),
    }
}

/// A film gets its name exactly where nothing went wrong, and a part is removed
/// only where something did; where the tool is missing no file is touched.
pub proof fn only_a_whole_film_gets_its_name(printed: Option<(bool, &[u8])>)
    ensures
        after_tool_of(printed) == Some(GlueStep::Rename) <==> glue_fault_of(printed) is None,
        after_tool_of(printed) == Some(GlueStep::RemovePart) ==> glue_fault_of(printed) is Some,
        after_tool_of(printed) is None <==> printed is None,
        after_tool_of(printed) != Some(GlueStep::RemoveFrames),
        printed is None ==> glue_fault_of(printed) == Some("нет ffmpeg"@),
        (printed matches Some((ok, _)) && ok) <==> glue_fault_of(printed) is None,
{
}

/// What is done once the command has ended, and what went wrong with it: a part
/// that it left is removed, and what it made gets its name. `printed` is what it
/// said, where it was started.
pub fn after_tool(printed: Option<(bool, &[u8])>) -> (r: (Option<GlueStep>, Option<String>))
    ensures
        r.0 == after_tool_of(printed),
        text::opt_text(r.1) == glue_fault_of(printed),
{
    let step = match printed {
        None => None,
        Some((success, _)) => if success {
            Some(GlueStep::Rename)
        } else {
            Some(GlueStep::RemovePart)
        },
    };
    (step, glue_fault(printed))
}

/// What is done once what was made has got its name, or why it has not: only
/// then the frames are removed.
pub fn after_rename(fault: Option<&str>) -> (r: Result<GlueStep, String>)
    ensures
        match r {
            Ok(step) => fault is None && step == GlueStep::RemoveFrames,
            Err(e) => (fault matches Some(f) && e@ == "rename: "@ + f@),
        },
{
    match fault {
        None => Ok(GlueStep::RemoveFrames),
        Some(f) => Err(cat("rename: ", f)),
    }
}

/// The calls that are being put together: how many there are, which is next, and
/// how many are done.
#[derive(Debug, Clone, Copy, PartialEq, Eq)]
pub struct Glue {
    pub total: usize,
    pub next: usize,
    pub done: usize,
}

impl Glue {
    /// No more are done than were tried, and no more were tried than there are.
    pub open spec fn well_formed(self) -> bool {
        self.done <= self.next <= self.total
    }

    pub open spec fn status_of(self) -> GlueStatus {
        if self.next == self.total {
            GlueStatus::Done(self.done)
        } else {
            GlueStatus::Working { done: self.next, total: self.total }
        }
    }

    pub fn new(total: usize) -> (r: Glue)
        ensures
            r == (Glue { total, next: 0, done: 0 }),
            r.well_formed(),
    {
        Glue { total, next: 0, done: 0 }
    }

    /// How far it is.
    pub fn status(&self) -> (r: GlueStatus)
        ensures
            r == self.status_of(),
    {
        if self.next == self.total {
            GlueStatus::Done(self.done)
        } else {
            GlueStatus::Working { done: self.next, total: self.total }
        }
    }

    /// One more call was tried: how far it is now, and what the log says. Where
    /// the tool is missing it is all over; any other fault is passed by.
    pub fn tried(&mut self, result: Result<(), String>) -> (r: (GlueStatus, Option<Event>))
        requires
            old(self).well_formed(),
            old(self).next < old(self).total,
        ensures
            final(self).well_formed(),
            final(self).total == old(self).total,
            match result {
                Err(e) if e@ == NO_TOOL@ => {
                    &&& *final(self) == *old(self)
                    &&& r.0 matches GlueStatus::Failed(m) && m@ == e@
                    &&& r.1 is None
                },
                Err(e) => {
                    &&& final(self).next == old(self).next + 1
                    &&& final(self).done == old(self).done
                    &&& r.0 == final(self).status_of()
                    &&& r.1 matches Some(event) && event@ == telemetry::event_of(
                        "mux.fail"@,
                        seq![("err"@, Tree::Text(e@))],
                    ) && json::proper(event.fields@)
                },
                Ok(_) => {
                    &&& final(self).next == old(self).next + 1
                    &&& final(self).done == old(self).done + 1
                    &&& r.0 == final(self).status_of()
                    &&& r.1 is None
                },
            },
    {
        match result {
            Ok(_) => {
                self.next = self.next + 1;
                self.done = self.done + 1;
                (self.status(), None)
            },
            Err(e) => {
                if same_str(e.as_str(), NO_TOOL) {
                    return (GlueStatus::Failed(e), None);
                }
                self.next = self.next + 1;
                (self.status(), Some(telemetry::error("mux.fail", e.as_str())))
            },
        }
    }
}

} // verus!
