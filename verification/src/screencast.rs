//! Recording of the screen: the portal's requests and what the recorder is
//! started with.

use crate::text;
use crate::text::{
    cat, cat3, cat4, chars_of, decimal_u64, push_to, same_str, string_of, trim_start_char, trimmed,
};
use vstd::prelude::*;

verus! {

/// A whole screen is recorded.
pub const SOURCE_MONITOR: u32 = 1;

/// The cursor is part of the recording.
pub const CURSOR_EMBEDDED: u32 = 2;

/// The consent is kept until it is withdrawn.
pub const PERSIST_PERMANENT: u32 = 2;

pub open spec fn token_of(pid: nat, n: nat) -> Seq<char> {
    "hw"@ + text::decimal_of(pid) + "_"@ + text::decimal_of(n)
}

/// No two requests of a process have the same name.
pub proof fn requests_are_told_apart(pid: nat, m: nat, n: nat)
    ensures
        token_of(pid, m) == token_of(pid, n) ==> m == n,
{
    let head = "hw"@ + text::decimal_of(pid) + "_"@;
    let a = text::decimal_of(m);
    let b = text::decimal_of(n);
    assert((head + a).skip(head.len() as int) =~= a);
    assert((head + b).skip(head.len() as int) =~= b);
    text::decimal_reads_back(m as int);
    text::decimal_reads_back(n as int);
}

/// A name for the request number `n` of the process `pid`.
pub fn next_token(pid: u32, n: u64) -> (r: String)
    ensures
        r@ == token_of(pid as nat, n as nat),
{
    cat4("hw", decimal_u64(pid as u64).as_str(), "_", decimal_u64(n).as_str())
}

/// A text with underscores in place of dots.
pub open spec fn undotted(s: Seq<char>) -> Seq<char> {
    s.map_values(
        |c: char|
            if c == '.' {
                '_'
            } else {
                c
            },
    )
}

/// Every dot becomes an underscore, and nothing else changes.
pub proof fn dots_become_underscores(s: Seq<char>, i: int)
    requires
        0 <= i < s.len(),
    ensures
        undotted(s).len() == s.len(),
        s[i] == '.' ==> undotted(s)[i] == '_',
        s[i] != '.' ==> undotted(s)[i] == s[i],
{
}

/// The part of the path of requests that stands for who asks.
pub fn unique_sender(name: &str) -> (r: String)
    ensures
        r@ == undotted(text::trim_start_char_of(name@, ':')),
{
    let chars = chars_of(name);
    let t = trim_start_char(chars.as_slice(), ':');
    let mut out: Vec<char> = Vec::new();
    let mut i: usize = 0;
    while i < t.len()
        invariant
            i <= t@.len(),
            out@ == undotted(t@).take(i as int),
        decreases t.len() - i,
    {
        let c: char = if t[i] == '.' {
            '_'
        } else {
            t[i]
        };
        out.push(c);
        i = i + 1;
        assert(out@ =~= undotted(t@).take(i as int));
    }
    assert(out@ =~= undotted(t@));
    string_of(out.as_slice())
}

/// The path on which the answer to a request comes.
pub fn request_path(sender: &str, token: &str) -> (r: String)
    ensures
        r@ == "/org/freedesktop/portal/desktop/request/"@ + sender@ + "/"@ + token@,
{
    cat4("/org/freedesktop/portal/desktop/request/", sender, "/", token)
}

/// Whether the portal has done what was asked; otherwise why not, in words.
pub fn portal_result(code: u32) -> (r: Result<(), String>)
    ensures
        code == 0 <==> r is Ok,
        r matches Err(e) ==> e@ == "портал отклонил (код "@ + text::decimal_of(code as nat) + ")"@,
{
    if code == 0 {
        Ok(())
    } else {
        Err(cat3("портал отклонил (код ", decimal_u64(code as u64).as_str(), ")"))
    }
}

/// The consent that was kept, where there is one.
pub open spec fn kept_of(raw: Seq<char>) -> Option<Seq<char>> {
    if text::trim_of(raw).len() > 0 {
        Some(text::trim_of(raw))
    } else {
        None
    }
}

/// A consent that is kept as it was read is read again.
pub proof fn kept_reads_back(raw: Seq<char>)
    ensures
        kept_of(raw) matches Some(t) ==> kept_of(t) == Some(t),
{
    text::trim_is_idempotent(raw);
}

/// The consent that was kept, where there is one.
pub fn load_token(raw: &str) -> (r: Option<String>)
    ensures
        text::opt_text(r) == kept_of(raw@),
{
    let t = trimmed(raw);
    if chars_of(t.as_str()).len() > 0 {
        Some(t)
    } else {
        None
    }
}

/// The devices whose sound is recorded: what goes out through the sink, and the
/// source, unless it is the same.
pub open spec fn audio_devices_of(
    quiet: bool,
    sink: Option<Seq<char>>,
    source: Option<Seq<char>>,
) -> Seq<Seq<char>> {
    let out = match sink {
        Some(s) if text::trim_of(s).len() > 0 => seq![text::trim_of(s) + ".monitor"@],
        _ => Seq::empty(),
    };
    if quiet {
        Seq::empty()
    } else {
        match source {
            Some(s) if text::trim_of(s).len() > 0 && !out.contains(text::trim_of(s)) => out.push(text::trim_of(s)),
            _ => out,
        }
    }
}

/// Both sounds are recorded, what goes out and what comes in, each once, unless
/// sound is turned off or a name is not known.
pub proof fn both_sounds_are_recorded(
    sink: Seq<char>,
    source: Seq<char>,
    d: Seq<char>,
    blank: Seq<char>,
)
    requires
        text::trim_of(blank).len() == 0,
        sink.len() > 0 && text::trim_of(sink) == sink,
        source.len() > 0 && text::trim_of(source) == source,
    ensures
        audio_devices_of(true, Some(sink), Some(source)).len() == 0,
        audio_devices_of(false, Some(sink), Some(source)).contains(sink + ".monitor"@),
        audio_devices_of(false, Some(sink), Some(source)).contains(source),
        audio_devices_of(false, Some(sink), Some(source)).contains(d) ==> d == source || d == sink
            + ".monitor"@,
        audio_devices_of(false, Some(sink), Some(source)).len() == if source == sink
            + ".monitor"@ {
            1int
        } else {
            2
        },
        audio_devices_of(false, Some(blank), Some(source)) == seq![source],
        audio_devices_of(false, Some(sink), Some(blank)) == seq![sink + ".monitor"@],
        audio_devices_of(false, Some(blank), Some(blank)).len() == 0,
        audio_devices_of(false, None, Some(source)) == seq![source],
        audio_devices_of(false, Some(sink), None) == seq![sink + ".monitor"@],
        audio_devices_of(false, None, None).len() == 0,
{
    let m = sink + ".monitor"@;
    let one = seq![m];
    assert(one[0] == m);
    let all = audio_devices_of(false, Some(sink), Some(source));
    assert(all[0] == m);
    if source != m {
        assert(!one.contains(source));
        assert(all[1] == source);
    } else {
        assert(one.contains(source));
    }
    let none = Seq::<Seq<char>>::empty();
    assert(!none.contains(source));
    assert(audio_devices_of(false, None, Some(source)) =~= seq![source]);
    assert(audio_devices_of(false, Some(blank), Some(source)) =~= seq![source]);
}

/// The devices whose sound is recorded. `env` set to 1 turns sound off; `sink`
/// and `source` are what was said of the default ones.
pub fn audio_devices(env: Option<&str>, sink: Option<&str>, source: Option<&str>) -> (r: Vec<
    String,
>)
    ensures
        text::texts(r@) == audio_devices_of(
            text::opt_str(env) == Some("1"@),
            text::opt_str(sink),
            text::opt_str(source),
        ),
{
    let mut out: Vec<String> = Vec::new();
    assert(text::texts(out@) =~= Seq::empty());
    if let Some(v) = env {
        if same_str(v, "1") {
            return out;
        }
    }
    if let Some(s) = sink {
        let t = trimmed(s);
        if chars_of(t.as_str()).len() > 0 {
            push_to(&mut out, cat(t.as_str(), ".monitor").as_str());
            assert(text::texts(out@) =~= seq![text::trim_of(s@) + ".monitor"@]);
        }
    }
    if let Some(s) = source {
        let t = trimmed(s);
        let ghost had = text::texts(out@);
        let taken = out.len() > 0 && same_str(out[0].as_str(), t.as_str());
        proof {
            if taken {
                assert(had[0] == t@);
                assert(had.contains(t@));
            }
            if had.contains(t@) {
                let i = choose|i: int| 0 <= i < had.len() && had[i] == t@;
                assert(i == 0);
            }
        }
        if chars_of(t.as_str()).len() > 0 && !taken {
            push_to(&mut out, t.as_str());
        }
    }
    assert(text::texts(out@) =~= audio_devices_of(
        text::opt_str(env) == Some("1"@),
        text::opt_str(sink),
        text::opt_str(source),
    ));
    out
}

/// The part of the recorder's pipeline that takes sound from each device.
pub open spec fn device_args(devices: Seq<Seq<char>>) -> Seq<Seq<char>>
    decreases devices.len(),
{
    if devices.len() == 0 {
        Seq::empty()
    } else {
        device_args(devices.drop_last()) + seq![
            "pulsesrc"@,
            "device="@ + devices.last(),
            "!"@,
            "audioconvert"@,
            "!"@,
            "audioresample"@,
            "!"@,
            "amix."@,
        ]
    }
}

/// The recorder's pipeline.
pub open spec fn gst_args_of(
    fd: int,
    node: nat,
    path: Seq<char>,
    encoder: Seq<char>,
    devices: Seq<Seq<char>>,
) -> Seq<Seq<char>> {
    seq![
        "-e"@,
        "matroskamux"@,
        "name=mux"@,
        "!"@,
        "filesink"@,
        "location="@ + path,
        "pipewiresrc"@,
        "fd="@ + text::decimal_int_of(fd),
        "path="@ + text::decimal_of(node),
        "do-timestamp=true"@,
        "!"@,
        "videoconvert"@,
        "!"@,
        "video/x-raw,format=NV12"@,
        "!"@,
        encoder,
        "!"@,
        "h264parse"@,
        "!"@,
        "queue"@,
        "!"@,
        "mux."@,
    ] + (if devices.len() == 0 {
        Seq::empty()
    } else {
        seq![
            "audiomixer"@,
            "name=amix"@,
            "!"@,
            "audioconvert"@,
            "!"@,
            "opusenc"@,
            "!"@,
            "queue"@,
            "!"@,
            "mux."@,
        ] + device_args(devices)
    })
}

fn push_device(args: &mut Vec<String>, device: &str)
    ensures
        text::texts(final(args)@) == text::texts(old(args)@) + seq![
            "pulsesrc"@,
            "device="@ + device@,
            "!"@,
            "audioconvert"@,
            "!"@,
            "audioresample"@,
            "!"@,
            "amix."@,
        ],
{
    push_to(args, "pulsesrc");
    push_to(args, cat("device=", device).as_str());
    push_to(args, "!");
    push_to(args, "audioconvert");
    push_to(args, "!");
    push_to(args, "audioresample");
    push_to(args, "!");
    push_to(args, "amix.");
    assert(text::texts(args@) =~= text::texts(old(args)@) + seq![
        "pulsesrc"@,
        "device="@ + device@,
        "!"@,
        "audioconvert"@,
        "!"@,
        "audioresample"@,
        "!"@,
        "amix."@,
    ]);
}

fn push_video(args: &mut Vec<String>, fd: i32, node: u32, path: &str, encoder: &str)
    requires
        old(args)@.len() == 0,
    ensures
        text::texts(final(args)@) == gst_args_of(
            fd as int,
            node as nat,
            path@,
            encoder@,
            Seq::empty(),
        ),
{
    push_to(args, "-e");
    push_to(args, "matroskamux");
    push_to(args, "name=mux");
    push_to(args, "!");
    push_to(args, "filesink");
    push_to(args, cat("location=", path).as_str());
    push_to(args, "pipewiresrc");
    push_to(args, cat("fd=", text::decimal_i64(fd as i64).as_str()).as_str());
    push_to(args, cat("path=", decimal_u64(node as u64).as_str()).as_str());
    push_to(args, "do-timestamp=true");
    push_to(args, "!");
    push_to(args, "videoconvert");
    push_to(args, "!");
    push_to(args, "video/x-raw,format=NV12");
    push_to(args, "!");
    push_to(args, encoder);
    push_to(args, "!");
    push_to(args, "h264parse");
    push_to(args, "!");
    push_to(args, "queue");
    push_to(args, "!");
    push_to(args, "mux.");
    assert(text::texts(args@) =~= gst_args_of(fd as int, node as nat, path@, encoder@, Seq::empty()));
}

fn push_mixer(args: &mut Vec<String>)
    ensures
        text::texts(final(args)@) == text::texts(old(args)@) + seq![
            "audiomixer"@,
            "name=amix"@,
            "!"@,
            "audioconvert"@,
            "!"@,
            "opusenc"@,
            "!"@,
            "queue"@,
            "!"@,
            "mux."@,
        ],
{
    push_to(args, "audiomixer");
    push_to(args, "name=amix");
    push_to(args, "!");
    push_to(args, "audioconvert");
    push_to(args, "!");
    push_to(args, "opusenc");
    push_to(args, "!");
    push_to(args, "queue");
    push_to(args, "!");
    push_to(args, "mux.");
    assert(text::texts(args@) =~= text::texts(old(args)@) + seq![
        "audiomixer"@,
        "name=amix"@,
        "!"@,
        "audioconvert"@,
        "!"@,
        "opusenc"@,
        "!"@,
        "queue"@,
        "!"@,
        "mux."@,
    ]);
}

/// Each device has its own branch of the pipeline, in its order, which ends in
/// the mixer; there is a mixer only where there is a device.
pub proof fn every_device_is_mixed_in(
    fd: int,
    node: nat,
    path: Seq<char>,
    encoder: Seq<char>,
    devices: Seq<Seq<char>>,
    i: int,
)
    ensures
        ({
            let args = gst_args_of(fd, node, path, encoder, devices);
            &&& args.len() == if devices.len() == 0 {
                22
            } else {
                32 + 8 * devices.len()
            }
            &&& args[4] == "filesink"@ && args[5] == "location="@ + path
            &&& args[6] == "pipewiresrc"@ && args[7] == "fd="@ + text::decimal_int_of(fd) && args[8]
                == "path="@ + text::decimal_of(node)
            &&& args[15] == encoder && args[21] == "mux."@
            &&& args[0] == "-e"@ && args[1] == "matroskamux"@ && args[2] == "name=mux"@
            &&& args[9] == "do-timestamp=true"@ && args[11] == "videoconvert"@
            &&& args[13] == "video/x-raw,format=NV12"@ && args[17] == "h264parse"@ && args[19]
                == "queue"@
            &&& args[3] == "!"@ && args[10] == "!"@ && args[12] == "!"@ && args[14] == "!"@
            &&& args[16] == "!"@ && args[18] == "!"@ && args[20] == "!"@
            &&& devices.len() > 0 ==> args[22] == "audiomixer"@ && args[23] == "name=amix"@
                && args[25] == "audioconvert"@ && args[27] == "opusenc"@ && args[29] == "queue"@
                && args[31] == "mux."@ && args[24] == "!"@ && args[26] == "!"@ && args[28] == "!"@
                && args[30] == "!"@
            &&& 0 <= i < devices.len() ==> args[34 + 8 * i] == "!"@ && args[35 + 8 * i]
                == "audioconvert"@ && args[36 + 8 * i] == "!"@ && args[37 + 8 * i]
                == "audioresample"@ && args[38 + 8 * i] == "!"@
            &&& 0 <= i < devices.len() ==> args[32 + 8 * i] == "pulsesrc"@ && args[33 + 8 * i]
                == "device="@ + devices[i] && args[39 + 8 * i] == "amix."@
        }),
{
    lemma_device_args(devices, i);
    let args = gst_args_of(fd, node, path, encoder, devices);
    if 0 <= i < devices.len() {
        let d = device_args(devices);
        let own = d.subrange(8 * i, 8 * i + 8);
        assert(own[0] == d[8 * i] && own[1] == d[8 * i + 1] && own[2] == d[8 * i + 2]);
        assert(own[3] == d[8 * i + 3] && own[4] == d[8 * i + 4] && own[5] == d[8 * i + 5]);
        assert(own[6] == d[8 * i + 6] && own[7] == d[8 * i + 7]);
        assert(args[32 + 8 * i] == d[8 * i]);
        assert(args[33 + 8 * i] == d[8 * i + 1]);
        assert(args[34 + 8 * i] == d[8 * i + 2]);
        assert(args[35 + 8 * i] == d[8 * i + 3]);
        assert(args[36 + 8 * i] == d[8 * i + 4]);
        assert(args[37 + 8 * i] == d[8 * i + 5]);
        assert(args[38 + 8 * i] == d[8 * i + 6]);
        assert(args[39 + 8 * i] == d[8 * i + 7]);
    }
}

proof fn lemma_device_args(devices: Seq<Seq<char>>, i: int)
    ensures
        device_args(devices).len() == 8 * devices.len(),
        0 <= i < devices.len() ==> device_args(devices).subrange(8 * i, 8 * i + 8) == seq![
            "pulsesrc"@,
            "device="@ + devices[i],
            "!"@,
            "audioconvert"@,
            "!"@,
            "audioresample"@,
            "!"@,
            "amix."@,
        ],
    decreases devices.len(),
{
    if devices.len() > 0 {
        lemma_device_args(devices.drop_last(), i);
        let init = device_args(devices.drop_last());
        let all = device_args(devices);
        if 0 <= i < devices.len() - 1 {
            assert(all.subrange(8 * i, 8 * i + 8) =~= init.subrange(8 * i, 8 * i + 8));
        } else if i == devices.len() - 1 {
            assert(all.subrange(8 * i, 8 * i + 8) =~= seq![
                "pulsesrc"@,
                "device="@ + devices[i],
                "!"@,
                "audioconvert"@,
                "!"@,
                "audioresample"@,
                "!"@,
                "amix."@,
            ]);
        }
    }
}

/// What the recorder is started with: the file, the stream of the screen, the
/// encoder and the devices whose sound is mixed in.
pub fn gst_args(
    fd: i32,
    node: u32,
    path: &str,
    encoder: Option<&str>,
    devices: &Vec<String>,
) -> (r: Vec<String>)
    ensures
        text::texts(r@) == gst_args_of(
            fd as int,
            node as nat,
            path@,
            match encoder {
                Some(e) => e@,
                None => "nvh264enc"@,
            },
            text::texts(devices@),
        ),
{
    let coder = match encoder {
        Some(e) => e,
        None => "nvh264enc",
    };
    let ghost want = gst_args_of(fd as int, node as nat, path@, coder@, text::texts(devices@));
    let mut args: Vec<String> = Vec::new();
    push_video(&mut args, fd, node, path, coder);
    if devices.len() == 0 {
        assert(text::texts(devices@) =~= Seq::empty());
        return args;
    }
    push_mixer(&mut args);
    let ghost head = text::texts(args@);
    let ghost all = text::texts(devices@);
    let mut i: usize = 0;
    assert(all.take(0) =~= Seq::empty());
    assert(head + device_args(all.take(0)) =~= head);
    while i < devices.len()
        invariant
            i <= devices@.len(),
            all == text::texts(devices@),
            text::texts(args@) == head + device_args(all.take(i as int)),
        decreases devices.len() - i,
    {
        assert(all.take(i + 1).drop_last() =~= all.take(i as int));
        assert(all.take(i + 1).last() == devices@[i as int]@);
        let ghost was = text::texts(args@);
        push_device(&mut args, devices[i].as_str());
        assert(text::texts(args@) =~= head + device_args(all.take(i + 1)));
        i = i + 1;
    }
    assert(all.take(all.len() as int) =~= all);
    assert(text::texts(args@) =~= want);
    args
}

} // verus!
