//! Capture of sound: where it is taken from, how its loss is noticed, and how
//! the stream is framed and taken up again when it ends.

use crate::bytes;
use crate::clock::{Duration, SECOND};
use crate::json;
use crate::json::{Json, Tree};
use crate::telemetry;
use crate::telemetry::{Event, EventView};
use crate::text;
use crate::text::{
    as_opt_str, cat, cat3, chars_of, clone_opt, contains, decimal_u64, lines, lossy, lower,
    parse_u64, push_to, rsplit_once, same_opt, same_str, split_str, string_of, strip_prefix, trim,
    utf8_text,
};
use std::collections::VecDeque;
use vstd::prelude::*;

verus! {

/// How many of the latest samples are kept for drawing.
pub const CAP: usize = 2048;

/// The sample rate of the capture, in samples a second.
pub const RATE_HZ: u32 = 44100;

/// The bits of the `f32` nearest to 0.0001: a louder sample is a signal.
pub const SIGNAL_FLOOR_BITS: u32 = 0x38D1_B717;

/// The bits of the `f32` infinity.
pub const INFINITY_BITS: u32 = 0x7F80_0000;

pub const SPAWN_BACKOFF_MIN_MS: u64 = 1000;

pub const SPAWN_BACKOFF_MAX_MS: u64 = 30_000;

/// How long to wait before a capture that has given sound is taken up again.
pub const RESUME_MS: u64 = 300;

/// The time between two looks at what is playing, in seconds.
pub const WATCH_TICK_SECS: u64 = 2;

/// So many looks in a row have to agree before a capture is moved.
pub const WATCH_AGREE: u32 = 2;

/// The level of sound is reported this often, in seconds.
pub const LEVEL_PERIOD_SECS: u64 = 10;

/// Silence is reported after so many seconds.
pub const SILENCE_AFTER_SECS: u64 = 60;

// ---------------------------------------------------------------------------
// Waiting and arguments
// ---------------------------------------------------------------------------

/// The wait after `fails` failures in a row: it doubles with each, from one
/// second to half a minute.
pub open spec fn spawn_backoff_of(fails: nat) -> nat {
    if fails >= 5 {
        SPAWN_BACKOFF_MAX_MS as nat
    } else {
        SPAWN_BACKOFF_MIN_MS as nat * vstd::arithmetic::power2::pow2(fails)
    }
}

/// The wait in milliseconds after `fails` failures in a row.
pub fn spawn_backoff_ms(fails: u32) -> (r: u64)
    ensures
        r == spawn_backoff_of(fails as nat),
{
    proof {
        vstd::arithmetic::power2::lemma2_to64();
    }
    match fails {
        0 => SPAWN_BACKOFF_MIN_MS,
        1 => 2000,
        2 => 4000,
        3 => 8000,
        4 => 16_000,
        _ => SPAWN_BACKOFF_MAX_MS,
    }
}

/// The wait never shrinks as failures go on, and stays within its bounds.
pub proof fn backoff_grows(a: nat, b: nat)
    requires
        a <= b,
    ensures
        SPAWN_BACKOFF_MIN_MS <= spawn_backoff_of(a) <= spawn_backoff_of(b) <= SPAWN_BACKOFF_MAX_MS,
{
    vstd::arithmetic::power2::lemma2_to64();
}

/// The wait doubles with each failure, from one second on, until it is half a
/// minute.
pub proof fn backoff_doubles(fails: nat)
    ensures
        spawn_backoff_of(0) == 1000,
        spawn_backoff_of(fails + 1) == if spawn_backoff_of(fails) >= 15_000 {
            30_000
        } else {
            2 * spawn_backoff_of(fails)
        },
{
    vstd::arithmetic::power2::lemma2_to64();
    if fails < 5 {
        vstd::arithmetic::power2::lemma_pow2_unfold(fails + 1);
    }
}

/// What the recorder is started with.
pub open spec fn record_args_of(target: Option<Seq<char>>, capture_sink: bool) -> Seq<Seq<char>> {
    seq!["--rate"@, "44100"@, "--channels"@, "1"@, "--format"@, "f32"@] + (if capture_sink {
        seq!["-P"@, "{ stream.capture.sink = true }"@]
    } else {
        Seq::empty()
    }) + (match target {
        Some(t) => seq!["--target"@, t],
        None => Seq::empty(),
    }) + seq!["-"@]
}

/// What the recorder is started with, to record `target`, and what goes out
/// through it where `capture_sink` is set.
pub fn record_args(target: Option<&str>, capture_sink: bool) -> (r: Vec<String>)
    ensures
        text::texts(r@) == record_args_of(text::opt_str(target), capture_sink),
{
    let mut args: Vec<String> = Vec::new();
    assert(text::texts(args@) =~= Seq::empty());
    push_to(&mut args, "--rate");
    push_to(&mut args, "44100");
    push_to(&mut args, "--channels");
    push_to(&mut args, "1");
    push_to(&mut args, "--format");
    push_to(&mut args, "f32");
    if capture_sink {
        push_to(&mut args, "-P");
        push_to(&mut args, "{ stream.capture.sink = true }");
    }
    if let Some(t) = target {
        push_to(&mut args, "--target");
        push_to(&mut args, t);
    }
    push_to(&mut args, "-");
    assert(text::texts(args@) =~= record_args_of(text::opt_str(target), capture_sink));
    args
}

// ---------------------------------------------------------------------------
// Samples
// ---------------------------------------------------------------------------

/// The bits of a sample without its sign.
pub open spec fn magnitude_of(bits: u32) -> u32 {
    bits % 0x8000_0000
}

/// A sample, given by the bits of its `f32`, that is louder than the floor. The
/// bits of numbers without a sign are in the order of the numbers, and what is
/// beyond infinity is no number.
pub open spec fn loud_of(bits: u32) -> bool {
    SIGNAL_FLOOR_BITS < magnitude_of(bits) <= INFINITY_BITS
}

/// Whether a batch of samples, given by the bits of each, holds a signal.
pub fn has_signal(batch: &[u32]) -> (r: bool)
    ensures
        r == exists|i: int| 0 <= i < batch@.len() && loud_of(#[trigger] batch@[i]),
{
    let mut i: usize = 0;
    while i < batch.len()
        invariant
            i <= batch@.len(),
            forall|k: int| 0 <= k < i ==> !loud_of(#[trigger] batch@[k]),
        decreases batch.len() - i,
    {
        let m: u32 = batch[i] % 0x8000_0000;
        if SIGNAL_FLOOR_BITS < m && m <= INFINITY_BITS {
            assert(loud_of(batch@[i as int]));
            return true;
        }
        i = i + 1;
    }
    false
}

/// A sample that is a finite number.
pub open spec fn finite_of(bits: u32) -> bool {
    magnitude_of(bits) < INFINITY_BITS
}

/// The loudest of the finite samples, without its sign; 0 where there is none.
pub open spec fn peak_of(batch: Seq<u32>) -> u32
    decreases batch.len(),
{
    if batch.len() == 0 {
        0
    } else {
        let p = peak_of(batch.drop_last());
        let m = magnitude_of(batch.last());
        if finite_of(batch.last()) && m > p {
            m
        } else {
            p
        }
    }
}

/// How many of the samples are finite.
pub open spec fn finite_count(batch: Seq<u32>) -> nat
    decreases batch.len(),
{
    if batch.len() == 0 {
        0
    } else {
        finite_count(batch.drop_last()) + if finite_of(batch.last()) {
            1nat
        } else {
            0nat
        }
    }
}

/// The loudest sample since the last report, and how many were finite.
pub struct Level {
    pub peak: u32,
    pub count: usize,
}

/// Whether a report of the level is due, `waited` after the last one.
pub open spec fn due_of(peak: u32, count: nat, waited: int) -> bool {
    count > 0 && waited >= LEVEL_PERIOD_SECS * SECOND && (peak > SIGNAL_FLOOR_BITS || waited
        >= SILENCE_AFTER_SECS * SECOND)
}

/// The level of sound is reported every ten seconds, of silence every minute,
/// and never before a sample has come.
pub proof fn silence_is_reported_less_often(peak: u32, count: nat, waited: int)
    ensures
        !due_of(peak, 0, waited),
        waited < 10_000_000_000 ==> !due_of(peak, count, waited),
        waited >= 60_000_000_000 && count > 0 ==> due_of(peak, count, waited),
        10_000_000_000 <= waited < 60_000_000_000 && count > 0 ==> (due_of(peak, count, waited)
            <==> peak > 0x38D1_B717),
{
}

/// No finite sample is louder than the peak, and the peak is a sample that was
/// there; what is not finite neither counts nor is heard. A signal is there
/// where the peak is above the floor, or a sample is infinite.
pub proof fn peak_is_the_loudest(batch: Seq<u32>)
    ensures
        forall|i: int|
            0 <= i < batch.len() && finite_of(#[trigger] batch[i]) ==> magnitude_of(batch[i])
                <= peak_of(batch),
        peak_of(batch) != 0 ==> exists|i: int|
            0 <= i < batch.len() && finite_of(#[trigger] batch[i]) && magnitude_of(batch[i])
                == peak_of(batch),
        finite_count(batch) <= batch.len(),
        (forall|i: int| 0 <= i < batch.len() ==> finite_of(#[trigger] batch[i])) ==> finite_count(
            batch,
        ) == batch.len(),
        (forall|i: int| 0 <= i < batch.len() ==> !finite_of(#[trigger] batch[i])) ==> finite_count(
            batch,
        ) == 0,
    decreases batch.len(),
{
    if batch.len() > 0 {
        let init = batch.drop_last();
        peak_is_the_loudest(init);
        assert forall|i: int| 0 <= i < batch.len() && finite_of(#[trigger] batch[i]) implies
            magnitude_of(batch[i]) <= peak_of(batch) by {
            if i < init.len() {
                assert(init[i] == batch[i]);
            }
        }
        if peak_of(batch) != 0 {
            if peak_of(batch) == peak_of(init) {
                let i = choose|i: int|
                    0 <= i < init.len() && finite_of(#[trigger] init[i]) && magnitude_of(init[i])
                        == peak_of(init);
                assert(batch[i] == init[i]);
            } else {
                assert(batch[batch.len() - 1] == batch.last());
            }
        }
        assert(batch[batch.len() - 1] == batch.last());
        assert forall|i: int| 0 <= i < init.len() implies #[trigger] init[i] == batch[i] by {}
        if forall|i: int| 0 <= i < batch.len() ==> finite_of(#[trigger] batch[i]) {
            assert forall|i: int| 0 <= i < init.len() implies finite_of(#[trigger] init[i]) by {
                assert(finite_of(batch[i]));
            }
        }
        if forall|i: int| 0 <= i < batch.len() ==> !finite_of(#[trigger] batch[i]) {
            assert forall|i: int| 0 <= i < init.len() implies !finite_of(#[trigger] init[i]) by {
                assert(!finite_of(batch[i]));
            }
        }
    }
}

/// The sign of a sample does not make it louder, silence is no signal, and what
/// is louder than a signal is one as well.
pub proof fn signal_is_above_the_floor(a: u32, b: u32)
    ensures
        a < 0x8000_0000 ==> magnitude_of(a) == a && magnitude_of((a + 0x8000_0000) as u32) == a,
        a <= 0x38D1_B717 ==> !loud_of(a),
        0x38D1_B717 < a <= 0x7F80_0000 ==> loud_of(a),
        loud_of(a) && magnitude_of(a) <= magnitude_of(b) && finite_of(b) ==> loud_of(b),
        finite_of(a) <==> magnitude_of(a) < 0x7F80_0000,
{
}

impl Level {
    pub fn new() -> (r: Level)
        ensures
            r.peak == 0,
            r.count == 0,
    {
        Level { peak: 0, count: 0 }
    }

    /// Takes in a batch of samples; those that are not finite do not count.
    pub fn add(&mut self, batch: &[u32])
        requires
            old(self).count + batch@.len() <= usize::MAX,
        ensures
            final(self).peak == if peak_of(batch@) > old(self).peak {
                peak_of(batch@)
            } else {
                old(self).peak
            },
            final(self).count == old(self).count + finite_count(batch@),
    {
        let mut i: usize = 0;
        assert(batch@.take(0) =~= Seq::empty());
        while i < batch.len()
            invariant
                i <= batch@.len(),
                old(self).count + batch@.len() <= usize::MAX,
                finite_count(batch@.take(i as int)) <= i,
                self.peak == if peak_of(batch@.take(i as int)) > old(self).peak {
                    peak_of(batch@.take(i as int))
                } else {
                    old(self).peak
                },
                self.count == old(self).count + finite_count(batch@.take(i as int)),
            decreases batch.len() - i,
        {
            assert(batch@.take(i + 1).drop_last() =~= batch@.take(i as int));
            let m: u32 = batch[i] % 0x8000_0000;
            if m < INFINITY_BITS {
                if m > self.peak {
                    self.peak = m;
                }
                self.count = self.count + 1;
            }
            i = i + 1;
        }
        assert(batch@.take(batch@.len() as int) =~= batch@);
    }

    /// Whether a report is due, `waited` after the last one: sound is reported
    /// every ten seconds, silence every minute, nothing at all never.
    pub fn due(&self, waited: Duration) -> (r: bool)
        ensures
            r == due_of(self.peak, self.count as nat, waited@),
    {
        if self.count == 0 {
            return false;
        }
        waited.at_least(LEVEL_PERIOD_SECS) && (self.peak > SIGNAL_FLOOR_BITS || waited.at_least(
            SILENCE_AFTER_SECS,
        ))
    }

    /// The loudest sample, and how many there were; both start anew.
    pub fn take(&mut self) -> (r: (u32, usize))
        ensures
            r == (old(self).peak, old(self).count),
            final(self).peak == 0,
            final(self).count == 0,
    {
        let r = (self.peak, self.count);
        self.peak = 0;
        self.count = 0;
        r
    }
}

/// The last `cap` of the samples.
pub open spec fn latest_of(samples: Seq<u32>, cap: nat) -> Seq<u32> {
    if samples.len() <= cap {
        samples
    } else {
        samples.skip(samples.len() - cap)
    }
}

/// The samples that are kept are the end of all that came: as many as there is
/// room for, in their order.
pub proof fn kept_samples_are_the_end(samples: Seq<u32>, cap: nat, i: int)
    ensures
        latest_of(samples, cap).len() == if samples.len() < cap {
            samples.len()
        } else {
            cap
        },
        0 <= i < latest_of(samples, cap).len() ==> latest_of(samples, cap)[latest_of(
            samples,
            cap,
        ).len() - 1 - i] == samples[samples.len() - 1 - i],
{
}

/// Puts a batch behind the samples that are kept, of which the latest stay.
pub fn keep_latest(ring: &mut VecDeque<u32>, batch: &[u32])
    requires
        old(ring)@.len() <= CAP,
    ensures
        final(ring)@ == latest_of(old(ring)@ + batch@, CAP as nat),
        final(ring)@.len() <= CAP,
{
    let mut i: usize = 0;
    assert(old(ring)@ + batch@.take(0) =~= old(ring)@);
    while i < batch.len()
        invariant
            i <= batch@.len(),
            ring@.len() <= CAP,
            ring@ == latest_of(old(ring)@ + batch@.take(i as int), CAP as nat),
        decreases batch.len() - i,
    {
        let ghost was = old(ring)@ + batch@.take(i as int);
        let ghost now = old(ring)@ + batch@.take(i + 1);
        assert(now =~= was.push(batch@[i as int]));
        if ring.len() >= CAP {
            ring.pop_front();
        }
        ring.push_back(batch[i]);
        assert(ring@ =~= latest_of(now, CAP as nat));
        i = i + 1;
    }
    assert(batch@.take(batch@.len() as int) =~= batch@);
}

// ---------------------------------------------------------------------------
// Silence
// ---------------------------------------------------------------------------

/// Sound was lost, or is back, after so many seconds of silence.
#[derive(Debug, Clone, Copy, PartialEq, Eq, Structural)]
pub enum SoundChange {
    Lost(u64),
    Back(u64),
}

pub open spec fn track_silence_of(signal: bool, silent_for: int, reported: bool) -> Option<
    SoundChange,
> {
    let secs = (silent_for / SECOND as int) as u64;
    if signal && reported {
        Some(SoundChange::Back(secs))
    } else if !signal && !reported && silent_for >= SILENCE_AFTER_SECS * SECOND {
        Some(SoundChange::Lost(secs))
    } else {
        None
    }
}

/// What is reported of sound: its loss once, after a minute, and its return
/// where the loss was reported.
pub fn track_silence(signal: bool, silent_for: Duration, reported: bool) -> (r: Option<SoundChange>)
    ensures
        r == track_silence_of(signal, silent_for@, reported),
{
    if signal && reported {
        Some(SoundChange::Back(silent_for.as_secs()))
    } else if !signal && !reported && silent_for.at_least(SILENCE_AFTER_SECS) {
        Some(SoundChange::Lost(silent_for.as_secs()))
    } else {
        None
    }
}

/// Whether the loss of sound counts as reported after a change.
pub open spec fn reported_after(change: Option<SoundChange>, reported: bool) -> bool {
    match change {
        Some(SoundChange::Lost(_)) => true,
        Some(SoundChange::Back(_)) => false,
        None => reported,
    }
}

/// A loss is reported once: while it lasts, whatever its length, there is no
/// second report of it.
pub proof fn loss_is_reported_once(silent_for: int, later: int)
    ensures
        ({
            let first = track_silence_of(false, silent_for, false);
            first is Some ==> track_silence_of(false, later, reported_after(first, false)) is None
        }),
{
}

// ---------------------------------------------------------------------------
/// A loss is told after a minute of silence and not before, its end with the
/// first sound behind it, and sound that was not lost is never told to be back.
pub proof fn loss_and_return_alternate(silent_for: int, reported: bool, signal: bool)
    requires
        0 <= silent_for <= u64::MAX * SECOND,
    ensures
        track_silence_of(false, silent_for, false) is Some <==> silent_for >= 60_000_000_000,
        track_silence_of(true, silent_for, false) is None,
        track_silence_of(true, silent_for, true) is Some,
        track_silence_of(false, silent_for, true) is None,
        match track_silence_of(signal, silent_for, reported) {
            Some(SoundChange::Lost(n)) => !signal && !reported && n * 1_000_000_000 <= silent_for
                < (n + 1) * 1_000_000_000,
            Some(SoundChange::Back(n)) => signal && reported && n * 1_000_000_000 <= silent_for
                < (n + 1) * 1_000_000_000,
            None => true,
        },
        !reported_after(track_silence_of(true, silent_for, reported), reported),
        reported ==> reported_after(track_silence_of(false, silent_for, reported), reported),
{
}

// Devices
// ---------------------------------------------------------------------------

/// A source of sound: what the recorder calls it, what it is saved under and
/// what it is shown as.
#[derive(Debug, PartialEq)]
pub struct Device {
    pub target: String,
    pub key: String,
    pub label: String,
}

/// What a device is.
pub struct DeviceView {
    pub target: Seq<char>,
    pub key: Seq<char>,
    pub label: Seq<char>,
}

impl View for Device {
    type V = DeviceView;

    open spec fn view(&self) -> DeviceView {
        DeviceView { target: self.target@, key: self.key@, label: self.label@ }
    }
}

/// What the devices of a list are.
pub open spec fn devices(list: Seq<Device>) -> Seq<DeviceView> {
    list.map_values(|d: Device| d@)
}

/// An optional device.
pub open spec fn opt_device(d: Option<Device>) -> Option<DeviceView> {
    match d {
        Some(x) => Some(x@),
        None => None,
    }
}

/// What stands behind `prefix` in the last of the lines that begins with it,
/// white space around a line aside.
pub open spec fn last_behind(ls: Seq<Seq<char>>, prefix: Seq<char>) -> Option<Seq<char>>
    decreases ls.len(),
{
    if ls.len() == 0 {
        None
    } else {
        match text::strip_prefix_of(text::trim_of(ls.last()), prefix) {
            Some(v) => Some(v),
            None => last_behind(ls.drop_last(), prefix),
        }
    }
}

/// A line that says that the source repeats what goes out through a sink.
pub open spec fn names_a_sink(line: Seq<char>) -> bool {
    match text::strip_prefix_of(text::trim_of(line), "Monitor of Sink: "@) {
        Some(v) => v != "n/a"@,
        None => false,
    }
}

/// The microphone that a block of the list of sources describes: none where it
/// has no name, or repeats a sink.
pub open spec fn parse_mic_of(block: Seq<char>) -> Option<DeviceView> {
    let ls = text::lines_of(block);
    if exists|i: int| 0 <= i < ls.len() && names_a_sink(#[trigger] ls[i]) {
        None
    } else {
        match last_behind(ls, "Name: "@) {
            Some(name) => Some(
                DeviceView {
                    target: name,
                    key: name,
                    label: "🎤 "@ + match last_behind(ls, "Description: "@) {
                        Some(desc) => desc,
                        None => name,
                    },
                },
            ),
            None => None,
        }
    }
}

proof fn lemma_prefixes_differ(line: Seq<char>)
    ensures
        text::strip_prefix_of(line, "Name: "@) is Some ==> text::strip_prefix_of(line, "Description: "@) is None
            && text::strip_prefix_of(line, "Monitor of Sink: "@) is None,
        text::strip_prefix_of(line, "Description: "@) is Some ==> text::strip_prefix_of(
            line,
            "Monitor of Sink: "@,
        ) is None,
{
    reveal_strlit("Name: ");
    reveal_strlit("Description: ");
    reveal_strlit("Monitor of Sink: ");
    if text::starts_of(line, "Name: "@) {
        assert(line[0] == line.subrange(0, 6)[0]);
        assert(line[0] == 'N');
    }
    if text::starts_of(line, "Description: "@) {
        assert(line[0] == line.subrange(0, 13)[0]);
        assert(line[0] == 'D');
    }
    if text::starts_of(line, "Monitor of Sink: "@) {
        assert(line[0] == line.subrange(0, 17)[0]);
        assert(line[0] == 'M');
    }
}

/// The microphone that a block of the list of sources describes.
pub fn parse_mic(block: &str) -> (r: Option<Device>)
    ensures
        opt_device(r) == parse_mic_of(block@),
{
    let chars = chars_of(block);
    let ls = lines(chars.as_slice());
    let ghost all = text::lines_of(block@);
    let name_is = chars_of("Name: ");
    let desc_is = chars_of("Description: ");
    let monitor_of = chars_of("Monitor of Sink: ");
    let mut name: Option<String> = None;
    let mut desc: Option<String> = None;
    let mut is_monitor = false;
    let mut i: usize = 0;
    while i < ls.len()
        invariant
            i <= ls@.len(),
            all == text::views(ls@),
            name_is@ == "Name: "@,
            desc_is@ == "Description: "@,
            monitor_of@ == "Monitor of Sink: "@,
            text::opt_text(name) == last_behind(all.take(i as int), "Name: "@),
            text::opt_text(desc) == last_behind(all.take(i as int), "Description: "@),
            is_monitor == exists|k: int| 0 <= k < i && names_a_sink(#[trigger] all[k]),
        decreases ls.len() - i,
    {
        assert(all.take(i + 1).drop_last() =~= all.take(i as int));
        assert(all.take(i + 1).last() == all[i as int] && all[i as int] == ls@[i as int]@);
        let t = trim(ls[i]);
        proof {
            lemma_prefixes_differ(t@);
        }
        if let Some(v) = strip_prefix(t, name_is.as_slice()) {
            name = Some(string_of(v));
        } else if let Some(v) = strip_prefix(t, desc_is.as_slice()) {
            desc = Some(string_of(v));
        } else if let Some(v) = strip_prefix(t, monitor_of.as_slice()) {
            let na = chars_of("n/a");
            if !text::same(v, na.as_slice()) {
                assert(names_a_sink(all[i as int]));
                is_monitor = true;
            }
        }
        i = i + 1;
    }
    assert(all.take(all.len() as int) =~= all);
    if is_monitor {
        return None;
    }
    match name {
        Some(n) => {
            let label = match desc {
                Some(d) => cat("🎤 ", d.as_str()),
                None => cat("🎤 ", n.as_str()),
            };
            Some(Device { key: n.clone(), target: n, label })
        },
        None => None,
    }
}

/// A microphone is recorded under the name in its block, and a source that
/// repeats a sink is none. `i` is the last line that gives a name.
pub proof fn microphone_is_named_by_its_line(block: Seq<char>, i: int, name: Seq<char>)
    requires
        0 <= i < text::lines_of(block).len(),
        text::trim_of(text::lines_of(block)[i]) == "Name: "@ + name,
        forall|j: int|
            i < j < text::lines_of(block).len() ==> !text::starts_of(
                text::trim_of(#[trigger] text::lines_of(block)[j]),
                "Name: "@,
            ),
    ensures
        match parse_mic_of(block) {
            Some(d) => {
                &&& d.target == name && d.key == name
                &&& text::starts_of(d.label, "🎤 "@)
                &&& forall|j: int, sink: Seq<char>|
                    0 <= j < text::lines_of(block).len() && text::trim_of(
                        #[trigger] text::lines_of(block)[j],
                    ) == #[trigger] ("Monitor of Sink: "@ + sink) ==> sink == "n/a"@
            },
            None => exists|j: int|
                0 <= j < text::lines_of(block).len() && text::starts_of(
                    text::trim_of(#[trigger] text::lines_of(block)[j]),
                    "Monitor of Sink: "@,
                ),
        },
{
    let ls = text::lines_of(block);
    lemma_last_behind(ls, "Name: "@, i, name);
    match parse_mic_of(block) {
        Some(d) => {
            let icon = "🎤 "@;
            assert(d.label.subrange(0, icon.len() as int) =~= icon);
            let m = "Monitor of Sink: "@;
            assert forall|j: int, sink: Seq<char>|
                0 <= j < ls.len() && text::trim_of(#[trigger] ls[j]) == #[trigger] (m
                    + sink) implies sink == "n/a"@ by {
                assert(!names_a_sink(ls[j]));
                assert((m + sink).subrange(0, m.len() as int) =~= m);
                assert((m + sink).skip(m.len() as int) =~= sink);
            }
        },
        None => {
            let j = choose|j: int| 0 <= j < ls.len() && names_a_sink(#[trigger] ls[j]);
            assert(text::starts_of(text::trim_of(ls[j]), "Monitor of Sink: "@));
        },
    }
}

proof fn lemma_last_behind(ls: Seq<Seq<char>>, prefix: Seq<char>, i: int, v: Seq<char>)
    requires
        0 <= i < ls.len(),
        text::trim_of(ls[i]) == prefix + v,
        forall|j: int|
            i < j < ls.len() ==> !text::starts_of(text::trim_of(#[trigger] ls[j]), prefix),
    ensures
        last_behind(ls, prefix) == Some(v),
    decreases ls.len(),
{
    if i == ls.len() - 1 {
        let t = prefix + v;
        assert(t.subrange(0, prefix.len() as int) =~= prefix);
        assert(t.skip(prefix.len() as int) =~= v);
    } else {
        assert(!text::starts_of(text::trim_of(ls[ls.len() - 1]), prefix));
        let init = ls.drop_last();
        assert forall|j: int| i < j < init.len() implies !text::starts_of(
            text::trim_of(#[trigger] init[j]),
            prefix,
        ) by {
            assert(init[j] == ls[j]);
        }
        lemma_last_behind(init, prefix, i, v);
    }
}

/// The microphones that the blocks describe.
pub open spec fn mics_of(blocks: Seq<Seq<char>>) -> Seq<DeviceView>
    decreases blocks.len(),
{
    if blocks.len() == 0 {
        Seq::empty()
    } else {
        let init = mics_of(blocks.drop_last());
        match parse_mic_of(blocks.last()) {
            Some(d) => init.push(d),
            None => init,
        }
    }
}

/// The microphones in a list of sources, each of which follows a heading.
pub open spec fn parse_mics_of(listing: Seq<char>) -> Seq<DeviceView> {
    mics_of(text::split_str_of(listing, "Source #"@).skip(1))
}

/// Every block that describes a microphone gives one, in the order of the blocks,
/// and the others give none.
pub proof fn microphones_are_listed_in_turn(a: Seq<Seq<char>>, block: Seq<char>, b: Seq<Seq<char>>)
    ensures
        mics_of(a + seq![block] + b) == match parse_mic_of(block) {
            Some(d) => mics_of(a) + seq![d] + mics_of(b),
            None => mics_of(a) + mics_of(b),
        },
    decreases b.len(),
{
    let all = a + seq![block] + b;
    if b.len() > 0 {
        microphones_are_listed_in_turn(a, block, b.drop_last());
        assert(all.drop_last() =~= a + seq![block] + b.drop_last());
        assert(all.last() == b.last());
    } else {
        assert(all.drop_last() =~= a && all.last() == block);
    }
    match parse_mic_of(block) {
        Some(d) => {
            assert(mics_of(all) =~= mics_of(a) + seq![d] + mics_of(b));
        },
        None => {
            assert(mics_of(all) =~= mics_of(a) + mics_of(b));
        },
    }
}

/// The microphones in a list of sources.
pub fn parse_mics(listing: &str) -> (r: Vec<Device>)
    ensures
        devices(r@) == parse_mics_of(listing@),
{
    let chars = chars_of(listing);
    let mark = chars_of("Source #");
    proof {
        reveal_strlit("Source #");
    }
    let parts = split_str(chars.as_slice(), mark.as_slice());
    let ghost all = text::split_str_of(listing@, "Source #"@);
    let ghost blocks = all.skip(1);
    let mut out: Vec<Device> = Vec::new();
    let mut i: usize = 1;
    assert(blocks.take(0) =~= Seq::empty());
    assert(devices(out@) =~= Seq::empty());
    assert(all.len() >= 1);
    while i < parts.len()
        invariant
            1 <= i <= parts@.len(),
            all == text::views(parts@),
            blocks == all.skip(1),
            devices(out@) == mics_of(blocks.take(i - 1)),
        decreases parts.len() - i,
    {
        assert(blocks.take(i as int).drop_last() =~= blocks.take(i - 1));
        assert(blocks.take(i as int).last() == parts@[i as int]@);
        let ghost was = devices(out@);
        if let Some(d) = parse_mic(string_of(parts[i]).as_str()) {
            out.push(d);
            assert(devices(out@) =~= was.push(d@));
        }
        i = i + 1;
    }
    assert(blocks.take(blocks.len() as int) =~= blocks);
    out
}

/// The microphones in what the lister of sources printed; none where it failed.
pub fn list_mics(output: Option<&[u8]>) -> (r: Vec<Device>)
    ensures
        devices(r@) == match output {
            Some(bytes) => parse_mics_of(text::lossy_of(bytes@)),
            None => Seq::empty(),
        },
{
    match output {
        Some(bytes) => parse_mics(lossy(bytes).as_str()),
        None => {
            let r: Vec<Device> = Vec::new();
            assert(devices(r@) =~= Seq::empty());
            r
        },
    }
}

/// The target of the first device whose target or label, in lower case, names
/// the preferred make. `lowered` holds both of each device in lower case.
pub open spec fn pick_jabra_of(
    list: Seq<DeviceView>,
    lowered: Seq<(Seq<char>, Seq<char>)>,
) -> Option<Seq<char>>
    decreases list.len(),
{
    if list.len() == 0 {
        None
    } else if text::contains_of(lowered[0].0, "jabra"@) || text::contains_of(lowered[0].1, "jabra"@) {
        Some(list[0].target)
    } else {
        pick_jabra_of(list.skip(1), lowered.skip(1))
    }
}

/// The microphone that is preferred is the first that names the make, in its
/// target or its label; there is none only where no device names it.
pub proof fn first_of_the_make_is_picked(
    list: Seq<DeviceView>,
    lowered: Seq<(Seq<char>, Seq<char>)>,
    i: int,
)
    requires
        list.len() == lowered.len(),
        0 <= i < list.len(),
        text::contains_of(lowered[i].0, "jabra"@) || text::contains_of(lowered[i].1, "jabra"@),
        forall|j: int|
            0 <= j < i ==> !text::contains_of((#[trigger] lowered[j]).0, "jabra"@)
                && !text::contains_of(lowered[j].1, "jabra"@),
    ensures
        pick_jabra_of(list, lowered) == Some(list[i].target),
    decreases list.len(),
{
    if i > 0 {
        assert(!text::contains_of(lowered[0].0, "jabra"@));
        let rest = lowered.skip(1);
        assert forall|j: int| 0 <= j < i - 1 implies !text::contains_of(
            (#[trigger] rest[j]).0,
            "jabra"@,
        ) && !text::contains_of(rest[j].1, "jabra"@) by {
            assert(rest[j] == lowered[j + 1]);
        }
        first_of_the_make_is_picked(list.skip(1), rest, i - 1);
    }
}

/// Where no device names the make none is preferred.
pub proof fn other_makes_are_not_picked(
    list: Seq<DeviceView>,
    lowered: Seq<(Seq<char>, Seq<char>)>,
)
    requires
        list.len() == lowered.len(),
        forall|j: int|
            0 <= j < list.len() ==> !text::contains_of((#[trigger] lowered[j]).0, "jabra"@)
                && !text::contains_of(lowered[j].1, "jabra"@),
    ensures
        pick_jabra_of(list, lowered) is None,
    decreases list.len(),
{
    if list.len() > 0 {
        assert(!text::contains_of(lowered[0].0, "jabra"@));
        let rest = lowered.skip(1);
        assert forall|j: int| 0 <= j < rest.len() implies !text::contains_of(
            (#[trigger] rest[j]).0,
            "jabra"@,
        ) && !text::contains_of(rest[j].1, "jabra"@) by {
            assert(rest[j] == lowered[j + 1]);
        }
        other_makes_are_not_picked(list.skip(1), rest);
    }
}

/// Pairs of texts.
pub open spec fn text_pairs(v: Seq<(String, String)>) -> Seq<(Seq<char>, Seq<char>)> {
    v.map_values(|p: (String, String)| (p.0@, p.1@))
}

/// The target of the first device whose lower case texts name the preferred
/// make.
pub fn pick_jabra(list: &Vec<Device>, lowered: &Vec<(String, String)>) -> (r: Option<String>)
    requires
        list@.len() == lowered@.len(),
    ensures
        text::opt_text(r) == pick_jabra_of(devices(list@), text_pairs(lowered@)),
{
    let jabra = chars_of("jabra");
    let ghost ds = devices(list@);
    let ghost ls = text_pairs(lowered@);
    let mut i: usize = 0;
    assert(ds.skip(0) =~= ds && ls.skip(0) =~= ls);
    while i < list.len()
        invariant
            i <= list@.len(),
            list@.len() == lowered@.len(),
            jabra@ == "jabra"@,
            ds == devices(list@),
            ls == text_pairs(lowered@),
            pick_jabra_of(ds, ls) == pick_jabra_of(ds.skip(i as int), ls.skip(i as int)),
        decreases list.len() - i,
    {
        assert(ds.skip(i as int)[0] == list@[i as int]@);
        assert(ls.skip(i as int)[0] == (lowered@[i as int].0@, lowered@[i as int].1@));
        assert(ds.skip(i as int).skip(1) =~= ds.skip(i + 1));
        assert(ls.skip(i as int).skip(1) =~= ls.skip(i + 1));
        if contains(chars_of(lowered[i].0.as_str()).as_slice(), jabra.as_slice()) || contains(
            chars_of(lowered[i].1.as_str()).as_slice(),
            jabra.as_slice(),
        ) {
            return Some(list[i].target.clone());
        }
        i = i + 1;
    }
    None
}

/// The target and the label of each device in lower case.
pub open spec fn lowered_of(list: Seq<DeviceView>) -> Seq<(Seq<char>, Seq<char>)> {
    list.map_values(|d: DeviceView| (text::lower_of(d.target), text::lower_of(d.label)))
}

/// The microphone that is taken where none was chosen: the first of the
/// preferred make.
pub fn jabra_target(mics: &Vec<Device>) -> (r: Option<String>)
    ensures
        text::opt_text(r) == pick_jabra_of(devices(mics@), lowered_of(devices(mics@))),
{
    let ghost ds = devices(mics@);
    let mut lowered: Vec<(String, String)> = Vec::new();
    let mut i: usize = 0;
    while i < mics.len()
        invariant
            i <= mics@.len(),
            ds == devices(mics@),
            lowered@.len() == i,
            forall|k: int|
                0 <= k < i ==> (#[trigger] lowered@[k]).0@ == text::lower_of(ds[k].target)
                    && lowered@[k].1@ == text::lower_of(ds[k].label),
        decreases mics.len() - i,
    {
        lowered.push((lower(mics[i].target.as_str()), lower(mics[i].label.as_str())));
        i = i + 1;
    }
    assert(text_pairs(lowered@) =~= lowered_of(ds));
    pick_jabra(mics, &lowered)
}

// ---------------------------------------------------------------------------
// Programs that play sound
// ---------------------------------------------------------------------------

/// A key without the number that tells it from others of the same name.
pub open spec fn base_key_of(key: Seq<char>) -> Seq<char> {
    match text::rsplit_once_of(key, " #"@) {
        Some((head, tail)) if tail.len() > 0 && text::all_digits(tail) => head,
        _ => key,
    }
}

/// A key without the number that tells it from others of the same name.
pub fn base_key(key: &str) -> (r: &str)
    ensures
        r@ == base_key_of(key@),
{
    let chars = chars_of(key);
    let mark = chars_of(" #");
    match rsplit_once(chars.as_slice(), mark.as_slice()) {
        Some((head, tail)) => {
            if tail.len() == 0 {
                return key;
            }
            let mut i: usize = 0;
            while i < tail.len()
                invariant
                    i <= tail@.len(),
                    text::rsplit_once_of(key@, " #"@) == Some((head@, tail@)),
                    forall|k: int| 0 <= k < i ==> text::is_digit_of(#[trigger] tail@[k]),
                decreases tail.len() - i,
            {
                if !text::is_digit(tail[i]) {
                    return key;
                }
                i = i + 1;
            }
            proof {
                text::lemma_rfind_upto(key@, " #"@, key@.len() - " #"@.len());
            }
            let r = key.substring_char(0, head.len());
            assert(r@ =~= head@);
            r
        },
        None => key,
    }
}

/// The first device from place `i` on with the key `key`, or with the same key
/// but for the number.
pub open spec fn first_from(list: Seq<DeviceView>, key: Seq<char>, exact: bool, i: int) -> Option<
    int,
>
    decreases list.len() - i,
{
    if i < 0 || i >= list.len() {
        None
    } else if (exact && list[i].key == key) || (!exact && base_key_of(list[i].key) == base_key_of(
        key,
    )) {
        Some(i)
    } else {
        first_from(list, key, exact, i + 1)
    }
}

/// The place of the device that a saved key stands for: the one with that very
/// key, otherwise the first with the same key but for the number.
pub open spec fn match_index_of(list: Seq<DeviceView>, key: Seq<char>) -> Option<int> {
    match first_from(list, key, true, 0) {
        Some(i) => Some(i),
        None => first_from(list, key, false, 0),
    }
}

proof fn lemma_first_from(list: Seq<DeviceView>, key: Seq<char>, exact: bool, i: int)
    requires
        0 <= i,
    ensures
        match first_from(list, key, exact, i) {
            Some(k) => i <= k < list.len() && (exact ==> list[k].key == key) && (!exact
                ==> base_key_of(list[k].key) == base_key_of(key)) && forall|j: int|
                i <= j < k ==> (exact ==> (#[trigger] list[j]).key != key) && (!exact
                    ==> base_key_of(list[j].key) != base_key_of(key)),
            None => forall|j: int|
                i <= j < list.len() ==> (exact ==> (#[trigger] list[j]).key != key) && (!exact
                    ==> base_key_of(list[j].key) != base_key_of(key)),
        },
    decreases list.len() - i,
{
    if i < list.len() {
        lemma_first_from(list, key, exact, i + 1);
    }
}

/// The device that a saved key stands for.
pub fn match_program<'a>(list: &'a [Device], key: &str) -> (r: Option<&'a Device>)
    ensures
        match match_index_of(devices(list@), key@) {
            Some(i) => r matches Some(d) && 0 <= i < list@.len() && *d == list@[i],
            None => r is None,
        },
{
    let ghost ds = devices(list@);
    let mut i: usize = 0;
    while i < list.len()
        invariant
            i <= list@.len(),
            ds == devices(list@),
            first_from(ds, key@, true, 0) == first_from(ds, key@, true, i as int),
        decreases list.len() - i,
    {
        assert(ds[i as int] == list@[i as int]@);
        if same_str(list[i].key.as_str(), key) {
            return Some(&list[i]);
        }
        i = i + 1;
    }
    let base = base_key(key);
    let mut i: usize = 0;
    while i < list.len()
        invariant
            i <= list@.len(),
            ds == devices(list@),
            base@ == base_key_of(key@),
            first_from(ds, key@, true, 0) is None,
            first_from(ds, key@, false, 0) == first_from(ds, key@, false, i as int),
        decreases list.len() - i,
    {
        assert(ds[i as int] == list@[i as int]@);
        if same_str(base_key(list[i].key.as_str()), base) {
            return Some(&list[i]);
        }
        i = i + 1;
    }
    None
}

/// The target that a saved key stands for now.
pub open spec fn program_target_of(list: Seq<DeviceView>, key: Seq<char>) -> Option<Seq<char>> {
    match match_index_of(list, key) {
        Some(i) => Some(list[i].target),
        None => None,
    }
}

/// The target that a saved key stands for now.
pub fn program_target_now(list: &[Device], key: &str) -> (r: Option<String>)
    ensures
        text::opt_text(r) == program_target_of(devices(list@), key@),
{
    match match_program(list, key) {
        Some(d) => Some(d.target.clone()),
        None => None,
    }
}

/// The properties of an object that is a node.
pub open spec fn node_props_of(o: Tree) -> Option<Tree> {
    if json::text_field_of(o, "type"@) != Some("PipeWire:Interface:Node"@) {
        None
    } else {
        info_props_of(o)
    }
}

/// The properties under the details of an object.
pub open spec fn info_props_of(o: Tree) -> Option<Tree> {
    match json::field_of(o, "info"@) {
        Some(info) => json::field_of(info, "props"@),
        None => None,
    }
}

fn info_props(o: &Json) -> (r: Option<&Json>)
    ensures
        match r {
            Some(p) => info_props_of(o@) == Some(p@),
            None => info_props_of(o@) is None,
        },
{
    match o.get("info") {
        Some(info) => info.get("props"),
        None => None,
    }
}

fn is_text(o: &Json, key: &str, value: &str) -> (r: bool)
    ensures
        r == (json::text_field_of(o@, key@) == Some(value@)),
{
    match o.text_field(key) {
        Some(t) => same_str(t, value),
        None => false,
    }
}

/// The properties of an object that is a node.
pub fn node_props(o: &Json) -> (r: Option<&Json>)
    ensures
        match r {
            Some(p) => node_props_of(o@) == Some(p@),
            None => node_props_of(o@) is None,
        },
{
    if !is_text(o, "type", "PipeWire:Interface:Node") {
        return None;
    }
    info_props(o)
}

/// The serial number among properties, as a text.
pub open spec fn serial_of_tree(props: Tree) -> Option<Seq<char>> {
    match json::field_of(props, "object.serial"@) {
        Some(Tree::UInt(n)) => Some(text::decimal_of(n as nat)),
        Some(Tree::Int(n)) => Some(text::decimal_int_of(n as int)),
        Some(Tree::Float(t)) => Some(t),
        Some(Tree::Text(t)) => Some(t),
        _ => None,
    }
}

/// The serial number among properties, as a text.
pub fn serial_of(props: &Json) -> (r: Option<String>)
    ensures
        text::opt_text(r) == serial_of_tree(props@),
{
    match props.get("object.serial") {
        Some(Json::UInt(n)) => Some(decimal_u64(*n)),
        Some(Json::Int(n)) => Some(text::decimal_i64(*n)),
        Some(Json::Float(f)) => Some(f.text()),
        Some(Json::Text(t)) => Some(t.clone()),
        _ => None,
    }
}

/// The name that a program is listed under: of the application, or else of the
/// node, and of what it plays.
pub open spec fn program_key_of(props: Tree) -> Seq<char> {
    let app = match json::text_field_of(props, "application.name"@) {
        Some(s) => s,
        None => match json::text_field_of(props, "node.name"@) {
            Some(s) => s,
            None => "?"@,
        },
    };
    match json::text_field_of(props, "media.name"@) {
        Some(media) if media.len() > 0 => "🔊 "@ + app + " — "@ + media,
        _ => "🔊 "@ + app,
    }
}

/// The program that an object describes: a stream of sound with a serial
/// number, whether it is playing or not.
pub open spec fn program_of(o: Tree) -> Option<DeviceView> {
    match node_props_of(o) {
        Some(props) => if json::text_field_of(props, "media.class"@) != Some("Stream/Output/Audio"@) {
            None
        } else {
            match serial_of_tree(props) {
                Some(target) => Some(
                    DeviceView { target, key: program_key_of(props), label: program_key_of(props) },
                ),
                None => None,
            }
        },
        None => None,
    }
}

fn program(o: &Json) -> (r: Option<Device>)
    ensures
        opt_device(r) == program_of(o@),
{
    let props = match node_props(o) {
        Some(p) => p,
        None => return None,
    };
    if !is_text(props, "media.class", "Stream/Output/Audio") {
        return None;
    }
    let target = match serial_of(props) {
        Some(t) => t,
        None => return None,
    };
    let app = match props.text_field("application.name") {
        Some(s) => s,
        None => match props.text_field("node.name") {
            Some(s) => s,
            None => "?",
        },
    };
    let plain = cat("🔊 ", app);
    let key = match props.text_field("media.name") {
        Some(media) => {
            if chars_of(media).len() > 0 {
                cat3(plain.as_str(), " — ", media)
            } else {
                plain
            }
        },
        None => plain,
    };
    Some(Device { target, label: key.clone(), key })
}

/// The programs that the objects describe, in the order of the objects.
pub open spec fn programs_of(objs: Seq<Tree>) -> Seq<DeviceView>
    decreases objs.len(),
{
    if objs.len() == 0 {
        Seq::empty()
    } else {
        let init = programs_of(objs.drop_last());
        match program_of(objs.last()) {
            Some(d) => init.push(d),
            None => init,
        }
    }
}

/// What programs are ordered by: the serial number, or the end of the list.
pub open spec fn rank_of(d: DeviceView) -> nat {
    match text::parse_unsigned_of(d.target, u64::MAX as nat) {
        Some(n) => n,
        None => u64::MAX as nat,
    }
}

fn rank(d: &Device) -> (r: u64)
    ensures
        r == rank_of(d@),
{
    match parse_u64(chars_of(d.target.as_str()).as_slice()) {
        Some(n) => n,
        None => u64::MAX,
    }
}

/// Programs are ordered by their serial numbers as numbers, not as texts, and
/// those without one come last.
pub proof fn rank_is_the_serial_number(d: DeviceView, n: nat)
    ensures
        d.target == text::decimal_of(n) && n <= u64::MAX ==> rank_of(d) == n,
        rank_of(d) <= u64::MAX,
        text::parse_unsigned_of(d.target, u64::MAX as nat) is None ==> rank_of(d) == u64::MAX,
{
    text::decimal_reads_back(n as int);
    text::lemma_decimal(n);
}

/// `d` in its place in an ordered list, behind those of the same rank.
pub open spec fn insert_of(list: Seq<DeviceView>, d: DeviceView) -> Seq<DeviceView>
    decreases list.len(),
{
    if list.len() == 0 || rank_of(list.last()) <= rank_of(d) {
        list.push(d)
    } else {
        insert_of(list.drop_last(), d).push(list.last())
    }
}

/// The list in the order of ranks; those of one rank stay in their order.
pub open spec fn sort_of(list: Seq<DeviceView>) -> Seq<DeviceView>
    decreases list.len(),
{
    if list.len() == 0 {
        list
    } else {
        insert_of(sort_of(list.drop_last()), list.last())
    }
}

/// Ranks do not fall from one place to a later one.
pub open spec fn ordered(list: Seq<DeviceView>) -> bool {
    forall|i: int, j: int|
        0 <= i < j < list.len() ==> rank_of(#[trigger] list[i]) <= rank_of(#[trigger] list[j])
}

/// The devices of one rank, in their order.
pub open spec fn of_rank(list: Seq<DeviceView>, k: nat) -> Seq<DeviceView>
    decreases list.len(),
{
    if list.len() == 0 {
        Seq::empty()
    } else if rank_of(list.last()) == k {
        of_rank(list.drop_last(), k).push(list.last())
    } else {
        of_rank(list.drop_last(), k)
    }
}

proof fn lemma_insert_ordered(list: Seq<DeviceView>, d: DeviceView)
    requires
        ordered(list),
    ensures
        ordered(insert_of(list, d)),
        forall|i: int|
            0 <= i < insert_of(list, d).len() ==> rank_of(#[trigger] insert_of(list, d)[i])
                <= rank_of(d) || (list.len() > 0 && rank_of(insert_of(list, d)[i]) <= rank_of(
                list.last(),
            )),
    decreases list.len(),
{
    let r = insert_of(list, d);
    if list.len() > 0 && rank_of(list.last()) > rank_of(d) {
        let init = list.drop_last();
        assert forall|i: int, j: int| 0 <= i < j < init.len() implies rank_of(#[trigger] init[i])
            <= rank_of(#[trigger] init[j]) by {
            assert(init[i] == list[i] && init[j] == list[j]);
        }
        lemma_insert_ordered(init, d);
        if init.len() > 0 {
            assert(rank_of(list[list.len() - 2]) <= rank_of(list[list.len() - 1]));
            assert(init.last() == list[list.len() - 2]);
        }
    } else if list.len() > 0 {
        assert forall|i: int| 0 <= i < list.len() implies rank_of(#[trigger] list[i]) <= rank_of(
            d,
        ) by {
            if i < list.len() - 1 {
                assert(rank_of(list[i]) <= rank_of(list[list.len() - 1]));
            }
        }
    }
}

proof fn lemma_insert_stable(list: Seq<DeviceView>, d: DeviceView, k: nat)
    requires
        ordered(list),
    ensures
        of_rank(insert_of(list, d), k) == of_rank(list.push(d), k),
    decreases list.len(),
{
    assert(list.push(d).drop_last() =~= list);
    if list.len() > 0 && rank_of(list.last()) > rank_of(d) {
        let init = list.drop_last();
        let r = insert_of(list, d);
        assert(r.drop_last() =~= insert_of(init, d));
        assert(init.push(d).drop_last() =~= init);
        assert(ordered(init)) by {
            assert forall|i: int, j: int| 0 <= i < j < init.len() implies rank_of(
                #[trigger] init[i],
            ) <= rank_of(#[trigger] init[j]) by {
                assert(init[i] == list[i] && init[j] == list[j]);
            }
        }
        lemma_insert_stable(init, d, k);
        assert(r.last() == list.last());
        assert(list.push(d).last() == d && init.push(d).last() == d);
        let here = of_rank(list, k);
        assert(of_rank(r, k) == if rank_of(list.last()) == k {
            of_rank(insert_of(init, d), k).push(list.last())
        } else {
            of_rank(insert_of(init, d), k)
        });
        assert(of_rank(list.push(d), k) == if rank_of(d) == k {
            here.push(d)
        } else {
            here
        });
    }
}

/// Sorting puts the ranks in order, and leaves the devices of each rank as
/// they were, in number and in order.
pub proof fn sort_is_stable(list: Seq<DeviceView>, k: nat)
    ensures
        ordered(sort_of(list)),
        of_rank(sort_of(list), k) == of_rank(list, k),
        sort_of(list).len() == list.len(),
    decreases list.len(),
{
    if list.len() > 0 {
        let init = list.drop_last();
        sort_is_stable(init, k);
        lemma_insert_ordered(sort_of(init), list.last());
        lemma_insert_stable(sort_of(init), list.last(), k);
        lemma_insert_len(sort_of(init), list.last());
        assert(sort_of(init).push(list.last()).drop_last() =~= sort_of(init));
    }
}

proof fn lemma_insert_len(list: Seq<DeviceView>, d: DeviceView)
    ensures
        insert_of(list, d).len() == list.len() + 1,
    decreases list.len(),
{
    if list.len() > 0 && rank_of(list.last()) > rank_of(d) {
        lemma_insert_len(list.drop_last(), d);
    }
}

fn insert(list: &mut Vec<Device>, d: Device)
    ensures
        devices(final(list)@) == insert_of(devices(old(list)@), d@),
{
    let ghost ds = devices(list@);
    let ghost x = d@;
    let mine = rank(&d);
    let mut i: usize = list.len();
    assert(ds.take(i as int) =~= ds);
    assert(insert_of(ds, x) + ds.skip(i as int) =~= insert_of(ds, x));
    while i > 0 && rank(&list[i - 1]) > mine
        invariant
            i <= list@.len(),
            *list == *old(list),
            ds == devices(list@),
            x == d@,
            mine == rank_of(x),
            insert_of(ds, x) == insert_of(ds.take(i as int), x) + ds.skip(i as int),
        decreases i,
    {
        assert(ds[i - 1] == list@[i - 1]@);
        assert(ds.take(i as int).last() == ds[i - 1]);
        assert(ds.take(i as int).drop_last() =~= ds.take(i - 1));
        assert(insert_of(ds.take(i - 1), x).push(ds[i - 1]) + ds.skip(i as int) =~= insert_of(
            ds.take(i - 1),
            x,
        ) + ds.skip(i - 1));
        i = i - 1;
    }
    if i > 0 {
        assert(ds.take(i as int).last() == list@[i - 1]@);
    }
    list.insert(i, d);
    assert(devices(list@) =~= ds.take(i as int).push(x) + ds.skip(i as int));
}

/// The keys of a list.
pub open spec fn keys_of(list: Seq<DeviceView>) -> Seq<Seq<char>> {
    list.map_values(|d: DeviceView| d.key)
}

/// How often `k` is among the texts.
pub open spec fn count_of(ks: Seq<Seq<char>>, k: Seq<char>) -> nat
    decreases ks.len(),
{
    if ks.len() == 0 {
        0
    } else {
        count_of(ks.drop_last(), k) + if ks.last() == k {
            1nat
        } else {
            0nat
        }
    }
}

/// The device at place `i`, with its number where its key is not the only one.
pub open spec fn numbered_at(list: Seq<DeviceView>, i: int) -> DeviceView {
    let d = list[i];
    if count_of(keys_of(list), d.key) < 2 {
        d
    } else {
        let key = d.key + " #"@ + text::decimal_of(count_of(keys_of(list).take(i), d.key) + 1);
        DeviceView { target: d.target, key, label: key }
    }
}

/// The list in which those of one key have numbers, from 1 in their order.
pub open spec fn numbered_of(list: Seq<DeviceView>) -> Seq<DeviceView> {
    Seq::new(list.len(), |i: int| numbered_at(list, i))
}

fn count_upto(ks: &Vec<String>, upto: usize, k: &str) -> (r: usize)
    requires
        upto <= ks@.len(),
    ensures
        r == count_of(text::texts(ks@).take(upto as int), k@),
        r <= upto,
{
    let mut n: usize = 0;
    let mut i: usize = 0;
    assert(text::texts(ks@).take(0) =~= Seq::empty());
    while i < upto
        invariant
            i <= upto <= ks@.len(),
            n <= i,
            n == count_of(text::texts(ks@).take(i as int), k@),
        decreases upto - i,
    {
        assert(text::texts(ks@).take(i + 1).drop_last() =~= text::texts(ks@).take(i as int));
        assert(text::texts(ks@).take(i + 1).last() == ks@[i as int]@);
        if same_str(ks[i].as_str(), k) {
            n = n + 1;
        }
        i = i + 1;
    }
    n
}

/// Gives numbers to the devices whose key is not the only one.
pub fn number_duplicates(list: &mut Vec<Device>)
    ensures
        devices(final(list)@) == numbered_of(devices(old(list)@)),
{
    let ghost ds = devices(list@);
    let mut ks: Vec<String> = Vec::new();
    let mut i: usize = 0;
    while i < list.len()
        invariant
            i <= list@.len(),
            *list == *old(list),
            ks@.len() == i,
            forall|k: int| 0 <= k < i ==> (#[trigger] ks@[k])@ == list@[k].key@,
        decreases list.len() - i,
    {
        ks.push(list[i].key.clone());
        i = i + 1;
    }
    assert(text::texts(ks@) =~= keys_of(ds));
    let mut i: usize = 0;
    while i < list.len()
        invariant
            i <= list@.len(),
            list@.len() == ds.len(),
            ks@.len() == ds.len(),
            text::texts(ks@) == keys_of(ds),
            forall|k: int| 0 <= k < i ==> (#[trigger] list@[k])@ == numbered_at(ds, k),
            forall|k: int| i <= k < list@.len() ==> (#[trigger] list@[k])@ == ds[k],
        decreases list.len() - i,
    {
        assert(list@[i as int]@ == ds[i as int]);
        let key = list[i].key.clone();
        assert(text::texts(ks@).take(ks@.len() as int) =~= text::texts(ks@));
        if count_upto(&ks, ks.len(), key.as_str()) >= 2 {
            let n: usize = count_upto(&ks, i, key.as_str()) + 1;
            let named = cat3(key.as_str(), " #", decimal_u64(n as u64).as_str());
            let target = list[i].target.clone();
            list.set(i, Device { target, label: named.clone(), key: named });
        }
        assert(list@[i as int]@ == numbered_at(ds, i as int));
        i = i + 1;
    }
    assert(devices(list@) =~= numbered_of(ds));
}

/// The programs that the objects describe: by serial number, with numbers
/// where the keys are the same.
pub open spec fn parse_programs_of(objs: Seq<Tree>) -> Seq<DeviceView> {
    numbered_of(sort_of(programs_of(objs)))
}

/// The programs that the objects describe.
pub fn parse_programs(objs: &[Json]) -> (r: Vec<Device>)
    ensures
        devices(r@) == parse_programs_of(json::trees(objs@)),
{
    let ghost ts = json::trees(objs@);
    let mut res: Vec<Device> = Vec::new();
    let mut i: usize = 0;
    assert(ts.take(0) =~= Seq::empty());
    assert(devices(res@) =~= Seq::empty());
    while i < objs.len()
        invariant
            i <= objs@.len(),
            ts == json::trees(objs@),
            devices(res@) == sort_of(programs_of(ts.take(i as int))),
        decreases objs.len() - i,
    {
        let ghost part = programs_of(ts.take(i as int));
        assert(ts.take(i + 1).drop_last() =~= ts.take(i as int));
        assert(ts.take(i + 1).last() == objs@[i as int]@);
        if let Some(d) = program(&objs[i]) {
            assert(part.push(d@).drop_last() =~= part);
            insert(&mut res, d);
        }
        i = i + 1;
    }
    assert(ts.take(ts.len() as int) =~= ts);
    number_duplicates(&mut res);
    res
}

proof fn lemma_count_rises(ks: Seq<Seq<char>>, k: Seq<char>, i: int, j: int)
    requires
        0 <= i < j <= ks.len(),
        ks[i] == k,
    ensures
        count_of(ks.take(i), k) < count_of(ks.take(j), k),
    decreases j,
{
    assert(ks.take(j).drop_last() =~= ks.take(j - 1));
    assert(ks.take(j).last() == ks[j - 1]);
    if i < j - 1 {
        lemma_count_rises(ks, k, i, j - 1);
    }
}

proof fn lemma_not_alone(list: Seq<DeviceView>, i: int, j: int)
    requires
        0 <= i < j < list.len(),
        list[i].key == list[j].key,
    ensures
        count_of(keys_of(list), list[i].key) >= 2,
{
    let ks = keys_of(list);
    lemma_count_rises(ks, list[i].key, i, j);
    lemma_count_rises(ks, list[i].key, j, ks.len() as int);
    assert(ks.take(ks.len() as int) =~= ks);
}

/// Two devices of one key have different keys once they are numbered.
pub proof fn numbers_tell_apart(list: Seq<DeviceView>, i: int, j: int)
    requires
        0 <= i < j < list.len(),
        list[i].key == list[j].key,
    ensures
        numbered_of(list)[i].key != numbered_of(list)[j].key,
{
    let ks = keys_of(list);
    let k = list[i].key;
    lemma_not_alone(list, i, j);
    lemma_count_rises(ks, k, i, j);
    let a = count_of(ks.take(i), k) + 1;
    let b = count_of(ks.take(j), k) + 1;
    text::lemma_decimal(a);
    text::lemma_decimal(b);
    let head = k + " #"@;
    if numbered_of(list)[i].key == numbered_of(list)[j].key {
        assert((head + text::decimal_of(a)).skip(head.len() as int) =~= text::decimal_of(a));
        assert((head + text::decimal_of(b)).skip(head.len() as int) =~= text::decimal_of(b));
    }
}

proof fn lemma_base_of_numbered(key: Seq<char>, n: nat)
    ensures
        base_key_of(key + " #"@ + text::decimal_of(n)) == key,
{
    let mark = " #"@;
    let d = text::decimal_of(n);
    let all = key + mark + d;
    reveal_strlit(" #");
    text::lemma_decimal(n);
    text::lemma_rfind_upto(all, mark, all.len() - mark.len());
    assert(all.subrange(key.len() as int, (key.len() + 2) as int) =~= mark);
    assert(text::occurs_at(all, mark, key.len() as int));
    assert forall|j: int| key.len() < j <= all.len() - 2 implies !#[trigger] text::occurs_at(
        all,
        mark,
        j,
    ) by {
        if text::occurs_at(all, mark, j) {
            assert(all.subrange(j, j + 2)[0] == ' ');
            assert(all[j] == ' ');
            if j > key.len() + 1 {
                assert(all[j] == d[j - key.len() - 2]);
                assert(text::is_digit_of(d[j - key.len() - 2]));
            }
        }
    }
    assert(all.take(key.len() as int) =~= key);
    assert(all.skip((key.len() + 2) as int) =~= d);
}

/// A key that was saved without a number finds its program again, whatever
/// other programs of the same name have come to the list since.
pub proof fn saved_key_is_found(list: Seq<DeviceView>, key: Seq<char>, i: int)
    requires
        0 <= i < list.len(),
        list[i].key == key,
        base_key_of(key) == key,
    ensures
        match_index_of(numbered_of(list), key) is Some,
{
    let r = numbered_of(list);
    lemma_first_from(r, key, true, 0);
    lemma_first_from(r, key, false, 0);
    assert(r[i] == numbered_at(list, i));
    if count_of(keys_of(list), key) >= 2 {
        lemma_base_of_numbered(key, count_of(keys_of(list).take(i), key) + 1);
    }
}

/// A program is taken for a saved key only where both have the same name.
pub proof fn other_program_never_matches(list: Seq<DeviceView>, key: Seq<char>)
    ensures
        match match_index_of(list, key) {
            Some(i) => 0 <= i < list.len() && base_key_of(list[i].key) == base_key_of(key),
            None => forall|i: int|
                0 <= i < list.len() ==> base_key_of((#[trigger] list[i]).key) != base_key_of(key),
        },
{
    lemma_first_from(list, key, true, 0);
    lemma_first_from(list, key, false, 0);
}

/// A number behind the name is no part of it, and a name without one stays as
/// it is.
pub proof fn number_is_no_part_of_the_name(key: Seq<char>, n: nat)
    ensures
        base_key_of(key + " #"@ + text::decimal_of(n)) == key,
        !text::contains_of(key, " #"@) ==> base_key_of(key) == key,
{
    lemma_base_of_numbered(key, n);
    text::lemma_find_from(key, " #"@, 0);
    text::lemma_rfind_upto(key, " #"@, key.len() - " #"@.len());
}

/// An object that describes a stream of sound with the properties `props`.
pub open spec fn is_stream(o: Tree, props: Tree) -> bool {
    &&& json::field_of(o, "type"@) == Some(Tree::Text("PipeWire:Interface:Node"@))
    &&& json::field_of(o, "info"@) matches Some(info)
    &&& json::field_of(info, "props"@) == Some(props)
    &&& json::field_of(props, "media.class"@) == Some(Tree::Text("Stream/Output/Audio"@))
}

/// Every stream of sound with a serial number is listed, whether it plays or
/// not, to be recorded by that number.
pub proof fn every_stream_is_listed(objs: Seq<Tree>, i: int, props: Tree, n: u64)
    requires
        0 <= i < objs.len(),
        is_stream(objs[i], props),
        json::field_of(props, "object.serial"@) == Some(Tree::UInt(n)),
    ensures
        exists|j: int|
            0 <= j < parse_programs_of(objs).len() && (#[trigger] parse_programs_of(objs)[j]).target
                == text::decimal_of(n as nat),
{
    lemma_program_listed(objs, i);
    let d = program_of(objs[i])->Some_0;
    let list = sort_of(programs_of(objs));
    lemma_sort_keeps(programs_of(objs), d);
    let j = choose|j: int| 0 <= j < list.len() && list[j] == d;
    assert(parse_programs_of(objs)[j].target == text::decimal_of(n as nat));
}

/// Nothing is listed but streams of sound, each to be recorded by its own
/// serial number, in the order of these numbers.
pub proof fn only_streams_are_listed(objs: Seq<Tree>, j: int, k: int)
    requires
        0 <= j < k < parse_programs_of(objs).len(),
    ensures
        ({
            let list = parse_programs_of(objs);
            &&& rank_of(list[j]) <= rank_of(list[k])
            &&& list[j].key != list[k].key || base_key_of(list[j].key) != list[j].key
            &&& exists|i: int|
                0 <= i < objs.len() && is_stream(
                    #[trigger] objs[i],
                    json::field_of(json::field_of(objs[i], "info"@)->Some_0, "props"@)->Some_0,
                ) && serial_of_tree(
                    json::field_of(json::field_of(objs[i], "info"@)->Some_0, "props"@)->Some_0,
                ) == Some(list[k].target)
        }),
{
    let sorted = sort_of(programs_of(objs));
    let list = parse_programs_of(objs);
    sort_is_stable(programs_of(objs), 0);
    assert(list[j].target == sorted[j].target && list[k].target == sorted[k].target);
    lemma_sort_keeps(programs_of(objs), sorted[k]);
    lemma_listed_is_program(objs, sorted[k]);
    if sorted[j].key == sorted[k].key {
        numbers_tell_apart(sorted, j, k);
    } else if list[j].key == list[k].key {
        let ks = keys_of(sorted);
        if count_of(ks, sorted[j].key) >= 2 {
            lemma_base_of_numbered(sorted[j].key, count_of(ks.take(j), sorted[j].key) + 1);
            reveal_strlit(" #");
            assert(list[j].key.len() > sorted[j].key.len());
        } else {
            assert(count_of(ks, sorted[k].key) >= 2);
            lemma_base_of_numbered(sorted[k].key, count_of(ks.take(k), sorted[k].key) + 1);
            reveal_strlit(" #");
            assert(list[k].key.len() > sorted[k].key.len());
        }
    }
}

/// A program is called by the application and what it plays; only an
/// application without a name is called by its node.
pub proof fn program_is_called_by_its_name(props: Tree, app: Seq<char>, media: Seq<char>)
    requires
        json::field_of(props, "application.name"@) == Some(Tree::Text(app)) || (
        json::field_of(props, "application.name"@) is None && json::field_of(props, "node.name"@)
            == Some(Tree::Text(app))),
    ensures
        json::field_of(props, "media.name"@) == Some(Tree::Text(media)) && media.len() > 0
            ==> program_key_of(props) == "🔊 "@ + app + " — "@ + media,
        json::field_of(props, "media.name"@) is None ==> program_key_of(props) == "🔊 "@ + app,
        json::field_of(props, "media.name"@) == Some(Tree::Text(Seq::empty())) ==> program_key_of(
            props,
        ) == "🔊 "@ + app,
{
}

proof fn lemma_program_listed(objs: Seq<Tree>, i: int)
    requires
        0 <= i < objs.len(),
        program_of(objs[i]) is Some,
    ensures
        programs_of(objs).contains(program_of(objs[i])->Some_0),
    decreases objs.len(),
{
    let all = programs_of(objs);
    let init = programs_of(objs.drop_last());
    if i == objs.len() - 1 {
        assert(all.last() == program_of(objs[i])->Some_0);
    } else {
        lemma_program_listed(objs.drop_last(), i);
        let d = program_of(objs[i])->Some_0;
        let j = choose|j: int| 0 <= j < init.len() && init[j] == d;
        assert(all[j] == d);
    }
}

proof fn lemma_listed_is_program(objs: Seq<Tree>, d: DeviceView)
    requires
        programs_of(objs).contains(d),
    ensures
        exists|i: int| 0 <= i < objs.len() && program_of(#[trigger] objs[i]) == Some(d),
    decreases objs.len(),
{
    let all = programs_of(objs);
    let init = programs_of(objs.drop_last());
    let j = choose|j: int| 0 <= j < all.len() && all[j] == d;
    if objs.len() > 0 {
        if j < init.len() {
            assert(init[j] == d);
            lemma_listed_is_program(objs.drop_last(), d);
            let i = choose|i: int|
                0 <= i < objs.drop_last().len() && program_of(#[trigger] objs.drop_last()[i])
                    == Some(d);
            assert(objs[i] == objs.drop_last()[i]);
        } else {
            assert(program_of(objs[objs.len() - 1]) == Some(d));
        }
    }
}

proof fn lemma_insert_keeps(list: Seq<DeviceView>, x: DeviceView, d: DeviceView)
    ensures
        insert_of(list, x).contains(d) <==> list.contains(d) || d == x,
    decreases list.len(),
{
    let r = insert_of(list, x);
    if list.len() == 0 || rank_of(list.last()) <= rank_of(x) {
        lemma_push_contains(list, x, d);
    } else {
        lemma_insert_keeps(list.drop_last(), x, d);
        lemma_push_contains(insert_of(list.drop_last(), x), list.last(), d);
        lemma_push_contains(list.drop_last(), list.last(), d);
        assert(list.drop_last().push(list.last()) =~= list);
    }
}

proof fn lemma_push_contains(list: Seq<DeviceView>, x: DeviceView, d: DeviceView)
    ensures
        list.push(x).contains(d) <==> list.contains(d) || d == x,
{
    let r = list.push(x);
    assert(r[list.len() as int] == x);
    if list.contains(d) {
        let i = choose|i: int| 0 <= i < list.len() && list[i] == d;
        assert(r[i] == d);
    }
    if r.contains(d) && d != x {
        let i = choose|i: int| 0 <= i < r.len() && r[i] == d;
        assert(list[i] == d);
    }
}

proof fn lemma_sort_keeps(list: Seq<DeviceView>, d: DeviceView)
    ensures
        sort_of(list).contains(d) <==> list.contains(d),
    decreases list.len(),
{
    if list.len() > 0 {
        lemma_sort_keeps(list.drop_last(), d);
        lemma_insert_keeps(sort_of(list.drop_last()), list.last(), d);
        lemma_push_contains(list.drop_last(), list.last(), d);
        assert(list.drop_last().push(list.last()) =~= list);
    }
}

/// The objects in the document that the lister of objects printed: none where
/// it failed, or printed no list.
pub open spec fn objects_in(output: Option<Seq<u8>>) -> Seq<Tree> {
    match output {
        Some(bytes) => if vstd::utf8::valid_utf8(bytes) {
            match json::document_of(vstd::utf8::decode_utf8(bytes)) {
                Some(Tree::List(v)) => v,
                _ => Seq::empty(),
            }
        } else {
            Seq::empty()
        },
        None => Seq::empty(),
    }
}

/// The bytes of an optional output.
pub open spec fn opt_bytes(output: Option<&[u8]>) -> Option<Seq<u8>> {
    match output {
        Some(b) => Some(b@),
        None => None,
    }
}

/// The objects in what the lister of objects printed.
pub fn dump_objects(output: Option<&[u8]>) -> (r: Vec<Json>)
    ensures
        json::trees(r@) == objects_in(opt_bytes(output)),
{
    let none: Vec<Json> = Vec::new();
    assert(json::trees(none@) =~= Seq::empty());
    let bytes = match output {
        Some(b) => b,
        None => return none,
    };
    let printed = match utf8_text(bytes) {
        Some(t) => t,
        None => return none,
    };
    match json::read(printed.as_str()) {
        Some(Json::List(v)) => {
            proof {
                let j = Json::List(v);
                assert(j@->List_0 =~= json::trees(v@));
            }
            v
        },
        _ => none,
    }
}

/// The programs in what the lister of objects printed.
pub fn list_programs(output: Option<&[u8]>) -> (r: Vec<Device>)
    ensures
        devices(r@) == parse_programs_of(objects_in(opt_bytes(output))),
{
    parse_programs(dump_objects(output).as_slice())
}

/// The target that a saved key stands for, in what the lister of objects
/// printed.
pub fn resolve_program(output: Option<&[u8]>, key: &str) -> (r: Option<String>)
    ensures
        text::opt_text(r) == program_target_of(
            parse_programs_of(objects_in(opt_bytes(output))),
            key@,
        ),
{
    program_target_now(list_programs(output).as_slice(), key)
}

// ---------------------------------------------------------------------------
// Where sound goes
// ---------------------------------------------------------------------------

/// The number under the field `key`.
pub open spec fn number_field_of(o: Tree, key: Seq<char>) -> Option<u64> {
    match json::field_of(o, key) {
        Some(v) => json::u64_of(v),
        None => None,
    }
}

fn number_field(o: &Json, key: &str) -> (r: Option<u64>)
    ensures
        r == number_field_of(o@, key@),
{
    match o.get(key) {
        Some(v) => v.as_u64(),
        None => None,
    }
}

/// The sink that an object describes: its number and its name.
pub open spec fn sink_of(o: Tree) -> Option<(u64, Seq<char>)> {
    match node_props_of(o) {
        Some(props) => if json::text_field_of(props, "media.class"@) != Some("Audio/Sink"@) {
            None
        } else {
            match (number_field_of(o, "id"@), json::text_field_of(props, "node.name"@)) {
                (Some(id), Some(name)) => Some((id, name)),
                _ => None,
            }
        },
        None => None,
    }
}

/// The sinks that the objects describe.
pub open spec fn sinks_of(objs: Seq<Tree>) -> Seq<(u64, Seq<char>)>
    decreases objs.len(),
{
    if objs.len() == 0 {
        Seq::empty()
    } else {
        let init = sinks_of(objs.drop_last());
        match sink_of(objs.last()) {
            Some(s) => init.push(s),
            None => init,
        }
    }
}

/// Pairs of a number and a text.
pub open spec fn sink_views(v: Seq<(u64, String)>) -> Seq<(u64, Seq<char>)> {
    v.map_values(|p: (u64, String)| (p.0, p.1@))
}

/// The sinks that the objects describe: the number and the name of each.
pub fn sink_names(objs: &[Json]) -> (r: Vec<(u64, String)>)
    ensures
        sink_views(r@) == sinks_of(json::trees(objs@)),
{
    let ghost ts = json::trees(objs@);
    let mut res: Vec<(u64, String)> = Vec::new();
    let mut i: usize = 0;
    assert(ts.take(0) =~= Seq::empty());
    assert(sink_views(res@) =~= Seq::empty());
    while i < objs.len()
        invariant
            i <= objs@.len(),
            ts == json::trees(objs@),
            sink_views(res@) == sinks_of(ts.take(i as int)),
        decreases objs.len() - i,
    {
        assert(ts.take(i + 1).drop_last() =~= ts.take(i as int));
        assert(ts.take(i + 1).last() == objs@[i as int]@);
        let ghost was = sink_views(res@);
        let o = &objs[i];
        if let Some(props) = node_props(o) {
            if is_text(props, "media.class", "Audio/Sink") {
                if let Some(id) = number_field(o, "id") {
                    if let Some(name) = props.text_field("node.name") {
                        res.push((id, name.to_owned()));
                        assert(sink_views(res@) =~= was.push((id, name@)));
                    }
                }
            }
        }
        i = i + 1;
    }
    assert(ts.take(ts.len() as int) =~= ts);
    res
}

/// The number of a stream of sound that is playing.
pub open spec fn playing_of(o: Tree) -> Option<u64> {
    match node_props_of(o) {
        Some(props) => if json::text_field_of(props, "media.class"@) == Some("Stream/Output/Audio"@)
            && json::text_field_of(json::field_of(o, "info"@)->Some_0, "state"@) == Some("running"@) {
            number_field_of(o, "id"@)
        } else {
            None
        },
        None => None,
    }
}

/// The numbers of the streams that are playing.
pub open spec fn streams_of(objs: Seq<Tree>) -> Seq<u64>
    decreases objs.len(),
{
    if objs.len() == 0 {
        Seq::empty()
    } else {
        let init = streams_of(objs.drop_last());
        match playing_of(objs.last()) {
            Some(id) => init.push(id),
            None => init,
        }
    }
}

/// The numbers of the streams that are playing.
pub fn playing_stream_ids(objs: &[Json]) -> (r: Vec<u64>)
    ensures
        r@ == streams_of(json::trees(objs@)),
{
    let ghost ts = json::trees(objs@);
    let mut res: Vec<u64> = Vec::new();
    let mut i: usize = 0;
    assert(ts.take(0) =~= Seq::empty());
    while i < objs.len()
        invariant
            i <= objs@.len(),
            ts == json::trees(objs@),
            res@ == streams_of(ts.take(i as int)),
        decreases objs.len() - i,
    {
        assert(ts.take(i + 1).drop_last() =~= ts.take(i as int));
        assert(ts.take(i + 1).last() == objs@[i as int]@);
        let o = &objs[i];
        if let Some(props) = node_props(o) {
            if let Some(info) = o.get("info") {
                if is_text(props, "media.class", "Stream/Output/Audio") && is_text(
                    info,
                    "state",
                    "running",
                ) {
                    if let Some(id) = number_field(o, "id") {
                        res.push(id);
                    }
                }
            }
        }
        i = i + 1;
    }
    assert(ts.take(ts.len() as int) =~= ts);
    res
}

/// The name of the first sink with the number `id`.
pub open spec fn sink_named(sinks: Seq<(u64, Seq<char>)>, id: u64) -> Option<Seq<char>>
    decreases sinks.len(),
{
    if sinks.len() == 0 {
        None
    } else if sinks[0].0 == id {
        Some(sinks[0].1)
    } else {
        sink_named(sinks.skip(1), id)
    }
}

fn find_sink<'a>(sinks: &'a Vec<(u64, String)>, id: u64) -> (r: Option<&'a str>)
    ensures
        text::opt_str(r) == sink_named(sink_views(sinks@), id),
{
    let ghost all = sink_views(sinks@);
    let mut i: usize = 0;
    assert(all.skip(0) =~= all);
    while i < sinks.len()
        invariant
            i <= sinks@.len(),
            all == sink_views(sinks@),
            sink_named(all, id) == sink_named(all.skip(i as int), id),
        decreases sinks.len() - i,
    {
        assert(all.skip(i as int)[0] == (sinks@[i as int].0, sinks@[i as int].1@));
        assert(all.skip(i as int).skip(1) =~= all.skip(i + 1));
        if sinks[i].0 == id {
            return Some(sinks[i].1.as_str());
        }
        i = i + 1;
    }
    None
}

/// The name of the sink that an object links a playing stream to.
pub open spec fn hit_of(o: Tree, streams: Seq<u64>, sinks: Seq<(u64, Seq<char>)>) -> Option<
    Seq<char>,
> {
    if json::text_field_of(o, "type"@) != Some("PipeWire:Interface:Link"@) {
        None
    } else {
        match info_props_of(o) {
            Some(props) => match (
                number_field_of(props, "link.output.node"@),
                number_field_of(props, "link.input.node"@),
            ) {
                (Some(out), Some(inp)) => if streams.contains(out) {
                    sink_named(sinks, inp)
                } else {
                    None
                },
                _ => None,
            },
            None => None,
        }
    }
}

/// The sinks that playing streams are linked to, once for each link.
pub open spec fn hits_of(objs: Seq<Tree>, streams: Seq<u64>, sinks: Seq<(u64, Seq<char>)>) -> Seq<
    Seq<char>,
>
    decreases objs.len(),
{
    if objs.len() == 0 {
        Seq::empty()
    } else {
        let init = hits_of(objs.drop_last(), streams, sinks);
        match hit_of(objs.last(), streams, sinks) {
            Some(name) => init.push(name),
            None => init,
        }
    }
}

/// `a` has more links than `b`, or as many and the name that comes first.
pub open spec fn busier(hits: Seq<Seq<char>>, a: Seq<char>, b: Seq<char>) -> bool {
    count_of(hits, a) > count_of(hits, b) || (count_of(hits, a) == count_of(hits, b) && json::before(
        a,
        b,
    ))
}

/// The busiest among the first `n` of the sinks.
pub open spec fn busiest_upto(hits: Seq<Seq<char>>, n: int) -> Seq<char>
    decreases n,
{
    if n <= 1 {
        hits[0]
    } else {
        let b = busiest_upto(hits, n - 1);
        if busier(hits, hits[n - 1], b) {
            hits[n - 1]
        } else {
            b
        }
    }
}

/// The sink that most playing streams are linked to.
pub open spec fn playing_sink_of(objs: Seq<Tree>) -> Option<Seq<char>> {
    let hits = hits_of(objs, streams_of(objs), sinks_of(objs));
    if hits.len() == 0 {
        None
    } else {
        Some(busiest_upto(hits, hits.len() as int))
    }
}

proof fn lemma_busiest(hits: Seq<Seq<char>>, n: int)
    requires
        1 <= n <= hits.len(),
    ensures
        hits.contains(busiest_upto(hits, n)),
        forall|i: int|
            0 <= i < n ==> #[trigger] hits[i] == busiest_upto(hits, n) || busier(
                hits,
                busiest_upto(hits, n),
                hits[i],
            ),
    decreases n,
{
    if n > 1 {
        lemma_busiest(hits, n - 1);
        let b = busiest_upto(hits, n - 1);
        let c = hits[n - 1];
        if busier(hits, c, b) {
            assert forall|i: int| 0 <= i < n implies #[trigger] hits[i] == c || busier(
                hits,
                c,
                hits[i],
            ) by {
                if i < n - 1 && hits[i] != b && count_of(hits, c) == count_of(hits, hits[i]) {
                    json::lemma_before_trans(c, b, hits[i]);
                }
            }
        } else if b != c {
            if count_of(hits, b) == count_of(hits, c) {
                json::lemma_before_total(c, b);
            }
        }
    }
}

/// Sound is taken from a sink that a playing stream is linked to, and no other
/// has more links, nor as many and a name that comes first.
pub proof fn busiest_sink_wins(objs: Seq<Tree>)
    ensures
        ({
            let hits = hits_of(objs, streams_of(objs), sinks_of(objs));
            match playing_sink_of(objs) {
                Some(name) => hits.contains(name) && forall|i: int|
                    0 <= i < hits.len() ==> #[trigger] hits[i] == name || busier(
                        hits,
                        name,
                        hits[i],
                    ),
                None => hits.len() == 0,
            }
        }),
{
    let hits = hits_of(objs, streams_of(objs), sinks_of(objs));
    if hits.len() > 0 {
        lemma_busiest(hits, hits.len() as int);
    }
}

proof fn lemma_no_streams(objs: Seq<Tree>, streams: Seq<u64>, sinks: Seq<(u64, Seq<char>)>)
    requires
        streams.len() == 0,
    ensures
        hits_of(objs, streams, sinks).len() == 0,
    decreases objs.len(),
{
    if objs.len() > 0 {
        lemma_no_streams(objs.drop_last(), streams, sinks);
    }
}

/// While nothing plays, no sink is picked.
pub proof fn idle_streams_pick_no_sink(objs: Seq<Tree>)
    requires
        streams_of(objs).len() == 0,
    ensures
        playing_sink_of(objs) is None,
{
    lemma_no_streams(objs, streams_of(objs), sinks_of(objs));
}

fn has_id(ids: &Vec<u64>, id: u64) -> (r: bool)
    ensures
        r == ids@.contains(id),
{
    let mut i: usize = 0;
    while i < ids.len()
        invariant
            i <= ids@.len(),
            forall|k: int| 0 <= k < i ==> ids@[k] != id,
        decreases ids.len() - i,
    {
        if ids[i] == id {
            assert(ids@[i as int] == id);
            return true;
        }
        i = i + 1;
    }
    false
}

fn hit(o: &Json, streams: &Vec<u64>, sinks: &Vec<(u64, String)>) -> (r: Option<String>)
    ensures
        text::opt_text(r) == hit_of(o@, streams@, sink_views(sinks@)),
{
    if !is_text(o, "type", "PipeWire:Interface:Link") {
        return None;
    }
    let props = match info_props(o) {
        Some(p) => p,
        None => return None,
    };
    let out = match number_field(props, "link.output.node") {
        Some(n) => n,
        None => return None,
    };
    let inp = match number_field(props, "link.input.node") {
        Some(n) => n,
        None => return None,
    };
    if !has_id(streams, out) {
        return None;
    }
    match find_sink(sinks, inp) {
        Some(name) => Some(name.to_owned()),
        None => None,
    }
}

/// The sink that is taken has no fewer links than any other, and of those with as
/// many it is the first by name.
pub proof fn no_sink_has_more_links(objs: Seq<Tree>, i: int)
    ensures
        ({
            let hits = hits_of(objs, streams_of(objs), sinks_of(objs));
            0 <= i < hits.len() ==> (playing_sink_of(objs) matches Some(name) && count_of(hits, name)
                >= count_of(hits, hits[i]) && (count_of(hits, name) == count_of(hits, hits[i])
                ==> !json::before(hits[i], name)))
        }),
{
    busiest_sink_wins(objs);
    let hits = hits_of(objs, streams_of(objs), sinks_of(objs));
    if 0 <= i < hits.len() {
        let name = playing_sink_of(objs)->0;
        assert(hits[i] == name || busier(hits, name, hits[i]));
        json::lemma_before_irreflexive(name);
        if json::before(hits[i], name) && json::before(name, hits[i]) {
            json::lemma_before_trans(name, hits[i], name);
        }
    }
}

/// Each link counts once, for its own sink.
pub proof fn links_are_counted(ks: Seq<Seq<char>>, k: Seq<char>, other: Seq<char>)
    ensures
        count_of(ks.push(k), k) == count_of(ks, k) + 1,
        other != k ==> count_of(ks.push(k), other) == count_of(ks, other),
        count_of(Seq::empty(), k) == 0,
{
    assert(ks.push(k).drop_last() =~= ks);
}

/// The object at `a` is a stream of sound that plays, the one at `b` a sink of
/// the name `name`, and the one at `c` links the first to the second.
pub open spec fn plays_into(objs: Seq<Tree>, a: int, b: int, c: int, name: Seq<char>) -> bool {
    let stream = json::field_of(objs[a], "info"@);
    let sink = json::field_of(objs[b], "info"@);
    let link = json::field_of(objs[c], "info"@);
    &&& 0 <= a < objs.len() && 0 <= b < objs.len() && 0 <= c < objs.len()
    &&& json::field_of(objs[a], "type"@) == Some(Tree::Text("PipeWire:Interface:Node"@))
    &&& json::field_of(objs[b], "type"@) == Some(Tree::Text("PipeWire:Interface:Node"@))
    &&& json::field_of(objs[c], "type"@) == Some(Tree::Text("PipeWire:Interface:Link"@))
    &&& stream is Some && sink is Some && link is Some
    &&& json::field_of(stream->0, "state"@) == Some(Tree::Text("running"@))
    &&& json::field_of(stream->0, "props"@) is Some
    &&& json::field_of(json::field_of(stream->0, "props"@)->0, "media.class"@) == Some(
        Tree::Text("Stream/Output/Audio"@),
    )
    &&& json::field_of(sink->0, "props"@) is Some
    &&& json::field_of(json::field_of(sink->0, "props"@)->0, "media.class"@) == Some(
        Tree::Text("Audio/Sink"@),
    )
    &&& json::field_of(json::field_of(sink->0, "props"@)->0, "node.name"@) == Some(
        Tree::Text(name),
    )
    &&& json::field_of(link->0, "props"@) is Some
    &&& json::field_of(objs[a], "id"@) is Some && json::field_of(objs[a], "id"@)->0 is UInt
    &&& json::field_of(objs[b], "id"@) is Some && json::field_of(objs[b], "id"@)->0 is UInt
    &&& json::field_of(json::field_of(link->0, "props"@)->0, "link.output.node"@)
        == json::field_of(objs[a], "id"@)
    &&& json::field_of(json::field_of(link->0, "props"@)->0, "link.input.node"@)
        == json::field_of(objs[b], "id"@)
}

/// All that goes out is taken from a sink that a stream really plays into, and
/// one is found wherever a stream plays into one.
pub proof fn sound_is_taken_where_it_goes(objs: Seq<Tree>)
    ensures
        match playing_sink_of(objs) {
            Some(name) => exists|a: int, b: int, c: int| plays_into(objs, a, b, c, name),
            None => forall|a: int, b: int, c: int, name: Seq<char>|
                !plays_into(objs, a, b, c, name),
        },
{
    let streams = streams_of(objs);
    let sinks = sinks_of(objs);
    let hits = hits_of(objs, streams, sinks);
    busiest_sink_wins(objs);
    match playing_sink_of(objs) {
        Some(name) => {
            lemma_hit(objs, streams, sinks, name);
            let c = choose|c: int|
                0 <= c < objs.len() && hit_of(#[trigger] objs[c], streams, sinks) == Some(name);
            let props = info_props_of(objs[c])->0;
            let out = number_field_of(props, "link.output.node"@)->0;
            let inp = number_field_of(props, "link.input.node"@)->0;
            lemma_playing(objs, out);
            lemma_sink_named(sinks, inp);
            lemma_sink(objs, (inp, name));
            let a = choose|a: int| 0 <= a < objs.len() && playing_of(#[trigger] objs[a]) == Some(out);
            let b = choose|b: int|
                0 <= b < objs.len() && sink_of(#[trigger] objs[b]) == Some((inp, name));
            assert(plays_into(objs, a, b, c, name));
        },
        None => {
            assert forall|a: int, b: int, c: int, name: Seq<char>| !plays_into(
                objs,
                a,
                b,
                c,
                name,
            ) by {
                if plays_into(objs, a, b, c, name) {
                    let out = json::field_of(objs[a], "id"@)->0->UInt_0;
                    let inp = json::field_of(objs[b], "id"@)->0->UInt_0;
                    assert(playing_of(objs[a]) == Some(out));
                    assert(sink_of(objs[b]) == Some((inp, name)));
                    lemma_playing(objs, out);
                    lemma_sink(objs, (inp, name));
                    lemma_sink_named(sinks, inp);
                    assert(hit_of(objs[c], streams, sinks) is Some);
                    lemma_hit(objs, streams, sinks, hit_of(objs[c], streams, sinks)->0);
                    assert(hits.len() > 0);
                }
            }
        },
    }
}

proof fn lemma_hit(
    objs: Seq<Tree>,
    streams: Seq<u64>,
    sinks: Seq<(u64, Seq<char>)>,
    name: Seq<char>,
)
    ensures
        hits_of(objs, streams, sinks).contains(name) <==> exists|i: int|
            0 <= i < objs.len() && hit_of(#[trigger] objs[i], streams, sinks) == Some(name),
    decreases objs.len(),
{
    if objs.len() > 0 {
        let init = objs.drop_last();
        lemma_hit(init, streams, sinks, name);
        let all = hits_of(objs, streams, sinks);
        let most = hits_of(init, streams, sinks);
        assert forall|i: int| 0 <= i < init.len() implies #[trigger] init[i] == objs[i] by {}
        assert(objs[objs.len() - 1] == objs.last());
        if most.contains(name) {
            let j = choose|j: int| 0 <= j < most.len() && most[j] == name;
            assert(all[j] == name);
            let i = choose|i: int|
                0 <= i < init.len() && hit_of(#[trigger] init[i], streams, sinks) == Some(name);
            assert(hit_of(objs[i], streams, sinks) == Some(name));
        }
        if hit_of(objs.last(), streams, sinks) == Some(name) {
            assert(all[most.len() as int] == name);
        }
        if all.contains(name) {
            let j = choose|j: int| 0 <= j < all.len() && all[j] == name;
            if j < most.len() {
                assert(most[j] == name);
            }
        }
        if exists|i: int|
            0 <= i < objs.len() && hit_of(#[trigger] objs[i], streams, sinks) == Some(name) {
            let i = choose|i: int|
                0 <= i < objs.len() && hit_of(#[trigger] objs[i], streams, sinks) == Some(name);
            if i < init.len() {
                assert(init[i] == objs[i]);
            }
        }
    }
}

proof fn lemma_playing(objs: Seq<Tree>, id: u64)
    ensures
        streams_of(objs).contains(id) <==> exists|i: int|
            0 <= i < objs.len() && playing_of(#[trigger] objs[i]) == Some(id),
    decreases objs.len(),
{
    if objs.len() > 0 {
        let init = objs.drop_last();
        lemma_playing(init, id);
        let all = streams_of(objs);
        let most = streams_of(init);
        assert(objs[objs.len() - 1] == objs.last());
        if most.contains(id) {
            let j = choose|j: int| 0 <= j < most.len() && most[j] == id;
            assert(all[j] == id);
            let i = choose|i: int| 0 <= i < init.len() && playing_of(#[trigger] init[i]) == Some(id);
            assert(playing_of(objs[i]) == Some(id));
        }
        if playing_of(objs.last()) == Some(id) {
            assert(all[most.len() as int] == id);
        }
        if all.contains(id) {
            let j = choose|j: int| 0 <= j < all.len() && all[j] == id;
            if j < most.len() {
                assert(most[j] == id);
            }
        }
        if exists|i: int| 0 <= i < objs.len() && playing_of(#[trigger] objs[i]) == Some(id) {
            let i = choose|i: int| 0 <= i < objs.len() && playing_of(#[trigger] objs[i]) == Some(id);
            if i < init.len() {
                assert(init[i] == objs[i]);
            }
        }
    }
}

proof fn lemma_sink(objs: Seq<Tree>, s: (u64, Seq<char>))
    ensures
        sinks_of(objs).contains(s) <==> exists|i: int|
            0 <= i < objs.len() && sink_of(#[trigger] objs[i]) == Some(s),
    decreases objs.len(),
{
    if objs.len() > 0 {
        let init = objs.drop_last();
        lemma_sink(init, s);
        let all = sinks_of(objs);
        let most = sinks_of(init);
        assert(objs[objs.len() - 1] == objs.last());
        if most.contains(s) {
            let j = choose|j: int| 0 <= j < most.len() && most[j] == s;
            assert(all[j] == s);
            let i = choose|i: int| 0 <= i < init.len() && sink_of(#[trigger] init[i]) == Some(s);
            assert(sink_of(objs[i]) == Some(s));
        }
        if sink_of(objs.last()) == Some(s) {
            assert(all[most.len() as int] == s);
        }
        if all.contains(s) {
            let j = choose|j: int| 0 <= j < all.len() && all[j] == s;
            if j < most.len() {
                assert(most[j] == s);
            }
        }
        if exists|i: int| 0 <= i < objs.len() && sink_of(#[trigger] objs[i]) == Some(s) {
            let i = choose|i: int| 0 <= i < objs.len() && sink_of(#[trigger] objs[i]) == Some(s);
            if i < init.len() {
                assert(init[i] == objs[i]);
            }
        }
    }
}

proof fn lemma_sink_named(sinks: Seq<(u64, Seq<char>)>, id: u64)
    ensures
        match sink_named(sinks, id) {
            Some(name) => sinks.contains((id, name)),
            None => forall|name: Seq<char>| !sinks.contains((id, name)),
        },
    decreases sinks.len(),
{
    if sinks.len() > 0 {
        let rest = sinks.skip(1);
        lemma_sink_named(rest, id);
        if sinks[0].0 == id {
            assert(sinks[0] == (id, sinks[0].1));
        } else {
            match sink_named(rest, id) {
                Some(name) => {
                    let j = choose|j: int| 0 <= j < rest.len() && rest[j] == (id, name);
                    assert(sinks[j + 1] == (id, name));
                },
                None => {
                    assert forall|name: Seq<char>| !sinks.contains((id, name)) by {
                        if sinks.contains((id, name)) {
                            let j = choose|j: int| 0 <= j < sinks.len() && sinks[j] == (id, name);
                            assert(j != 0);
                            assert(rest[j - 1] == (id, name));
                            assert(rest.contains((id, name)));
                        }
                    }
                },
            }
        }
    }
}

/// The sink that most playing streams are linked to.
pub fn parse_playing_sink(objs: &[Json]) -> (r: Option<String>)
    ensures
        text::opt_text(r) == playing_sink_of(json::trees(objs@)),
{
    let ghost ts = json::trees(objs@);
    let streams = playing_stream_ids(objs);
    if streams.len() == 0 {
        proof {
            idle_streams_pick_no_sink(ts);
        }
        return None;
    }
    let sinks = sink_names(objs);
    let mut hits: Vec<String> = Vec::new();
    let mut i: usize = 0;
    assert(ts.take(0) =~= Seq::empty());
    assert(text::texts(hits@) =~= Seq::empty());
    while i < objs.len()
        invariant
            i <= objs@.len(),
            ts == json::trees(objs@),
            text::texts(hits@) == hits_of(ts.take(i as int), streams@, sink_views(sinks@)),
        decreases objs.len() - i,
    {
        assert(ts.take(i + 1).drop_last() =~= ts.take(i as int));
        assert(ts.take(i + 1).last() == objs@[i as int]@);
        let ghost was = text::texts(hits@);
        if let Some(name) = hit(&objs[i], &streams, &sinks) {
            hits.push(name);
            assert(text::texts(hits@) =~= was.push(name@));
        }
        i = i + 1;
    }
    assert(ts.take(ts.len() as int) =~= ts);
    if hits.len() == 0 {
        return None;
    }
    let ghost all = text::texts(hits@);
    let mut best: usize = 0;
    let mut k: usize = 1;
    while k < hits.len()
        invariant
            1 <= k <= hits@.len(),
            best < hits@.len(),
            all == text::texts(hits@),
            all[best as int] == busiest_upto(all, k as int),
        decreases hits.len() - k,
    {
        assert(all.take(all.len() as int) =~= all);
        assert(all[k as int] == hits@[k as int]@ && all[best as int] == hits@[best as int]@);
        let mine = count_upto(&hits, hits.len(), hits[k].as_str());
        let other = count_upto(&hits, hits.len(), hits[best].as_str());
        if mine > other || (mine == other && json::comes_before(
            chars_of(hits[k].as_str()).as_slice(),
            chars_of(hits[best].as_str()).as_slice(),
        )) {
            best = k;
        }
        k = k + 1;
    }
    Some(hits[best].clone())
}

/// The sink that most playing streams are linked to, in what the lister of
/// objects printed.
pub fn playing_sink(output: Option<&[u8]>) -> (r: Option<String>)
    ensures
        text::opt_text(r) == playing_sink_of(objects_in(opt_bytes(output))),
{
    parse_playing_sink(dump_objects(output).as_slice())
}

// ---------------------------------------------------------------------------
// Sources
// ---------------------------------------------------------------------------

/// What sound is taken from: a device, a program under its saved key, or all
/// that goes out.
#[derive(Debug)]
pub enum Source {
    Device(Option<String>),
    Program(String),
    Sink,
}

/// What a source is.
pub enum SourceView {
    Device(Option<Seq<char>>),
    Program(Seq<char>),
    Sink,
}

impl View for Source {
    type V = SourceView;

    open spec fn view(&self) -> SourceView {
        match self {
            Source::Device(t) => SourceView::Device(text::opt_text(*t)),
            Source::Program(key) => SourceView::Program(key@),
            Source::Sink => SourceView::Sink,
        }
    }
}

/// What a capture listens to.
#[derive(Debug, PartialEq)]
pub enum Listening {
    Device,
    Program { key: String, target: String },
    WaitingFor(String),
    Sink,
}

/// What a capture listens to, as a mathematical value.
pub enum ListeningView {
    Device,
    Program { key: Seq<char>, target: Seq<char> },
    WaitingFor(Seq<char>),
    Sink,
}

impl View for Listening {
    type V = ListeningView;

    open spec fn view(&self) -> ListeningView {
        match self {
            Listening::Device => ListeningView::Device,
            Listening::Program { key, target } => ListeningView::Program {
                key: key@,
                target: target@,
            },
            Listening::WaitingFor(key) => ListeningView::WaitingFor(key@),
            Listening::Sink => ListeningView::Sink,
        }
    }
}

/// What stands in the window while this is listened to.
pub open spec fn notice_of(l: ListeningView) -> Option<Seq<char>> {
    match l {
        ListeningView::WaitingFor(key) => Some(
            key + " не звучит — слушаю весь вывод, жду его"@,
        ),
        _ => None,
    }
}

impl Listening {
    /// What stands in the window: that a program is waited for.
    pub fn notice(&self) -> (r: Option<String>)
        ensures
            text::opt_text(r) == notice_of(self@),
    {
        match self {
            Listening::WaitingFor(key) => Some(
                cat(key.as_str(), " не звучит — слушаю весь вывод, жду его"),
            ),
            _ => None,
        }
    }
}

/// What is recorded for a source, and what is listened to then.
pub struct Plan {
    pub target: Option<String>,
    pub capture_sink: bool,
    pub listening: Listening,
    pub events: Vec<Event>,
}

/// What a plan says.
pub struct PlanView {
    pub target: Option<Seq<char>>,
    pub capture_sink: bool,
    pub listening: ListeningView,
    pub events: Seq<EventView>,
}

impl View for Plan {
    type V = PlanView;

    open spec fn view(&self) -> PlanView {
        PlanView {
            target: text::opt_text(self.target),
            capture_sink: self.capture_sink,
            listening: self.listening@,
            events: self.events@.map_values(|e: Event| e@),
        }
    }
}

/// A sink as it is reported.
pub open spec fn sink_shown(sink: Option<Seq<char>>) -> Seq<char> {
    match sink {
        Some(s) => s,
        None => "по умолчанию"@,
    }
}

/// The report of the sink that is recorded.
pub open spec fn report_sink_of(
    channel: Seq<char>,
    sink: Option<Seq<char>>,
    why: Seq<char>,
) -> EventView {
    telemetry::event_of(
        "audio.sink.resolved"@,
        seq![
            ("channel"@, Tree::Text(channel)),
            ("sink"@, Tree::Text(sink_shown(sink))),
            ("why"@, Tree::Text(why)),
        ],
    )
}

fn text_pair(key: &str, value: &str) -> (r: (String, Json))
    ensures
        (r.0@, r.1@) == (key@, Tree::Text(value@)),
        json::proper(r.1@),
{
    (key.to_owned(), telemetry::text(value))
}

/// Reports the sink that is recorded.
pub fn report_sink(channel: &str, sink: Option<&str>, why: &str) -> (r: Event)
    ensures
        r@ == report_sink_of(channel@, text::opt_str(sink), why@),
        json::proper(r.fields@),
{
    let name = match sink {
        Some(s) => s,
        None => "по умолчанию",
    };
    let mut pairs: Vec<(String, Json)> = Vec::new();
    pairs.push(text_pair("channel", channel));
    pairs.push(text_pair("sink", name));
    pairs.push(text_pair("why", why));
    assert(json::entries(pairs@) =~= seq![
        ("channel"@, Tree::Text(channel@)),
        ("sink"@, Tree::Text(sink_shown(text::opt_str(sink)))),
        ("why"@, Tree::Text(why@)),
    ]);
    telemetry::event("audio.sink.resolved", pairs)
}

/// The report of a sink names the channel, the sink and the reason, each under
/// its own name; where no sink is known it is the usual one.
pub proof fn report_names_the_sink(channel: Seq<char>, sink: Option<Seq<char>>, why: Seq<char>)
    ensures
        ({
            let e = report_sink_of(channel, sink, why);
            &&& json::field_of(e.fields, "channel"@) == Some(Tree::Text(channel))
            &&& json::field_of(e.fields, "why"@) == Some(Tree::Text(why))
            &&& sink matches Some(s) ==> json::field_of(e.fields, "sink"@) == Some(Tree::Text(s))
            &&& sink is None ==> json::field_of(e.fields, "sink"@) == Some(
                Tree::Text("по умолчанию"@),
            )
        }),
{
    reveal_strlit("channel");
    reveal_strlit("sink");
    reveal_strlit("why");
    assert("channel"@.len() == 7 && "sink"@.len() == 4 && "why"@.len() == 3);
    let shown = Tree::Text(sink_shown(sink));
    let none = Seq::<(Seq<char>, Tree)>::empty();
    let a = none.push(("channel"@, Tree::Text(channel)));
    let b = a.push(("sink"@, shown));
    let c = b.push(("why"@, Tree::Text(why)));
    assert(c =~= seq![
        ("channel"@, Tree::Text(channel)),
        ("sink"@, shown),
        ("why"@, Tree::Text(why)),
    ]);
    json::last_pair_counts(none, "channel"@, Tree::Text(channel), "channel"@);
    json::last_pair_counts(a, "sink"@, shown, "channel"@);
    json::last_pair_counts(a, "sink"@, shown, "sink"@);
    json::last_pair_counts(b, "why"@, Tree::Text(why), "channel"@);
    json::last_pair_counts(b, "why"@, Tree::Text(why), "sink"@);
    json::last_pair_counts(b, "why"@, Tree::Text(why), "why"@);
}

/// What is recorded for a source: a device as it is named; a program by its
/// target where it is there, and otherwise, while it is waited for, all that
/// goes out. `now` are the objects when the program is looked up, `later` those
/// when the sink is.
pub open spec fn plan_of(
    source: SourceView,
    channel: Seq<char>,
    now: Seq<Tree>,
    later: Seq<Tree>,
) -> PlanView {
    let sink = playing_sink_of(later);
    match source {
        SourceView::Device(t) => PlanView {
            target: t,
            capture_sink: false,
            listening: ListeningView::Device,
            events: Seq::empty(),
        },
        SourceView::Sink => PlanView {
            target: sink,
            capture_sink: true,
            listening: ListeningView::Sink,
            events: seq![report_sink_of(channel, sink, "весь вывод"@)],
        },
        SourceView::Program(key) => match program_target_of(parse_programs_of(now), key) {
            Some(target) => PlanView {
                target: Some(target),
                capture_sink: false,
                listening: ListeningView::Program { key, target },
                events: Seq::empty(),
            },
            None => PlanView {
                target: sink,
                capture_sink: true,
                listening: ListeningView::WaitingFor(key),
                events: seq![
                    telemetry::event_of(
                        "audio.program.unresolved"@,
                        seq![("channel"@, Tree::Text(channel)), ("key"@, Tree::Text(key))],
                    ),
                    report_sink_of(channel, sink, "ждём программу"@),
                ],
            },
        },
    }
}

/// A program that was chosen and is there is recorded alone: the recorder takes
/// that program's own stream, and never what goes out through a sink. The sink
/// is recorded only where the program is not there, or none was chosen, and it
/// is said that the program is waited for; a device is never taken for a sink.
pub proof fn chosen_program_is_recorded_alone(
    key: Seq<char>,
    channel: Seq<char>,
    now: Seq<Tree>,
    later: Seq<Tree>,
    target: Option<Seq<char>>,
)
    ensures
        ({
            let list = parse_programs_of(now);
            let plan = plan_of(SourceView::Program(key), channel, now, later);
            let there = exists|i: int|
                0 <= i < list.len() && base_key_of((#[trigger] list[i]).key) == base_key_of(key);
            &&& plan.capture_sink <==> !there
            &&& there ==> exists|i: int|
                0 <= i < list.len() && plan.target == Some((#[trigger] list[i]).target)
                    && base_key_of(list[i].key) == base_key_of(key)
            &&& there ==> (plan.listening matches ListeningView::Program { key: k, target: t } && k
                == key && plan.target == Some(t))
            &&& !there ==> plan.target == playing_sink_of(later) && plan.listening
                == ListeningView::WaitingFor(key)
        }),
        forall|i: int|
            0 <= i < parse_programs_of(now).len() && (#[trigger] parse_programs_of(now)[i]).key
                == key && (forall|j: int|
                0 <= j < i ==> (#[trigger] parse_programs_of(now)[j]).key != key) ==> plan_of(
                SourceView::Program(key),
                channel,
                now,
                later,
            ).target == Some(parse_programs_of(now)[i].target),
        plan_of(SourceView::Sink, channel, now, later).capture_sink,
        plan_of(SourceView::Sink, channel, now, later).target == playing_sink_of(later),
        plan_of(SourceView::Sink, channel, now, later).listening is Sink,
        !plan_of(SourceView::Device(target), channel, now, later).capture_sink,
        plan_of(SourceView::Device(target), channel, now, later).target == target,
        plan_of(SourceView::Device(target), channel, now, later).listening is Device,
{
    let list = parse_programs_of(now);
    other_program_never_matches(list, key);
    lemma_first_from(list, key, true, 0);
    assert forall|i: int|
        0 <= i < list.len() && (#[trigger] list[i]).key == key && (forall|j: int|
            0 <= j < i ==> (#[trigger] list[j]).key != key) implies match_index_of(list, key)
        == Some(i) by {
        let found = first_from(list, key, true, 0);
        assert(found is Some);
    }
}

/// The recorder is told the target, and to take what goes out through it only
/// where that is meant.
pub proof fn recorder_is_told_the_target(target: Option<Seq<char>>, capture_sink: bool)
    ensures
        ({
            let args = record_args_of(target, capture_sink);
            &&& forall|t: Seq<char>|
                target == Some(t) ==> exists|i: int|
                    0 <= i < args.len() - 1 && #[trigger] args[i] == "--target"@ && args[i + 1] == t
            &&& target is None ==> !args.contains("--target"@)
            &&& capture_sink ==> args.contains("{ stream.capture.sink = true }"@)
            &&& !capture_sink && target is None ==> !args.contains(
                "{ stream.capture.sink = true }"@,
            )
            &&& args[0] == "--rate"@ && args[1] == text::decimal_of(RATE_HZ as nat)
            &&& args.last() == "-"@
        }),
{
    let args = record_args_of(target, capture_sink);
    reveal_strlit("--rate");
    reveal_strlit("44100");
    reveal_strlit("--channels");
    reveal_strlit("1");
    reveal_strlit("--format");
    reveal_strlit("f32");
    reveal_strlit("-P");
    reveal_strlit("--target");
    reveal_strlit("-");
    reveal_strlit("{ stream.capture.sink = true }");
    reveal_with_fuel(text::decimal_of, 6);
    assert(text::decimal_of(44100) =~= "44100"@);
    assert("--target"@.len() == 8 && "{ stream.capture.sink = true }"@.len() == 30);
    assert("{ stream.capture.sink = true }"@[0] == '{');
    let at = if capture_sink {
        8int
    } else {
        6int
    };
    if target is Some {
        assert(args[at] == "--target"@ && args[at + 1] == target->Some_0);
    }
    if capture_sink {
        assert(args[7] == "{ stream.capture.sink = true }"@);
    }
    assert(args[0] == "--rate"@ && args[1] == "44100"@);
    if target is None {
        assert forall|i: int| 0 <= i < args.len() implies args[i] != "--target"@ by {
            if i == 0 {
            } else if i == 1 {
            } else if i == 2 {
                assert(args[2] == "--channels"@);
                assert("--channels"@.len() == 10);
            } else if i == 3 {
                assert(args[3] == "1"@);
            } else if i == 4 {
                assert(args[4] == "--format"@);
                assert("--format"@[2] == 'f' && "--target"@[2] == 't');
            } else if i == 5 {
                assert(args[5] == "f32"@);
            } else if i == 6 && capture_sink {
                assert(args[6] == "-P"@);
            } else if i == 7 {
            } else {
                assert(args[i] == "-"@);
            }
        }
        if !capture_sink {
            assert forall|i: int| 0 <= i < args.len() implies args[i]
                != "{ stream.capture.sink = true }"@ by {
                assert(args[i].len() < 30);
            }
        }
    }
}

/// The microphone that is recorded: the one that was chosen, or else the
/// preferred one.
pub open spec fn device_of(chosen: Option<Seq<char>>, preferred: Option<Seq<char>>) -> Option<
    Seq<char>,
> {
    match chosen {
        Some(t) => Some(t),
        None => preferred,
    }
}

/// The program that was chosen, or else all that goes out.
pub open spec fn program_source_of(key: Option<Seq<char>>) -> SourceView {
    match key {
        Some(k) => SourceView::Program(k),
        None => SourceView::Sink,
    }
}

/// What is asked for: a target or nothing, and whether it is all that goes out.
pub open spec fn described(s: SourceView) -> (Option<Seq<char>>, bool) {
    match s {
        SourceView::Device(t) => (t, false),
        SourceView::Program(key) => (Some(key), false),
        SourceView::Sink => (None, true),
    }
}

/// A source is described by what was chosen, and as all that goes out only where
/// that is what is asked for; a stream is reported by its number.
pub proof fn source_is_described_by_its_choice(
    s: SourceView,
    t: Option<Seq<char>>,
    key: Seq<char>,
    target: Seq<char>,
    sink: Seq<char>,
)
    ensures
        described(s).1 <==> s is Sink,
        described(SourceView::Device(t)).0 == t,
        described(SourceView::Program(key)).0 == Some(key),
        source_name_of(ListeningView::Program { key, target }, Some(sink)) == "поток "@ + target,
        source_name_of(ListeningView::Sink, Some(sink)) == sink,
        source_name_of(ListeningView::WaitingFor(key), Some(sink)) == sink,
        source_name_of(ListeningView::Sink, None) == "по умолчанию"@,
        notice_of(ListeningView::WaitingFor(key)) == Some(
            key + " не звучит — слушаю весь вывод, жду его"@,
        ),
        notice_of(ListeningView::Sink) is None && notice_of(ListeningView::Device) is None,
        notice_of(ListeningView::Program { key, target }) is None,
{
}

/// What was chosen is what is recorded, whatever else there is; a choice of no
/// program means all that goes out.
pub proof fn choice_is_followed(
    chosen: Seq<char>,
    preferred: Option<Seq<char>>,
    channel: Seq<char>,
    now: Seq<Tree>,
    later: Seq<Tree>,
)
    ensures
        device_of(Some(chosen), preferred) == Some(chosen),
        device_of(None, preferred) == preferred,
        plan_of(program_source_of(None), channel, now, later).capture_sink,
        program_source_of(Some(chosen)) matches SourceView::Program(k) && k == chosen,
{
}

impl Source {
    /// The device that was chosen, or else the preferred microphone.
    pub fn device(target: Option<&str>, mics: &Vec<Device>) -> (r: Source)
        ensures
            r@ == SourceView::Device(
                device_of(
                    text::opt_str(target),
                    pick_jabra_of(devices(mics@), lowered_of(devices(mics@))),
                ),
            ),
    {
        match target {
            Some(t) => Source::Device(Some(t.to_owned())),
            None => Source::Device(jabra_target(mics)),
        }
    }

    /// The program that was chosen, or else all that goes out.
    pub fn program(key: Option<&str>) -> (r: Source)
        ensures
            r@ == program_source_of(text::opt_str(key)),
    {
        match key {
            Some(k) => Source::Program(k.to_owned()),
            None => Source::Sink,
        }
    }

    /// What is recorded for this source, as the objects are: `now` when a
    /// program is looked up, `later` when the sink is.
    pub fn spawn(&self, channel: &str, now: &[Json], later: &[Json]) -> (r: Plan)
        ensures
            r@ == plan_of(self@, channel@, json::trees(now@), json::trees(later@)),
    {
        let ghost want = plan_of(self@, channel@, json::trees(now@), json::trees(later@));
        let mut events: Vec<Event> = Vec::new();
        let r = match self {
            Source::Device(t) => Plan {
                target: clone_opt(t),
                capture_sink: false,
                listening: Listening::Device,
                events,
            },
            Source::Sink => {
                let sink = parse_playing_sink(later);
                events.push(report_sink(channel, as_opt_str(&sink), "весь вывод"));
                Plan { target: sink, capture_sink: true, listening: Listening::Sink, events }
            },
            Source::Program(key) => match program_target_now(
                parse_programs(now).as_slice(),
                key.as_str(),
            ) {
                Some(target) => Plan {
                    target: Some(target.clone()),
                    capture_sink: false,
                    listening: Listening::Program { key: key.clone(), target },
                    events,
                },
                None => {
                    let mut pairs: Vec<(String, Json)> = Vec::new();
                    pairs.push(text_pair("channel", channel));
                    pairs.push(text_pair("key", key.as_str()));
                    assert(json::entries(pairs@) =~= seq![
                        ("channel"@, Tree::Text(channel@)),
                        ("key"@, Tree::Text(key@)),
                    ]);
                    events.push(telemetry::event("audio.program.unresolved", pairs));
                    let sink = parse_playing_sink(later);
                    events.push(report_sink(channel, as_opt_str(&sink), "ждём программу"));
                    Plan {
                        target: sink,
                        capture_sink: true,
                        listening: Listening::WaitingFor(key.clone()),
                        events,
                    }
                },
            },
        };
        assert(r@.events =~= want.events);
        r
    }

    /// What stands in the window while the recorder does not start.
    pub fn spawn_failure_notice(&self) -> (r: &'static str)
        ensures
            r@ == "захват не запускается"@,
    {
        "захват не запускается"
    }

    /// What is asked for: a target or nothing, and whether it is all that goes
    /// out.
    pub fn describe(&self) -> (r: (Option<&str>, bool))
        ensures
            (text::opt_str(r.0), r.1) == described(self@),
    {
        match self {
            Source::Device(t) => (as_opt_str(t), false),
            Source::Program(key) => (Some(key.as_str()), false),
            Source::Sink => (None, true),
        }
    }
}

// ---------------------------------------------------------------------------
// Watching what is recorded
// ---------------------------------------------------------------------------

/// What has moved while `l` is listened to and `sink` is recorded: the event
/// to report, and its details.
pub open spec fn moved_of(l: ListeningView, sink: Option<Seq<char>>, objs: Seq<Tree>) -> Option<
    (Seq<char>, Seq<(Seq<char>, Tree)>),
> {
    match l {
        ListeningView::Device => None,
        ListeningView::WaitingFor(key) => match program_target_of(parse_programs_of(objs), key) {
            Some(target) => Some(
                (
                    "audio.program.appeared"@,
                    seq![("key"@, Tree::Text(key)), ("target"@, Tree::Text(target))],
                ),
            ),
            None => None,
        },
        ListeningView::Sink => {
            let now = playing_sink_of(objs);
            if now is Some && now != sink {
                Some(
                    (
                        "audio.sink.moved"@,
                        seq![("from"@, telemetry::text_or_null_of(sink)), ("to"@, telemetry::text_or_null_of(now))],
                    ),
                )
            } else {
                None
            }
        },
        ListeningView::Program { key, target } => {
            let now = program_target_of(parse_programs_of(objs), key);
            if now != Some(target) {
                Some(
                    (
                        "audio.program.moved"@,
                        seq![
                            ("key"@, Tree::Text(key)),
                            ("from"@, Tree::Text(target)),
                            ("to"@, telemetry::text_or_null_of(now)),
                        ],
                    ),
                )
            } else {
                None
            }
        },
    }
}

fn moved(l: &Listening, sink: &Option<String>, objs: &[Json]) -> (r: Option<
    (&'static str, Vec<(String, Json)>),
>)
    ensures
        match r {
            Some((name, pairs)) => moved_of(l@, text::opt_text(*sink), json::trees(objs@)) == Some(
                (name@, json::entries(pairs@)),
            ),
            None => moved_of(l@, text::opt_text(*sink), json::trees(objs@)) is None,
        },
{
    let mut pairs: Vec<(String, Json)> = Vec::new();
    match l {
        Listening::Device => None,
        Listening::WaitingFor(key) => match program_target_now(
            parse_programs(objs).as_slice(),
            key.as_str(),
        ) {
            Some(target) => {
                pairs.push(text_pair("key", key.as_str()));
                pairs.push(text_pair("target", target.as_str()));
                assert(json::entries(pairs@) =~= seq![
                    ("key"@, Tree::Text(key@)),
                    ("target"@, Tree::Text(target@)),
                ]);
                Some(("audio.program.appeared", pairs))
            },
            None => None,
        },
        Listening::Sink => {
            let now = parse_playing_sink(objs);
            if now.is_some() && !same_opt(as_opt_str(&now), as_opt_str(sink)) {
                pairs.push(("from".to_owned(), telemetry::text_or_null(as_opt_str(sink))));
                pairs.push(("to".to_owned(), telemetry::text_or_null(as_opt_str(&now))));
                assert(json::entries(pairs@) =~= seq![
                    ("from"@, telemetry::text_or_null_of(text::opt_text(*sink))),
                    ("to"@, telemetry::text_or_null_of(text::opt_text(now))),
                ]);
                Some(("audio.sink.moved", pairs))
            } else {
                None
            }
        },
        Listening::Program { key, target } => {
            let now = program_target_now(parse_programs(objs).as_slice(), key.as_str());
            if !same_opt(as_opt_str(&now), Some(target.as_str())) {
                pairs.push(text_pair("key", key.as_str()));
                pairs.push(text_pair("from", target.as_str()));
                pairs.push(("to".to_owned(), telemetry::text_or_null(as_opt_str(&now))));
                assert(json::entries(pairs@) =~= seq![
                    ("key"@, Tree::Text(key@)),
                    ("from"@, Tree::Text(target@)),
                    ("to"@, telemetry::text_or_null_of(text::opt_text(now))),
                ]);
                Some(("audio.program.moved", pairs))
            } else {
                None
            }
        },
    }
}

/// A capture is moved exactly where it would now be planned otherwise; one of a
/// device never is, and one of all that goes out stays where it is while
/// nothing plays.
pub proof fn capture_moves_with_its_plan(
    key: Seq<char>,
    target: Seq<char>,
    sink: Option<Seq<char>>,
    channel: Seq<char>,
    objs: Seq<Tree>,
)
    ensures
        ({
            let plan = plan_of(SourceView::Program(key), channel, objs, objs);
            let all = plan_of(SourceView::Sink, channel, objs, objs);
            let at = ListeningView::Program { key, target };
            &&& moved_of(at, sink, objs) is None <==> !plan.capture_sink && plan.target == Some(
                target,
            )
            &&& moved_of(ListeningView::WaitingFor(key), sink, objs) is Some <==> !plan.capture_sink
            &&& moved_of(ListeningView::Sink, sink, objs) is Some <==> all.target is Some
                && all.target != sink
            &&& moved_of(ListeningView::Device, sink, objs) is None
        }),
{
}

/// A watch over what is recorded.
pub struct Watch {
    pub listening: Listening,
    pub sink: Option<String>,
    pub agreed: u32,
}

/// After a look at what is playing: how many looks in a row have found a move,
/// and whether the capture is to be moved.
pub open spec fn look_of(agreed: nat, moved: bool) -> (nat, bool) {
    if !moved {
        (0, false)
    } else {
        (agreed + 1, agreed + 1 >= WATCH_AGREE)
    }
}

/// One look alone moves nothing, and a look that finds no move makes the next
/// one that does the first.
pub proof fn one_look_moves_nothing(agreed: nat, moved: bool)
    ensures
        !look_of(0, moved).1,
        !look_of(look_of(agreed, false).0, moved).1,
        look_of(look_of(agreed, true).0, true).1,
{
}

impl Watch {
    /// A watch over a capture, but not over one of a device, which does not
    /// move.
    pub fn start(listening: Listening, sink: Option<String>) -> (r: Option<Watch>)
        ensures
            r is None <==> listening@ is Device,
            r matches Some(w) ==> w.listening == listening && w.sink == sink && w.agreed == 0,
    {
        match listening {
            Listening::Device => None,
            _ => Some(Watch { listening, sink, agreed: 0 }),
        }
    }

    /// Looks at what is playing. What comes back is the report of a move, after
    /// which the capture is stopped, to be started anew, and the watch ends.
    pub fn look(&mut self, channel: &str, objs: &[Json]) -> (r: Option<Event>)
        requires
            old(self).agreed < WATCH_AGREE,
        ensures
            final(self).listening == old(self).listening,
            final(self).sink == old(self).sink,
            ({
                let found = moved_of(
                    old(self).listening@,
                    text::opt_text(old(self).sink),
                    json::trees(objs@),
                );
                let next = look_of(old(self).agreed as nat, found is Some);
                &&& final(self).agreed == next.0
                &&& r is Some <==> next.1
                &&& r matches Some(e) ==> e@ == telemetry::event_of(
                    found->Some_0.0,
                    found->Some_0.1.push(("channel"@, Tree::Text(channel@))),
                )
            }),
            r is None ==> final(self).agreed < WATCH_AGREE,
    {
        match moved(&self.listening, &self.sink, objs) {
            Some((name, found)) => {
                self.agreed = self.agreed + 1;
                if self.agreed < WATCH_AGREE {
                    return None;
                }
                let mut pairs = found;
                let ghost was = json::entries(pairs@);
                pairs.push(text_pair("channel", channel));
                assert(json::entries(pairs@) =~= was.push(("channel"@, Tree::Text(channel@))));
                Some(telemetry::event(name, pairs))
            },
            None => {
                self.agreed = 0;
                None
            },
        }
    }
}

// ---------------------------------------------------------------------------
// The capture
// ---------------------------------------------------------------------------

/// The 32-bit word that four bytes are, the least significant first.
pub open spec fn word_of(b: Seq<u8>, i: int) -> u32 {
    (b[i] + b[i + 1] * 0x100 + b[i + 2] * 0x1_0000 + b[i + 3] * 0x100_0000) as u32
}

/// The words that whole groups of four bytes are.
pub open spec fn words_of(b: Seq<u8>) -> Seq<u32> {
    Seq::new((b.len() / 4) as nat, |i: int| word_of(b, 4 * i))
}

/// The words that whole groups of four bytes are, the least significant byte
/// of each first.
pub fn words(b: &[u8]) -> (r: Vec<u32>)
    ensures
        r@ == words_of(b@),
{
    let total: usize = b.len();
    let count: usize = total / 4;
    let mut out: Vec<u32> = Vec::new();
    let mut k: usize = 0;
    while k < count
        invariant
            k <= count,
            total == b@.len(),
            count == total / 4,
            out@ == words_of(b@).take(k as int),
        decreases count - k,
    {
        let at: usize = 4 * k;
        let word: u32 = b[at] as u32 + b[at + 1] as u32 * 0x100 + b[at + 2] as u32 * 0x1_0000
            + b[at + 3] as u32 * 0x100_0000;
        out.push(word);
        assert(words_of(b@)[k as int] == word);
        k = k + 1;
        assert(out@ =~= words_of(b@).take(k as int));
    }
    assert(out@ =~= words_of(b@));
    out
}

/// Every word is read as it was written, the least significant byte first, and
/// each in its place.
pub proof fn words_are_read_as_written(a: Seq<u8>, n: u32, b: Seq<u8>)
    requires
        a.len() % 4 == 0,
    ensures
        words_of(a + bytes::le32_of(n) + b).len() == (a.len() + 4 + b.len()) / 4,
        words_of(a + bytes::le32_of(n) + b)[a.len() as int / 4] == n,
{
    let s = a + bytes::le32_of(n) + b;
    let k = a.len() as int / 4;
    assert(4 * k == a.len());
    assert(s[4 * k] == (n % 0x100) as u8);
    assert(s[4 * k + 1] == (n / 0x100 % 0x100) as u8);
    assert(s[4 * k + 2] == (n / 0x1_0000 % 0x100) as u8);
    assert(s[4 * k + 3] == (n / 0x100_0000) as u8);
    assert(word_of(s, 4 * k) == n);
}

/// The bytes behind the last whole group of four.
pub open spec fn rest_of(b: Seq<u8>) -> Seq<u8> {
    b.skip((b.len() / 4 * 4) as int)
}

/// However a stream of bytes is cut, it holds the same words: those of a first
/// piece, and then those of what was left of it with the second.
pub proof fn framing_loses_nothing(a: Seq<u8>, b: Seq<u8>)
    ensures
        words_of(a) + words_of(rest_of(a) + b) == words_of(a + b),
        rest_of(rest_of(a) + b) == rest_of(a + b),
{
    let k = a.len() / 4;
    let r = rest_of(a);
    let all = a + b;
    assert(all.len() / 4 == k + (r + b).len() / 4);
    assert forall|i: int| 0 <= i < all.len() / 4 implies #[trigger] words_of(all)[i] == (words_of(a)
        + words_of(r + b))[i] by {
        if i >= k {
            let j = 4 * (i - k);
            assert((r + b)[j] == all[4 * i]);
            assert((r + b)[j + 1] == all[4 * i + 1]);
            assert((r + b)[j + 2] == all[4 * i + 2]);
            assert((r + b)[j + 3] == all[4 * i + 3]);
        }
    }
    assert(words_of(a) + words_of(r + b) =~= words_of(all));
    assert(rest_of(r + b) =~= rest_of(all));
}

/// The state of a capture, through all its starts.
pub struct Capture {
    /// Starts in a row that gave no sound.
    pub fails: u32,
    /// Bytes that do not make a whole sample yet.
    pub acc: Vec<u8>,
    /// The loss of sound was reported.
    pub silence_reported: bool,
    /// The number of the present start.
    pub generation: u64,
    /// The bytes of the present start.
    pub total_bytes: u64,
    /// The present start has given sound.
    pub got_first: bool,
    /// What stands in the window during the present start.
    pub standing: Option<String>,
    /// What the present start records.
    pub source_name: String,
}

/// What comes of bytes that were read.
pub struct Received {
    /// The report of the first bytes, with which the notice of the start is
    /// shown again.
    pub first: Option<Event>,
    /// The bits of the whole samples.
    pub samples: Vec<u32>,
}

/// What is done before a capture is taken up again.
pub struct Restart {
    pub notice: Option<String>,
    pub event: Event,
    pub sleep_ms: u64,
}

/// What is recorded, as it is reported.
pub open spec fn source_name_of(l: ListeningView, sink: Option<Seq<char>>) -> Seq<char> {
    match l {
        ListeningView::Program { key, target } => "поток "@ + target,
        _ => sink_shown(sink),
    }
}

/// The report of a change of sound.
pub open spec fn sound_event_of(
    change: SoundChange,
    channel: Seq<char>,
    source: Seq<char>,
) -> EventView {
    match change {
        SoundChange::Lost(secs) => telemetry::event_of(
            "audio.silence"@,
            seq![
                ("channel"@, Tree::Text(channel)),
                ("secs"@, Tree::UInt(secs)),
                ("source"@, Tree::Text(source)),
            ],
        ),
        SoundChange::Back(secs) => telemetry::event_of(
            "audio.sound.back"@,
            seq![("channel"@, Tree::Text(channel)), ("after_secs"@, Tree::UInt(secs))],
        ),
    }
}

/// The starts in a row that gave no sound, once a start has ended that gave
/// some where `sounded`.
pub open spec fn fails_after(sounded: bool, fails: nat) -> nat {
    if sounded {
        0
    } else {
        fails + 1
    }
}

/// How long to wait before a capture that ended is taken up again, in
/// milliseconds.
pub open spec fn sleep_after(sounded: bool, fails: nat) -> nat {
    if sounded {
        RESUME_MS as nat
    } else {
        spawn_backoff_of(fails + 1)
    }
}

/// A capture that has given sound is taken up again at once, whatever went
/// wrong before it, and the next failure counts as the first. One that gives
/// none waits longer each time, but never more than half a minute.
pub proof fn sound_makes_waits_short_again(fails: nat)
    ensures
        sleep_after(true, fails) == 300,
        sleep_after(false, fails_after(true, fails)) == 2000,
        sleep_after(true, fails) < sleep_after(false, fails) <= 30_000,
        sleep_after(false, fails) <= sleep_after(false, fails_after(false, fails)),
        fails >= 4 ==> sleep_after(false, fails) == 30_000,
        fails < 3 ==> sleep_after(false, fails_after(false, fails)) == 2 * sleep_after(
            false,
            fails,
        ),
{
    backoff_grows(fails + 1, fails + 2);
    backoff_doubles(0);
    backoff_doubles(fails + 1);
    vstd::arithmetic::power2::lemma2_to64();
}

/// A start makes `a` into `b`.
pub open spec fn attaches(a: Capture, b: Capture) -> bool {
    &&& b.fails == a.fails
    &&& b.acc == a.acc
    &&& b.silence_reported == a.silence_reported
    &&& b.generation == a.generation.wrapping_add(1)
    &&& b.total_bytes == 0
    &&& !b.got_first
}

/// Bytes that were read make `a` into `b`, and give the samples; `first` is
/// whether they are reported as the first.
pub open spec fn receives(
    a: Capture,
    bytes: Seq<u8>,
    b: Capture,
    samples: Seq<u32>,
    first: bool,
) -> bool {
    &&& samples == words_of(a.acc@ + bytes)
    &&& b.acc@ == rest_of(a.acc@ + bytes)
    &&& b.total_bytes == a.total_bytes + bytes.len()
    &&& b.got_first
    &&& b.fails == if a.got_first {
        a.fails
    } else {
        0
    }
    &&& first <==> !a.got_first
    &&& b.silence_reported == a.silence_reported
    &&& b.generation == a.generation
}

/// Each start counts its own bytes: the first of them are reported, once, and
/// wipe out the failures before them; all samples come out, however the bytes
/// are cut, and less than one sample is held back.
pub proof fn each_start_counts_its_own_bytes(
    a: Capture,
    b: Capture,
    x: Seq<u8>,
    c: Capture,
    s: Seq<u32>,
    first: bool,
    y: Seq<u8>,
    d: Capture,
    t: Seq<u32>,
    again: bool,
)
    requires
        attaches(a, b),
        receives(b, x, c, s, first),
        receives(c, y, d, t, again),
    ensures
        b.generation != a.generation,
        first && !again,
        d.fails == 0 && d.got_first,
        d.total_bytes == x.len() + y.len(),
        s + t == words_of(a.acc@ + x + y),
        d.acc@ == rest_of(a.acc@ + x + y),
        d.acc@.len() < 4,
        d.generation == b.generation,
{
    framing_loses_nothing(a.acc@ + x, y);
}

impl Capture {
    pub fn new() -> (r: Capture)
        ensures
            r.fails == 0,
            r.acc@ == Seq::<u8>::empty(),
            !r.silence_reported,
            r.generation == 0,
            r.total_bytes == 0,
            !r.got_first,
            r.standing is None,
            r.source_name@ == Seq::<char>::empty(),
    {
        let r = Capture {
            fails: 0,
            acc: Vec::new(),
            silence_reported: false,
            generation: 0,
            total_bytes: 0,
            got_first: false,
            standing: None,
            source_name: String::new(),
        };
        assert(r.source_name@ =~= Seq::empty());
        r
    }

    /// The recorder did not start: how long to wait, in milliseconds.
    pub fn spawn_failed(&mut self) -> (r: u64)
        requires
            old(self).fails < u32::MAX,
        ensures
            *final(self) == (Capture { fails: (old(self).fails + 1) as u32, ..*old(self) }),
            r == spawn_backoff_of((old(self).fails + 1) as nat),
    {
        self.fails = self.fails + 1;
        spawn_backoff_ms(self.fails)
    }

    /// The recorder started: the number of this start, and what stands in the
    /// window from now on.
    pub fn attached(&mut self, listening: &Listening, sink: &Option<String>) -> (r: (
        u64,
        Option<String>,
    ))
        ensures
            attaches(*old(self), *final(self)),
            text::opt_text(final(self).standing) == notice_of(listening@),
            final(self).source_name@ == source_name_of(listening@, text::opt_text(*sink)),
            r.0 == final(self).generation,
            text::opt_text(r.1) == notice_of(listening@),
    {
        self.generation = self.generation.wrapping_add(1);
        self.total_bytes = 0;
        self.got_first = false;
        self.standing = listening.notice();
        self.source_name = match listening {
            Listening::Program { key: _, target } => cat("поток ", target.as_str()),
            _ => match sink {
                Some(s) => s.clone(),
                None => "по умолчанию".to_owned(),
            },
        };
        (self.generation, clone_opt(&self.standing))
    }

    /// Bytes were read: the whole samples among them and those that were left.
    pub fn received(&mut self, channel: &str, bytes: &[u8]) -> (r: Received)
        requires
            old(self).total_bytes + bytes@.len() <= u64::MAX,
            old(self).acc@.len() + bytes@.len() <= usize::MAX,
        ensures
            receives(*old(self), bytes@, *final(self), r.samples@, r.first is Some),
            r.first matches Some(e) ==> e@ == telemetry::event_of(
                "audio.capture.first_bytes"@,
                seq![
                    ("channel"@, Tree::Text(channel@)),
                    ("bytes"@, Tree::UInt(bytes@.len() as u64)),
                ],
            ),
            final(self).standing == old(self).standing,
            final(self).source_name == old(self).source_name,
    {
        self.total_bytes = self.total_bytes + bytes.len() as u64;
        let first = if !self.got_first {
            self.got_first = true;
            self.fails = 0;
            let mut pairs: Vec<(String, Json)> = Vec::new();
            pairs.push(text_pair("channel", channel));
            pairs.push(("bytes".to_owned(), Json::UInt(bytes.len() as u64)));
            assert(json::entries(pairs@) =~= seq![
                ("channel"@, Tree::Text(channel@)),
                ("bytes"@, Tree::UInt(bytes@.len() as u64)),
            ]);
            Some(telemetry::event("audio.capture.first_bytes", pairs))
        } else {
            None
        };
        let ghost all = self.acc@ + bytes@;
        let mut whole: Vec<u8> = Vec::new();
        whole.append(&mut self.acc);
        let mut i: usize = 0;
        while i < bytes.len()
            invariant
                i <= bytes@.len(),
                all == old(self).acc@ + bytes@,
                whole@ == old(self).acc@ + bytes@.take(i as int),
            decreases bytes.len() - i,
        {
            whole.push(bytes[i]);
            i = i + 1;
            assert(bytes@.take(i as int) =~= bytes@.take(i - 1).push(bytes@[i - 1]));
            assert(whole@ =~= old(self).acc@ + bytes@.take(i as int));
        }
        assert(whole@ =~= all);
        let samples = words(whole.as_slice());
        let count: usize = whole.len() / 4;
        let mut left: Vec<u8> = Vec::new();
        let mut j: usize = 4 * count;
        while j < whole.len()
            invariant
                count == whole@.len() / 4,
                4 * count <= j <= whole@.len(),
                left@ == whole@.subrange(4 * count as int, j as int),
            decreases whole.len() - j,
        {
            left.push(whole[j]);
            j = j + 1;
            assert(left@ =~= whole@.subrange(4 * count as int, j as int));
        }
        assert(left@ =~= rest_of(all));
        self.acc = left;
        Received { first, samples }
    }

    /// A batch was heard: the report of sound that was lost or is back.
    pub fn sounded(&mut self, channel: &str, signal: bool, silent_for: Duration) -> (r: Option<
        Event,
    >)
        ensures
            ({
                let change = track_silence_of(signal, silent_for@, old(self).silence_reported);
                &&& *final(self) == (Capture {
                    silence_reported: reported_after(change, old(self).silence_reported),
                    ..*old(self)
                })
                &&& r is Some <==> change is Some
                &&& r matches Some(e) ==> e@ == sound_event_of(
                    change->Some_0,
                    channel@,
                    old(self).source_name@,
                )
            }),
    {
        let mut pairs: Vec<(String, Json)> = Vec::new();
        pairs.push(text_pair("channel", channel));
        match track_silence(signal, silent_for, self.silence_reported) {
            Some(SoundChange::Lost(secs)) => {
                self.silence_reported = true;
                pairs.push(("secs".to_owned(), Json::UInt(secs)));
                pairs.push(text_pair("source", self.source_name.as_str()));
                assert(json::entries(pairs@) =~= seq![
                    ("channel"@, Tree::Text(channel@)),
                    ("secs"@, Tree::UInt(secs)),
                    ("source"@, Tree::Text(self.source_name@)),
                ]);
                Some(telemetry::event("audio.silence", pairs))
            },
            Some(SoundChange::Back(secs)) => {
                self.silence_reported = false;
                pairs.push(("after_secs".to_owned(), Json::UInt(secs)));
                assert(json::entries(pairs@) =~= seq![
                    ("channel"@, Tree::Text(channel@)),
                    ("after_secs"@, Tree::UInt(secs)),
                ]);
                Some(telemetry::event("audio.sound.back", pairs))
            },
            None => None,
        }
    }

    /// The recorder ended: the report of it. What was left of a sample is lost.
    pub fn ended(&mut self, channel: &str, reason: &str) -> (r: Event)
        ensures
            final(self).acc@ == Seq::<u8>::empty(),
            *final(self) == (Capture { acc: final(self).acc, ..*old(self) }),
            r@ == telemetry::event_of(
                "audio.capture.end"@,
                seq![
                    ("channel"@, Tree::Text(channel@)),
                    ("reason"@, Tree::Text(reason@)),
                    ("total_bytes"@, Tree::UInt(old(self).total_bytes)),
                    ("got_first"@, Tree::Bool(old(self).got_first)),
                ],
            ),
    {
        self.acc = Vec::new();
        let mut pairs: Vec<(String, Json)> = Vec::new();
        pairs.push(text_pair("channel", channel));
        pairs.push(text_pair("reason", reason));
        pairs.push(("total_bytes".to_owned(), Json::UInt(self.total_bytes)));
        pairs.push(("got_first".to_owned(), Json::Bool(self.got_first)));
        assert(json::entries(pairs@) =~= seq![
            ("channel"@, Tree::Text(channel@)),
            ("reason"@, Tree::Text(reason@)),
            ("total_bytes"@, Tree::UInt(self.total_bytes)),
            ("got_first"@, Tree::Bool(self.got_first)),
        ]);
        telemetry::event("audio.capture.end", pairs)
    }

    /// A capture that ended is taken up again: soon where it gave sound, and
    /// later with every start in a row that gave none.
    pub fn restart(&mut self, channel: &str, reason: &str) -> (r: Restart)
        requires
            !old(self).got_first ==> old(self).fails < u32::MAX,
        ensures
            *final(self) == (Capture {
                fails: fails_after(old(self).got_first, old(self).fails as nat) as u32,
                ..*old(self)
            }),
            r.sleep_ms == sleep_after(old(self).got_first, old(self).fails as nat),
            text::opt_text(r.notice) == if old(self).got_first {
                None
            } else {
                Some("источник молчит, переподключаюсь"@)
            },
            r.event@ == telemetry::event_of(
                "audio.capture.restart"@,
                seq![
                    ("channel"@, Tree::Text(channel@)),
                    ("after"@, Tree::Text(reason@)),
                    ("fails"@, Tree::UInt(final(self).fails as u64)),
                ],
            ),
    {
        let sleep_ms: u64 = if self.got_first {
            self.fails = 0;
            RESUME_MS
        } else {
            self.fails = self.fails + 1;
            spawn_backoff_ms(self.fails)
        };
        let notice = if self.got_first {
            None
        } else {
            Some("источник молчит, переподключаюсь".to_owned())
        };
        let mut pairs: Vec<(String, Json)> = Vec::new();
        pairs.push(text_pair("channel", channel));
        pairs.push(text_pair("after", reason));
        pairs.push(("fails".to_owned(), Json::UInt(self.fails as u64)));
        assert(json::entries(pairs@) =~= seq![
            ("channel"@, Tree::Text(channel@)),
            ("after"@, Tree::Text(reason@)),
            ("fails"@, Tree::UInt(self.fails as u64)),
        ]);
        Restart { notice, event: telemetry::event("audio.capture.restart", pairs), sleep_ms }
    }
}

} // verus!
