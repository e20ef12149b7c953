//! What is stored of calls: when they were, how much was said in them, and where
//! their sound tracks are.

use crate::json;
use crate::json::comes_before;
use crate::text;
use crate::text::{cat, chars_of, decimal_i64, decimal_u64, same_str};
use vstd::prelude::*;

verus! {

// ---------------------------------------------------------------------------
// What is stored
// ---------------------------------------------------------------------------

/// A call. It has no end while it goes on.
#[derive(Debug, PartialEq)]
pub struct StoredCall {
    pub id: i64,
    pub name: String,
    pub started: String,
    pub ended: Option<String>,
}

pub struct CallRow {
    pub id: i64,
    pub name: Seq<char>,
    pub started: Seq<char>,
    pub ended: Option<Seq<char>>,
}

impl View for StoredCall {
    type V = CallRow;

    open spec fn view(&self) -> CallRow {
        CallRow {
            id: self.id,
            name: self.name@,
            started: self.started@,
            ended: text::opt_text(self.ended),
        }
    }
}

/// A sound track: the call, the channel and the path.
#[derive(Debug, PartialEq)]
pub struct StoredTrack {
    pub call_id: i64,
    pub channel: String,
    pub path: String,
}

pub struct TrackRow {
    pub call_id: i64,
    pub channel: Seq<char>,
    pub path: Seq<char>,
}

impl View for StoredTrack {
    type V = TrackRow;

    open spec fn view(&self) -> TrackRow {
        TrackRow { call_id: self.call_id, channel: self.channel@, path: self.path@ }
    }
}

/// The calls, the number of its call for each line that was said in one, and
/// the tracks.
#[derive(Debug, PartialEq)]
pub struct Stored {
    pub calls: Vec<StoredCall>,
    pub said: Vec<i64>,
    pub tracks: Vec<StoredTrack>,
}

pub struct StoredView {
    pub calls: Seq<CallRow>,
    pub said: Seq<i64>,
    pub tracks: Seq<TrackRow>,
}

pub open spec fn call_rows(calls: Seq<StoredCall>) -> Seq<CallRow> {
    calls.map_values(|c: StoredCall| c@)
}

pub open spec fn track_rows(tracks: Seq<StoredTrack>) -> Seq<TrackRow> {
    tracks.map_values(|t: StoredTrack| t@)
}

impl View for Stored {
    type V = StoredView;

    open spec fn view(&self) -> StoredView {
        StoredView {
            calls: call_rows(self.calls@),
            said: self.said@,
            tracks: track_rows(self.tracks@),
        }
    }
}

// ---------------------------------------------------------------------------
// The end of a call
// ---------------------------------------------------------------------------

/// A call once the call `id` has ended: its end is set where it had none.
pub open spec fn ended_call(c: CallRow, id: i64, now: Seq<char>) -> CallRow {
    if c.id == id && c.ended is None {
        CallRow { ended: Some(now), ..c }
    } else {
        c
    }
}

/// What is stored once the call `id` has ended.
pub open spec fn end_of(s: StoredView, id: i64, now: Seq<char>) -> StoredView {
    StoredView { calls: s.calls.map_values(|c: CallRow| ended_call(c, id, now)), ..s }
}

/// The end of a call is set when it ends, and is not changed when it is ended
/// again. The other calls, and all that was said and recorded, stay as they
/// are.
pub proof fn end_is_set_once(s: StoredView, id: i64, now: Seq<char>, later: Seq<char>)
    ensures
        end_of(end_of(s, id, now), id, later) == end_of(s, id, now),
        end_of(s, id, now).calls.len() == s.calls.len(),
        end_of(s, id, now).said == s.said,
        end_of(s, id, now).tracks == s.tracks,
        forall|i: int|
            0 <= i < s.calls.len() ==> {
                let c = s.calls[i];
                let e = #[trigger] end_of(s, id, now).calls[i];
                &&& e.id == c.id && e.name == c.name && e.started == c.started
                &&& c.id != id ==> e == c
                &&& c.id == id ==> e.ended == Some(
                    match c.ended {
                        Some(t) => t,
                        None => now,
                    },
                )
            },
{
    assert(end_of(end_of(s, id, now), id, later).calls =~= end_of(s, id, now).calls);
}

impl Stored {
    /// What is stored before anything is.
    pub fn new() -> (r: Stored)
        ensures
            r.calls@ == Seq::<StoredCall>::empty(),
            r.said@ == Seq::<i64>::empty(),
            r.tracks@ == Seq::<StoredTrack>::empty(),
    {
        Stored { calls: Vec::new(), said: Vec::new(), tracks: Vec::new() }
    }

    /// The call `id` has ended, at the time `now`.
    pub fn end(&mut self, id: i64, now: &str)
        ensures
            final(self)@ == end_of(old(self)@, id, now@),
    {
        let ghost before = self.calls@;
        let n: usize = self.calls.len();
        let mut i: usize = 0;
        while i < n
            invariant
                i <= n,
                n == before.len(),
                self.calls@.len() == n,
                before == old(self).calls@,
                self.said == old(self).said,
                self.tracks == old(self).tracks,
                forall|k: int| i <= k < n ==> #[trigger] self.calls@[k] == before[k],
                forall|k: int|
                    0 <= k < i ==> (#[trigger] self.calls@[k])@ == ended_call(
                        before[k]@,
                        id,
                        now@,
                    ),
            decreases n - i,
        {
            if self.calls[i].id == id && self.calls[i].ended.is_none() {
                self.calls[i].ended = Some(now.to_owned());
            }
            i = i + 1;
        }
        assert(self@.calls =~= end_of(old(self)@, id, now@).calls);
    }
}

// ---------------------------------------------------------------------------
// Tracks
// ---------------------------------------------------------------------------

/// Two tracks of one channel of one call.
pub open spec fn same_track(a: TrackRow, b: TrackRow) -> bool {
    a.call_id == b.call_id && a.channel == b.channel
}

/// Some track is of the channel and the call of `t`.
pub open spec fn has_track(ts: Seq<TrackRow>, t: TrackRow) -> bool {
    exists|i: int| 0 <= i < ts.len() && same_track(#[trigger] ts[i], t)
}

/// The tracks with `t` in the place of the one that its channel had, or behind
/// them.
pub open spec fn put_track(ts: Seq<TrackRow>, t: TrackRow) -> Seq<TrackRow> {
    if has_track(ts, t) {
        ts.map_values(
            |r: TrackRow|
                if same_track(r, t) {
                    t
                } else {
                    r
                },
        )
    } else {
        ts.push(t)
    }
}

/// No channel of a call has two tracks.
pub open spec fn single(ts: Seq<TrackRow>) -> bool {
    forall|i: int, j: int|
        0 <= i < j < ts.len() ==> !same_track(#[trigger] ts[i], #[trigger] ts[j])
}

/// A track takes the place of the one that its channel had: of two that are
/// stored for one channel only the later one stays, and it is the only one.
pub proof fn later_track_stays(ts: Seq<TrackRow>, t: TrackRow, later: TrackRow)
    requires
        same_track(t, later),
    ensures
        put_track(put_track(ts, t), later) == put_track(ts, later),
        has_track(put_track(ts, later), later),
        forall|i: int|
            0 <= i < put_track(ts, later).len() && same_track(
                #[trigger] put_track(ts, later)[i],
                later,
            ) ==> put_track(ts, later)[i] == later,
        single(ts) ==> single(put_track(ts, later)),
{
    let once = put_track(ts, t);
    let r = put_track(ts, later);
    if has_track(ts, later) {
        let i = choose|i: int| 0 <= i < ts.len() && same_track(#[trigger] ts[i], later);
        assert(same_track(ts[i], t));
        assert(same_track(once[i], later));
        assert(same_track(r[i], later));
    } else {
        assert(!has_track(ts, t)) by {
            if has_track(ts, t) {
                let i = choose|i: int| 0 <= i < ts.len() && same_track(#[trigger] ts[i], t);
                assert(same_track(ts[i], later));
            }
        }
        assert(same_track(once[ts.len() as int], later));
        assert(same_track(r[ts.len() as int], later));
    }
    assert(put_track(once, later) =~= r);
    if single(ts) {
        assert forall|i: int, j: int| 0 <= i < j < r.len() implies !same_track(
            #[trigger] r[i],
            #[trigger] r[j],
        ) by {
            if j < ts.len() {
                assert(!same_track(ts[i], ts[j]));
            } else {
                assert(!same_track(ts[i], later));
            }
        }
    }
}

/// A track that is stored changes no track of another channel or another call,
/// and every track that was there stays, or gives its place to the new one.
pub proof fn other_tracks_stay(ts: Seq<TrackRow>, t: TrackRow, other: TrackRow, i: int)
    requires
        other.call_id != t.call_id || other.channel != t.channel,
    ensures
        put_track(ts, t).contains(other) <==> ts.contains(other),
        put_track(ts, t).contains(t),
        0 <= i < ts.len() ==> put_track(ts, t)[i] == ts[i] || put_track(ts, t)[i] == t,
        ts.len() <= put_track(ts, t).len() <= ts.len() + 1,
{
    let r = put_track(ts, t);
    if ts.contains(other) {
        let j = choose|j: int| 0 <= j < ts.len() && ts[j] == other;
        assert(r[j] == other);
    }
    if r.contains(other) {
        let j = choose|j: int| 0 <= j < r.len() && r[j] == other;
        assert(ts[j] == other);
    }
    if has_track(ts, t) {
        let j = choose|j: int| 0 <= j < ts.len() && same_track(#[trigger] ts[j], t);
        assert(r[j] == t);
    } else {
        assert(r[ts.len() as int] == t);
    }
}

impl Stored {
    /// The sound of a channel of a call is at `path`.
    pub fn add_track(&mut self, call_id: i64, channel: &str, path: &str)
        ensures
            final(self)@ == (StoredView {
                tracks: put_track(
                    old(self)@.tracks,
                    TrackRow { call_id, channel: channel@, path: path@ },
                ),
                ..old(self)@
            }),
    {
        let ghost before = self.tracks@;
        let ghost t = TrackRow { call_id, channel: channel@, path: path@ };
        let n: usize = self.tracks.len();
        let mut found = false;
        let mut i: usize = 0;
        while i < n
            invariant
                i <= n,
                n == before.len(),
                self.tracks@.len() == n,
                before == old(self).tracks@,
                self.calls == old(self).calls,
                self.said == old(self).said,
                t == (TrackRow { call_id, channel: channel@, path: path@ }),
                found == has_track(track_rows(before).take(i as int), t),
                forall|k: int| i <= k < n ==> #[trigger] self.tracks@[k] == before[k],
                forall|k: int|
                    0 <= k < i ==> (#[trigger] self.tracks@[k])@ == if same_track(before[k]@, t) {
                        t
                    } else {
                        before[k]@
                    },
            decreases n - i,
        {
            let ghost rows = track_rows(before);
            assert(rows.take(i + 1).drop_last() =~= rows.take(i as int));
            assert(rows.take(i + 1)[i as int] == before[i as int]@);
            let here = self.tracks[i].call_id == call_id && same_str(
                self.tracks[i].channel.as_str(),
                channel,
            );
            proof {
                lemma_has_track(rows.take(i as int), rows.take(i + 1), t);
            }
            if here {
                self.tracks[i].path = path.to_owned();
                found = true;
            }
            i = i + 1;
        }
        assert(track_rows(before).take(n as int) =~= track_rows(before));
        if !found {
            self.tracks.push(
                StoredTrack { call_id, channel: channel.to_owned(), path: path.to_owned() },
            );
        }
        assert(self@.tracks =~= put_track(old(self)@.tracks, t));
    }
}

proof fn lemma_has_track(ts: Seq<TrackRow>, more: Seq<TrackRow>, t: TrackRow)
    requires
        more.len() == ts.len() + 1,
        more.drop_last() == ts,
    ensures
        has_track(more, t) == (has_track(ts, t) || same_track(more.last(), t)),
{
    if has_track(more, t) {
        let i = choose|i: int| 0 <= i < more.len() && same_track(#[trigger] more[i], t);
        if i < ts.len() {
            assert(same_track(ts[i], t));
        }
    }
    if has_track(ts, t) {
        let i = choose|i: int| 0 <= i < ts.len() && same_track(#[trigger] ts[i], t);
        assert(same_track(more[i], t));
    }
}

// ---------------------------------------------------------------------------
// Order
// ---------------------------------------------------------------------------

/// The calls with `c` in its place: before those with a greater number.
pub open spec fn place_call(list: Seq<CallRow>, c: CallRow) -> Seq<CallRow>
    decreases list.len(),
{
    if list.len() > 0 && c.id < list.last().id {
        place_call(list.drop_last(), c).push(list.last())
    } else {
        list.push(c)
    }
}

/// The calls by their numbers.
pub open spec fn by_id(list: Seq<CallRow>) -> Seq<CallRow>
    decreases list.len(),
{
    if list.len() == 0 {
        list
    } else {
        place_call(by_id(list.drop_last()), list.last())
    }
}

/// The numbers ascend.
pub open spec fn ids_ascend(list: Seq<CallRow>) -> bool {
    forall|i: int, j: int| 0 <= i < j < list.len() ==> (#[trigger] list[i]).id <= (
    #[trigger] list[j]).id
}

proof fn lemma_place_call(list: Seq<CallRow>, c: CallRow)
    requires
        ids_ascend(list),
    ensures
        ids_ascend(place_call(list, c)),
        place_call(list, c).to_multiset() == list.to_multiset().insert(c),
        forall|i: int|
            0 <= i < place_call(list, c).len() ==> (#[trigger] place_call(list, c)[i]).id <= c.id
                || (list.len() > 0 && place_call(list, c)[i].id <= list.last().id),
    decreases list.len(),
{
    broadcast use vstd::seq_lib::group_to_multiset_ensures;

    if list.len() > 0 && c.id < list.last().id {
        let init = list.drop_last();
        assert(ids_ascend(init)) by {
            assert forall|i: int, j: int| 0 <= i < j < init.len() implies (#[trigger] init[i]).id
                <= (#[trigger] init[j]).id by {
                assert(init[i] == list[i] && init[j] == list[j]);
            }
        }
        lemma_place_call(init, c);
        if init.len() > 0 {
            assert(list[list.len() - 2].id <= list[list.len() - 1].id);
        }
        assert(init.push(list.last()) =~= list);
        assert(init.to_multiset().insert(c).insert(list.last()) =~= init.to_multiset().insert(
            list.last(),
        ).insert(c));
    } else if list.len() > 0 {
        assert forall|i: int| 0 <= i < list.len() implies (#[trigger] list[i]).id <= c.id by {
            if i < list.len() - 1 {
                assert(list[i].id <= list[list.len() - 1].id);
            }
        }
    }
}

proof fn lemma_by_id(list: Seq<CallRow>)
    ensures
        ids_ascend(by_id(list)),
        by_id(list).to_multiset() == list.to_multiset(),
    decreases list.len(),
{
    broadcast use vstd::seq_lib::group_to_multiset_ensures;

    if list.len() > 0 {
        lemma_by_id(list.drop_last());
        lemma_place_call(by_id(list.drop_last()), list.last());
        assert(list.drop_last().push(list.last()) =~= list);
    }
}

/// The tracks of the call `id`.
pub open spec fn of_call(ts: Seq<TrackRow>, id: i64) -> Seq<TrackRow>
    decreases ts.len(),
{
    if ts.len() == 0 {
        ts
    } else if ts.last().call_id == id {
        of_call(ts.drop_last(), id).push(ts.last())
    } else {
        of_call(ts.drop_last(), id)
    }
}

/// The tracks of a call are those that were stored for it, and no others.
pub proof fn tracks_belong_to_their_call(ts: Seq<TrackRow>, id: i64, t: TrackRow)
    ensures
        of_call(ts, id).contains(t) <==> ts.contains(t) && t.call_id == id,
    decreases ts.len(),
{
    if ts.len() > 0 {
        let init = ts.drop_last();
        tracks_belong_to_their_call(init, id, t);
        let most = of_call(init, id);
        let all = of_call(ts, id);
        assert(ts[ts.len() - 1] == ts.last());
        if all.contains(t) {
            let j = choose|j: int| 0 <= j < all.len() && all[j] == t;
            if j < most.len() {
                assert(most[j] == t);
                let k = choose|k: int| 0 <= k < init.len() && init[k] == t;
                assert(ts[k] == t);
            }
        }
        if ts.contains(t) && t.call_id == id {
            let k = choose|k: int| 0 <= k < ts.len() && ts[k] == t;
            if k < init.len() {
                assert(init[k] == t);
                let j = choose|j: int| 0 <= j < most.len() && most[j] == t;
                assert(all[j] == t);
            } else {
                assert(all[most.len() as int] == t);
            }
        }
    }
}

/// The tracks with `t` in its place: before those of a later channel.
pub open spec fn place_track(list: Seq<TrackRow>, t: TrackRow) -> Seq<TrackRow>
    decreases list.len(),
{
    if list.len() > 0 && json::before(t.channel, list.last().channel) {
        place_track(list.drop_last(), t).push(list.last())
    } else {
        list.push(t)
    }
}

/// The tracks by their channels.
pub open spec fn by_channel(list: Seq<TrackRow>) -> Seq<TrackRow>
    decreases list.len(),
{
    if list.len() == 0 {
        list
    } else {
        place_track(by_channel(list.drop_last()), list.last())
    }
}

/// The channels ascend.
pub open spec fn channels_ascend(list: Seq<TrackRow>) -> bool {
    forall|i: int, j: int|
        0 <= i < j < list.len() ==> !json::before(
            (#[trigger] list[j]).channel,
            (#[trigger] list[i]).channel,
        )
}

proof fn lemma_not_before(a: Seq<char>, b: Seq<char>, c: Seq<char>)
    requires
        !json::before(b, a),
        !json::before(c, b),
    ensures
        !json::before(c, a),
{
    if json::before(c, a) && a != b {
        json::lemma_before_total(b, a);
        json::lemma_before_trans(c, a, b);
    }
}

proof fn lemma_place_track(list: Seq<TrackRow>, t: TrackRow)
    requires
        channels_ascend(list),
    ensures
        channels_ascend(place_track(list, t)),
        place_track(list, t).to_multiset() == list.to_multiset().insert(t),
        forall|i: int|
            0 <= i < place_track(list, t).len() ==> !json::before(
                t.channel,
                (#[trigger] place_track(list, t)[i]).channel,
            ) || (list.len() > 0 && !json::before(
                list.last().channel,
                place_track(list, t)[i].channel,
            )),
    decreases list.len(),
{
    broadcast use vstd::seq_lib::group_to_multiset_ensures;

    let r = place_track(list, t);
    json::lemma_before_irreflexive(t.channel);
    if list.len() > 0 {
        json::lemma_before_irreflexive(list.last().channel);
    }
    if list.len() > 0 && json::before(t.channel, list.last().channel) {
        let init = list.drop_last();
        let last = list.last();
        assert(channels_ascend(init)) by {
            assert forall|i: int, j: int| 0 <= i < j < init.len() implies !json::before(
                (#[trigger] init[j]).channel,
                (#[trigger] init[i]).channel,
            ) by {
                assert(init[i] == list[i] && init[j] == list[j]);
            }
        }
        lemma_place_track(init, t);
        let placed = place_track(init, t);
        assert forall|i: int| 0 <= i < placed.len() implies !json::before(
            last.channel,
            (#[trigger] placed[i]).channel,
        ) by {
            if json::before(t.channel, placed[i].channel) {
                assert(!json::before(list[list.len() - 1].channel, list[list.len() - 2].channel));
                lemma_not_before(placed[i].channel, init.last().channel, last.channel);
            } else if json::before(last.channel, placed[i].channel) {
                json::lemma_before_trans(t.channel, last.channel, placed[i].channel);
            }
        }
        assert forall|i: int, j: int| 0 <= i < j < r.len() implies !json::before(
            (#[trigger] r[j]).channel,
            (#[trigger] r[i]).channel,
        ) by {
            assert(r[i] == placed[i]);
            if j < placed.len() {
                assert(r[j] == placed[j]);
            }
        }
        assert(init.push(last) =~= list);
        assert(init.to_multiset().insert(t).insert(last) =~= init.to_multiset().insert(
            last,
        ).insert(t));
    } else if list.len() > 0 {
        assert forall|i: int| 0 <= i < list.len() implies !json::before(
            t.channel,
            (#[trigger] list[i]).channel,
        ) by {
            if i < list.len() - 1 {
                assert(!json::before(list[list.len() - 1].channel, list[i].channel));
                lemma_not_before(list[i].channel, list.last().channel, t.channel);
            }
        }
    }
}

proof fn lemma_by_channel(list: Seq<TrackRow>)
    ensures
        channels_ascend(by_channel(list)),
        by_channel(list).to_multiset() == list.to_multiset(),
    decreases list.len(),
{
    broadcast use vstd::seq_lib::group_to_multiset_ensures;

    if list.len() > 0 {
        lemma_by_channel(list.drop_last());
        lemma_place_track(by_channel(list.drop_last()), list.last());
        assert(list.drop_last().push(list.last()) =~= list);
    }
}

/// What is listed is all that is stored, in order: the calls by their numbers,
/// and the tracks of each by their channels.
pub proof fn listing_is_in_order(s: StoredView, id: i64)
    ensures
        ids_ascend(by_id(s.calls)),
        by_id(s.calls).to_multiset() == s.calls.to_multiset(),
        channels_ascend(by_channel(of_call(s.tracks, id))),
        by_channel(of_call(s.tracks, id)).to_multiset() == of_call(s.tracks, id).to_multiset(),
{
    lemma_by_id(s.calls);
    lemma_by_channel(of_call(s.tracks, id));
}

// ---------------------------------------------------------------------------
// The listing
// ---------------------------------------------------------------------------

pub open spec fn call_refs(list: Seq<&StoredCall>) -> Seq<CallRow> {
    list.map_values(|c: &StoredCall| c@)
}

pub open spec fn track_refs(list: Seq<&StoredTrack>) -> Seq<TrackRow> {
    list.map_values(|t: &StoredTrack| t@)
}

fn insert_call<'a>(list: &mut Vec<&'a StoredCall>, c: &'a StoredCall)
    ensures
        call_refs(final(list)@) == place_call(call_refs(old(list)@), c@),
{
    let ghost rows = call_refs(list@);
    let ghost x = c@;
    let mut i: usize = list.len();
    assert(rows.take(i as int) =~= rows);
    assert(place_call(rows, x) + rows.skip(i as int) =~= place_call(rows, x));
    while i > 0 && c.id < list[i - 1].id
        invariant
            i <= list@.len(),
            *list == *old(list),
            rows == call_refs(list@),
            x == c@,
            place_call(rows, x) == place_call(rows.take(i as int), x) + rows.skip(i as int),
        decreases i,
    {
        assert(rows[i - 1] == list@[i - 1]@);
        assert(rows.take(i as int).last() == rows[i - 1]);
        assert(rows.take(i as int).drop_last() =~= rows.take(i - 1));
        assert(place_call(rows.take(i - 1), x).push(rows[i - 1]) + rows.skip(i as int)
            =~= place_call(rows.take(i - 1), x) + rows.skip(i - 1));
        i = i - 1;
    }
    if i > 0 {
        assert(rows.take(i as int).last() == list@[i - 1]@);
    }
    list.insert(i, c);
    assert(call_refs(list@) =~= rows.take(i as int).push(x) + rows.skip(i as int));
}

fn insert_track<'a>(list: &mut Vec<&'a StoredTrack>, t: &'a StoredTrack)
    ensures
        track_refs(final(list)@) == place_track(track_refs(old(list)@), t@),
{
    let ghost rows = track_refs(list@);
    let ghost x = t@;
    let mine = chars_of(t.channel.as_str());
    let mut i: usize = list.len();
    assert(rows.take(i as int) =~= rows);
    assert(place_track(rows, x) + rows.skip(i as int) =~= place_track(rows, x));
    while i > 0
        invariant
            i <= list@.len(),
            *list == *old(list),
            rows == track_refs(list@),
            x == t@,
            mine@ == x.channel,
            place_track(rows, x) == place_track(rows.take(i as int), x) + rows.skip(i as int),
        ensures
            i == 0 || !json::before(x.channel, rows[i - 1].channel),
        decreases i,
    {
        assert(rows[i - 1] == list@[i - 1]@);
        assert(rows.take(i as int).last() == rows[i - 1]);
        assert(rows.take(i as int).drop_last() =~= rows.take(i - 1));
        let other = chars_of(list[i - 1].channel.as_str());
        if !comes_before(mine.as_slice(), other.as_slice()) {
            break;
        }
        assert(place_track(rows.take(i - 1), x).push(rows[i - 1]) + rows.skip(i as int)
            =~= place_track(rows.take(i - 1), x) + rows.skip(i - 1));
        i = i - 1;
    }
    if i > 0 {
        assert(rows.take(i as int).last() == rows[i - 1]);
    }
    list.insert(i, t);
    assert(track_refs(list@) =~= rows.take(i as int).push(x) + rows.skip(i as int));
}

/// When a call ended, as it is shown.
pub open spec fn ended_of(c: CallRow) -> Seq<char> {
    match c.ended {
        Some(t) => t,
        None => "…"@,
    }
}

impl StoredCall {
    /// When the call ended, as it is shown.
    pub fn ended_shown(&self) -> (r: &str)
        ensures
            r@ == ended_of(self@),
    {
        match &self.ended {
            Some(t) => t.as_str(),
            None => "…",
        }
    }
}

/// Sound tracks as they are listed below a call.
pub open spec fn tracks_of(tracks: Seq<TrackRow>) -> Seq<char>
    decreases tracks.len(),
{
    if tracks.len() == 0 {
        Seq::empty()
    } else {
        tracks_of(tracks.drop_last()) + ("    "@ + tracks.last().channel + ": "@
            + tracks.last().path + "\n"@)
    }
}

/// A call as it is listed: its number, its name, when it was, how many lines
/// were said in it, and its tracks.
pub open spec fn call_of(s: StoredView, c: CallRow) -> Seq<char> {
    "#"@ + text::decimal_int_of(c.id as int) + "  «"@ + c.name + "»  "@ + c.started + " → "@
        + ended_of(c) + "  ("@ + text::decimal_of(s.said.to_multiset().count(c.id))
        + " строк текста)\n"@ + tracks_of(by_channel(of_call(s.tracks, c.id)))
}

/// Calls as they are listed, one below the other.
pub open spec fn calls_of(s: StoredView, calls: Seq<CallRow>) -> Seq<char>
    decreases calls.len(),
{
    if calls.len() == 0 {
        Seq::empty()
    } else {
        calls_of(s, calls.drop_last()) + call_of(s, calls.last())
    }
}

/// All that is stored, as it is listed.
pub open spec fn listing_of(s: StoredView) -> Seq<char> {
    calls_of(s, by_id(s.calls))
}

impl Stored {
    /// The tracks of the call `id`, by their channels.
    pub fn tracks_in(&self, id: i64) -> (r: Vec<&StoredTrack>)
        ensures
            track_refs(r@) == by_channel(of_call(self@.tracks, id)),
    {
        let ghost rows = track_rows(self.tracks@);
        let mut list: Vec<&StoredTrack> = Vec::new();
        let mut i: usize = 0;
        assert(rows.take(0) =~= Seq::empty());
        assert(track_refs(list@) =~= Seq::empty());
        while i < self.tracks.len()
            invariant
                i <= self.tracks@.len(),
                rows == track_rows(self.tracks@),
                track_refs(list@) == by_channel(of_call(rows.take(i as int), id)),
            decreases self.tracks.len() - i,
        {
            assert(rows.take(i + 1).drop_last() =~= rows.take(i as int));
            assert(rows.take(i + 1).last() == self.tracks@[i as int]@);
            let t = &self.tracks[i];
            if t.call_id == id {
                insert_track(&mut list, t);
                proof {
                    let kept = of_call(rows.take(i as int), id);
                    assert(kept.push(t@).drop_last() =~= kept);
                }
            }
            i = i + 1;
        }
        assert(rows.take(rows.len() as int) =~= rows);
        list
    }

    /// How many lines were said in the call `id`.
    pub fn said_in(&self, id: i64) -> (r: usize)
        ensures
            r == self@.said.to_multiset().count(id),
    {
        broadcast use vstd::seq_lib::group_to_multiset_ensures;

        let mut n: usize = 0;
        let mut i: usize = 0;
        assert(self.said@.take(0) =~= Seq::empty());
        while i < self.said.len()
            invariant
                i <= self.said@.len(),
                n <= i,
                n == self.said@.take(i as int).to_multiset().count(id),
            decreases self.said.len() - i,
        {
            broadcast use vstd::seq_lib::group_to_multiset_ensures;

            assert(self.said@.take(i + 1) =~= self.said@.take(i as int).push(
                self.said@[i as int],
            ));
            if self.said[i] == id {
                n = n + 1;
            }
            i = i + 1;
        }
        assert(self.said@.take(self.said@.len() as int) =~= self.said@);
        n
    }

    fn call_text(&self, c: &StoredCall) -> (r: String)
        ensures
            r@ == call_of(self@, c@),
    {
        let mut out = cat("#", decimal_i64(c.id).as_str());
        out.append("  «");
        out.append(c.name.as_str());
        out.append("»  ");
        out.append(c.started.as_str());
        out.append(" → ");
        out.append(c.ended_shown());
        out.append("  (");
        out.append(decimal_u64(self.said_in(c.id) as u64).as_str());
        out.append(" строк текста)\n");
        let ghost head = out@;
        let tracks = self.tracks_in(c.id);
        let ghost rows = track_refs(tracks@);
        let mut i: usize = 0;
        assert(rows.take(0) =~= Seq::empty());
        assert(out@ =~= head + tracks_of(rows.take(0)));
        while i < tracks.len()
            invariant
                i <= tracks@.len(),
                rows == track_refs(tracks@),
                out@ == head + tracks_of(rows.take(i as int)),
            decreases tracks.len() - i,
        {
            assert(rows.take(i + 1).drop_last() =~= rows.take(i as int));
            assert(rows.take(i + 1).last() == tracks@[i as int]@);
            let mut one = cat("    ", tracks[i].channel.as_str());
            one.append(": ");
            one.append(tracks[i].path.as_str());
            one.append("\n");
            out.append(one.as_str());
            assert(out@ =~= head + tracks_of(rows.take(i + 1)));
            i = i + 1;
        }
        assert(rows.take(rows.len() as int) =~= rows);
        out
    }

    /// All that is stored, as it is listed: the calls by their numbers, each with
    /// its tracks by their channels.
    pub fn listing(&self) -> (r: String)
        ensures
            r@ == listing_of(self@),
    {
        let ghost all = call_rows(self.calls@);
        let mut list: Vec<&StoredCall> = Vec::new();
        let mut i: usize = 0;
        assert(all.take(0) =~= Seq::empty());
        assert(call_refs(list@) =~= Seq::empty());
        while i < self.calls.len()
            invariant
                i <= self.calls@.len(),
                all == call_rows(self.calls@),
                call_refs(list@) == by_id(all.take(i as int)),
            decreases self.calls.len() - i,
        {
            assert(all.take(i + 1).drop_last() =~= all.take(i as int));
            assert(all.take(i + 1).last() == self.calls@[i as int]@);
            insert_call(&mut list, &self.calls[i]);
            i = i + 1;
        }
        assert(all.take(all.len() as int) =~= all);
        let ghost rows = call_refs(list@);
        let mut out = String::new();
        let mut k: usize = 0;
        assert(rows.take(0) =~= Seq::empty());
        assert(out@ =~= Seq::empty());
        while k < list.len()
            invariant
                k <= list@.len(),
                rows == call_refs(list@),
                out@ == calls_of(self@, rows.take(k as int)),
            decreases list.len() - k,
        {
            assert(rows.take(k + 1).drop_last() =~= rows.take(k as int));
            assert(rows.take(k + 1).last() == list@[k as int]@);
            out.append(self.call_text(list[k]).as_str());
            k = k + 1;
        }
        assert(rows.take(rows.len() as int) =~= rows);
        out
    }
}

} // verus!
