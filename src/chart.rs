//! The whole chart document: metadata, tempo, narrative events and one or
//! more note tracks, read and written in that order.
use vstd::prelude::*;

use crate::events::{
    event_ticks, events_scaled, events_text, p_events, parse_events, Events, GlobalEventView,
};
use crate::rescale::{product_fits, ticks_fit};
use crate::song::{p_song_section, parse_song, song_text, Song, SongView};
use crate::sync_track::{
    p_sync_track, parse_sync_track, sync_fits, sync_track_text, SyncTrack, SyncTrackEvent,
};
use crate::round_trip::{lemma_parsed_wf, wf_chart, wf_global_event, wf_track, wf_track_event};
use crate::text::{chars_of, scan, skip_ws, span, CharClass};
use crate::track::{
    p_track, parse_track, track_events_scaled, track_fits, track_text, Track, TrackView,
};

verus! {

/// Why a text is not a chart.
#[derive(Debug, Clone, Copy, PartialEq, Eq, Structural)]
pub enum ParseError {
    /// The grammar stopped matching at this character offset.
    Syntax { position: usize },
    /// The metadata section has no `Resolution` property.
    MissingResolution,
    /// The first `Resolution` property is not an unsigned 32-bit number.
    InvalidResolution,
}

/// A chart document.
#[derive(Debug, PartialEq, Eq)]
pub struct Chart {
    song: Song,
    synctrack: SyncTrack,
    global_events: Events,
    tracks: Vec<Track>,
}

/// What a chart holds.
pub struct ChartView {
    pub song: SongView,
    pub sync_track: Seq<SyncTrackEvent>,
    pub events: Seq<GlobalEventView>,
    pub tracks: Seq<TrackView>,
}

impl View for Chart {
    type V = ChartView;

    closed spec fn view(&self) -> ChartView {
        ChartView {
            song: self.song@,
            sync_track: self.synctrack@,
            events: self.global_events@,
            tracks: self.tracks@.map_values(|t: Track| t@),
        }
    }
}

pub open spec fn syntax_error(p: int) -> ParseError {
    ParseError::Syntax { position: p as usize }
}

/// The note tracks that follow the first one: each after one or more
/// whitespace characters, for as long as one can be read.
pub open spec fn p_tracks_more(s: Seq<char>, i: int) -> (Seq<TrackView>, int)
    decreases s.len() - i,
{
    let j = skip_ws(s, i);
    if i < j <= s.len() {
        match p_track(s, j) {
            Ok((t, k)) => if j < k <= s.len() {
                let rest = p_tracks_more(s, k);
                (seq![t] + rest.0, rest.1)
            } else {
                (seq![], i)
            },
            Err(_) => (seq![], i),
        }
    } else {
        (seq![], i)
    }
}

/// One or more note tracks at `i`, separated by whitespace.
pub open spec fn p_tracks(s: Seq<char>, i: int) -> Result<(Seq<TrackView>, int), int> {
    match p_track(s, i) {
        Err(e) => Err(e),
        Ok((first, j)) => {
            let more = p_tracks_more(s, j);
            Ok((seq![first] + more.0, more.1))
        },
    }
}

/// What reading the text `s` as a chart gives. Anything before the first
/// `[` is skipped; the four kinds of section follow in their fixed order,
/// with only whitespace between them and after the last track.
pub open spec fn parse_chart(s: Seq<char>) -> Result<ChartView, ParseError> {
    let i0 = span(s, 0, CharClass::NotBracket);
    if i0 >= s.len() {
        Err(syntax_error(i0))
    } else {
        match p_song_section(s, i0) {
            Err(e) => Err(e),
            Ok((song, i1)) => match p_sync_track(s, skip_ws(s, i1)) {
                Err(p) => Err(syntax_error(p)),
                Ok((sync_track, i2)) => match p_events(s, skip_ws(s, i2)) {
                    Err(p) => Err(syntax_error(p)),
                    Ok((events, i3)) => match p_tracks(s, skip_ws(s, i3)) {
                        Err(p) => Err(syntax_error(p)),
                        Ok((tracks, i4)) => {
                            let end = skip_ws(s, i4);
                            if end == s.len() {
                                Ok(ChartView { song, sync_track, events, tracks })
                            } else {
                                Err(syntax_error(end))
                            }
                        },
                    },
                },
            },
        }
    }
}

pub open spec fn tracks_text(ts: Seq<TrackView>) -> Seq<char>
    decreases ts.len(),
{
    if ts.len() == 0 {
        seq![]
    } else {
        tracks_text(ts.drop_last()) + track_text(ts.last())
    }
}

/// The text of a chart: its sections one after the other.
pub open spec fn chart_text(c: ChartView) -> Seq<char> {
    song_text(c.song) + sync_track_text(c.sync_track) + events_text(c.events) + tracks_text(
        c.tracks,
    )
}

/// Every number that scaling by `factor` multiplies fits in 32 bits once
/// multiplied.
pub open spec fn chart_fits(c: ChartView, factor: u32) -> bool {
    &&& c.song.resolution * factor <= u32::MAX
    &&& sync_fits(c.sync_track, factor)
    &&& ticks_fit(event_ticks(c.events), factor)
    &&& forall|t: int| 0 <= t < c.tracks.len() ==> track_fits(#[trigger] c.tracks[t].events, factor)
}

/// The chart scaled by `factor`: the resolution and every tempo tick are
/// multiplied; the narrative section and each note track follow the rule of
/// [`crate::rescale::gap_scaled_tick`], with note lengths multiplied.
pub open spec fn chart_scaled(c: ChartView, factor: u32) -> ChartView {
    ChartView {
        song: SongView {
            resolution: (c.song.resolution * factor) as u32,
            properties: c.song.properties,
        },
        sync_track: c.sync_track.map_values(|e: SyncTrackEvent| e.scaled(factor)),
        events: events_scaled(c.events, factor),
        tracks: c.tracks.map_values(
            |t: TrackView| TrackView { name: t.name, events: track_events_scaled(t.events, factor) },
        ),
    }
}

/// Scaling keeps every text of a chart, so a well-formed chart stays so.
pub proof fn lemma_scaled_wf(c: ChartView, factor: u32)
    ensures
        wf_chart(c) ==> wf_chart(chart_scaled(c, factor)),
{
    if wf_chart(c) {
        let d = chart_scaled(c, factor);
        assert forall|q: int| 0 <= q < d.events.len() implies wf_global_event(
            #[trigger] d.events[q],
        ) by {
            assert(wf_global_event(c.events[q]));
        }
        assert forall|q: int| 0 <= q < d.tracks.len() implies wf_track(#[trigger] d.tracks[q]) by {
            let t = c.tracks[q];
            assert(wf_track(t));
            let u = d.tracks[q];
            assert forall|r: int| 0 <= r < u.events.len() implies wf_track_event(
                #[trigger] u.events[r],
            ) by {
                assert(wf_track_event(t.events[r]));
            }
        }
    }
}

/// Reads one or more note tracks at `i`.
fn parse_tracks(s: &Vec<char>, i: usize) -> (r: Result<(Vec<Track>, usize), usize>)
    requires
        i <= s@.len(),
    ensures
        match r {
            Ok((ts, j)) => p_tracks(s@, i as int) == Ok::<(Seq<TrackView>, int), int>(
                (ts@.map_values(|t: Track| t@), j as int),
            ) && j <= s@.len(),
            Err(x) => p_tracks(s@, i as int) == Err::<(Seq<TrackView>, int), int>(x as int),
        },
{
    let (first, f) = match parse_track(s, i) {
        Ok(x) => x,
        Err(e) => return Err(e),
    };
    let ghost fv = first@;
    let mut tracks: Vec<Track> = Vec::new();
    tracks.push(first);
    let mut cur = f;
    loop
        invariant
            f <= cur <= s@.len(),
            tracks@.len() >= 1,
            tracks@.map_values(|t: Track| t@).drop_first() + p_tracks_more(s@, cur as int).0
                == p_tracks_more(s@, f as int).0,
            tracks@[0]@ == fv,
            p_tracks_more(s@, cur as int).1 == p_tracks_more(s@, f as int).1,
        ensures
            tracks@.map_values(|t: Track| t@) == seq![fv] + p_tracks_more(s@, f as int).0,
            cur == p_tracks_more(s@, f as int).1,
            cur <= s@.len(),
        decreases s@.len() - cur,
    {
        let j = scan(s, cur, CharClass::Space);
        if j == cur {
            assert(tracks@.map_values(|t: Track| t@) =~= seq![fv] + p_tracks_more(s@, f as int).0);
            break;
        }
        match parse_track(s, j) {
            Ok((t, k)) => {
                if k <= j {
                    assert(tracks@.map_values(|t: Track| t@) =~= seq![fv] + p_tracks_more(
                        s@,
                        f as int,
                    ).0);
                    break;
                }
                let ghost before = tracks@.map_values(|t: Track| t@);
                let ghost tv = t@;
                tracks.push(t);
                assert(tracks@.map_values(|t: Track| t@).drop_first() =~= before.drop_first().push(tv));
                assert(p_tracks_more(s@, cur as int).0 =~= seq![tv] + p_tracks_more(s@, k as int).0);
                assert(tracks@.map_values(|t: Track| t@).drop_first() + p_tracks_more(
                    s@,
                    k as int,
                ).0 =~= before.drop_first() + p_tracks_more(s@, cur as int).0);
                cur = k;
            },
            Err(_) => {
                assert(tracks@.map_values(|t: Track| t@) =~= seq![fv] + p_tracks_more(s@, f as int).0);
                break;
            },
        }
    }
    Ok((tracks, cur))
}

/// Reads a chart from its text, or says where and why it is not one.
pub fn chart(input: &str) -> (r: Result<Chart, ParseError>)
    ensures
        match r {
            Ok(c) => parse_chart(input@) == Ok::<ChartView, ParseError>(c@) && wf_chart(c@),
            Err(e) => parse_chart(input@) == Err::<ChartView, ParseError>(e),
        },
{
    Chart::parse(input)
}

impl Chart {
    pub fn new(song: Song, synctrack: SyncTrack, global_events: Events, tracks: Vec<Track>) -> (r:
        Chart)
        ensures
            r@ == (ChartView {
                song: song@,
                sync_track: synctrack@,
                events: global_events@,
                tracks: tracks@.map_values(|t: Track| t@),
            }),
    {
        Chart { song, synctrack, global_events, tracks }
    }

    pub fn song(&self) -> (r: &Song)
        ensures
            r@ == self@.song,
    {
        &self.song
    }

    pub fn sync_track(&self) -> (r: &SyncTrack)
        ensures
            r@ == self@.sync_track,
    {
        &self.synctrack
    }

    pub fn global_events(&self) -> (r: &Events)
        ensures
            r@ == self@.events,
    {
        &self.global_events
    }

    pub fn tracks(&self) -> (r: &Vec<Track>)
        ensures
            r@.map_values(|t: Track| t@) == self@.tracks,
    {
        &self.tracks
    }

    /// Reads a chart from its text, or says where and why it is not one.
    pub fn parse(input: &str) -> (r: Result<Chart, ParseError>)
        ensures
            match r {
                Ok(c) => parse_chart(input@) == Ok::<ChartView, ParseError>(c@) && wf_chart(c@),
                Err(e) => parse_chart(input@) == Err::<ChartView, ParseError>(e),
            },
    {
        let s = chars_of(input);
        let i0 = scan(&s, 0, CharClass::NotBracket);
        if i0 >= s.len() {
            return Err(ParseError::Syntax { position: i0 });
        }
        let (song, i1) = match parse_song(&s, i0) {
            Ok(x) => x,
            Err(e) => return Err(e),
        };
        let (synctrack, i2) = match parse_sync_track(&s, scan(&s, i1, CharClass::Space)) {
            Ok(x) => x,
            Err(p) => return Err(ParseError::Syntax { position: p }),
        };
        let (global_events, i3) = match parse_events(&s, scan(&s, i2, CharClass::Space)) {
            Ok(x) => x,
            Err(p) => return Err(ParseError::Syntax { position: p }),
        };
        let (tracks, i4) = match parse_tracks(&s, scan(&s, i3, CharClass::Space)) {
            Ok(x) => x,
            Err(p) => return Err(ParseError::Syntax { position: p }),
        };
        let end = scan(&s, i4, CharClass::Space);
        if end != s.len() {
            return Err(ParseError::Syntax { position: end });
        }
        let c = Chart { song, synctrack, global_events, tracks };
        proof {
            lemma_parsed_wf(input@);
        }
        Ok(c)
    }

    /// The text of the chart.
    pub fn to_string(&self) -> (r: String)
        ensures
            r@ == chart_text(self@),
    {
        let mut out = String::new();
        self.song.write_to(&mut out);
        self.synctrack.write_to(&mut out);
        self.global_events.write_to(&mut out);
        let ghost start = out@;
        let ghost ts = self@.tracks;
        let mut k: usize = 0;
        while k < self.tracks.len()
            invariant
                k <= self.tracks@.len(),
                ts == self.tracks@.map_values(|t: Track| t@),
                out@ == start + tracks_text(ts.take(k as int)),
            decreases self.tracks@.len() - k,
        {
            self.tracks[k].write_to(&mut out);
            assert(ts.take(k + 1).drop_last() =~= ts.take(k as int));
            k = k + 1;
        }
        assert(ts.take(k as int) =~= ts);
        assert(out@ =~= chart_text(self@));
        out
    }

    /// Whether every number that [`Chart::multiply`] multiplies fits in 32
    /// bits once multiplied by `factor`.
    pub fn fits(&self, factor: u32) -> (r: bool)
        ensures
            r == chart_fits(self@, factor),
    {
        if !product_fits(self.song.resolution(), factor) {
            return false;
        }
        if !self.synctrack.fits(factor) || !self.global_events.fits(factor) {
            return false;
        }
        let mut k: usize = 0;
        while k < self.tracks.len()
            invariant
                k <= self.tracks@.len(),
                forall|q: int|
                    0 <= q < k ==> track_fits(#[trigger] self.tracks@[q]@.events, factor),
            decreases self.tracks@.len() - k,
        {
            if !self.tracks[k].fits(factor) {
                assert(self@.tracks[k as int] == self.tracks@[k as int]@);
                return false;
            }
            k = k + 1;
        }
        assert forall|t: int| 0 <= t < self@.tracks.len() implies track_fits(
            #[trigger] self@.tracks[t].events,
            factor,
        ) by {
            assert(self@.tracks[t] == self.tracks@[t]@);
        }
        true
    }

    /// Multiplies all ticks, lengths and the resolution by `factor`. Where
    /// two events of the narrative section or of a note track are one tick
    /// apart, the later stays one tick after the earlier; tempo events are
    /// all multiplied alike. That difference between the tempo section and
    /// the others is deliberate: whether tempo events ever need the one-tick
    /// rule is an open question, and it is left as it stands.
    pub fn multiply(&mut self, factor: u32)
        requires
            chart_fits(old(self)@, factor),
        ensures
            final(self)@ == chart_scaled(old(self)@, factor),
            wf_chart(old(self)@) ==> wf_chart(final(self)@),
    {
        let ghost before = self@;
        self.song.multiply(factor);
        self.synctrack.multiply(factor);
        self.global_events.multiply(factor);
        let n = self.tracks.len();
        let mut k: usize = 0;
        while k < n
            invariant
                k <= n,
                n == before.tracks.len(),
                self.tracks@.len() == n,
                chart_fits(before, factor),
                self.song@ == chart_scaled(before, factor).song,
                self.synctrack@ == chart_scaled(before, factor).sync_track,
                self.global_events@ == chart_scaled(before, factor).events,
                forall|q: int|
                    0 <= q < k ==> #[trigger] self.tracks@[q]@ == chart_scaled(before, factor).tracks[q],
                forall|q: int| k <= q < n ==> #[trigger] self.tracks@[q]@ == before.tracks[q],
            decreases n - k,
        {
            assert(track_fits(before.tracks[k as int].events, factor));
            self.tracks[k].multiply(factor);
            k = k + 1;
        }
        assert(self@.tracks =~= chart_scaled(before, factor).tracks);
        proof {
            lemma_scaled_wf(before, factor);
        }
    }
}

} // verus!
