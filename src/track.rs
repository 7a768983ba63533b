//! Note-track sections: a bracketed name and a braced block of notes,
//! special phrases and cues, each stamped with a tick.
use vstd::prelude::*;

use crate::rescale::{gap_scaled_tick, lemma_gap_scaled_tick_fits, product_fits, ticks_fit};
use crate::text::{
    dec, p_char, p_tag, p_u32, p_ws1, parse_u32, push_chars, push_text, push_u32, scan, single,
    skip_ws, span, tag, text_of, ws1, CharClass,
};

verus! {

/// One line of a note track.
#[derive(Debug, PartialEq, Eq)]
pub enum TrackEvent {
    /// `tick = N fret sustain`
    Note { time: u32, fret: u32, sustain: u32 },
    /// `tick = S kind length`
    Special { time: u32, kind: u32, content: u32 },
    /// `tick = E word`
    Event { time: u32, value: String },
}

/// What a note-track event holds.
pub enum TrackEventView {
    Note { time: u32, fret: u32, sustain: u32 },
    Special { time: u32, kind: u32, content: u32 },
    Event { time: u32, value: Seq<char> },
}

/// What a note track holds.
pub struct TrackView {
    pub name: Seq<char>,
    pub events: Seq<TrackEventView>,
}

/// A note track: its name and its events in the order of the text.
#[derive(Debug, PartialEq, Eq)]
pub struct Track {
    name: String,
    events: Vec<TrackEvent>,
}

impl View for TrackEvent {
    type V = TrackEventView;

    open spec fn view(&self) -> TrackEventView {
        match self {
            TrackEvent::Note { time, fret, sustain } => TrackEventView::Note {
                time: *time,
                fret: *fret,
                sustain: *sustain,
            },
            TrackEvent::Special { time, kind, content } => TrackEventView::Special {
                time: *time,
                kind: *kind,
                content: *content,
            },
            TrackEvent::Event { time, value } => TrackEventView::Event {
                time: *time,
                value: value@,
            },
        }
    }
}

impl TrackEventView {
    pub open spec fn time(self) -> u32 {
        match self {
            TrackEventView::Note { time, .. } => time,
            TrackEventView::Special { time, .. } => time,
            TrackEventView::Event { time, .. } => time,
        }
    }

    /// The length the event lasts, for the kinds that have one.
    pub open spec fn duration(self) -> u32 {
        match self {
            TrackEventView::Note { sustain, .. } => sustain,
            TrackEventView::Special { content, .. } => content,
            TrackEventView::Event { .. } => 0,
        }
    }

    /// The same event at tick `t`, its length (if any) multiplied by `factor`.
    pub open spec fn rescaled(self, t: u32, factor: u32) -> TrackEventView {
        match self {
            TrackEventView::Note { fret, sustain, .. } => TrackEventView::Note {
                time: t,
                fret,
                sustain: (sustain * factor) as u32,
            },
            TrackEventView::Special { kind, content, .. } => TrackEventView::Special {
                time: t,
                kind,
                content: (content * factor) as u32,
            },
            TrackEventView::Event { value, .. } => TrackEventView::Event { time: t, value },
        }
    }
}

impl TrackEvent {
    pub fn time(&self) -> (r: u32)
        ensures
            r == self@.time(),
    {
        match self {
            TrackEvent::Note { time, .. } => *time,
            TrackEvent::Special { time, .. } => *time,
            TrackEvent::Event { time, .. } => *time,
        }
    }

    /// Moves the event to tick `t` and multiplies its length by `factor`.
    pub fn rescale(&mut self, t: u32, factor: u32)
        requires
            old(self)@.duration() * factor <= u32::MAX,
        ensures
            final(self)@ == old(self)@.rescaled(t, factor),
    {
        match self {
            TrackEvent::Note { time, sustain, .. } => {
                *time = t;
                *sustain = *sustain * factor;
            },
            TrackEvent::Special { time, content, .. } => {
                *time = t;
                *content = *content * factor;
            },
            TrackEvent::Event { time, .. } => {
                *time = t;
            },
        }
    }

    /// Multiplies the tick and the length by `factor`.
    pub fn multiply(&mut self, factor: u32)
        requires
            old(self)@.time() * factor <= u32::MAX,
            old(self)@.duration() * factor <= u32::MAX,
        ensures
            final(self)@ == old(self)@.rescaled((old(self)@.time() * factor) as u32, factor),
    {
        let t = self.time();
        self.rescale(t * factor, factor);
    }
}

/// The ticks of a sequence of note-track events.
pub open spec fn track_ticks(evs: Seq<TrackEventView>) -> Seq<u32> {
    evs.map_values(|e: TrackEventView| e.time())
}

/// Every tick and every length of `evs` multiplied by `factor` fits in 32 bits.
pub open spec fn track_fits(evs: Seq<TrackEventView>, factor: u32) -> bool {
    &&& ticks_fit(track_ticks(evs), factor)
    &&& forall|k: int| 0 <= k < evs.len() ==> #[trigger] evs[k].duration() * factor <= u32::MAX
}

/// The events scaled by `factor`: ticks by the rule of [`gap_scaled_tick`],
/// lengths always multiplied.
pub open spec fn track_events_scaled(evs: Seq<TrackEventView>, factor: u32) -> Seq<
    TrackEventView,
> {
    Seq::new(
        evs.len(),
        |k: int| evs[k].rescaled(gap_scaled_tick(track_ticks(evs), k, factor) as u32, factor),
    )
}

/// Scaling a note track multiplies every length by the factor, whatever the
/// event's neighbours: the one-tick rule moves ticks only.
pub proof fn lemma_lengths_scaled(evs: Seq<TrackEventView>, factor: u32, k: int)
    requires
        track_fits(evs, factor),
        0 <= k < evs.len(),
    ensures
        track_events_scaled(evs, factor)[k].duration() == evs[k].duration() * factor,
{
    assert(evs[k].duration() * factor <= u32::MAX);
    let t = gap_scaled_tick(track_ticks(evs), k, factor) as u32;
    assert(track_events_scaled(evs, factor)[k] == evs[k].rescaled(t, factor));
    match evs[k] {
        TrackEventView::Event { .. } => {
            let d = evs[k].duration() as int;
            assert(d == 0);
            assert(d * factor == 0) by (nonlinear_arith)
                requires
                    d == 0,
            ;
        },
        _ => {},
    }
}

/// Two numbers separated by whitespace, at `i`.
pub open spec fn p_u32_pair(s: Seq<char>, i: int) -> Result<(u32, u32, int), int> {
    match p_u32(s, i) {
        Err(e) => Err(e),
        Ok((a, j)) => match p_ws1(s, j) {
            Err(e) => Err(e),
            Ok(k) => match p_u32(s, k) {
                Err(e) => Err(e),
                Ok((b, m)) => Ok((a, b, m)),
            },
        },
    }
}

/// What follows ` = ` on a note-track line at tick `time`: `N ` or `S `
/// with two numbers, or `E ` with a word of letters.
pub open spec fn p_track_op(s: Seq<char>, k: int, time: u32) -> Result<(TrackEventView, int), int> {
    if let Ok(k1) = p_tag(s, k, "N "@) {
        match p_u32_pair(s, k1) {
            Err(e) => Err(e),
            Ok((fret, sustain, m)) => Ok((TrackEventView::Note { time, fret, sustain }, m)),
        }
    } else if let Ok(k1) = p_tag(s, k, "E "@) {
        let m = span(s, k1, CharClass::Alpha);
        if m == k1 {
            Err(k1)
        } else {
            Ok((TrackEventView::Event { time, value: s.subrange(k1, m) }, m))
        }
    } else if let Ok(k1) = p_tag(s, k, "S "@) {
        match p_u32_pair(s, k1) {
            Err(e) => Err(e),
            Ok((kind, content, m)) => Ok((TrackEventView::Special { time, kind, content }, m)),
        }
    } else {
        Err(k)
    }
}

/// One line of a note track at `i`.
pub open spec fn p_track_event(s: Seq<char>, i: int) -> Result<(TrackEventView, int), int> {
    match p_u32(s, i) {
        Err(e) => Err(e),
        Ok((time, j)) => match p_tag(s, j, " = "@) {
            Err(e) => Err(e),
            Ok(k) => p_track_op(s, k, time),
        },
    }
}

/// The events that follow the first one: each after one or more whitespace
/// characters, for as long as one can be read.
pub open spec fn p_track_events_more(s: Seq<char>, i: int) -> (Seq<TrackEventView>, int)
    decreases s.len() - i,
{
    let j = skip_ws(s, i);
    if i < j <= s.len() {
        match p_track_event(s, j) {
            Ok((e, k)) => if j < k <= s.len() {
                let rest = p_track_events_more(s, k);
                (seq![e] + rest.0, rest.1)
            } else {
                (seq![], i)
            },
            Err(_) => (seq![], i),
        }
    } else {
        (seq![], i)
    }
}

/// A note track at `i`: optional whitespace, a name of letters in square
/// brackets, and a braced block of one or more events separated by
/// whitespace.
pub open spec fn p_track(s: Seq<char>, i: int) -> Result<(TrackView, int), int> {
    match p_char(s, skip_ws(s, i), '[') {
        Err(e) => Err(e),
        Ok(a) => {
            let b = span(s, a, CharClass::Alpha);
            if b == a {
                Err(a)
            } else {
                match p_char(s, b, ']') {
                    Err(e) => Err(e),
                    Ok(c) => match p_char(s, skip_ws(s, c), '{') {
                        Err(e) => Err(e),
                        Ok(d) => match p_track_event(s, skip_ws(s, d)) {
                            Err(e) => Err(e),
                            Ok((first, f)) => {
                                let more = p_track_events_more(s, f);
                                match p_char(s, skip_ws(s, more.1), '}') {
                                    Err(e) => Err(e),
                                    Ok(g) => Ok(
                                        (
                                            TrackView {
                                                name: s.subrange(a, b),
                                                events: seq![first] + more.0,
                                            },
                                            g,
                                        ),
                                    ),
                                }
                            },
                        },
                    },
                }
            }
        },
    }
}

/// The text of one event: a line indented by two spaces.
pub open spec fn track_event_text(e: TrackEventView) -> Seq<char> {
    "  "@ + dec(e.time() as nat) + match e {
        TrackEventView::Note { fret, sustain, .. } => " = N "@ + dec(fret as nat) + " "@ + dec(
            sustain as nat,
        ),
        TrackEventView::Special { kind, content, .. } => " = S "@ + dec(kind as nat) + " "@ + dec(
            content as nat,
        ),
        TrackEventView::Event { value, .. } => " = E "@ + value,
    } + "\n"@
}

pub open spec fn track_lines(evs: Seq<TrackEventView>) -> Seq<char>
    decreases evs.len(),
{
    if evs.len() == 0 {
        seq![]
    } else {
        track_lines(evs.drop_last()) + track_event_text(evs.last())
    }
}

/// The text of a whole note track.
pub open spec fn track_text(t: TrackView) -> Seq<char> {
    "["@ + t.name + "]\n{\n"@ + track_lines(t.events) + "}\n"@
}

fn parse_u32_pair(s: &Vec<char>, i: usize) -> (r: Result<(u32, u32, usize), usize>)
    requires
        i <= s@.len(),
    ensures
        match r {
            Ok((a, b, j)) => p_u32_pair(s@, i as int) == Ok::<(u32, u32, int), int>(
                (a, b, j as int),
            ) && j <= s@.len(),
            Err(x) => p_u32_pair(s@, i as int) == Err::<(u32, u32, int), int>(x as int),
        },
{
    let (a, j) = match parse_u32(s, i) {
        Ok(x) => x,
        Err(e) => return Err(e),
    };
    let k = match ws1(s, j) {
        Ok(x) => x,
        Err(e) => return Err(e),
    };
    let (b, m) = match parse_u32(s, k) {
        Ok(x) => x,
        Err(e) => return Err(e),
    };
    Ok((a, b, m))
}

/// Reads one line of a note track at `i`.
pub fn parse_track_event(s: &Vec<char>, i: usize) -> (r: Result<(TrackEvent, usize), usize>)
    requires
        i <= s@.len(),
    ensures
        match r {
            Ok((e, j)) => p_track_event(s@, i as int) == Ok::<(TrackEventView, int), int>(
                (e@, j as int),
            ) && j <= s@.len(),
            Err(x) => p_track_event(s@, i as int) == Err::<(TrackEventView, int), int>(x as int),
        },
{
    let (time, j) = match parse_u32(s, i) {
        Ok(x) => x,
        Err(e) => return Err(e),
    };
    let k = match tag(s, j, " = ") {
        Ok(x) => x,
        Err(e) => return Err(e),
    };
    if let Ok(k1) = tag(s, k, "N ") {
        match parse_u32_pair(s, k1) {
            Ok((fret, sustain, m)) => Ok((TrackEvent::Note { time, fret, sustain }, m)),
            Err(e) => Err(e),
        }
    } else if let Ok(k1) = tag(s, k, "E ") {
        let m = scan(s, k1, CharClass::Alpha);
        if m == k1 {
            Err(k1)
        } else {
            Ok((TrackEvent::Event { time, value: text_of(s, k1, m) }, m))
        }
    } else if let Ok(k1) = tag(s, k, "S ") {
        match parse_u32_pair(s, k1) {
            Ok((kind, content, m)) => Ok((TrackEvent::Special { time, kind, content }, m)),
            Err(e) => Err(e),
        }
    } else {
        Err(k)
    }
}

impl View for Track {
    type V = TrackView;

    closed spec fn view(&self) -> TrackView {
        TrackView { name: self.name@, events: self.events@.map_values(|e: TrackEvent| e@) }
    }
}

/// Reads a note track at `i`.
pub fn parse_track(s: &Vec<char>, i: usize) -> (r: Result<(Track, usize), usize>)
    requires
        i <= s@.len(),
    ensures
        match r {
            Ok((t, j)) => p_track(s@, i as int) == Ok::<(TrackView, int), int>((t@, j as int))
                && j <= s@.len(),
            Err(x) => p_track(s@, i as int) == Err::<(TrackView, int), int>(x as int),
        },
{
    let a = match single(s, scan(s, i, CharClass::Space), '[') {
        Ok(x) => x,
        Err(e) => return Err(e),
    };
    let b = scan(s, a, CharClass::Alpha);
    if b == a {
        return Err(a);
    }
    let c = match single(s, b, ']') {
        Ok(x) => x,
        Err(e) => return Err(e),
    };
    let d = match single(s, scan(s, c, CharClass::Space), '{') {
        Ok(x) => x,
        Err(e) => return Err(e),
    };
    let (first, f) = match parse_track_event(s, scan(s, d, CharClass::Space)) {
        Ok(x) => x,
        Err(e) => return Err(e),
    };
    let ghost fv = first@;
    let mut events: Vec<TrackEvent> = Vec::new();
    events.push(first);
    let mut cur = f;
    loop
        invariant
            f <= cur <= s@.len(),
            events@.len() >= 1,
            events@.map_values(|e: TrackEvent| e@).drop_first() + p_track_events_more(
                s@,
                cur as int,
            ).0 == p_track_events_more(s@, f as int).0,
            events@[0]@ == fv,
            p_track_events_more(s@, cur as int).1 == p_track_events_more(s@, f as int).1,
        ensures
            events@.map_values(|e: TrackEvent| e@) == seq![fv] + p_track_events_more(
                s@,
                f as int,
            ).0,
            cur == p_track_events_more(s@, f as int).1,
            cur <= s@.len(),
        decreases s@.len() - cur,
    {
        let j = scan(s, cur, CharClass::Space);
        if j == cur {
            assert(events@.map_values(|e: TrackEvent| e@) =~= seq![fv] + p_track_events_more(
                s@,
                f as int,
            ).0);
            break;
        }
        match parse_track_event(s, j) {
            Ok((e, k)) => {
                if k <= j {
                    assert(events@.map_values(|e: TrackEvent| e@) =~= seq![fv]
                        + p_track_events_more(s@, f as int).0);
                    break;
                }
                let ghost before = events@.map_values(|e: TrackEvent| e@);
                let ghost ev = e@;
                events.push(e);
                assert(events@.map_values(|e: TrackEvent| e@).drop_first() =~= before.drop_first().push(ev));
                assert(p_track_events_more(s@, cur as int).0 =~= seq![ev] + p_track_events_more(
                    s@,
                    k as int,
                ).0);
                assert(events@.map_values(|e: TrackEvent| e@).drop_first() + p_track_events_more(
                    s@,
                    k as int,
                ).0 =~= before.drop_first() + p_track_events_more(s@, cur as int).0);
                cur = k;
            },
            Err(_) => {
                assert(events@.map_values(|e: TrackEvent| e@) =~= seq![fv] + p_track_events_more(
                    s@,
                    f as int,
                ).0);
                break;
            },
        }
    }
    let g = match single(s, scan(s, cur, CharClass::Space), '}') {
        Ok(x) => x,
        Err(e) => return Err(e),
    };
    let name = text_of(s, a, b);
    let t = Track { name, events };
    assert(t@ == TrackView { name: s@.subrange(a as int, b as int), events: seq![fv] + p_track_events_more(s@, f as int).0 });
    Ok((t, g))
}

/// Appends the line of one event.
pub fn write_track_event(e: &TrackEvent, out: &mut String)
    ensures
        final(out)@ == old(out)@ + track_event_text(e@),
{
    push_text(out, "  ");
    push_u32(out, e.time());
    match e {
        TrackEvent::Note { fret, sustain, .. } => {
            push_text(out, " = N ");
            push_u32(out, *fret);
            push_text(out, " ");
            push_u32(out, *sustain);
        },
        TrackEvent::Special { kind, content, .. } => {
            push_text(out, " = S ");
            push_u32(out, *kind);
            push_text(out, " ");
            push_u32(out, *content);
        },
        TrackEvent::Event { value, .. } => {
            push_text(out, " = E ");
            push_chars(out, value);
        },
    }
    push_text(out, "\n");
    assert(final(out)@ =~= old(out)@ + track_event_text(e@));
}

impl Track {
    pub fn new(name: String, events: Vec<TrackEvent>) -> (r: Track)
        ensures
            r@ == (TrackView { name: name@, events: events@.map_values(|e: TrackEvent| e@) }),
    {
        Track { name, events }
    }

    pub fn name(&self) -> (r: &String)
        ensures
            r@ == self@.name,
    {
        &self.name
    }

    pub fn events(&self) -> (r: &Vec<TrackEvent>)
        ensures
            r@.map_values(|e: TrackEvent| e@) == self@.events,
    {
        &self.events
    }

    /// Whether every tick and every length multiplied by `factor` fits in 32
    /// bits.
    pub fn fits(&self, factor: u32) -> (r: bool)
        ensures
            r == track_fits(self@.events, factor),
    {
        let ghost evs = self@.events;
        let ghost ticks = track_ticks(evs);
        let mut k: usize = 0;
        while k < self.events.len()
            invariant
                k <= self.events@.len(),
                evs == self.events@.map_values(|e: TrackEvent| e@),
                ticks == track_ticks(evs),
                forall|q: int| 0 <= q < k ==> #[trigger] ticks[q] * factor <= u32::MAX,
                forall|q: int| 0 <= q < k ==> #[trigger] evs[q].duration() * factor <= u32::MAX,
            decreases self.events@.len() - k,
        {
            assert(ticks[k as int] == evs[k as int].time());
            let e = &self.events[k];
            if !product_fits(e.time(), factor) {
                return false;
            }
            let d: u32 = match e {
                TrackEvent::Note { sustain, .. } => *sustain,
                TrackEvent::Special { content, .. } => *content,
                TrackEvent::Event { .. } => 0,
            };
            assert(evs[k as int] == self.events@[k as int]@);
            assert(d == evs[k as int].duration());
            if !product_fits(d, factor) {
                assert(!(evs[k as int].duration() * factor <= u32::MAX));
                return false;
            }
            k = k + 1;
        }
        true
    }

    /// Scales every tick and length by `factor`. An event exactly one tick
    /// after its predecessor (in the ticks before scaling) lands one tick after the
    /// predecessor's scaled tick; any other event's tick is multiplied.
    /// Lengths are always multiplied.
    pub fn multiply(&mut self, factor: u32)
        requires
            track_fits(old(self)@.events, factor),
        ensures
            final(self)@ == (TrackView {
                name: old(self)@.name,
                events: track_events_scaled(old(self)@.events, factor),
            }),
    {
        let ghost before = self@.events;
        let ghost name = self@.name;
        let n = self.events.len();
        if n == 0 {
            assert(self@.events =~= track_events_scaled(before, factor));
            return;
        }
        let mut prev = self.events[0].time();
        proof {
            lemma_gap_scaled_tick_fits(track_ticks(before), 0, factor);
            assert(track_ticks(before)[0] == before[0].time());
            assert(before[0].duration() * factor <= u32::MAX);
        }
        self.events[0].multiply(factor);
        let mut k: usize = 1;
        while k < n
            invariant
                1 <= k <= n,
                n == before.len(),
                self.events@.len() == n,
                track_fits(before, factor),
                self.name@ == name,
                prev == before[k - 1].time(),
                forall|q: int|
                    0 <= q < k ==> #[trigger] self.events@[q]@ == track_events_scaled(
                        before,
                        factor,
                    )[q],
                forall|q: int| k <= q < n ==> #[trigger] self.events@[q]@ == before[q],
            decreases n - k,
        {
            let t = self.events[k].time();
            proof {
                lemma_gap_scaled_tick_fits(track_ticks(before), k as int, factor);
                assert(track_ticks(before)[k as int] == before[k as int].time());
                assert(track_ticks(before)[k - 1] == before[k - 1].time());
                assert(before[k as int].duration() * factor <= u32::MAX);
            }
            let nt = if t > 0 && t - 1 == prev {
                prev * factor + 1
            } else {
                t * factor
            };
            self.events[k].rescale(nt, factor);
            prev = t;
            k = k + 1;
        }
        assert(self@.events =~= track_events_scaled(before, factor));
    }

    /// Appends the text of the track.
    pub fn write_to(&self, out: &mut String)
        ensures
            final(out)@ == old(out)@ + track_text(self@),
    {
        push_text(out, "[");
        push_chars(out, &self.name);
        push_text(out, "]\n{\n");
        let ghost start = out@;
        let ghost evs = self@.events;
        let mut k: usize = 0;
        while k < self.events.len()
            invariant
                k <= self.events@.len(),
                evs == self.events@.map_values(|e: TrackEvent| e@),
                out@ == start + track_lines(evs.take(k as int)),
            decreases self.events@.len() - k,
        {
            write_track_event(&self.events[k], out);
            assert(evs.take(k + 1).drop_last() =~= evs.take(k as int));
            k = k + 1;
        }
        assert(evs.take(k as int) =~= evs);
        push_text(out, "}\n");
        assert(out@ =~= old(out)@ + track_text(self@));
    }
}

} // verus!
