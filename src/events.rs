//! The narrative section, `[Events]`: phrase markers, section markers,
//! lyrics and free-form cues, each stamped with a tick.
use vstd::prelude::*;

use crate::rescale::{gap_scaled_tick, lemma_gap_scaled_tick_fits, product_fits, ticks_fit};
use crate::text::{
    begins_with, dec, has_prefix, is_text, p_char, p_tag, p_u32, parse_u32, push_chars, push_text,
    push_u32, scan, single, skip_ws, span, tag, text_of, lemma_span_stop, CharClass,
};

verus! {

/// One line of the narrative section: `tick = E "payload"`.
#[derive(Debug, PartialEq, Eq)]
pub enum GlobalEvent {
    /// The payload `phrase_start`.
    PhraseStart { time: u32 },
    /// The payload `phrase_end`.
    PhraseEnd { time: u32 },
    /// A payload `section <name>`.
    Section { time: u32, name: String },
    /// A payload `lyric <text>`.
    Lyric { time: u32, text: String },
    /// Any other payload, whole.
    Other { time: u32, value: String },
}

/// What a narrative event holds.
pub enum GlobalEventView {
    PhraseStart { time: u32 },
    PhraseEnd { time: u32 },
    Section { time: u32, name: Seq<char> },
    Lyric { time: u32, text: Seq<char> },
    Other { time: u32, value: Seq<char> },
}

/// The narrative section: its events in the order of the text.
#[derive(Debug, PartialEq, Eq)]
pub struct Events {
    events: Vec<GlobalEvent>,
}

impl View for GlobalEvent {
    type V = GlobalEventView;

    open spec fn view(&self) -> GlobalEventView {
        match self {
            GlobalEvent::PhraseStart { time } => GlobalEventView::PhraseStart { time: *time },
            GlobalEvent::PhraseEnd { time } => GlobalEventView::PhraseEnd { time: *time },
            GlobalEvent::Section { time, name } => GlobalEventView::Section {
                time: *time,
                name: name@,
            },
            GlobalEvent::Lyric { time, text } => GlobalEventView::Lyric { time: *time, text: text@ },
            GlobalEvent::Other { time, value } => GlobalEventView::Other {
                time: *time,
                value: value@,
            },
        }
    }
}

impl GlobalEventView {
    pub open spec fn time(self) -> u32 {
        match self {
            GlobalEventView::PhraseStart { time } => time,
            GlobalEventView::PhraseEnd { time } => time,
            GlobalEventView::Section { time, .. } => time,
            GlobalEventView::Lyric { time, .. } => time,
            GlobalEventView::Other { time, .. } => time,
        }
    }

    /// The same event at tick `t`.
    pub open spec fn with_time(self, t: u32) -> GlobalEventView {
        match self {
            GlobalEventView::PhraseStart { .. } => GlobalEventView::PhraseStart { time: t },
            GlobalEventView::PhraseEnd { .. } => GlobalEventView::PhraseEnd { time: t },
            GlobalEventView::Section { name, .. } => GlobalEventView::Section { time: t, name },
            GlobalEventView::Lyric { text, .. } => GlobalEventView::Lyric { time: t, text },
            GlobalEventView::Other { value, .. } => GlobalEventView::Other { time: t, value },
        }
    }
}

impl GlobalEvent {
    pub fn time(&self) -> (r: u32)
        ensures
            r == self@.time(),
    {
        match self {
            GlobalEvent::PhraseStart { time } => *time,
            GlobalEvent::PhraseEnd { time } => *time,
            GlobalEvent::Section { time, .. } => *time,
            GlobalEvent::Lyric { time, .. } => *time,
            GlobalEvent::Other { time, .. } => *time,
        }
    }

    /// Moves the event to tick `t`.
    pub fn set_time(&mut self, t: u32)
        ensures
            final(self)@ == old(self)@.with_time(t),
    {
        match self {
            GlobalEvent::PhraseStart { time } => *time = t,
            GlobalEvent::PhraseEnd { time } => *time = t,
            GlobalEvent::Section { time, .. } => *time = t,
            GlobalEvent::Lyric { time, .. } => *time = t,
            GlobalEvent::Other { time, .. } => *time = t,
        }
    }

    /// Multiplies the tick by `factor`.
    pub fn multiply(&mut self, factor: u32)
        requires
            old(self)@.time() * factor <= u32::MAX,
        ensures
            final(self)@ == old(self)@.with_time((old(self)@.time() * factor) as u32),
    {
        let t = self.time();
        self.set_time(t * factor);
    }
}

/// The ticks of a sequence of narrative events.
pub open spec fn event_ticks(evs: Seq<GlobalEventView>) -> Seq<u32> {
    evs.map_values(|e: GlobalEventView| e.time())
}

/// The narrative events scaled by `factor`, by the rule of [`gap_scaled_tick`].
pub open spec fn events_scaled(evs: Seq<GlobalEventView>, factor: u32) -> Seq<GlobalEventView> {
    Seq::new(
        evs.len(),
        |k: int| evs[k].with_time(gap_scaled_tick(event_ticks(evs), k, factor) as u32),
    )
}

/// The event that a payload between quotes stands for.
pub open spec fn payload_event(time: u32, p: Seq<char>) -> GlobalEventView {
    if p == "phrase_start"@ {
        GlobalEventView::PhraseStart { time }
    } else if p == "phrase_end"@ {
        GlobalEventView::PhraseEnd { time }
    } else if has_prefix(p, "section "@) {
        GlobalEventView::Section { time, name: p.subrange("section "@.len() as int, p.len() as int) }
    } else if has_prefix(p, "lyric "@) {
        GlobalEventView::Lyric { time, text: p.subrange("lyric "@.len() as int, p.len() as int) }
    } else {
        GlobalEventView::Other { time, value: p }
    }
}

/// One line of the narrative section at `i`: a tick, ` = E "`, a payload
/// that runs to the next double quote, and that quote.
pub open spec fn p_global_event(s: Seq<char>, i: int) -> Result<(GlobalEventView, int), int> {
    match p_u32(s, i) {
        Err(e) => Err(e),
        Ok((time, j)) => match p_tag(s, j, " = E \""@) {
            Err(e) => Err(e),
            Ok(k) => {
                let q = span(s, k, CharClass::QuoteText);
                if q >= s.len() {
                    Err(k)
                } else {
                    Ok((payload_event(time, s.subrange(k, q)), q + 1))
                }
            },
        },
    }
}

/// A narrative line whose payload is never closed by a double quote is
/// refused, also where the payload begins with `section ` or `lyric `: no
/// free-form cue is made of it.
pub proof fn lemma_unclosed_payload_rejected(s: Seq<char>, i: int)
    requires
        p_u32(s, i) is Ok,
        p_tag(s, p_u32(s, i)->Ok_0.1, " = E \""@) is Ok,
        forall|t: int|
            p_tag(s, p_u32(s, i)->Ok_0.1, " = E \""@)->Ok_0 <= t < s.len() ==> #[trigger] s[t]
                != '"',
    ensures
        p_global_event(s, i) is Err,
{
    let k = p_tag(s, p_u32(s, i)->Ok_0.1, " = E \""@)->Ok_0;
    lemma_span_stop(s, k, s.len() as int, CharClass::QuoteText);
}

/// The events that follow the first one, each followed by optional
/// whitespace, for as long as one can be read.
pub open spec fn p_events_more(s: Seq<char>, i: int) -> (Seq<GlobalEventView>, int)
    decreases s.len() - i,
{
    match p_global_event(s, i) {
        Ok((e, k)) => {
            let k2 = skip_ws(s, k);
            if i < k2 <= s.len() {
                let rest = p_events_more(s, k2);
                (seq![e] + rest.0, rest.1)
            } else {
                (seq![], i)
            }
        },
        Err(_) => (seq![], i),
    }
}

/// The narrative section at `i`: its header, then a braced block of one or
/// more events.
pub open spec fn p_events(s: Seq<char>, i: int) -> Result<(Seq<GlobalEventView>, int), int> {
    match p_tag(s, skip_ws(s, i), "[Events]"@) {
        Err(e) => Err(e),
        Ok(j1) => match p_char(s, skip_ws(s, j1), '{') {
            Err(e) => Err(e),
            Ok(j2) => match p_global_event(s, skip_ws(s, j2)) {
                Err(e) => Err(e),
                Ok((first, j3)) => {
                    let more = p_events_more(s, skip_ws(s, j3));
                    match p_char(s, more.1, '}') {
                        Err(e) => Err(e),
                        Ok(j4) => Ok((seq![first] + more.0, j4)),
                    }
                },
            },
        },
    }
}

/// The payload of an event, as it stands between the quotes.
pub open spec fn payload_text(e: GlobalEventView) -> Seq<char> {
    match e {
        GlobalEventView::PhraseStart { .. } => "phrase_start"@,
        GlobalEventView::PhraseEnd { .. } => "phrase_end"@,
        GlobalEventView::Section { name, .. } => "section "@ + name,
        GlobalEventView::Lyric { text, .. } => "lyric "@ + text,
        GlobalEventView::Other { value, .. } => value,
    }
}

/// The text of one event: a line indented by two spaces.
pub open spec fn global_event_text(e: GlobalEventView) -> Seq<char> {
    "  "@ + dec(e.time() as nat) + " = E \""@ + payload_text(e) + "\"\n"@
}

pub open spec fn event_lines(evs: Seq<GlobalEventView>) -> Seq<char>
    decreases evs.len(),
{
    if evs.len() == 0 {
        seq![]
    } else {
        event_lines(evs.drop_last()) + global_event_text(evs.last())
    }
}

/// The text of the whole narrative section.
pub open spec fn events_text(evs: Seq<GlobalEventView>) -> Seq<char> {
    "[Events]\n{\n"@ + event_lines(evs) + "}\n"@
}

/// Reads one line of the narrative section at `i`.
pub fn parse_global_event(s: &Vec<char>, i: usize) -> (r: Result<(GlobalEvent, usize), usize>)
    requires
        i <= s@.len(),
    ensures
        match r {
            Ok((e, j)) => p_global_event(s@, i as int) == Ok::<(GlobalEventView, int), int>(
                (e@, j as int),
            ) && j <= s@.len(),
            Err(x) => p_global_event(s@, i as int) == Err::<(GlobalEventView, int), int>(
                x as int,
            ),
        },
{
    let (time, j) = match parse_u32(s, i) {
        Ok(x) => x,
        Err(e) => return Err(e),
    };
    let k = match tag(s, j, " = E \"") {
        Ok(x) => x,
        Err(e) => return Err(e),
    };
    let q = scan(s, k, CharClass::QuoteText);
    if q >= s.len() {
        return Err(k);
    }
    let ghost p = s@.subrange(k as int, q as int);
    let ev = if is_text(s, k, q, "phrase_start") {
        GlobalEvent::PhraseStart { time }
    } else if is_text(s, k, q, "phrase_end") {
        GlobalEvent::PhraseEnd { time }
    } else if begins_with(s, k, q, "section ") {
        let start = k + "section ".unicode_len();
        assert(p.subrange("section "@.len() as int, p.len() as int) =~= s@.subrange(
            start as int,
            q as int,
        ));
        GlobalEvent::Section { time, name: text_of(s, start, q) }
    } else if begins_with(s, k, q, "lyric ") {
        let start = k + "lyric ".unicode_len();
        assert(p.subrange("lyric "@.len() as int, p.len() as int) =~= s@.subrange(
            start as int,
            q as int,
        ));
        GlobalEvent::Lyric { time, text: text_of(s, start, q) }
    } else {
        GlobalEvent::Other { time, value: text_of(s, k, q) }
    };
    Ok((ev, q + 1))
}

impl View for Events {
    type V = Seq<GlobalEventView>;

    closed spec fn view(&self) -> Seq<GlobalEventView> {
        self.events@.map_values(|e: GlobalEvent| e@)
    }
}

/// Reads the narrative section at `i`.
pub fn parse_events(s: &Vec<char>, i: usize) -> (r: Result<(Events, usize), usize>)
    requires
        i <= s@.len(),
    ensures
        match r {
            Ok((t, j)) => p_events(s@, i as int) == Ok::<(Seq<GlobalEventView>, int), int>(
                (t@, j as int),
            ) && j <= s@.len(),
            Err(x) => p_events(s@, i as int) == Err::<(Seq<GlobalEventView>, int), int>(x as int),
        },
{
    let j1 = match tag(s, scan(s, i, CharClass::Space), "[Events]") {
        Ok(x) => x,
        Err(e) => return Err(e),
    };
    let j2 = match single(s, scan(s, j1, CharClass::Space), '{') {
        Ok(x) => x,
        Err(e) => return Err(e),
    };
    let (first, j3) = match parse_global_event(s, scan(s, j2, CharClass::Space)) {
        Ok(x) => x,
        Err(e) => return Err(e),
    };
    let ghost fv = first@;
    let start = scan(s, j3, CharClass::Space);
    let mut events: Vec<GlobalEvent> = Vec::new();
    events.push(first);
    let mut cur = start;
    loop
        invariant
            start <= cur <= s@.len(),
            events@.len() >= 1,
            events@.map_values(|e: GlobalEvent| e@).drop_first() + p_events_more(
                s@,
                cur as int,
            ).0 == p_events_more(s@, start as int).0,
            events@[0]@ == fv,
            p_events_more(s@, cur as int).1 == p_events_more(s@, start as int).1,
        ensures
            events@.map_values(|e: GlobalEvent| e@) == seq![fv] + p_events_more(
                s@,
                start as int,
            ).0,
            cur == p_events_more(s@, start as int).1,
            cur <= s@.len(),
        decreases s@.len() - cur,
    {
        match parse_global_event(s, cur) {
            Ok((e, k)) => {
                let k2 = scan(s, k, CharClass::Space);
                if k2 <= cur {
                    assert(events@.map_values(|e: GlobalEvent| e@) =~= seq![fv] + p_events_more(
                        s@,
                        start as int,
                    ).0);
                    break;
                }
                let ghost before = events@.map_values(|e: GlobalEvent| e@);
                let ghost ev = e@;
                events.push(e);
                assert(events@.map_values(|e: GlobalEvent| e@).drop_first() =~= before.drop_first().push(ev));
                assert(p_events_more(s@, cur as int).0 =~= seq![ev] + p_events_more(s@, k2 as int).0);
                assert(events@.map_values(|e: GlobalEvent| e@).drop_first() + p_events_more(
                    s@,
                    k2 as int,
                ).0 =~= before.drop_first() + p_events_more(s@, cur as int).0);
                cur = k2;
            },
            Err(_) => {
                assert(events@.map_values(|e: GlobalEvent| e@) =~= seq![fv] + p_events_more(
                    s@,
                    start as int,
                ).0);
                break;
            },
        }
    }
    let j4 = match single(s, cur, '}') {
        Ok(x) => x,
        Err(e) => return Err(e),
    };
    Ok((Events { events }, j4))
}

/// Appends the line of one event.
pub fn write_global_event(e: &GlobalEvent, out: &mut String)
    ensures
        final(out)@ == old(out)@ + global_event_text(e@),
{
    push_text(out, "  ");
    push_u32(out, e.time());
    push_text(out, " = E \"");
    match e {
        GlobalEvent::PhraseStart { .. } => push_text(out, "phrase_start"),
        GlobalEvent::PhraseEnd { .. } => push_text(out, "phrase_end"),
        GlobalEvent::Section { name, .. } => {
            push_text(out, "section ");
            push_chars(out, name);
        },
        GlobalEvent::Lyric { text, .. } => {
            push_text(out, "lyric ");
            push_chars(out, text);
        },
        GlobalEvent::Other { value, .. } => push_chars(out, value),
    }
    push_text(out, "\"\n");
    assert(final(out)@ =~= old(out)@ + global_event_text(e@));
}

impl Events {
    pub fn new(events: Vec<GlobalEvent>) -> (r: Events)
        ensures
            r@ == events@.map_values(|e: GlobalEvent| e@),
    {
        Events { events }
    }

    pub fn events(&self) -> (r: &Vec<GlobalEvent>)
        ensures
            r@.map_values(|e: GlobalEvent| e@) == self@,
    {
        &self.events
    }

    /// Whether every tick multiplied by `factor` fits in 32 bits.
    pub fn fits(&self, factor: u32) -> (r: bool)
        ensures
            r == ticks_fit(event_ticks(self@), factor),
    {
        let ghost ticks = event_ticks(self@);
        let mut k: usize = 0;
        while k < self.events.len()
            invariant
                k <= self.events@.len(),
                ticks == event_ticks(self.events@.map_values(|e: GlobalEvent| e@)),
                forall|q: int| 0 <= q < k ==> #[trigger] ticks[q] * factor <= u32::MAX,
            decreases self.events@.len() - k,
        {
            assert(ticks[k as int] == self.events@[k as int]@.time());
            if !product_fits(self.events[k].time(), factor) {
                return false;
            }
            k = k + 1;
        }
        true
    }

    /// Scales every tick by `factor`. An event exactly one tick after its
    /// predecessor (in the ticks before scaling) lands one tick after the
    /// predecessor's scaled tick; any other event's tick is multiplied.
    pub fn multiply(&mut self, factor: u32)
        requires
            ticks_fit(event_ticks(old(self)@), factor),
        ensures
            final(self)@ == events_scaled(old(self)@, factor),
    {
        let ghost before = self@;
        let n = self.events.len();
        if n == 0 {
            assert(self@ =~= events_scaled(before, factor));
            return;
        }
        let mut prev = self.events[0].time();
        proof {
            lemma_gap_scaled_tick_fits(event_ticks(before), 0, factor);
            assert(event_ticks(before)[0] == before[0].time());
        }
        self.events[0].multiply(factor);
        let mut k: usize = 1;
        while k < n
            invariant
                1 <= k <= n,
                n == before.len(),
                self.events@.len() == n,
                ticks_fit(event_ticks(before), factor),
                prev == before[k - 1].time(),
                forall|q: int|
                    0 <= q < k ==> #[trigger] self.events@[q]@ == events_scaled(before, factor)[q],
                forall|q: int| k <= q < n ==> #[trigger] self.events@[q]@ == before[q],
            decreases n - k,
        {
            let t = self.events[k].time();
            proof {
                lemma_gap_scaled_tick_fits(event_ticks(before), k as int, factor);
                assert(event_ticks(before)[k as int] == before[k as int].time());
                assert(event_ticks(before)[k - 1] == before[k - 1].time());
                assert(event_ticks(before)[k as int] * factor <= u32::MAX);
            }
            if t > 0 && t - 1 == prev {
                self.events[k].set_time(prev * factor + 1);
            } else {
                self.events[k].multiply(factor);
            }
            prev = t;
            k = k + 1;
        }
        assert(self@ =~= events_scaled(before, factor));
    }

    /// Appends the text of the section.
    pub fn write_to(&self, out: &mut String)
        ensures
            final(out)@ == old(out)@ + events_text(self@),
    {
        push_text(out, "[Events]\n{\n");
        let ghost start = out@;
        let ghost evs = self@;
        let mut k: usize = 0;
        while k < self.events.len()
            invariant
                k <= self.events@.len(),
                evs == self.events@.map_values(|e: GlobalEvent| e@),
                out@ == start + event_lines(evs.take(k as int)),
            decreases self.events@.len() - k,
        {
            write_global_event(&self.events[k], out);
            assert(evs.take(k + 1).drop_last() =~= evs.take(k as int));
            k = k + 1;
        }
        assert(evs.take(k as int) =~= evs);
        push_text(out, "}\n");
        assert(out@ =~= old(out)@ + events_text(self@));
    }
}

} // verus!
