//! The tempo section, `[SyncTrack]`: tempo changes, time signatures and
//! anchors, each stamped with a tick.
use vstd::prelude::*;

use crate::rescale::product_fits;
use crate::text::{
    dec, p_char, p_tag, p_u32, p_ws1, parse_u32, push_text, push_u32, scan, single, skip_ws, span, tag,
    ws1, CharClass,
};

verus! {

/// One line of the tempo section.
#[derive(Debug, Clone, Copy, PartialEq, Eq, Structural)]
pub enum SyncTrackEvent {
    /// `tick = B value`
    Bpm { time: u32, value: u32 },
    /// `tick = TS numerator [denominator]`
    TimeSignature { time: u32, value1: u32, value2: Option<u32> },
    /// `tick = A value`
    Anchor { time: u32, value: u32 },
}

/// The tempo section: its events in the order of the text.
#[derive(Debug, PartialEq, Eq)]
pub struct SyncTrack {
    events: Vec<SyncTrackEvent>,
}

impl SyncTrackEvent {
    pub open spec fn spec_time(&self) -> u32 {
        match *self {
            SyncTrackEvent::Bpm { time, .. } => time,
            SyncTrackEvent::TimeSignature { time, .. } => time,
            SyncTrackEvent::Anchor { time, .. } => time,
        }
    }

    /// The event with its tick multiplied by `factor`.
    pub open spec fn scaled(self, factor: u32) -> SyncTrackEvent {
        let t = (self.spec_time() * factor) as u32;
        match self {
            SyncTrackEvent::Bpm { value, .. } => SyncTrackEvent::Bpm { time: t, value },
            SyncTrackEvent::TimeSignature { value1, value2, .. } => {
                SyncTrackEvent::TimeSignature { time: t, value1, value2 }
            },
            SyncTrackEvent::Anchor { value, .. } => SyncTrackEvent::Anchor { time: t, value },
        }
    }

    #[verifier::when_used_as_spec(spec_time)]
    pub fn time(&self) -> (r: u32)
        ensures
            r == self.spec_time(),
    {
        match self {
            SyncTrackEvent::Bpm { time, .. } => *time,
            SyncTrackEvent::TimeSignature { time, .. } => *time,
            SyncTrackEvent::Anchor { time, .. } => *time,
        }
    }

    /// Multiplies the tick by `factor`.
    pub fn multiply(&mut self, factor: u32)
        requires
            old(self).spec_time() * factor <= u32::MAX,
        ensures
            *final(self) == old(self).scaled(factor),
    {
        match self {
            SyncTrackEvent::Bpm { time, .. } => *time = *time * factor,
            SyncTrackEvent::TimeSignature { time, .. } => *time = *time * factor,
            SyncTrackEvent::Anchor { time, .. } => *time = *time * factor,
        }
    }
}

impl View for SyncTrack {
    type V = Seq<SyncTrackEvent>;

    closed spec fn view(&self) -> Seq<SyncTrackEvent> {
        self.events@
    }
}

/// Every tick of `evs` multiplied by `factor` fits in 32 bits.
pub open spec fn sync_fits(evs: Seq<SyncTrackEvent>, factor: u32) -> bool {
    forall|k: int| 0 <= k < evs.len() ==> #[trigger] evs[k].spec_time() * factor <= u32::MAX
}

/// What follows ` = ` on a tempo line at tick `time`: `TS` with one or two
/// numbers (the second after spaces or tabs on the same line), `B` or `A`
/// with one number, each number after whitespace.
pub open spec fn p_sync_op(s: Seq<char>, k: int, time: u32) -> Result<(SyncTrackEvent, int), int> {
    if let Ok(k1) = p_tag(s, k, "TS"@) {
        match p_ws1(s, k1) {
            Err(e) => Err(e),
            Ok(k2) => match p_u32(s, k2) {
                Err(e) => Err(e),
                Ok((value1, k3)) => {
                    let k4 = span(s, k3, CharClass::Blank);
                    match p_u32(s, k4) {
                        Ok((value2, k5)) if k4 > k3 => Ok(
                            (SyncTrackEvent::TimeSignature { time, value1, value2: Some(value2) }, k5),
                        ),
                        _ => Ok((SyncTrackEvent::TimeSignature { time, value1, value2: None }, k3)),
                    }
                },
            },
        }
    } else if p_char(s, k, 'B') is Ok || p_char(s, k, 'A') is Ok {
        match p_ws1(s, k + 1) {
            Err(e) => Err(e),
            Ok(k2) => match p_u32(s, k2) {
                Err(e) => Err(e),
                Ok((value, k3)) => if s[k] == 'B' {
                    Ok((SyncTrackEvent::Bpm { time, value }, k3))
                } else {
                    Ok((SyncTrackEvent::Anchor { time, value }, k3))
                },
            },
        }
    } else {
        Err(k)
    }
}

/// One line of the tempo section, as the grammar reads it at `i`.
pub open spec fn p_sync_event(s: Seq<char>, i: int) -> Result<(SyncTrackEvent, int), int> {
    match p_u32(s, i) {
        Err(e) => Err(e),
        Ok((time, j)) => match p_tag(s, j, " = "@) {
            Err(e) => Err(e),
            Ok(k) => p_sync_op(s, k, time),
        },
    }
}

/// A tempo line whose operation begins with none of `TS`, `B` and `A` is
/// refused.
pub proof fn lemma_unknown_op_rejected(s: Seq<char>, i: int)
    requires
        p_u32(s, i) is Ok,
        p_tag(s, p_u32(s, i)->Ok_0.1, " = "@) is Ok,
        ({
            let k = p_tag(s, p_u32(s, i)->Ok_0.1, " = "@)->Ok_0;
            k >= s.len() || !(s[k] == 'B' || s[k] == 'A' || (s[k] == 'T' && k + 1 < s.len() && s[k
                + 1] == 'S'))
        }),
    ensures
        p_sync_event(s, i) is Err,
{
    reveal_strlit("TS");
    let k = p_tag(s, p_u32(s, i)->Ok_0.1, " = "@)->Ok_0;
    if p_tag(s, k, "TS"@) is Ok {
        assert(s.subrange(k, k + 2)[0] == "TS"@[0]);
        assert(s.subrange(k, k + 2)[1] == "TS"@[1]);
    }
}

/// Scaling the tempo section multiplies every tick by the factor, with no
/// exception for events one tick apart.
pub proof fn lemma_tempo_ticks_uniform(evs: Seq<SyncTrackEvent>, factor: u32, k: int)
    requires
        sync_fits(evs, factor),
        0 <= k < evs.len(),
    ensures
        evs.map_values(|e: SyncTrackEvent| e.scaled(factor))[k].spec_time() == evs[k].spec_time()
            * factor,
{
    assert(evs[k].spec_time() * factor <= u32::MAX);
}

/// The events that follow the first one: each after one or more whitespace
/// characters, for as long as one can be read.
pub open spec fn p_sync_more(s: Seq<char>, i: int) -> (Seq<SyncTrackEvent>, int)
    decreases s.len() - i,
{
    let j = skip_ws(s, i);
    if i < j <= s.len() {
        match p_sync_event(s, j) {
            Ok((e, k)) => if j < k <= s.len() {
                let rest = p_sync_more(s, k);
                (seq![e] + rest.0, rest.1)
            } else {
                (seq![], i)
            },
            Err(_) => (seq![], i),
        }
    } else {
        (seq![], i)
    }
}

/// The tempo section at `i`: its header, then a braced block of one or more
/// events separated by whitespace.
pub open spec fn p_sync_track(s: Seq<char>, i: int) -> Result<(Seq<SyncTrackEvent>, int), int> {
    match p_tag(s, i, "[SyncTrack]"@) {
        Err(e) => Err(e),
        Ok(j1) => match p_char(s, skip_ws(s, j1), '{') {
            Err(e) => Err(e),
            Ok(j2) => match p_sync_event(s, skip_ws(s, j2)) {
                Err(e) => Err(e),
                Ok((first, j3)) => {
                    let more = p_sync_more(s, j3);
                    match p_char(s, skip_ws(s, more.1), '}') {
                        Err(e) => Err(e),
                        Ok(j4) => Ok((seq![first] + more.0, j4)),
                    }
                },
            },
        },
    }
}

/// The text of one event: a line indented by two spaces.
pub open spec fn sync_event_text(e: SyncTrackEvent) -> Seq<char> {
    "  "@ + dec(e.spec_time() as nat) + match e {
        SyncTrackEvent::Bpm { value, .. } => " = B "@ + dec(value as nat),
        SyncTrackEvent::TimeSignature { value1, value2, .. } => match value2 {
            Some(v2) => " = TS "@ + dec(value1 as nat) + " "@ + dec(v2 as nat),
            None => " = TS "@ + dec(value1 as nat),
        },
        SyncTrackEvent::Anchor { value, .. } => " = A "@ + dec(value as nat),
    } + "\n"@
}

pub open spec fn sync_lines(evs: Seq<SyncTrackEvent>) -> Seq<char>
    decreases evs.len(),
{
    if evs.len() == 0 {
        seq![]
    } else {
        sync_lines(evs.drop_last()) + sync_event_text(evs.last())
    }
}

/// The text of the whole tempo section.
pub open spec fn sync_track_text(evs: Seq<SyncTrackEvent>) -> Seq<char> {
    "[SyncTrack]\n{\n"@ + sync_lines(evs) + "}\n"@
}

/// Reads one line of the tempo section at `i`.
pub fn parse_sync_event(s: &Vec<char>, i: usize) -> (r: Result<(SyncTrackEvent, usize), usize>)
    requires
        i <= s@.len(),
    ensures
        match r {
            Ok((e, j)) => p_sync_event(s@, i as int) == Ok::<(SyncTrackEvent, int), int>(
                (e, j as int),
            ) && j <= s@.len(),
            Err(x) => p_sync_event(s@, i as int) == Err::<(SyncTrackEvent, int), int>(x as int),
        },
{
    let (time, j) = match parse_u32(s, i) {
        Ok(x) => x,
        Err(e) => return Err(e),
    };
    let k = match tag(s, j, " = ") {
        Ok(k) => k,
        Err(e) => return Err(e),
    };
    if let Ok(k1) = tag(s, k, "TS") {
        let k2 = match ws1(s, k1) {
            Ok(x) => x,
            Err(e) => return Err(e),
        };
        let (value1, k3) = match parse_u32(s, k2) {
            Ok(x) => x,
            Err(e) => return Err(e),
        };
        let k4 = scan(s, k3, CharClass::Blank);
        if k4 > k3 {
            if let Ok((value2, k5)) = parse_u32(s, k4) {
                return Ok((SyncTrackEvent::TimeSignature { time, value1, value2: Some(value2) }, k5));
            }
        }
        Ok((SyncTrackEvent::TimeSignature { time, value1, value2: None }, k3))
    } else if single(s, k, 'B').is_ok() || single(s, k, 'A').is_ok() {
        let k2 = match ws1(s, k + 1) {
            Ok(x) => x,
            Err(e) => return Err(e),
        };
        let (value, k3) = match parse_u32(s, k2) {
            Ok(x) => x,
            Err(e) => return Err(e),
        };
        if s[k] == 'B' {
            Ok((SyncTrackEvent::Bpm { time, value }, k3))
        } else {
            Ok((SyncTrackEvent::Anchor { time, value }, k3))
        }
    } else {
        Err(k)
    }
}

/// Reads the tempo section at `i`.
pub fn parse_sync_track(s: &Vec<char>, i: usize) -> (r: Result<(SyncTrack, usize), usize>)
    requires
        i <= s@.len(),
    ensures
        match r {
            Ok((t, j)) => p_sync_track(s@, i as int) == Ok::<(Seq<SyncTrackEvent>, int), int>(
                (t@, j as int),
            ) && j <= s@.len(),
            Err(x) => p_sync_track(s@, i as int) == Err::<(Seq<SyncTrackEvent>, int), int>(
                x as int,
            ),
        },
{
    let j1 = match tag(s, i, "[SyncTrack]") {
        Ok(x) => x,
        Err(e) => return Err(e),
    };
    let j2 = match single(s, scan(s, j1, CharClass::Space), '{') {
        Ok(x) => x,
        Err(e) => return Err(e),
    };
    let (first, j3) = match parse_sync_event(s, scan(s, j2, CharClass::Space)) {
        Ok(x) => x,
        Err(e) => return Err(e),
    };
    let mut events: Vec<SyncTrackEvent> = Vec::new();
    events.push(first);
    let mut cur = j3;
    loop
        invariant
            j3 <= cur <= s@.len(),
            events@.len() >= 1,
            events@.drop_first() + p_sync_more(s@, cur as int).0 == p_sync_more(
                s@,
                j3 as int,
            ).0,
            events@[0] == first,
            p_sync_more(s@, cur as int).1 == p_sync_more(s@, j3 as int).1,
        ensures
            events@ == seq![first] + p_sync_more(s@, j3 as int).0,
            cur == p_sync_more(s@, j3 as int).1,
            cur <= s@.len(),
        decreases s@.len() - cur,
    {
        let j = scan(s, cur, CharClass::Space);
        if j == cur {
            assert(events@ =~= seq![first] + p_sync_more(s@, j3 as int).0);
            break;
        }
        match parse_sync_event(s, j) {
            Ok((e, k)) => {
                if k <= j {
                    assert(events@ =~= seq![first] + p_sync_more(s@, j3 as int).0);
                    break;
                }
                let ghost before = events@;
                events.push(e);
                assert(events@.drop_first() =~= before.drop_first().push(e));
                assert(p_sync_more(s@, cur as int).0 =~= seq![e] + p_sync_more(s@, k as int).0);
                assert(events@.drop_first() + p_sync_more(s@, k as int).0 =~= before.drop_first()
                    + p_sync_more(s@, cur as int).0);
                cur = k;
            },
            Err(_) => {
                assert(events@ =~= seq![first] + p_sync_more(s@, j3 as int).0);
                break;
            },
        }
    }
    let j4 = match single(s, scan(s, cur, CharClass::Space), '}') {
        Ok(x) => x,
        Err(e) => return Err(e),
    };
    Ok((SyncTrack { events }, j4))
}

impl SyncTrack {
    pub fn new(events: Vec<SyncTrackEvent>) -> (r: SyncTrack)
        ensures
            r@ == events@,
    {
        SyncTrack { events }
    }

    pub fn events(&self) -> (r: &Vec<SyncTrackEvent>)
        ensures
            r@ == self@,
    {
        &self.events
    }

    /// Whether every tick multiplied by `factor` fits in 32 bits.
    pub fn fits(&self, factor: u32) -> (r: bool)
        ensures
            r == sync_fits(self@, factor),
    {
        let mut k: usize = 0;
        while k < self.events.len()
            invariant
                k <= self.events@.len(),
                forall|q: int| 0 <= q < k ==> #[trigger] self.events@[q].spec_time() * factor <= u32::MAX,
            decreases self.events@.len() - k,
        {
            if !product_fits(self.events[k].time(), factor) {
                return false;
            }
            k = k + 1;
        }
        true
    }

    /// Multiplies every tick by `factor`, each on its own: a tempo event
    /// one tick after another moves to `factor` ticks after it.
    pub fn multiply(&mut self, factor: u32)
        requires
            sync_fits(old(self)@, factor),
        ensures
            final(self)@ == old(self)@.map_values(|e: SyncTrackEvent| e.scaled(factor)),
    {
        let ghost before = self.events@;
        let n = self.events.len();
        let mut k: usize = 0;
        while k < n
            invariant
                k <= n,
                n == before.len(),
                self.events@.len() == n,
                sync_fits(before, factor),
                forall|q: int| 0 <= q < k ==> self.events@[q] == before[q].scaled(factor),
                forall|q: int| k <= q < n ==> self.events@[q] == before[q],
            decreases n - k,
        {
            assert(before[k as int].spec_time() * factor <= u32::MAX);
            self.events[k].multiply(factor);
            k = k + 1;
        }
        assert(self.events@ =~= before.map_values(|e: SyncTrackEvent| e.scaled(factor)));
    }

    /// Appends the text of the section.
    pub fn write_to(&self, out: &mut String)
        ensures
            final(out)@ == old(out)@ + sync_track_text(self@),
    {
        push_text(out, "[SyncTrack]\n{\n");
        let ghost start = out@;
        let mut k: usize = 0;
        while k < self.events.len()
            invariant
                k <= self.events@.len(),
                out@ == start + sync_lines(self.events@.take(k as int)),
            decreases self.events@.len() - k,
        {
            write_sync_event(&self.events[k], out);
            assert(self.events@.take(k + 1).drop_last() =~= self.events@.take(k as int));
            k = k + 1;
        }
        assert(self.events@.take(k as int) =~= self.events@);
        push_text(out, "}\n");
        assert(out@ =~= old(out)@ + sync_track_text(self@));
    }
}

/// Appends the line of one event.
pub fn write_sync_event(e: &SyncTrackEvent, out: &mut String)
    ensures
        final(out)@ == old(out)@ + sync_event_text(*e),
{
    push_text(out, "  ");
    push_u32(out, e.time());
    match e {
        SyncTrackEvent::Bpm { value, .. } => {
            push_text(out, " = B ");
            push_u32(out, *value);
        },
        SyncTrackEvent::TimeSignature { value1, value2, .. } => {
            push_text(out, " = TS ");
            push_u32(out, *value1);
            if let Some(v2) = value2 {
                push_text(out, " ");
                push_u32(out, *v2);
            }
        },
        SyncTrackEvent::Anchor { value, .. } => {
            push_text(out, " = A ");
            push_u32(out, *value);
        },
    }
    push_text(out, "\n");
    assert(final(out)@ =~= old(out)@ + sync_event_text(*e));
}

} // verus!
