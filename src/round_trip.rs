//! Reading back what was written: the text of a chart that was read from a
//! text reads as that same chart.
use vstd::prelude::*;

use crate::chart::{
    chart_text, p_tracks, p_tracks_more, parse_chart, tracks_text, ChartView, ParseError,
};
use crate::events::{
    event_lines, events_text, global_event_text, p_events, p_events_more,
    p_global_event, payload_event, payload_text, GlobalEventView,
};
use crate::song::{
    other_properties, p_properties_more, p_property, p_song, p_song_section, property_lines,
    property_text, resolution_name, song_text, PropertyView, SongView,
};
use crate::literals::{
    lit_close, lit_e_, lit_eq, lit_eq_e_q, lit_events, lit_events_head, lit_lyric, lit_ph_end,
    lit_ph_start, lit_q_nl, lit_section, lit_eq_a, lit_eq_b, lit_eq_e, lit_eq_n, lit_eq_s, lit_eq_ts, lit_n_,
    lit_nl, lit_open, lit_res, lit_res_line, lit_s_, lit_song, lit_song_head, lit_sp, lit_sp2, lit_sync, lit_sync_head, lit_track_head, lit_ts,
};
use crate::track::{
    p_track, p_track_event, p_track_events_more, p_track_op, p_u32_pair, track_event_text,
    track_lines, track_text, TrackEventView, TrackView,
};
use crate::sync_track::{
    p_sync_event, p_sync_more, p_sync_op, p_sync_track, sync_event_text, sync_lines,
    sync_track_text, SyncTrackEvent,
};
use crate::text::{
    dec, dec_value, digit_char, digit_value, has_prefix, in_class, is_digit, lemma_span_bounds,
    lemma_span_stop, p_char, p_tag, p_u32, p_ws1, skip_ws, span, text_u32, CharClass,
};

verus! {

/// The text `w` stands in `s` from `i` on.
pub open spec fn at(s: Seq<char>, i: int, w: Seq<char>) -> bool {
    0 <= i && i + w.len() <= s.len() && s.subrange(i, i + w.len()) == w
}

/// Every character of `w` is of class `k`.
pub open spec fn all_in(w: Seq<char>, k: CharClass) -> bool {
    forall|q: int| 0 <= q < w.len() ==> in_class(#[trigger] w[q], k)
}

proof fn lemma_at_char(s: Seq<char>, i: int, w: Seq<char>, q: int)
    requires
        at(s, i, w),
        0 <= q < w.len(),
    ensures
        s[i + q] == w[q],
{
    assert(s.subrange(i, i + w.len())[q] == w[q]);
}

/// A run of class `k` that fills `w` and stops after it.
proof fn lemma_span_at(s: Seq<char>, i: int, w: Seq<char>, k: CharClass)
    requires
        at(s, i, w),
        all_in(w, k),
        i + w.len() == s.len() || !in_class(s[i + w.len()], k),
    ensures
        span(s, i, k) == i + w.len(),
{
    assert forall|t: int| i <= t < i + w.len() implies in_class(#[trigger] s[t], k) by {
        lemma_at_char(s, i, w, t - i);
    }
    lemma_span_stop(s, i, i + w.len(), k);
}

proof fn lemma_digit_char(d: nat)
    requires
        d < 10,
    ensures
        is_digit(digit_char(d)),
        digit_value(digit_char(d)) == d,
{
    assert(((d + 48) as u8) as char as u32 == d + 48);
}

/// The decimal text of a number is one or more digits that write it.
pub proof fn lemma_dec(n: nat)
    ensures
        dec(n).len() > 0,
        all_in(dec(n), CharClass::Digit),
        dec_value(dec(n)) == n,
    decreases n,
{
    if n < 10 {
        lemma_digit_char(n);
        assert(dec(n).drop_last() =~= Seq::<char>::empty());
        assert(dec(n).last() == digit_char(n));
        assert(dec_value(Seq::<char>::empty()) == 0);
    } else {
        lemma_dec(n / 10);
        lemma_digit_char(n % 10);
        assert(dec(n).drop_last() =~= dec(n / 10));
        assert(dec(n).last() == digit_char(n % 10));
        assert((n / 10) * 10 + n % 10 == n);
    }
}

/// A number written in decimal reads as that number.
proof fn lemma_u32_at(s: Seq<char>, i: int, n: u32)
    requires
        at(s, i, dec(n as nat)),
        i + dec(n as nat).len() == s.len() || !is_digit(s[i + dec(n as nat).len()]),
    ensures
        p_u32(s, i) == Ok::<(u32, int), int>((n, i + dec(n as nat).len())),
{
    lemma_dec(n as nat);
    lemma_span_at(s, i, dec(n as nat), CharClass::Digit);
}

/// The decimal text of a number reads back as that number.
pub proof fn lemma_text_u32_dec(n: u32)
    ensures
        text_u32(dec(n as nat)) == Some(n),
{
    lemma_dec(n as nat);
    assert(is_digit(dec(n as nat)[0]));
}

/// A part of a text that stands in `s` stands there too.
proof fn lemma_at_sub(s: Seq<char>, i: int, w: Seq<char>, a: int, b: int)
    requires
        at(s, i, w),
        0 <= a <= b <= w.len(),
    ensures
        at(s, i + a, w.subrange(a, b)),
{
    assert forall|q: int| 0 <= q < b - a implies s.subrange(i + a, i + b)[q] == w.subrange(a, b)[q] by {
        lemma_at_char(s, i, w, a + q);
    }
    assert(s.subrange(i + a, i + b) =~= w.subrange(a, b));
}

/// One space, then something other than whitespace.
proof fn lemma_ws1_one(s: Seq<char>, i: int)
    requires
        0 <= i,
        i + 1 < s.len(),
        s[i] == ' ',
        !in_class(s[i + 1], CharClass::Space),
    ensures
        p_ws1(s, i) == Ok::<int, int>(i + 1),
        skip_ws(s, i) == i + 1,
{
    assert(span(s, i + 1, CharClass::Space) == i + 1);
}

/// What follows ` = ` on a tempo line.
pub open spec fn sync_tail(e: SyncTrackEvent) -> Seq<char> {
    match e {
        SyncTrackEvent::Bpm { value, .. } => seq!['B', ' '] + dec(value as nat),
        SyncTrackEvent::TimeSignature { value1, value2, .. } => match value2 {
            Some(v2) => seq!['T', 'S', ' '] + dec(value1 as nat) + seq![' '] + dec(v2 as nat),
            None => seq!['T', 'S', ' '] + dec(value1 as nat),
        },
        SyncTrackEvent::Anchor { value, .. } => seq!['A', ' '] + dec(value as nat),
    }
}

/// A tempo line without its indent and line feed.
pub open spec fn sync_body(e: SyncTrackEvent) -> Seq<char> {
    dec(e.spec_time() as nat) + " = "@ + sync_tail(e)
}

proof fn lemma_sync_text_shape(e: SyncTrackEvent)
    ensures
        sync_event_text(e) == "  "@ + sync_body(e) + "\n"@,
{
    lit_eq();
    lit_eq_b();
    lit_eq_ts();
    lit_eq_a();
    lit_sp();
    assert(sync_event_text(e) =~= "  "@ + sync_body(e) + "\n"@);
}

proof fn lemma_sync_op_at(s: Seq<char>, k: int, e: SyncTrackEvent)
    requires
        at(s, k, sync_tail(e) + seq!['\n']),
    ensures
        p_sync_op(s, k, e.spec_time()) == Ok::<(SyncTrackEvent, int), int>(
            (e, k + sync_tail(e).len()),
        ),
{
    lit_ts();
    let w = sync_tail(e) + seq!['\n'];
    let n = sync_tail(e).len() as int;
    lemma_at_char(s, k, w, n);
    match e {
        SyncTrackEvent::Bpm { value, .. } => {
            let d = dec(value as nat);
            lemma_dec(value as nat);
            lemma_at_char(s, k, w, 0);
            lemma_at_char(s, k, w, 1);
            lemma_at_char(s, k, w, 2);
            assert(s.subrange(k, k + 2)[0] != "TS"@[0]);
            lemma_ws1_one(s, k + 1);
            lemma_at_sub(s, k, w, 2, n);
            assert(w.subrange(2, n) =~= d);
            lemma_u32_at(s, k + 2, value);
        },
        SyncTrackEvent::Anchor { value, .. } => {
            let d = dec(value as nat);
            lemma_dec(value as nat);
            lemma_at_char(s, k, w, 0);
            lemma_at_char(s, k, w, 1);
            lemma_at_char(s, k, w, 2);
            assert(s.subrange(k, k + 2)[0] != "TS"@[0]);
            lemma_ws1_one(s, k + 1);
            lemma_at_sub(s, k, w, 2, n);
            assert(w.subrange(2, n) =~= d);
            lemma_u32_at(s, k + 2, value);
        },
        SyncTrackEvent::TimeSignature { value1, value2, .. } => {
            let d1 = dec(value1 as nat);
            lemma_dec(value1 as nat);
            lemma_at_sub(s, k, w, 0, 2);
            assert(w.subrange(0, 2) =~= "TS"@);
            lemma_at_char(s, k, w, 2);
            lemma_at_char(s, k, w, 3);
            lemma_ws1_one(s, k + 2);
            let e1 = 3 + d1.len() as int;
            lemma_at_sub(s, k, w, 3, e1);
            assert(w.subrange(3, e1) =~= d1);
            lemma_at_char(s, k, w, e1);
            match value2 {
                Some(v2) => {
                    let d2 = dec(v2 as nat);
                    lemma_dec(v2 as nat);
                    lemma_u32_at(s, k + 3, value1);
                    lemma_at_char(s, k, w, e1 + 1);
                    assert(span(s, k + e1 + 1, CharClass::Blank) == k + e1 + 1);
                    assert(span(s, k + e1, CharClass::Blank) == k + e1 + 1);
                    lemma_at_sub(s, k, w, e1 + 1, n);
                    assert(w.subrange(e1 + 1, n) =~= d2);
                    lemma_u32_at(s, k + e1 + 1, v2);
                },
                None => {
                    lemma_u32_at(s, k + 3, value1);
                    assert(span(s, k + e1, CharClass::Blank) == k + e1);
                },
            }
        },
    }
}

proof fn lemma_sync_event_at(s: Seq<char>, i: int, e: SyncTrackEvent)
    requires
        at(s, i, sync_body(e) + "\n"@),
    ensures
        p_sync_event(s, i) == Ok::<(SyncTrackEvent, int), int>((e, i + sync_body(e).len())),
{
    lit_eq();
    lit_nl();
    let d = dec(e.spec_time() as nat);
    let w = sync_body(e) + "\n"@;
    let dl = d.len() as int;
    lemma_dec(e.spec_time() as nat);
    lemma_at_sub(s, i, w, 0, d.len() as int);
    assert(w.subrange(0, d.len() as int) =~= d);
    lemma_at_char(s, i, w, d.len() as int);
    lemma_u32_at(s, i, e.spec_time());
    lemma_at_sub(s, i, w, dl, dl + 3);
    assert(w.subrange(dl, dl + 3) =~= " = "@);
    lemma_at_sub(s, i, w, dl + 3, w.len() as int);
    assert(w.subrange(dl + 3, w.len() as int) =~= sync_tail(e) + seq!['\n']);
    lemma_sync_op_at(s, i + dl + 3, e);
}

proof fn lemma_sync_lines_cons(e: SyncTrackEvent, rest: Seq<SyncTrackEvent>)
    ensures
        sync_lines(seq![e] + rest) == sync_event_text(e) + sync_lines(rest),
    decreases rest.len(),
{
    if rest.len() == 0 {
        assert((seq![e] + rest).drop_last() =~= Seq::<SyncTrackEvent>::empty());
        assert((seq![e] + rest).last() == e);
        assert(sync_lines(Seq::<SyncTrackEvent>::empty()) == Seq::<char>::empty());
        assert(rest =~= Seq::<SyncTrackEvent>::empty());
        assert(sync_lines(seq![e] + rest) =~= sync_event_text(e) + sync_lines(rest));
    } else {
        lemma_sync_lines_cons(e, rest.drop_last());
        assert((seq![e] + rest).drop_last() =~= seq![e] + rest.drop_last());
        assert((seq![e] + rest).last() == rest.last());
        assert(sync_lines(seq![e] + rest) =~= sync_event_text(e) + sync_lines(rest));
    }
}

/// The lines of a tempo section after a line feed, up to the closing brace.
proof fn lemma_sync_more_at(s: Seq<char>, k: int, evs: Seq<SyncTrackEvent>)
    requires
        at(s, k, "\n"@ + sync_lines(evs) + seq!['}']),
    ensures
        p_sync_more(s, k) == (evs, k + sync_lines(evs).len()),
        evs.len() > 0 ==> skip_ws(s, k) == k + 3 && p_sync_event(s, k + 3) == Ok::<
            (SyncTrackEvent, int),
            int,
        >((evs[0], k + 3 + sync_body(evs[0]).len())) && p_sync_more(
            s,
            k + 3 + sync_body(evs[0]).len(),
        ) == (evs.drop_first(), k + sync_lines(evs).len()),
    decreases evs.len(),
{
    lit_nl();
    lit_sp2();
    let w = "\n"@ + sync_lines(evs) + seq!['}'];
    if evs.len() == 0 {
        lemma_at_char(s, k, w, 0);
        lemma_at_char(s, k, w, 1);
        assert(span(s, k + 1, CharClass::Space) == k + 1);
        assert(span(s, k + 1, CharClass::Digit) == k + 1);
        assert(p_sync_event(s, k + 1) is Err);
    } else {
        let e = evs[0];
        let rest = evs.drop_first();
        assert(evs =~= seq![e] + rest);
        lemma_sync_lines_cons(e, rest);
        lemma_sync_text_shape(e);
        let b = sync_body(e);
        let bl = b.len() as int;
        assert(w =~= seq!['\n', ' ', ' '] + b + seq!['\n'] + ("\n"@ + sync_lines(rest) + seq!['}']).drop_first());
        lemma_at_sub(s, k, w, 3, 4 + bl);
        assert(w.subrange(3, 4 + bl) =~= b + "\n"@);
        lemma_sync_event_at(s, k + 3, e);
        lemma_dec(e.spec_time() as nat);
        lemma_at_char(s, k, w, 0);
        lemma_at_char(s, k, w, 1);
        lemma_at_char(s, k, w, 2);
        lemma_at_char(s, k, w, 3);
        assert(b[0] == dec(e.spec_time() as nat)[0]);
        assert(span(s, k + 3, CharClass::Space) == k + 3);
        assert(span(s, k + 2, CharClass::Space) == k + 3);
        assert(span(s, k + 1, CharClass::Space) == k + 3);
        lemma_at_sub(s, k, w, 3 + bl, w.len() as int);
        assert(w.subrange(3 + bl, w.len() as int) =~= "\n"@ + sync_lines(rest) + seq!['}']);
        lemma_sync_more_at(s, k + 3 + bl, rest);
    }
}

/// The text of a tempo section reads as its events.
proof fn lemma_sync_track_at(s: Seq<char>, i: int, evs: Seq<SyncTrackEvent>)
    requires
        evs.len() > 0,
        at(s, i, sync_track_text(evs)),
    ensures
        p_sync_track(s, i) == Ok::<(Seq<SyncTrackEvent>, int), int>(
            (evs, i + sync_track_text(evs).len() - 1),
        ),
{
    lit_sync_head();
    lit_sync();
    lit_close();
    lit_nl();
    let w = sync_track_text(evs);
    let n = sync_lines(evs).len() as int;
    lemma_at_sub(s, i, w, 0, 11);
    assert(w.subrange(0, 11) =~= "[SyncTrack]"@);
    lemma_at_char(s, i, w, 11);
    lemma_at_char(s, i, w, 12);
    assert(span(s, i + 12, CharClass::Space) == i + 12);
    lemma_at_sub(s, i, w, 13, 15 + n);
    assert(w.subrange(13, 15 + n) =~= "\n"@ + sync_lines(evs) + seq!['}']);
    lemma_sync_more_at(s, i + 13, evs);
    lemma_at_char(s, i, w, 13 + n);
    lemma_at_char(s, i, w, 14 + n);
    assert(span(s, i + 14 + n, CharClass::Space) == i + 14 + n);
    assert(evs =~= seq![evs[0]] + evs.drop_first());
}

/// A note-track event that its text reads back as.
pub open spec fn wf_track_event(e: TrackEventView) -> bool {
    match e {
        TrackEventView::Event { value, .. } => value.len() > 0 && all_in(value, CharClass::Alpha),
        _ => true,
    }
}

/// A note track that its text reads back as.
pub open spec fn wf_track(t: TrackView) -> bool {
    &&& t.name.len() > 0
    &&& all_in(t.name, CharClass::Alpha)
    &&& t.events.len() > 0
    &&& forall|q: int| 0 <= q < t.events.len() ==> wf_track_event(#[trigger] t.events[q])
}

/// What follows ` = ` on a note-track line.
pub open spec fn track_tail(e: TrackEventView) -> Seq<char> {
    match e {
        TrackEventView::Note { fret, sustain, .. } => seq!['N', ' '] + dec(fret as nat) + seq![' ']
            + dec(sustain as nat),
        TrackEventView::Special { kind, content, .. } => seq!['S', ' '] + dec(kind as nat) + seq![
            ' ',
        ] + dec(content as nat),
        TrackEventView::Event { value, .. } => seq!['E', ' '] + value,
    }
}

/// A note-track line without its indent and line feed.
pub open spec fn track_body(e: TrackEventView) -> Seq<char> {
    dec(e.time() as nat) + " = "@ + track_tail(e)
}

proof fn lemma_track_text_shape(e: TrackEventView)
    ensures
        track_event_text(e) == "  "@ + track_body(e) + "\n"@,
{
    lit_eq();
    lit_eq_n();
    lit_eq_s();
    lit_eq_e();
    lit_sp();
    assert(track_event_text(e) =~= "  "@ + track_body(e) + "\n"@);
}

proof fn lemma_u32_pair_at(s: Seq<char>, k: int, a: u32, b: u32)
    requires
        at(s, k, dec(a as nat) + seq![' '] + dec(b as nat) + seq!['\n']),
    ensures
        p_u32_pair(s, k) == Ok::<(u32, u32, int), int>(
            (a, b, k + dec(a as nat).len() + 1 + dec(b as nat).len()),
        ),
{
    let da = dec(a as nat);
    let db = dec(b as nat);
    let w = da + seq![' '] + db + seq!['\n'];
    let la = da.len() as int;
    let lb = db.len() as int;
    lemma_dec(a as nat);
    lemma_dec(b as nat);
    lemma_at_sub(s, k, w, 0, la);
    assert(w.subrange(0, la) =~= da);
    lemma_at_char(s, k, w, la);
    lemma_at_char(s, k, w, la + 1);
    lemma_u32_at(s, k, a);
    lemma_ws1_one(s, k + la);
    lemma_at_sub(s, k, w, la + 1, la + 1 + lb);
    assert(w.subrange(la + 1, la + 1 + lb) =~= db);
    lemma_at_char(s, k, w, la + 1 + lb);
    lemma_u32_at(s, k + la + 1, b);
}

proof fn lemma_track_op_at(s: Seq<char>, k: int, e: TrackEventView)
    requires
        wf_track_event(e),
        at(s, k, track_tail(e) + seq!['\n']),
    ensures
        p_track_op(s, k, e.time()) == Ok::<(TrackEventView, int), int>(
            (e, k + track_tail(e).len()),
        ),
{
    lit_n_();
    lit_e_();
    lit_s_();
    let w = track_tail(e) + seq!['\n'];
    let n = track_tail(e).len() as int;
    lemma_at_char(s, k, w, 0);
    lemma_at_char(s, k, w, 1);
    match e {
        TrackEventView::Note { fret, sustain, .. } => {
            lemma_at_sub(s, k, w, 0, 2);
            assert(w.subrange(0, 2) =~= "N "@);
            lemma_at_sub(s, k, w, 2, n + 1);
            assert(w.subrange(2, n + 1) =~= dec(fret as nat) + seq![' '] + dec(sustain as nat)
                + seq!['\n']);
            lemma_u32_pair_at(s, k + 2, fret, sustain);
        },
        TrackEventView::Special { kind, content, .. } => {
            assert(s.subrange(k, k + 2)[0] != "N "@[0]);
            assert(s.subrange(k, k + 2)[0] != "E "@[0]);
            lemma_at_sub(s, k, w, 0, 2);
            assert(w.subrange(0, 2) =~= "S "@);
            lemma_at_sub(s, k, w, 2, n + 1);
            assert(w.subrange(2, n + 1) =~= dec(kind as nat) + seq![' '] + dec(content as nat)
                + seq!['\n']);
            lemma_u32_pair_at(s, k + 2, kind, content);
        },
        TrackEventView::Event { value, .. } => {
            assert(s.subrange(k, k + 2)[0] != "N "@[0]);
            lemma_at_sub(s, k, w, 0, 2);
            assert(w.subrange(0, 2) =~= "E "@);
            lemma_at_sub(s, k, w, 2, n);
            assert(w.subrange(2, n) =~= value);
            lemma_at_char(s, k, w, n);
            lemma_span_at(s, k + 2, value, CharClass::Alpha);
            assert(s.subrange(k + 2, k + n) == value);
        },
    }
}

proof fn lemma_track_event_at(s: Seq<char>, i: int, e: TrackEventView)
    requires
        wf_track_event(e),
        at(s, i, track_body(e) + "\n"@),
    ensures
        p_track_event(s, i) == Ok::<(TrackEventView, int), int>((e, i + track_body(e).len())),
{
    lit_eq();
    lit_nl();
    let d = dec(e.time() as nat);
    let w = track_body(e) + "\n"@;
    let dl = d.len() as int;
    lemma_dec(e.time() as nat);
    lemma_at_sub(s, i, w, 0, dl);
    assert(w.subrange(0, dl) =~= d);
    lemma_at_char(s, i, w, dl);
    lemma_u32_at(s, i, e.time());
    lemma_at_sub(s, i, w, dl, dl + 3);
    assert(w.subrange(dl, dl + 3) =~= " = "@);
    lemma_at_sub(s, i, w, dl + 3, w.len() as int);
    assert(w.subrange(dl + 3, w.len() as int) =~= track_tail(e) + seq!['\n']);
    lemma_track_op_at(s, i + dl + 3, e);
}

proof fn lemma_track_lines_cons(e: TrackEventView, rest: Seq<TrackEventView>)
    ensures
        track_lines(seq![e] + rest) == track_event_text(e) + track_lines(rest),
    decreases rest.len(),
{
    if rest.len() == 0 {
        assert((seq![e] + rest).drop_last() =~= Seq::<TrackEventView>::empty());
        assert((seq![e] + rest).last() == e);
        assert(track_lines(Seq::<TrackEventView>::empty()) == Seq::<char>::empty());
        assert(rest =~= Seq::<TrackEventView>::empty());
        assert(track_lines(seq![e] + rest) =~= track_event_text(e) + track_lines(rest));
    } else {
        lemma_track_lines_cons(e, rest.drop_last());
        assert((seq![e] + rest).drop_last() =~= seq![e] + rest.drop_last());
        assert((seq![e] + rest).last() == rest.last());
        assert(track_lines(seq![e] + rest) =~= track_event_text(e) + track_lines(rest));
    }
}

/// The lines of a note track after a line feed, up to the closing brace.
proof fn lemma_track_more_at(s: Seq<char>, k: int, evs: Seq<TrackEventView>)
    requires
        at(s, k, "\n"@ + track_lines(evs) + seq!['}']),
        forall|q: int| 0 <= q < evs.len() ==> wf_track_event(#[trigger] evs[q]),
    ensures
        p_track_events_more(s, k) == (evs, k + track_lines(evs).len()),
        evs.len() > 0 ==> skip_ws(s, k) == k + 3 && p_track_event(s, k + 3) == Ok::<
            (TrackEventView, int),
            int,
        >((evs[0], k + 3 + track_body(evs[0]).len())) && p_track_events_more(
            s,
            k + 3 + track_body(evs[0]).len(),
        ) == (evs.drop_first(), k + track_lines(evs).len()),
    decreases evs.len(),
{
    lit_nl();
    lit_sp2();
    let w = "\n"@ + track_lines(evs) + seq!['}'];
    if evs.len() == 0 {
        lemma_at_char(s, k, w, 0);
        lemma_at_char(s, k, w, 1);
        assert(span(s, k + 1, CharClass::Space) == k + 1);
        assert(span(s, k + 1, CharClass::Digit) == k + 1);
        assert(p_track_event(s, k + 1) is Err);
    } else {
        let e = evs[0];
        let rest = evs.drop_first();
        assert(evs =~= seq![e] + rest);
        assert(wf_track_event(e));
        lemma_track_lines_cons(e, rest);
        lemma_track_text_shape(e);
        let b = track_body(e);
        let bl = b.len() as int;
        assert(w =~= seq!['\n', ' ', ' '] + b + seq!['\n'] + ("\n"@ + track_lines(rest) + seq!['}']).drop_first());
        lemma_at_sub(s, k, w, 3, 4 + bl);
        assert(w.subrange(3, 4 + bl) =~= b + "\n"@);
        lemma_track_event_at(s, k + 3, e);
        lemma_dec(e.time() as nat);
        lemma_at_char(s, k, w, 0);
        lemma_at_char(s, k, w, 1);
        lemma_at_char(s, k, w, 2);
        lemma_at_char(s, k, w, 3);
        assert(b[0] == dec(e.time() as nat)[0]);
        assert(span(s, k + 3, CharClass::Space) == k + 3);
        assert(span(s, k + 2, CharClass::Space) == k + 3);
        assert(span(s, k + 1, CharClass::Space) == k + 3);
        lemma_at_sub(s, k, w, 3 + bl, w.len() as int);
        assert(w.subrange(3 + bl, w.len() as int) =~= "\n"@ + track_lines(rest) + seq!['}']);
        assert forall|q: int| 0 <= q < rest.len() implies wf_track_event(#[trigger] rest[q]) by {
            assert(rest[q] == evs[q + 1]);
        }
        lemma_track_more_at(s, k + 3 + bl, rest);
    }
}

/// The text of a note track reads as that track.
#[verifier::rlimit(40)]
proof fn lemma_track_at(s: Seq<char>, i: int, t: TrackView)
    requires
        wf_track(t),
        at(s, i, track_text(t)),
    ensures
        p_track(s, i) == Ok::<(TrackView, int), int>((t, i + track_text(t).len() - 1)),
{
    lit_open();
    lit_track_head();
    lit_close();
    lit_nl();
    let w = track_text(t);
    let nl = t.name.len() as int;
    let n = track_lines(t.events).len() as int;
    assert(w =~= seq!['['] + t.name + seq![']', '\n', '{'] + ("\n"@ + track_lines(t.events)
        + seq!['}']) + seq!['\n']);
    lemma_at_char(s, i, w, 0);
    assert(span(s, i, CharClass::Space) == i);
    lemma_at_sub(s, i, w, 1, 1 + nl);
    assert(w.subrange(1, 1 + nl) =~= t.name);
    lemma_at_char(s, i, w, 1 + nl);
    lemma_span_at(s, i + 1, t.name, CharClass::Alpha);
    lemma_at_char(s, i, w, 2 + nl);
    lemma_at_char(s, i, w, 3 + nl);
    assert(span(s, i + 3 + nl, CharClass::Space) == i + 3 + nl);
    lemma_at_sub(s, i, w, 4 + nl, 6 + nl + n);
    assert(w.subrange(4 + nl, 6 + nl + n) =~= "\n"@ + track_lines(t.events) + seq!['}']);
    lemma_track_more_at(s, i + 4 + nl, t.events);
    lemma_at_char(s, i, w, 5 + nl + n);
    lemma_at_char(s, i, w, 4 + nl + n);
    assert(span(s, i + 5 + nl + n, CharClass::Space) == i + 5 + nl + n);
    assert(t.events =~= seq![t.events[0]] + t.events.drop_first());
    assert(s.subrange(i + 1, i + 1 + nl) == t.name);
}

proof fn lemma_tracks_text_cons(t: TrackView, rest: Seq<TrackView>)
    ensures
        tracks_text(seq![t] + rest) == track_text(t) + tracks_text(rest),
    decreases rest.len(),
{
    if rest.len() == 0 {
        assert((seq![t] + rest).drop_last() =~= Seq::<TrackView>::empty());
        assert((seq![t] + rest).last() == t);
        assert(tracks_text(Seq::<TrackView>::empty()) == Seq::<char>::empty());
        assert(rest =~= Seq::<TrackView>::empty());
        assert(tracks_text(seq![t] + rest) =~= track_text(t) + tracks_text(rest));
    } else {
        lemma_tracks_text_cons(t, rest.drop_last());
        assert((seq![t] + rest).drop_last() =~= seq![t] + rest.drop_last());
        assert((seq![t] + rest).last() == rest.last());
        assert(tracks_text(seq![t] + rest) =~= track_text(t) + tracks_text(rest));
    }
}

/// The tracks after the line feed that ends a track, up to the end of the text.
#[verifier::rlimit(100)]
proof fn lemma_tracks_more_at(s: Seq<char>, g: int, ts: Seq<TrackView>)
    requires
        at(s, g, "\n"@ + tracks_text(ts)),
        g + 1 + tracks_text(ts).len() == s.len(),
        forall|q: int| 0 <= q < ts.len() ==> wf_track(#[trigger] ts[q]),
    ensures
        p_tracks_more(s, g) == (ts, g + tracks_text(ts).len()),
    decreases ts.len(),
{
    lit_nl();
    let w = "\n"@ + tracks_text(ts);
    lemma_at_char(s, g, w, 0);
    if ts.len() == 0 {
        assert(span(s, g + 1, CharClass::Space) == g + 1);
        assert(span(s, g, CharClass::Space) == g + 1);
        assert(p_track(s, g + 1) is Err);
    } else {
        let t = ts[0];
        let rest = ts.drop_first();
        assert(ts =~= seq![t] + rest);
        assert(wf_track(t));
        lemma_tracks_text_cons(t, rest);
        let tl = track_text(t).len() as int;
        lemma_at_sub(s, g, w, 1, 1 + tl);
        assert(w.subrange(1, 1 + tl) =~= track_text(t));
        lemma_track_at(s, g + 1, t);
        lemma_at_char(s, g, w, 1);
        lit_open();
        assert(track_text(t)[0] == '[');
        assert(span(s, g + 1, CharClass::Space) == g + 1);
        assert(span(s, g, CharClass::Space) == g + 1);
        lemma_at_sub(s, g, w, tl, w.len() as int);
        assert(w.subrange(tl, w.len() as int) =~= "\n"@ + tracks_text(rest)) by {
            lit_close();
            assert(track_text(t)[tl - 1] == '\n');
        }
        assert forall|q: int| 0 <= q < rest.len() implies wf_track(#[trigger] rest[q]) by {
            assert(rest[q] == ts[q + 1]);
        }
        lemma_tracks_more_at(s, g + tl, rest);
    }
}

/// A narrative event that its text reads back as.
pub open spec fn wf_global_event(e: GlobalEventView) -> bool {
    match e {
        GlobalEventView::Section { name, .. } => all_in(name, CharClass::QuoteText),
        GlobalEventView::Lyric { text, .. } => all_in(text, CharClass::QuoteText),
        GlobalEventView::Other { value, .. } => {
            &&& all_in(value, CharClass::QuoteText)
            &&& value != "phrase_start"@
            &&& value != "phrase_end"@
            &&& !has_prefix(value, "section "@)
            &&& !has_prefix(value, "lyric "@)
        },
        _ => true,
    }
}

/// A narrative line without its indent and line feed.
pub open spec fn global_event_body(e: GlobalEventView) -> Seq<char> {
    dec(e.time() as nat) + " = E \""@ + payload_text(e) + seq!['"']
}

proof fn lemma_global_event_text_shape(e: GlobalEventView)
    ensures
        global_event_text(e) == "  "@ + global_event_body(e) + "\n"@,
{
    lit_q_nl();
    lit_nl();
    assert(global_event_text(e) =~= "  "@ + global_event_body(e) + "\n"@);
}

proof fn lemma_payload(e: GlobalEventView)
    requires
        wf_global_event(e),
    ensures
        payload_event(e.time(), payload_text(e)) == e,
        all_in(payload_text(e), CharClass::QuoteText),
{
    lit_ph_start();
    lit_ph_end();
    lit_section();
    lit_lyric();
    let p = payload_text(e);
    match e {
        GlobalEventView::PhraseStart { .. } => {},
        GlobalEventView::PhraseEnd { .. } => {
            assert(p.len() != "phrase_start"@.len());
        },
        GlobalEventView::Section { name, .. } => {
            assert(p[0] == 's');
            assert(p != "phrase_start"@);
            assert(p != "phrase_end"@);
            assert(p.subrange(0, 8) =~= "section "@);
            assert(p.subrange(8, p.len() as int) =~= name);
            assert forall|q: int| 0 <= q < p.len() implies in_class(#[trigger] p[q], CharClass::QuoteText) by {
                if q >= 8 {
                    assert(p[q] == name[q - 8]);
                }
            }
        },
        GlobalEventView::Lyric { text, .. } => {
            assert(p[0] == 'l');
            assert(p != "phrase_start"@);
            assert(p != "phrase_end"@);
            assert(!has_prefix(p, "section "@)) by {
                if has_prefix(p, "section "@) {
                    assert(p.subrange(0, 8)[0] == 's');
                }
            }
            assert(p.subrange(0, 6) =~= "lyric "@);
            assert(p.subrange(6, p.len() as int) =~= text);
            assert forall|q: int| 0 <= q < p.len() implies in_class(#[trigger] p[q], CharClass::QuoteText) by {
                if q >= 6 {
                    assert(p[q] == text[q - 6]);
                }
            }
        },
        GlobalEventView::Other { .. } => {},
    }
}

proof fn lemma_global_event_at(s: Seq<char>, i: int, e: GlobalEventView)
    requires
        wf_global_event(e),
        at(s, i, global_event_body(e)),
    ensures
        p_global_event(s, i) == Ok::<(GlobalEventView, int), int>(
            (e, i + global_event_body(e).len()),
        ),
{
    lit_eq_e_q();
    let d = dec(e.time() as nat);
    let p = payload_text(e);
    let w = global_event_body(e);
    let dl = d.len() as int;
    let pl = p.len() as int;
    lemma_dec(e.time() as nat);
    lemma_payload(e);
    lemma_at_sub(s, i, w, 0, dl);
    assert(w.subrange(0, dl) =~= d);
    lemma_at_char(s, i, w, dl);
    lemma_u32_at(s, i, e.time());
    lemma_at_sub(s, i, w, dl, dl + 6);
    assert(w.subrange(dl, dl + 6) =~= " = E \""@);
    lemma_at_sub(s, i, w, dl + 6, dl + 6 + pl);
    assert(w.subrange(dl + 6, dl + 6 + pl) =~= p);
    lemma_at_char(s, i, w, dl + 6 + pl);
    lemma_span_at(s, i + dl + 6, p, CharClass::QuoteText);
    assert(s.subrange(i + dl + 6, i + dl + 6 + pl) == p);
}

proof fn lemma_event_lines_cons(e: GlobalEventView, rest: Seq<GlobalEventView>)
    ensures
        event_lines(seq![e] + rest) == global_event_text(e) + event_lines(rest),
    decreases rest.len(),
{
    if rest.len() == 0 {
        assert((seq![e] + rest).drop_last() =~= Seq::<GlobalEventView>::empty());
        assert((seq![e] + rest).last() == e);
        assert(event_lines(Seq::<GlobalEventView>::empty()) == Seq::<char>::empty());
        assert(rest =~= Seq::<GlobalEventView>::empty());
        assert(event_lines(seq![e] + rest) =~= global_event_text(e) + event_lines(rest));
    } else {
        lemma_event_lines_cons(e, rest.drop_last());
        assert((seq![e] + rest).drop_last() =~= seq![e] + rest.drop_last());
        assert((seq![e] + rest).last() == rest.last());
        assert(event_lines(seq![e] + rest) =~= global_event_text(e) + event_lines(rest));
    }
}

/// The lines of a narrative section after a line feed, up to the closing
/// brace.
proof fn lemma_events_more_at(s: Seq<char>, k: int, evs: Seq<GlobalEventView>)
    requires
        at(s, k, "\n"@ + event_lines(evs) + seq!['}']),
        forall|q: int| 0 <= q < evs.len() ==> wf_global_event(#[trigger] evs[q]),
    ensures
        skip_ws(s, k) == k + 1 + (if evs.len() > 0 {
            2int
        } else {
            0int
        }),
        p_events_more(s, skip_ws(s, k)) == (evs, k + event_lines(evs).len() + 1),
        evs.len() > 0 ==> p_global_event(s, k + 3) == Ok::<(GlobalEventView, int), int>(
            (evs[0], k + 3 + global_event_body(evs[0]).len()),
        ) && p_events_more(s, skip_ws(s, k + 3 + global_event_body(evs[0]).len())) == (
            evs.drop_first(),
            k + event_lines(evs).len() + 1,
        ),
    decreases evs.len(),
{
    lit_nl();
    lit_sp2();
    let w = "\n"@ + event_lines(evs) + seq!['}'];
    if evs.len() == 0 {
        lemma_at_char(s, k, w, 0);
        lemma_at_char(s, k, w, 1);
        assert(span(s, k + 1, CharClass::Space) == k + 1);
        assert(span(s, k + 1, CharClass::Digit) == k + 1);
        assert(p_global_event(s, k + 1) is Err);
    } else {
        let e = evs[0];
        let rest = evs.drop_first();
        assert(evs =~= seq![e] + rest);
        assert(wf_global_event(e));
        lemma_event_lines_cons(e, rest);
        lemma_global_event_text_shape(e);
        let b = global_event_body(e);
        let bl = b.len() as int;
        assert(w =~= seq!['\n', ' ', ' '] + b + seq!['\n'] + ("\n"@ + event_lines(rest) + seq!['}']).drop_first());
        lemma_at_sub(s, k, w, 3, 3 + bl);
        assert(w.subrange(3, 3 + bl) =~= b);
        lemma_global_event_at(s, k + 3, e);
        lemma_dec(e.time() as nat);
        lemma_at_char(s, k, w, 0);
        lemma_at_char(s, k, w, 1);
        lemma_at_char(s, k, w, 2);
        lemma_at_char(s, k, w, 3);
        assert(b[0] == dec(e.time() as nat)[0]);
        assert(span(s, k + 3, CharClass::Space) == k + 3);
        assert(span(s, k + 2, CharClass::Space) == k + 3);
        assert(span(s, k + 1, CharClass::Space) == k + 3);
        lemma_at_sub(s, k, w, 3 + bl, w.len() as int);
        assert(w.subrange(3 + bl, w.len() as int) =~= "\n"@ + event_lines(rest) + seq!['}']);
        assert forall|q: int| 0 <= q < rest.len() implies wf_global_event(#[trigger] rest[q]) by {
            assert(rest[q] == evs[q + 1]);
        }
        lemma_events_more_at(s, k + 3 + bl, rest);
    }
}

/// The text of a narrative section reads as its events.
proof fn lemma_events_at(s: Seq<char>, i: int, evs: Seq<GlobalEventView>)
    requires
        evs.len() > 0,
        forall|q: int| 0 <= q < evs.len() ==> wf_global_event(#[trigger] evs[q]),
        at(s, i, events_text(evs)),
    ensures
        p_events(s, i) == Ok::<(Seq<GlobalEventView>, int), int>(
            (evs, i + events_text(evs).len() - 1),
        ),
{
    lit_events_head();
    lit_events();
    lit_close();
    lit_nl();
    let w = events_text(evs);
    let n = event_lines(evs).len() as int;
    lemma_at_char(s, i, w, 0);
    assert(span(s, i, CharClass::Space) == i);
    lemma_at_sub(s, i, w, 0, 8);
    assert(w.subrange(0, 8) =~= "[Events]"@);
    lemma_at_char(s, i, w, 8);
    lemma_at_char(s, i, w, 9);
    assert(span(s, i + 9, CharClass::Space) == i + 9);
    lemma_at_sub(s, i, w, 10, 12 + n);
    assert(w.subrange(10, 12 + n) =~= "\n"@ + event_lines(evs) + seq!['}']);
    lemma_events_more_at(s, i + 10, evs);
    lemma_at_char(s, i, w, 11 + n);
    assert(evs =~= seq![evs[0]] + evs.drop_first());
}

/// A property that its text reads back as.
pub open spec fn wf_property(p: PropertyView) -> bool {
    &&& p.name.len() > 0
    &&& all_in(p.name, CharClass::AlphaNum)
    &&& all_in(p.value, CharClass::LineText)
}

/// A property line without its indent and line feed.
pub open spec fn property_body(p: PropertyView) -> Seq<char> {
    p.name + " = "@ + p.value
}

proof fn lemma_property_at(s: Seq<char>, i: int, p: PropertyView)
    requires
        wf_property(p),
        at(s, i, property_body(p) + "\n"@),
    ensures
        p_property(s, i) == Ok::<(PropertyView, int), int>((p, i + property_body(p).len())),
{
    lit_eq();
    lit_nl();
    let w = property_body(p) + "\n"@;
    let nl = p.name.len() as int;
    let vl = p.value.len() as int;
    lemma_at_sub(s, i, w, 0, nl);
    assert(w.subrange(0, nl) =~= p.name);
    lemma_at_char(s, i, w, nl);
    lemma_span_at(s, i, p.name, CharClass::AlphaNum);
    lemma_at_sub(s, i, w, nl, nl + 3);
    assert(w.subrange(nl, nl + 3) =~= " = "@);
    lemma_at_sub(s, i, w, nl + 3, nl + 3 + vl);
    assert(w.subrange(nl + 3, nl + 3 + vl) =~= p.value);
    lemma_at_char(s, i, w, nl + 3 + vl);
    lemma_span_at(s, i + nl + 3, p.value, CharClass::LineText);
    assert(s.subrange(i, i + nl) == p.name);
    assert(s.subrange(i + nl + 3, i + nl + 3 + vl) == p.value);
}

proof fn lemma_property_lines_cons(p: PropertyView, rest: Seq<PropertyView>)
    ensures
        property_lines(seq![p] + rest) == property_text(p) + property_lines(rest),
    decreases rest.len(),
{
    if rest.len() == 0 {
        assert((seq![p] + rest).drop_last() =~= Seq::<PropertyView>::empty());
        assert((seq![p] + rest).last() == p);
        assert(property_lines(Seq::<PropertyView>::empty()) == Seq::<char>::empty());
        assert(rest =~= Seq::<PropertyView>::empty());
        assert(property_lines(seq![p] + rest) =~= property_text(p) + property_lines(rest));
    } else {
        lemma_property_lines_cons(p, rest.drop_last());
        assert((seq![p] + rest).drop_last() =~= seq![p] + rest.drop_last());
        assert((seq![p] + rest).last() == rest.last());
        assert(property_lines(seq![p] + rest) =~= property_text(p) + property_lines(rest));
    }
}

/// The lines of a metadata section after a line feed, up to the closing
/// brace.
proof fn lemma_properties_more_at(s: Seq<char>, k: int, ps: Seq<PropertyView>)
    requires
        at(s, k, "\n"@ + property_lines(ps) + seq!['}']),
        forall|q: int| 0 <= q < ps.len() ==> wf_property(#[trigger] ps[q]),
    ensures
        skip_ws(s, k) == k + 1 + (if ps.len() > 0 {
            2int
        } else {
            0int
        }),
        p_properties_more(s, skip_ws(s, k)) == (ps, k + property_lines(ps).len() + 1),
        ps.len() > 0 ==> p_property(s, k + 3) == Ok::<(PropertyView, int), int>(
            (ps[0], k + 3 + property_body(ps[0]).len()),
        ) && p_properties_more(s, skip_ws(s, k + 3 + property_body(ps[0]).len())) == (
            ps.drop_first(),
            k + property_lines(ps).len() + 1,
        ),
    decreases ps.len(),
{
    lit_nl();
    lit_sp2();
    lit_eq();
    let w = "\n"@ + property_lines(ps) + seq!['}'];
    if ps.len() == 0 {
        lemma_at_char(s, k, w, 0);
        lemma_at_char(s, k, w, 1);
        assert(span(s, k + 1, CharClass::Space) == k + 1);
        assert(span(s, k + 1, CharClass::AlphaNum) == k + 1);
        assert(p_property(s, k + 1) is Err);
    } else {
        let p = ps[0];
        let rest = ps.drop_first();
        assert(ps =~= seq![p] + rest);
        assert(wf_property(p));
        lemma_property_lines_cons(p, rest);
        let b = property_body(p);
        let bl = b.len() as int;
        assert(property_text(p) =~= "  "@ + b + "\n"@);
        assert(w =~= seq!['\n', ' ', ' '] + b + seq!['\n'] + ("\n"@ + property_lines(rest) + seq!['}']).drop_first());
        lemma_at_sub(s, k, w, 3, 4 + bl);
        assert(w.subrange(3, 4 + bl) =~= b + "\n"@);
        lemma_property_at(s, k + 3, p);
        lemma_at_char(s, k, w, 0);
        lemma_at_char(s, k, w, 1);
        lemma_at_char(s, k, w, 2);
        lemma_at_char(s, k, w, 3);
        assert(b[0] == p.name[0]);
        assert(span(s, k + 3, CharClass::Space) == k + 3);
        assert(span(s, k + 2, CharClass::Space) == k + 3);
        assert(span(s, k + 1, CharClass::Space) == k + 3);
        lemma_at_sub(s, k, w, 3 + bl, w.len() as int);
        assert(w.subrange(3 + bl, w.len() as int) =~= "\n"@ + property_lines(rest) + seq!['}']);
        assert forall|q: int| 0 <= q < rest.len() implies wf_property(#[trigger] rest[q]) by {
            assert(rest[q] == ps[q + 1]);
        }
        lemma_properties_more_at(s, k + 3 + bl, rest);
    }
}

/// Metadata that its text reads back as: no property but the resolution is
/// named `Resolution`.
pub open spec fn wf_song(song: SongView) -> bool {
    forall|q: int|
        0 <= q < song.properties.len() ==> wf_property(#[trigger] song.properties[q])
            && song.properties[q].name != resolution_name()
}

pub open spec fn resolution_property(r: u32) -> PropertyView {
    PropertyView { name: resolution_name(), value: dec(r as nat) }
}

proof fn lemma_others_keep_all(ps: Seq<PropertyView>)
    requires
        forall|q: int| 0 <= q < ps.len() ==> (#[trigger] ps[q]).name != resolution_name(),
    ensures
        other_properties(ps) == ps,
    decreases ps.len(),
{
    reveal(Seq::filter);
    if ps.len() > 0 {
        lemma_others_keep_all(ps.drop_last());
        assert(ps.last() == ps[ps.len() - 1]);
        assert(ps.drop_last().push(ps.last()) =~= ps);
    }
}

proof fn lemma_others_drop_first(x: PropertyView, ps: Seq<PropertyView>)
    requires
        x.name == resolution_name(),
    ensures
        other_properties(seq![x] + ps) == other_properties(ps),
    decreases ps.len(),
{
    reveal(Seq::filter);
    if ps.len() == 0 {
        assert((seq![x] + ps).drop_last() =~= Seq::<PropertyView>::empty());
        assert(seq![x] + ps =~= seq![x]);
        assert(other_properties(Seq::<PropertyView>::empty()) == Seq::<PropertyView>::empty());
    } else {
        lemma_others_drop_first(x, ps.drop_last());
        assert((seq![x] + ps).drop_last() =~= seq![x] + ps.drop_last());
        assert((seq![x] + ps).last() == ps.last());
    }
}

/// The text of a metadata section reads as that section.
#[verifier::rlimit(100)]
proof fn lemma_song_at(s: Seq<char>, i: int, song: SongView)
    requires
        wf_song(song),
        at(s, i, song_text(song)),
    ensures
        p_song_section(s, i) == Ok::<(SongView, int), ParseError>(
            (song, i + song_text(song).len() - 1),
        ),
{
    lit_song_head();
    lit_song();
    lit_res_line();
    lit_res();
    lit_close();
    lit_nl();
    lit_sp2();
    lit_eq();
    let r = song.resolution;
    let rp = resolution_property(r);
    let ps = song.properties;
    let all = seq![rp] + ps;
    lemma_property_lines_cons(rp, ps);
    lemma_dec(r as nat);
    assert(property_text(rp) =~= "  Resolution = "@ + dec(r as nat) + "\n"@);
    let w = song_text(song);
    assert(w =~= "[Song]\n{\n"@ + property_lines(all) + "}\n"@);
    let n = property_lines(all).len() as int;
    assert forall|q: int| 0 <= q < all.len() implies wf_property(#[trigger] all[q]) by {
        if q > 0 {
            assert(all[q] == ps[q - 1]);
        } else {
            assert(all[q] == rp);
            assert forall|t: int| 0 <= t < rp.value.len() implies in_class(
                #[trigger] rp.value[t],
                CharClass::LineText,
            ) by {
                assert(in_class(rp.value[t], CharClass::Digit));
            }
        }
    }
    lemma_at_char(s, i, w, 0);
    assert(span(s, i, CharClass::Space) == i);
    lemma_at_sub(s, i, w, 0, 6);
    assert(w.subrange(0, 6) =~= "[Song]"@);
    lemma_at_char(s, i, w, 6);
    lemma_at_char(s, i, w, 7);
    assert(span(s, i + 7, CharClass::Space) == i + 7);
    lemma_at_sub(s, i, w, 8, 10 + n);
    assert(w.subrange(8, 10 + n) =~= "\n"@ + property_lines(all) + seq!['}']);
    lemma_properties_more_at(s, i + 8, all);
    lemma_at_char(s, i, w, 9 + n);
    assert(all =~= seq![all[0]] + all.drop_first());
    assert(all.drop_first() =~= ps);
    assert(p_song(s, i) == Ok::<(Seq<PropertyView>, int), int>((all, i + 10 + n)));
    lemma_text_u32_dec(r);
    lemma_others_drop_first(rp, ps);
    lemma_others_keep_all(ps);
}

/// A chart that its text reads back as.
pub open spec fn wf_chart(c: ChartView) -> bool {
    &&& wf_song(c.song)
    &&& c.sync_track.len() > 0
    &&& c.events.len() > 0
    &&& forall|q: int| 0 <= q < c.events.len() ==> wf_global_event(#[trigger] c.events[q])
    &&& c.tracks.len() > 0
    &&& forall|q: int| 0 <= q < c.tracks.len() ==> wf_track(#[trigger] c.tracks[q])
}

/// Four texts one after the other.
proof fn lemma_at_four(s: Seq<char>, a: Seq<char>, b: Seq<char>, e: Seq<char>, t: Seq<char>)
    requires
        s == a + b + e + t,
    ensures
        at(s, 0, a),
        at(s, a.len() as int, b),
        at(s, (a.len() + b.len()) as int, e),
        at(s, (a.len() + b.len() + e.len()) as int, t),
{
    let la = a.len() as int;
    let lb = b.len() as int;
    let le = e.len() as int;
    assert(s.subrange(0, la) =~= a);
    assert(s.subrange(la, la + lb) =~= b);
    assert(s.subrange(la + lb, la + lb + le) =~= e);
    assert(s.subrange(la + lb + le, s.len() as int) =~= t);
}

/// Each section's text opens with `[` and ends with a line feed.
proof fn lemma_section_edges(c: ChartView)
    requires
        c.tracks.len() > 0,
    ensures
        song_text(c.song)[0] == '[',
        song_text(c.song).last() == '\n',
        sync_track_text(c.sync_track)[0] == '[',
        sync_track_text(c.sync_track).last() == '\n',
        events_text(c.events)[0] == '[',
        events_text(c.events).last() == '\n',
        tracks_text(c.tracks).len() > 0,
        tracks_text(c.tracks)[0] == '[',
        tracks_text(c.tracks).last() == '\n',
{
    lit_close();
    lit_song_head();
    lit_sync_head();
    lit_events_head();
    lit_open();
    let t0 = c.tracks[0];
    let rest = c.tracks.drop_first();
    assert(c.tracks =~= seq![t0] + rest);
    lemma_tracks_text_cons(t0, rest);
    let tl = c.tracks.last();
    assert(tracks_text(c.tracks) == tracks_text(c.tracks.drop_last()) + track_text(tl));
}

/// The text of one or more note tracks, at the end of `s`, reads as them.
#[verifier::rlimit(60)]
proof fn lemma_tracks_at(s: Seq<char>, x: int, ts: Seq<TrackView>)
    requires
        ts.len() > 0,
        forall|q: int| 0 <= q < ts.len() ==> wf_track(#[trigger] ts[q]),
        at(s, x, tracks_text(ts)),
        x + tracks_text(ts).len() == s.len(),
    ensures
        p_tracks(s, x) == Ok::<(Seq<TrackView>, int), int>((ts, s.len() - 1)),
{
    lit_nl();
    lit_close();
    let t = tracks_text(ts);
    let lt = t.len() as int;
    let t0 = ts[0];
    let rest = ts.drop_first();
    assert(ts =~= seq![t0] + rest);
    lemma_tracks_text_cons(t0, rest);
    let l0 = track_text(t0).len() as int;
    lemma_at_sub(s, x, t, 0, l0);
    assert(t.subrange(0, l0) =~= track_text(t0));
    assert(wf_track(t0));
    lemma_track_at(s, x, t0);
    lemma_at_sub(s, x, t, l0 - 1, lt);
    assert(t.subrange(l0 - 1, lt) =~= "\n"@ + tracks_text(rest)) by {
        assert(track_text(t0)[l0 - 1] == '\n');
    }
    assert forall|q: int| 0 <= q < rest.len() implies wf_track(#[trigger] rest[q]) by {
        assert(rest[q] == ts[q + 1]);
    }
    lemma_tracks_more_at(s, x + l0 - 1, rest);
}

/// The text of a well-formed chart reads as that chart.
#[verifier::rlimit(100)]
pub proof fn lemma_chart_text_parses(c: ChartView)
    requires
        wf_chart(c),
    ensures
        parse_chart(chart_text(c)) == Ok::<ChartView, ParseError>(c),
{
    let a = song_text(c.song);
    let b = sync_track_text(c.sync_track);
    let e = events_text(c.events);
    let t = tracks_text(c.tracks);
    let s = chart_text(c);
    let la = a.len() as int;
    let lb = b.len() as int;
    let le = e.len() as int;
    let x = la + lb + le;
    lemma_at_four(s, a, b, e, t);
    lemma_section_edges(c);
    lemma_at_char(s, 0, a, 0);
    assert(span(s, 0, CharClass::NotBracket) == 0);
    lemma_song_at(s, 0, c.song);
    lemma_at_char(s, 0, a, la - 1);
    lemma_at_char(s, la, b, 0);
    assert(span(s, la, CharClass::Space) == la);
    assert(span(s, la - 1, CharClass::Space) == la);
    lemma_sync_track_at(s, la, c.sync_track);
    lemma_at_char(s, la, b, lb - 1);
    lemma_at_char(s, la + lb, e, 0);
    assert(span(s, la + lb, CharClass::Space) == la + lb);
    assert(span(s, la + lb - 1, CharClass::Space) == la + lb);
    lemma_events_at(s, la + lb, c.events);
    lemma_at_char(s, la + lb, e, le - 1);
    lemma_at_char(s, x, t, 0);
    assert(span(s, x, CharClass::Space) == x);
    assert(span(s, x - 1, CharClass::Space) == x);
    lemma_tracks_at(s, x, c.tracks);
    lemma_at_char(s, x, t, t.len() - 1);
    assert(span(s, s.len() as int, CharClass::Space) == s.len());
    assert(span(s, s.len() - 1, CharClass::Space) == s.len());
}
proof fn lemma_span_facts(s: Seq<char>, i: int, k: CharClass)
    ensures
        span(s, i, k) >= i,
        !(0 <= i < s.len()) ==> span(s, i, k) == i,
        0 <= i <= s.len() ==> span(s, i, k) <= s.len(),
        0 <= i <= s.len() ==> forall|t: int| i <= t < span(s, i, k) ==> in_class(#[trigger] s[t], k),
{
    if 0 <= i <= s.len() {
        lemma_span_bounds(s, i, k);
    }
}

/// The characters `s[i..j]` are all of class `k`.
proof fn lemma_run_all_in(s: Seq<char>, i: int, j: int, k: CharClass)
    requires
        0 <= i <= j <= s.len(),
        forall|t: int| i <= t < j ==> in_class(#[trigger] s[t], k),
    ensures
        all_in(s.subrange(i, j), k),
{
    assert forall|q: int| 0 <= q < j - i implies in_class(#[trigger] s.subrange(i, j)[q], k) by {
        assert(s.subrange(i, j)[q] == s[i + q]);
    }
}

proof fn lemma_property_wf(s: Seq<char>, i: int)
    requires
        p_property(s, i) is Ok,
    ensures
        wf_property(p_property(s, i)->Ok_0.0),
        i < p_property(s, i)->Ok_0.1 <= s.len(),
{
    lemma_span_facts(s, i, CharClass::AlphaNum);
    let j = span(s, i, CharClass::AlphaNum);
    lemma_run_all_in(s, i, j, CharClass::AlphaNum);
    let k = p_tag(s, j, " = "@)->Ok_0;
    lemma_span_facts(s, k, CharClass::LineText);
    let m = span(s, k, CharClass::LineText);
    lemma_run_all_in(s, k, m, CharClass::LineText);
}

proof fn lemma_properties_more_wf(s: Seq<char>, i: int)
    ensures
        forall|q: int|
            0 <= q < p_properties_more(s, i).0.len() ==> wf_property(
                #[trigger] p_properties_more(s, i).0[q],
            ),
    decreases s.len() - i,
{
    if let Ok((p, k)) = p_property(s, i) {
        lemma_property_wf(s, i);
        let k2 = skip_ws(s, k);
        if i < k2 <= s.len() {
            lemma_properties_more_wf(s, k2);
            let rest = p_properties_more(s, k2);
            assert forall|q: int|
                0 <= q < p_properties_more(s, i).0.len() implies wf_property(
                #[trigger] p_properties_more(s, i).0[q],
            ) by {
                if q > 0 {
                    assert(p_properties_more(s, i).0[q] == rest.0[q - 1]);
                }
            }
        }
    }
}

proof fn lemma_others_wf(ps: Seq<PropertyView>)
    requires
        forall|q: int| 0 <= q < ps.len() ==> wf_property(#[trigger] ps[q]),
    ensures
        forall|q: int|
            0 <= q < other_properties(ps).len() ==> wf_property(#[trigger] other_properties(ps)[q])
                && other_properties(ps)[q].name != resolution_name(),
    decreases ps.len(),
{
    reveal(Seq::filter);
    if ps.len() > 0 {
        let init = ps.drop_last();
        assert forall|q: int| 0 <= q < init.len() implies wf_property(#[trigger] init[q]) by {
            assert(init[q] == ps[q]);
        }
        lemma_others_wf(init);
        assert(wf_property(ps[ps.len() - 1]));
        let r = other_properties(init);
        assert(other_properties(ps) == if ps.last().name != resolution_name() {
            r.push(ps.last())
        } else {
            r
        });
        assert forall|q: int| 0 <= q < other_properties(ps).len() implies wf_property(
            #[trigger] other_properties(ps)[q],
        ) && other_properties(ps)[q].name != resolution_name() by {
            if q < r.len() {
                assert(other_properties(ps)[q] == r[q]);
            }
        }
    }
}

proof fn lemma_song_wf(s: Seq<char>, i: int)
    requires
        p_song_section(s, i) is Ok,
    ensures
        wf_song(p_song_section(s, i)->Ok_0.0),
{
    let (ps, _) = p_song(s, i)->Ok_0;
    let j2 = p_char(s, skip_ws(s, p_tag(s, skip_ws(s, i), "[Song]"@)->Ok_0), '{')->Ok_0;
    let j3 = p_property(s, skip_ws(s, j2))->Ok_0.1;
    lemma_property_wf(s, skip_ws(s, j2));
    lemma_properties_more_wf(s, skip_ws(s, j3));
    let more = p_properties_more(s, skip_ws(s, j3)).0;
    assert forall|q: int| 0 <= q < ps.len() implies wf_property(#[trigger] ps[q]) by {
        if q > 0 {
            assert(ps[q] == more[q - 1]);
        }
    }
    lemma_others_wf(ps);
}

proof fn lemma_global_event_wf(s: Seq<char>, i: int)
    requires
        p_global_event(s, i) is Ok,
    ensures
        wf_global_event(p_global_event(s, i)->Ok_0.0),
        i < p_global_event(s, i)->Ok_0.1 <= s.len(),
{
    lit_section();
    lit_lyric();
    lemma_span_facts(s, i, CharClass::Digit);
    let j = p_u32(s, i)->Ok_0.1;
    let k = p_tag(s, j, " = E \""@)->Ok_0;
    lemma_span_facts(s, k, CharClass::QuoteText);
    let q = span(s, k, CharClass::QuoteText);
    let p = s.subrange(k, q);
    lemma_run_all_in(s, k, q, CharClass::QuoteText);
    if has_prefix(p, "section "@) {
        assert forall|t: int| 0 <= t < p.len() - 8 implies in_class(
            #[trigger] p.subrange(8, p.len() as int)[t],
            CharClass::QuoteText,
        ) by {
            assert(p.subrange(8, p.len() as int)[t] == p[t + 8]);
        }
    }
    if has_prefix(p, "lyric "@) {
        assert forall|t: int| 0 <= t < p.len() - 6 implies in_class(
            #[trigger] p.subrange(6, p.len() as int)[t],
            CharClass::QuoteText,
        ) by {
            assert(p.subrange(6, p.len() as int)[t] == p[t + 6]);
        }
    }
}

proof fn lemma_events_more_wf(s: Seq<char>, i: int)
    ensures
        forall|q: int|
            0 <= q < p_events_more(s, i).0.len() ==> wf_global_event(
                #[trigger] p_events_more(s, i).0[q],
            ),
    decreases s.len() - i,
{
    if let Ok((e, k)) = p_global_event(s, i) {
        lemma_global_event_wf(s, i);
        let k2 = skip_ws(s, k);
        if i < k2 <= s.len() {
            lemma_events_more_wf(s, k2);
            let rest = p_events_more(s, k2);
            assert forall|q: int|
                0 <= q < p_events_more(s, i).0.len() implies wf_global_event(
                #[trigger] p_events_more(s, i).0[q],
            ) by {
                if q > 0 {
                    assert(p_events_more(s, i).0[q] == rest.0[q - 1]);
                }
            }
        }
    }
}

proof fn lemma_events_wf(s: Seq<char>, i: int)
    requires
        p_events(s, i) is Ok,
    ensures
        p_events(s, i)->Ok_0.0.len() > 0,
        forall|q: int|
            0 <= q < p_events(s, i)->Ok_0.0.len() ==> wf_global_event(
                #[trigger] p_events(s, i)->Ok_0.0[q],
            ),
{
    let evs = p_events(s, i)->Ok_0.0;
    let j2 = p_char(s, skip_ws(s, p_tag(s, skip_ws(s, i), "[Events]"@)->Ok_0), '{')->Ok_0;
    let j3 = p_global_event(s, skip_ws(s, j2))->Ok_0.1;
    lemma_global_event_wf(s, skip_ws(s, j2));
    lemma_events_more_wf(s, skip_ws(s, j3));
    let more = p_events_more(s, skip_ws(s, j3)).0;
    assert forall|q: int| 0 <= q < evs.len() implies wf_global_event(#[trigger] evs[q]) by {
        if q > 0 {
            assert(evs[q] == more[q - 1]);
        }
    }
}

proof fn lemma_track_event_wf(s: Seq<char>, i: int)
    requires
        p_track_event(s, i) is Ok,
    ensures
        wf_track_event(p_track_event(s, i)->Ok_0.0),
        i < p_track_event(s, i)->Ok_0.1 <= s.len(),
{
    lemma_span_facts(s, i, CharClass::Digit);
    let j = p_u32(s, i)->Ok_0.1;
    let k = p_tag(s, j, " = "@)->Ok_0;
    if let Ok(k1) = p_tag(s, k, "N "@) {
        lemma_span_facts(s, k1, CharClass::Digit);
        let a = p_u32(s, k1)->Ok_0.1;
        lemma_span_facts(s, a, CharClass::Space);
        let b = p_ws1(s, a)->Ok_0;
        lemma_span_facts(s, b, CharClass::Digit);
    } else if let Ok(k1) = p_tag(s, k, "E "@) {
        lemma_span_facts(s, k1, CharClass::Alpha);
        let m = span(s, k1, CharClass::Alpha);
        lemma_run_all_in(s, k1, m, CharClass::Alpha);
    } else {
        let k1 = p_tag(s, k, "S "@)->Ok_0;
        lemma_span_facts(s, k1, CharClass::Digit);
        let a = p_u32(s, k1)->Ok_0.1;
        lemma_span_facts(s, a, CharClass::Space);
        let b = p_ws1(s, a)->Ok_0;
        lemma_span_facts(s, b, CharClass::Digit);
    }
}

proof fn lemma_track_events_more_wf(s: Seq<char>, i: int)
    ensures
        forall|q: int|
            0 <= q < p_track_events_more(s, i).0.len() ==> wf_track_event(
                #[trigger] p_track_events_more(s, i).0[q],
            ),
    decreases s.len() - i,
{
    let j = skip_ws(s, i);
    if i < j <= s.len() {
        if let Ok((e, k)) = p_track_event(s, j) {
            if j < k <= s.len() {
                lemma_track_event_wf(s, j);
                lemma_track_events_more_wf(s, k);
                let rest = p_track_events_more(s, k);
                assert forall|q: int|
                    0 <= q < p_track_events_more(s, i).0.len() implies wf_track_event(
                    #[trigger] p_track_events_more(s, i).0[q],
                ) by {
                    if q > 0 {
                        assert(p_track_events_more(s, i).0[q] == rest.0[q - 1]);
                    }
                }
            }
        }
    }
}

proof fn lemma_track_wf(s: Seq<char>, i: int)
    requires
        p_track(s, i) is Ok,
    ensures
        wf_track(p_track(s, i)->Ok_0.0),
        p_track(s, i)->Ok_0.1 <= s.len(),
{
    let t = p_track(s, i)->Ok_0.0;
    let a = p_char(s, skip_ws(s, i), '[')->Ok_0;
    lemma_span_facts(s, a, CharClass::Alpha);
    let b = span(s, a, CharClass::Alpha);
    lemma_run_all_in(s, a, b, CharClass::Alpha);
    let c = p_char(s, b, ']')->Ok_0;
    let d = p_char(s, skip_ws(s, c), '{')->Ok_0;
    let f = p_track_event(s, skip_ws(s, d))->Ok_0.1;
    lemma_track_event_wf(s, skip_ws(s, d));
    lemma_track_events_more_wf(s, f);
    let more = p_track_events_more(s, f).0;
    assert forall|q: int| 0 <= q < t.events.len() implies wf_track_event(#[trigger] t.events[q]) by {
        if q > 0 {
            assert(t.events[q] == more[q - 1]);
        }
    }
}

proof fn lemma_tracks_more_wf(s: Seq<char>, i: int)
    ensures
        forall|q: int|
            0 <= q < p_tracks_more(s, i).0.len() ==> wf_track(#[trigger] p_tracks_more(s, i).0[q]),
    decreases s.len() - i,
{
    let j = skip_ws(s, i);
    if i < j <= s.len() {
        if let Ok((t, k)) = p_track(s, j) {
            if j < k <= s.len() {
                lemma_track_wf(s, j);
                lemma_tracks_more_wf(s, k);
                let rest = p_tracks_more(s, k);
                assert forall|q: int|
                    0 <= q < p_tracks_more(s, i).0.len() implies wf_track(
                    #[trigger] p_tracks_more(s, i).0[q],
                ) by {
                    if q > 0 {
                        assert(p_tracks_more(s, i).0[q] == rest.0[q - 1]);
                    }
                }
            }
        }
    }
}

/// What a text reads as is a well-formed chart.
pub proof fn lemma_parsed_wf(s: Seq<char>)
    requires
        parse_chart(s) is Ok,
    ensures
        wf_chart(parse_chart(s)->Ok_0),
{
    let c = parse_chart(s)->Ok_0;
    let i0 = span(s, 0, CharClass::NotBracket);
    lemma_song_wf(s, i0);
    let i1 = p_song_section(s, i0)->Ok_0.1;
    let i2 = p_sync_track(s, skip_ws(s, i1))->Ok_0.1;
    lemma_events_wf(s, skip_ws(s, i2));
    let i3 = p_events(s, skip_ws(s, i2))->Ok_0.1;
    let x = skip_ws(s, i3);
    let first = p_track(s, x)->Ok_0;
    lemma_track_wf(s, x);
    lemma_tracks_more_wf(s, first.1);
    let more = p_tracks_more(s, first.1).0;
    assert forall|q: int| 0 <= q < c.tracks.len() implies wf_track(#[trigger] c.tracks[q]) by {
        if q > 0 {
            assert(c.tracks[q] == more[q - 1]);
        }
    }
}

/// Writing a chart that was read from a text and reading the result gives
/// the same chart: for every text that reads as a chart, its written text
/// reads as that chart again.
pub proof fn lemma_round_trip(text: Seq<char>)
    requires
        parse_chart(text) is Ok,
    ensures
        parse_chart(chart_text(parse_chart(text)->Ok_0)) == parse_chart(text),
{
    lemma_parsed_wf(text);
    lemma_chart_text_parses(parse_chart(text)->Ok_0);
}

} // verus!
