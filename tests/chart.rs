use chart_file_parser::{
    chart, Chart, Events, GlobalEvent, ParseError, Property, Song, SyncTrack, SyncTrackEvent, Track,
    TrackEvent,
};

const CHART: &str = "\u{feff}[Song]
{
  Name = \"Second Sight\"
  Resolution = 192
  Player2 = bass
}
[SyncTrack]
{
  0 = TS 6
  0 = B 152525
  1152 = TS 4 2
  1200 = A 1000
}
[Events]
{
  4224 = E \"section Intro\"
  38496 = E \"phrase_start\"
  38592 = E \"lyric I\"
  40512 = E \"phrase_end\"
  42000 = E \"crowd_normal\"
}
[ExpertSingle]
{
  768 = N 0 0
  768 = S 2 3072
  1344 = E solo
}
[HardSingle]
{
  768 = N 1 96
}
";

const CANONICAL: &str = "[Song]
{
  Resolution = 192
  Name = \"Second Sight\"
  Player2 = bass
}
[SyncTrack]
{
  0 = TS 6
  0 = B 152525
  1152 = TS 4 2
  1200 = A 1000
}
[Events]
{
  4224 = E \"section Intro\"
  38496 = E \"phrase_start\"
  38592 = E \"lyric I\"
  40512 = E \"phrase_end\"
  42000 = E \"crowd_normal\"
}
[ExpertSingle]
{
  768 = N 0 0
  768 = S 2 3072
  1344 = E solo
}
[HardSingle]
{
  768 = N 1 96
}
";

fn with_song(song_lines: &str) -> String {
    format!(
        "[Song]\n{{\n{song_lines}}}\n[SyncTrack]\n{{\n  0 = B 120000\n}}\n[Events]\n{{\n  0 = E \"section A\"\n}}\n[Expert]\n{{\n  0 = N 0 0\n}}\n"
    )
}

fn with_events(lines: &str) -> String {
    format!(
        "[Song]\n{{\n  Resolution = 192\n}}\n[SyncTrack]\n{{\n  0 = B 120000\n}}\n[Events]\n{{\n{lines}}}\n[Expert]\n{{\n  0 = N 0 0\n}}\n"
    )
}

fn event_times(c: &Chart) -> Vec<u32> {
    c.global_events().events().iter().map(|e| e.time()).collect()
}

fn track_times(c: &Chart, t: usize) -> Vec<u32> {
    c.tracks()[t].events().iter().map(|e| e.time()).collect()
}

#[test]
fn chart_reads_every_section() {
    let c = Chart::parse(CHART).unwrap();
    assert_eq!(c.song().resolution(), 192);
    assert_eq!(c.song().properties().len(), 2);
    assert_eq!(c.sync_track().events().len(), 4);
    assert_eq!(
        c.sync_track().events()[2],
        SyncTrackEvent::TimeSignature { time: 1152, value1: 4, value2: Some(2) }
    );
    assert_eq!(c.global_events().events().len(), 5);
    assert_eq!(
        c.global_events().events()[0],
        GlobalEvent::Section { time: 4224, name: "Intro".to_string() }
    );
    assert_eq!(c.tracks().len(), 2);
    assert_eq!(c.tracks()[1].name(), "HardSingle");
    assert_eq!(c.tracks()[1].events()[0], TrackEvent::Note { time: 768, fret: 1, sustain: 96 });
}

#[test]
fn chart_writes_canonical_text() {
    let c = Chart::parse(CHART).unwrap();
    assert_eq!(c.to_string(), CANONICAL);
    let again = Chart::parse(&c.to_string()).unwrap();
    assert_eq!(again.to_string(), CANONICAL);
}

#[test]
fn chart_write_reparse() {
    let c = Chart::parse(CHART).unwrap();
    let written = c.to_string();
    let c2 = Chart::parse(&written).unwrap();
    assert_eq!(c, c2);
}

#[test]
fn free_function_reads_like_parse() {
    assert_eq!(chart(CHART), Chart::parse(CHART));
    assert_eq!(chart("no sections"), Err(ParseError::Syntax { position: 11 }));
}

#[test]
fn resolution_missing_is_a_named_error() {
    let text = with_song("  Name = x\n");
    assert_eq!(Chart::parse(&text), Err(ParseError::MissingResolution));
}

#[test]
fn resolution_read_as_number() {
    let text = with_song("  Name = x\n  Resolution = 192\n");
    let c = Chart::parse(&text).unwrap();
    assert_eq!(c.song().resolution(), 192);
    assert_eq!(c.song().properties().len(), 1);
    let text = with_song("  Resolution = +480\n");
    assert_eq!(Chart::parse(&text).unwrap().song().resolution(), 480);
}

#[test]
fn resolution_not_a_number_is_a_named_error() {
    let text = with_song("  Resolution = abc\n");
    assert_eq!(Chart::parse(&text), Err(ParseError::InvalidResolution));
    let text = with_song("  Resolution = 4294967296\n");
    assert_eq!(Chart::parse(&text), Err(ParseError::InvalidResolution));
    let text = with_song("  Resolution = \n");
    assert_eq!(Chart::parse(&text), Err(ParseError::InvalidResolution));
}

#[test]
fn first_resolution_counts_and_all_leave_the_list() {
    let text = with_song("  Resolution = 96\n  A = 1\n  Resolution = 192\n");
    let c = Chart::parse(&text).unwrap();
    assert_eq!(c.song().resolution(), 96);
    assert_eq!(c.song().properties().len(), 1);
    assert_eq!(c.song().properties()[0].name(), "A");
}

#[test]
fn grammar_errors_give_a_position() {
    let text = "[Song]\n{\n  Resolution = 192\n}\n[SyncTrack]\n{\n  0 = X 5\n}\n[Events]\n{\n  0 = E \"a\"\n}\n[T]\n{\n  0 = N 0 0\n}\n";
    let at = text.find("0 = X").unwrap() + 4;
    assert_eq!(Chart::parse(text), Err(ParseError::Syntax { position: at }));
    let trailing = format!("{CANONICAL}junk");
    assert_eq!(
        Chart::parse(&trailing),
        Err(ParseError::Syntax { position: CANONICAL.chars().count() })
    );
    let unclosed = with_events("  0 = E \"section Intro\n");
    assert!(Chart::parse(&unclosed).is_err());
}

#[test]
fn carriage_return_line_ends_are_read() {
    let text = CANONICAL.replace('\n', "\r\n");
    let c = Chart::parse(&text).unwrap();
    assert_eq!(c.to_string(), CANONICAL);
}

#[test]
fn gap_preserved_in_narrative_events() {
    let text = with_events("  10 = E \"a\"\n  11 = E \"b\"\n  12 = E \"c\"\n");
    let mut c = Chart::parse(&text).unwrap();
    c.multiply(3);
    assert_eq!(event_times(&c), vec![30, 31, 34]);
    let text = with_events("  10 = E \"a\"\n  20 = E \"b\"\n");
    let mut c = Chart::parse(&text).unwrap();
    c.multiply(3);
    assert_eq!(event_times(&c), vec![30, 60]);
    let text = with_events("  0 = E \"a\"\n  1 = E \"b\"\n  2 = E \"c\"\n");
    let mut c = Chart::parse(&text).unwrap();
    c.multiply(2);
    assert_eq!(event_times(&c), vec![0, 1, 3]);
}

#[test]
fn gap_preserved_in_note_tracks() {
    let text = "[Song]\n{\n  Resolution = 192\n}\n[SyncTrack]\n{\n  0 = B 1\n}\n[Events]\n{\n  0 = E \"a\"\n}\n[T]\n{\n  10 = N 0 0\n  11 = E x\n  12 = S 2 5\n  20 = N 1 0\n}\n";
    let mut c = Chart::parse(text).unwrap();
    c.multiply(3);
    assert_eq!(track_times(&c, 0), vec![30, 31, 34, 60]);
    assert_eq!(c.tracks()[0].events()[2], TrackEvent::Special { time: 34, kind: 2, content: 15 });
}

#[test]
fn tempo_ticks_scale_uniformly() {
    let text = "[Song]\n{\n  Resolution = 192\n}\n[SyncTrack]\n{\n  10 = B 1\n  11 = TS 4\n}\n[Events]\n{\n  10 = E \"a\"\n  11 = E \"b\"\n}\n[T]\n{\n  0 = N 0 0\n}\n";
    let mut c = Chart::parse(text).unwrap();
    c.multiply(3);
    let ticks: Vec<u32> = c.sync_track().events().iter().map(|e| e.time()).collect();
    assert_eq!(ticks, vec![30, 33]);
    assert_eq!(event_times(&c), vec![30, 31]);
    assert_eq!(c.song().resolution(), 576);
}

#[test]
fn sustain_scales_whatever_the_neighbours() {
    let text = "[Song]\n{\n  Resolution = 192\n}\n[SyncTrack]\n{\n  0 = B 1\n}\n[Events]\n{\n  0 = E \"a\"\n}\n[T]\n{\n  5 = N 0 7\n  6 = N 0 100\n  50 = N 1 100\n}\n";
    let mut c = Chart::parse(text).unwrap();
    c.multiply(4);
    assert_eq!(c.tracks()[0].events()[1], TrackEvent::Note { time: 21, fret: 0, sustain: 400 });
    assert_eq!(c.tracks()[0].events()[2], TrackEvent::Note { time: 200, fret: 1, sustain: 400 });
    assert_eq!(c.tracks()[0].events()[0], TrackEvent::Note { time: 20, fret: 0, sustain: 28 });
}

#[test]
fn multiply_by_zero_zeroes_ticks() {
    let mut c = Chart::parse(CHART).unwrap();
    assert!(c.fits(0));
    c.multiply(0);
    assert_eq!(c.song().resolution(), 0);
    assert!(c.sync_track().events().iter().all(|e| e.time() == 0));
}

#[test]
fn fits_detects_overflow() {
    let c = Chart::parse(CHART).unwrap();
    assert!(c.fits(2));
    assert!(!c.fits(u32::MAX));
    let text = with_events("  4294967295 = E \"a\"\n");
    let c = Chart::parse(&text).unwrap();
    assert!(c.fits(1));
    assert!(!c.fits(2));
}

#[test]
fn multiply_scales_written_text() {
    let mut c = Chart::parse(CANONICAL).unwrap();
    c.multiply(2);
    let text = c.to_string();
    assert!(text.contains("  Resolution = 384\n"));
    assert!(text.contains("  2304 = TS 4 2\n"));
    assert!(text.contains("  1536 = S 2 6144\n"));
}

#[test]
fn empty_sequences_scale_to_empty() {
    let mut e = Events::new(vec![]);
    e.multiply(3);
    assert!(e.events().is_empty());
    let mut t = Track::new("Expert".to_string(), vec![]);
    t.multiply(3);
    assert!(t.events().is_empty());
    assert_eq!(t.name(), "Expert");
}

#[test]
fn hand_built_chart_reads_back() {
    let song = Song::new(
        480,
        vec![Property::new("Name".to_string(), "\"Built\"".to_string())],
    );
    let sync = SyncTrack::new(vec![SyncTrackEvent::Bpm { time: 0, value: 120000 }]);
    let events = Events::new(vec![
        GlobalEvent::Section { time: 0, name: "Verse 1".to_string() },
        GlobalEvent::Other { time: 1, value: "end".to_string() },
    ]);
    let tracks = vec![Track::new(
        "ExpertSingle".to_string(),
        vec![
            TrackEvent::Note { time: 0, fret: 0, sustain: 0 },
            TrackEvent::Event { time: 1, value: "solo".to_string() },
        ],
    )];
    let c = Chart::new(song, sync, events, tracks);
    let text = c.to_string();
    assert!(text.starts_with("[Song]\n{\n  Resolution = 480\n  Name = \"Built\"\n}\n"));
    assert!(text.contains("  1 = E \"end\"\n"));
    assert_eq!(Chart::parse(&text).unwrap(), c);
}
