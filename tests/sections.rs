use chart_file_parser::events::{parse_events, parse_global_event};
use chart_file_parser::song::parse_song;
use chart_file_parser::sync_track::{parse_sync_event, parse_sync_track};
use chart_file_parser::text::chars_of;
use chart_file_parser::track::{parse_track, parse_track_event};
use chart_file_parser::{GlobalEvent, SyncTrackEvent, TrackEvent};

const SONG: &str = r#"[Song]
{
  Name = "Second Sight"
  Artist = "Adagio"
  Charter = "Peddy"
  Album = "Sanctus Ignis"
  Year = ", 2001"
  Offset = 0
  Resolution = 192
  Player2 = bass
  Difficulty = 0
  PreviewStart = 0
  PreviewEnd = 0
  Genre = "Neoclassical Metal"
  MediaType = "cd"
  MusicStream = "song.ogg"
}"#;

const SYNC_TRACK: &str = "[SyncTrack]
{
  0 = TS 6
  0 = B 152525
  1152 = TS 4
  4224 = B 160187
  10368 = B 160000
  154752 = B 158662
  156288 = B 180000
  168576 = B 160000
  173184 = B 160866
  174720 = B 160000
}";

const EVENTS: &str = "[Events]
{
  4224 = E \"section Intro\"
  38496 = E \"phrase_start\"
  38592 = E \"lyric I\"
  38784 = E \"lyric will\"
  40512 = E \"phrase_end\"
  42000 = E \"crowd_normal\"
}
";

const TRACK: &str = "[ExpertSingle]
{
  768 = N 0 0
  768 = S 2 3072
  960 = N 1 0
  1152 = N 2 192
  1152 = N 5 0
  1344 = E solo
  183936 = N 4 3072
}
";

fn chars(t: &str) -> Vec<char> {
    chars_of(t)
}

#[test]
fn events_test_global_events() {
    parse_events(&chars(EVENTS), 0).unwrap();
}

#[test]
fn global_event_test_global_event() {
    parse_global_event(&chars("4224 = E \"section Intro\""), 0).unwrap();
    parse_global_event(&chars("38496 = E \"phrase_start\""), 0).unwrap();
    parse_global_event(&chars("38592 = E \"lyric I\""), 0).unwrap();
    parse_global_event(&chars("40512 = E \"phrase_end\""), 0).unwrap();
}

#[test]
fn global_event_test_global_events() {
    parse_events(&chars(EVENTS), 0).unwrap();
}

#[test]
fn song_test_song() {
    parse_song(&chars(SONG), 0).unwrap();
}

#[test]
fn sync_track_test_sync_track() {
    parse_sync_track(&chars(SYNC_TRACK), 0).unwrap();
}

#[test]
fn sync_track_event_test_sync_track_event() {
    parse_sync_event(&chars("0 = TS 6"), 0).unwrap();
    parse_sync_event(&chars("0 = B 152525"), 0).unwrap();
}

#[test]
fn track_test_track() {
    parse_track(&chars(TRACK), 0).unwrap();
}

#[test]
fn track_event_test_track_event() {
    parse_track_event(&chars("183936 = N 4 3072"), 0).unwrap();
}

#[test]
fn parser_test_track_event() {
    parse_track_event(&chars("183936 = N 4 3072"), 0).unwrap();
}

#[test]
fn parser_test_track() {
    parse_track(&chars(TRACK), 0).unwrap();
}

#[test]
fn parser_test_global_event() {
    parse_global_event(&chars("4224 = E \"section Intro\""), 0).unwrap();
    parse_global_event(&chars("38496 = E \"phrase_start\""), 0).unwrap();
    parse_global_event(&chars("38592 = E \"lyric I\""), 0).unwrap();
    parse_global_event(&chars("40512 = E \"phrase_end\""), 0).unwrap();
}

#[test]
fn parser_test_global_events() {
    parse_events(&chars(EVENTS), 0).unwrap();
}

#[test]
fn parser_test_sync_track_event() {
    parse_sync_event(&chars("0 = TS 6"), 0).unwrap();
    parse_sync_event(&chars("0 = B 152525"), 0).unwrap();
}

#[test]
fn parser_test_sync_track() {
    parse_sync_track(&chars(SYNC_TRACK), 0).unwrap();
}

#[test]
fn parser_test_song() {
    parse_song(&chars(SONG), 0).unwrap();
}

#[test]
fn global_event_payload_kinds() {
    let s = chars("4224 = E \"section Intro\"");
    let (e, end) = parse_global_event(&s, 0).unwrap();
    assert_eq!(e, GlobalEvent::Section { time: 4224, name: "Intro".to_string() });
    assert_eq!(end, s.len());
    let (e, _) = parse_global_event(&chars("38592 = E \"lyric I\""), 0).unwrap();
    assert_eq!(e, GlobalEvent::Lyric { time: 38592, text: "I".to_string() });
    let (e, _) = parse_global_event(&chars("38496 = E \"phrase_start\""), 0).unwrap();
    assert_eq!(e, GlobalEvent::PhraseStart { time: 38496 });
    let (e, _) = parse_global_event(&chars("40512 = E \"phrase_end\""), 0).unwrap();
    assert_eq!(e, GlobalEvent::PhraseEnd { time: 40512 });
    let (e, _) = parse_global_event(&chars("7 = E \"crowd_normal\""), 0).unwrap();
    assert_eq!(e, GlobalEvent::Other { time: 7, value: "crowd_normal".to_string() });
    let (e, _) = parse_global_event(&chars("7 = E \"section\""), 0).unwrap();
    assert_eq!(e, GlobalEvent::Other { time: 7, value: "section".to_string() });
    let (e, _) = parse_global_event(&chars("7 = E \"phrase_start2\""), 0).unwrap();
    assert_eq!(e, GlobalEvent::Other { time: 7, value: "phrase_start2".to_string() });
}

#[test]
fn section_prefix_without_closing_quote_fails() {
    assert!(parse_global_event(&chars("4224 = E \"section Intro"), 0).is_err());
    assert!(parse_global_event(&chars("4224 = E \"lyric I"), 0).is_err());
    assert!(parse_global_event(&chars("4224 = E \"plain cue"), 0).is_err());
    let broken = "[Events]\n{\n  4224 = E \"section Intro\n}\n";
    assert!(parse_events(&chars(broken), 0).is_err());
}

#[test]
fn tempo_line_with_unknown_op_fails() {
    assert_eq!(parse_sync_event(&chars("0 = X 5"), 0), Err(4));
    let text = "[SyncTrack]\n{\n  0 = B 120000\n  0 = X 5\n}";
    assert!(parse_sync_track(&chars(text), 0).is_err());
}

#[test]
fn tempo_events_read_their_fields() {
    let (e, end) = parse_sync_event(&chars("0 = TS 6"), 0).unwrap();
    assert_eq!(e, SyncTrackEvent::TimeSignature { time: 0, value1: 6, value2: None });
    assert_eq!(end, 8);
    let (e, _) = parse_sync_event(&chars("1152 = TS 3 3"), 0).unwrap();
    assert_eq!(e, SyncTrackEvent::TimeSignature { time: 1152, value1: 3, value2: Some(3) });
    let (e, _) = parse_sync_event(&chars("0 = B 152525"), 0).unwrap();
    assert_eq!(e, SyncTrackEvent::Bpm { time: 0, value: 152525 });
    let (e, _) = parse_sync_event(&chars("96 = A 500000"), 0).unwrap();
    assert_eq!(e, SyncTrackEvent::Anchor { time: 96, value: 500000 });
    assert!(parse_sync_event(&chars("4294967296 = B 1"), 0).is_err());
    let (e, _) = parse_sync_event(&chars("4294967295 = B 1"), 0).unwrap();
    assert_eq!(e.time(), u32::MAX);
}

#[test]
fn track_events_read_their_fields() {
    let (e, _) = parse_track_event(&chars("183936 = N 4 3072"), 0).unwrap();
    assert_eq!(e, TrackEvent::Note { time: 183936, fret: 4, sustain: 3072 });
    let (e, _) = parse_track_event(&chars("768 = S 2 3072"), 0).unwrap();
    assert_eq!(e, TrackEvent::Special { time: 768, kind: 2, content: 3072 });
    let (e, end) = parse_track_event(&chars("1344 = E solo_on"), 0).unwrap();
    assert_eq!(e, TrackEvent::Event { time: 1344, value: "solo".to_string() });
    assert_eq!(end, 13);
    assert!(parse_track_event(&chars("1 = Q 1 1"), 0).is_err());
    assert!(parse_track_event(&chars("1 = E 12"), 0).is_err());
}

#[test]
fn track_reads_name_and_events() {
    let (t, _) = parse_track(&chars(TRACK), 0).unwrap();
    assert_eq!(t.name(), "ExpertSingle");
    assert_eq!(t.events().len(), 7);
    assert_eq!(t.events()[5], TrackEvent::Event { time: 1344, value: "solo".to_string() });
}

#[test]
fn song_reads_resolution_apart() {
    let (song, _) = parse_song(&chars(SONG), 0).unwrap();
    assert_eq!(song.resolution(), 192);
    assert_eq!(song.properties().len(), 13);
    assert_eq!(song.properties()[0].name(), "Name");
    assert_eq!(song.properties()[0].value(), "\"Second Sight\"");
    assert!(song.properties().iter().all(|p| p.name() != "Resolution"));
}
