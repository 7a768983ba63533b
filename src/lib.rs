pub mod chart;
pub mod events;
pub mod literals;
pub mod rescale;
pub mod song;
pub mod sync_track;
pub mod text;
pub mod track;

pub use chart::{chart, Chart, ParseError};
pub use events::{Events, GlobalEvent};
pub use song::{Property, Song};
pub use sync_track::{SyncTrack, SyncTrackEvent};
pub use track::{Track, TrackEvent};
pub mod round_trip;
