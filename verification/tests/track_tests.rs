use synth_sequencer::ids::{InstrumentId, TrackId};
use synth_sequencer::track::{SequencerTrack, TrackColor, TrackMode};

#[test]
fn new_track_has_a_default_instrument() {
    let track = SequencerTrack::new(TrackId(3), "Fresh".to_string());
    assert_eq!(track.instrument, InstrumentId(0));
}

#[test]
fn instruments_may_be_shared_across_tracks() {
    let a = SequencerTrack::new(TrackId(0), "Kick".to_string()).with_instrument(InstrumentId(7));
    let b = SequencerTrack::new(TrackId(1), "Syncopated Kick".to_string()).with_instrument(InstrumentId(7));
    assert_eq!(a.instrument, b.instrument);
}

#[test]
fn test_track_audibility() {
    let mut track = SequencerTrack::new(TrackId(0), "Test".to_string());

    assert!(track.is_audible(false));

    track.mute = true;
    assert!(!track.is_audible(false));

    track.mute = false;
    assert!(!track.is_audible(true));

    track.solo = true;
    assert!(track.is_audible(true));
}

#[test]
fn track_defaults_and_toggles() {
    let mut track = SequencerTrack::new(TrackId(9), "Lead".to_string());
    assert_eq!(track.name, "Lead");
    assert!(!track.mute);
    assert!(!track.solo);
    assert_eq!(track.mode, TrackMode::Polyphonic);
    assert_eq!(track.color, TrackColor::blue());
    track.toggle_mute();
    assert!(track.mute);
    track.toggle_solo();
    assert!(track.solo);
    let red = track.with_color(TrackColor::red());
    assert_eq!(red.color.as_rgb(), (255, 100, 100));
}

#[test]
fn preset_colours_cycle_in_order() {
    let presets = TrackColor::presets();
    assert_eq!(presets.len(), 8);
    assert_eq!(presets[0], TrackColor::red());
    assert_eq!(presets[7], TrackColor::new(180, 100, 255));
    assert_eq!(TrackColor::default(), TrackColor::blue());
}

#[test]
fn test_track_creation() {
    let track = SequencerTrack::new(TrackId(0), "Lead".to_string());
    assert_eq!(track.name, "Lead");
    assert!(!track.mute);
    assert!(!track.solo);
}

#[test]
fn test_track_builder() {
    let track = SequencerTrack::new(TrackId(0), "Bass".to_string()).with_instrument(InstrumentId(1));

    assert_eq!(track.instrument, InstrumentId(1));
    assert_eq!(track.name, "Bass");
}

#[test]
fn test_track_color() {
    let color = TrackColor::new(128, 64, 32);
    let (r, g, b) = color.as_rgb();
    let (r, g, b) = (f32::from(r) / 255.0, f32::from(g) / 255.0, f32::from(b) / 255.0);
    assert!((r - 0.502).abs() < 0.01);
    assert!((g - 0.251).abs() < 0.01);
    assert!((b - 0.125).abs() < 0.01);
}
