use synth_sequencer::events::SequencerEvent;
use synth_sequencer::ids::InstrumentId;
use synth_sequencer::pitch::{Pitch, Velocity};
use synth_sequencer::time::Tick;

type Event = SequencerEvent<(), ()>;

fn note_on(tick: u64, midi: u8, instrument: u64) -> Event {
    SequencerEvent::NoteOn {
        tick: Tick(tick),
        pitch: Pitch::new(midi).unwrap(),
        velocity: Velocity::mf(),
        instrument: InstrumentId(instrument),
        legato: false,
        articulation: (),
        track: None,
    }
}

#[test]
fn test_event_tick() {
    let event = note_on(1000, 60, 0);
    assert_eq!(event.tick().0, 1000);
}

#[test]
fn test_event_type_checks() {
    let note_on = note_on(0, 60, 0);
    assert!(note_on.is_note_on());
    assert!(!note_on.is_note_off());

    let note_off: Event = SequencerEvent::NoteOff { tick: Tick(960), pitch: Pitch::new(60).unwrap(), instrument: InstrumentId(0) };
    assert!(note_off.is_note_off());
    assert!(!note_off.is_note_on());
}

#[test]
fn test_event_sorting() {
    let mut events = vec![
        note_on(500, 60, 0),
        note_on(100, 62, 0),
        SequencerEvent::NoteOff { tick: Tick(300), pitch: Pitch::new(60).unwrap(), instrument: InstrumentId(0) },
    ];
    events.sort_by_key(|e| (e.tick(), e.sort_priority()));
    let ticks: Vec<_> = events.iter().map(|e| e.tick().0).collect();
    assert_eq!(ticks, vec![100, 300, 500]);
}

#[test]
fn test_event_instrument() {
    let note = note_on(0, 60, 5);
    assert_eq!(note.instrument(), Some(InstrumentId(5)));
}

#[test]
fn release_sorts_before_attack_at_one_tick() {
    let mut events: Vec<Event> = vec![
        SequencerEvent::Parameter { tick: Tick(10), payload: () },
        note_on(10, 60, 0),
        SequencerEvent::NoteOff { tick: Tick(10), pitch: Pitch::new(60).unwrap(), instrument: InstrumentId(0) },
    ];
    events.sort_by_key(|e| (e.tick(), e.sort_priority()));
    assert!(events[0].is_note_off());
    assert!(events[1].is_note_on());
    assert!(events[2].is_parameter());
    assert_eq!(events[2].pitch(), None);
    assert_eq!(events[2].instrument(), None);
    assert_eq!(events[1].pitch().map(|p| p.as_midi()), Some(60));
}
