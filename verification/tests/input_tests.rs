use synth_sequencer::ids::{PatternId, InstrumentId};
use synth_sequencer::input::{InputCommand, InputSource, KeyboardInputSource};
use synth_sequencer::pitch::{Pitch, Velocity};
use synth_sequencer::time::{Duration, PatternTick};

type Command = InputCommand<f32>;

#[test]
fn test_input_command_categories() {
    let play: Command = InputCommand::Play;
    assert!(play.is_transport());
    assert!(!play.is_editing());
    assert!(!play.is_undoable());

    let add_note: Command = InputCommand::AddNote {
        pattern: PatternId(0),
        start: PatternTick(0),
        duration: Some(Duration::quarter()),
        pitch: Pitch::new(60).unwrap(),
        velocity: Velocity::mf(),
    };
    assert!(!add_note.is_transport());
    assert!(add_note.is_editing());
    assert!(add_note.is_undoable());

    let note_on: Command = InputCommand::NoteOn { pitch: Pitch::new(60).unwrap(), velocity: Velocity::mf(), instrument: None };
    assert!(note_on.is_realtime_input());
}

#[test]
fn command_classes_beyond_the_basics() {
    let rename: Command = InputCommand::RenamePattern { pattern: PatternId(1), name: "B".to_string() };
    assert!(rename.requires_pattern());
    assert!(rename.is_undoable());
    assert!(!rename.is_editing());
    let quantize: Command = InputCommand::QuantizeSelection { strength: 0.5 };
    assert!(quantize.is_editing());
    assert!(!quantize.requires_pattern());
    let select: Command = InputCommand::SelectAll { pattern: PatternId(0) };
    assert!(select.requires_pattern());
    assert!(!select.is_undoable());
    let tempo: Command = InputCommand::SetTempo(140.0);
    assert!(!tempo.is_transport());
    assert!(!tempo.is_undoable());
    let step: Command = InputCommand::StepPosition(-10);
    assert!(step.is_transport());
}

#[test]
fn test_keyboard_input_source() {
    let mut keyboard = KeyboardInputSource::<f32>::new("Test Keyboard".to_string());
    assert!(keyboard.is_active());
    assert!(keyboard.is_enabled());

    keyboard.key_down(0, None);
    let commands = keyboard.poll();
    assert_eq!(commands.len(), 1);
    assert!(matches!(commands[0], InputCommand::NoteOn { .. }));

    keyboard.key_up(0);
    let commands = keyboard.poll();
    assert_eq!(commands.len(), 1);
    assert!(matches!(commands[0], InputCommand::NoteOff { .. }));
}

#[test]
fn test_keyboard_octave() {
    let mut keyboard = KeyboardInputSource::<f32>::new("Test".to_string());
    keyboard.set_base_octave(5);
    assert_eq!(keyboard.base_octave(), 5);

    keyboard.key_down(0, None);
    let commands = keyboard.poll();
    if let InputCommand::NoteOn { pitch, .. } = &commands[0] {
        assert_eq!(pitch.as_midi(), 72);
    } else {
        panic!("Expected NoteOn");
    }
}

#[test]
fn test_disabled_source() {
    let mut keyboard = KeyboardInputSource::<f32>::new("Test".to_string());
    keyboard.set_enabled(false);

    keyboard.key_down(0, None);
    let commands = keyboard.poll();
    assert!(commands.is_empty());
}

#[test]
fn keyboard_clamps_octave_and_skips_invalid_pitches() {
    let mut keyboard = KeyboardInputSource::<f32>::new("K".to_string());
    keyboard.set_base_octave(42);
    assert_eq!(keyboard.base_octave(), 8);
    // (8 + 1)·12 + 20 = 128 is past the MIDI range: no command.
    keyboard.key_down(20, Some(InstrumentId(3)));
    assert!(keyboard.poll().is_empty());
    keyboard.key_down(19, Some(InstrumentId(3)));
    let commands = keyboard.poll();
    match &commands[0] {
        InputCommand::NoteOn { pitch, velocity, instrument } => {
            assert_eq!(pitch.as_midi(), 127);
            assert_eq!(velocity.to_midi(), Velocity::mf().to_midi());
            assert_eq!(*instrument, Some(InstrumentId(3)));
        },
        _ => panic!("Expected NoteOn"),
    }
    keyboard.set_base_octave(-5);
    assert_eq!(keyboard.base_octave(), -1);
    keyboard.key_up(0);
    match &keyboard.poll()[0] {
        InputCommand::NoteOff { pitch } => assert_eq!(pitch.as_midi(), 0),
        _ => panic!("Expected NoteOff"),
    }
    assert_eq!(keyboard.name(), "K");
}

#[test]
fn disabling_drops_pending_commands() {
    let mut keyboard = KeyboardInputSource::<f32>::new("K".to_string());
    keyboard.push_command(InputCommand::Play);
    keyboard.push_command(InputCommand::Stop);
    keyboard.set_enabled(false);
    keyboard.set_enabled(true);
    assert!(keyboard.poll().is_empty());
    keyboard.push_command(InputCommand::Play);
    keyboard.set_velocity(Velocity::max_velocity());
    assert_eq!(keyboard.velocity().to_midi(), 127);
    assert_eq!(keyboard.poll().len(), 1);
}
