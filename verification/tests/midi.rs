use gisele::midi::{midi_pitch_to_note, note_to_midi_pitch, MidiNote, Note};
use gisele::SeqError;

#[test]
fn test_note_to_midi_pitch() {
    // Pitch class 9 is A, 11 is B.
    assert_eq!(
        note_to_midi_pitch(&Note {
            pitch_class: 9,
            octave: 4
        }),
        69
    );
    assert_eq!(
        note_to_midi_pitch(&Note {
            pitch_class: 9,
            octave: 0
        }),
        21
    );
    assert_eq!(
        note_to_midi_pitch(&Note {
            pitch_class: 11,
            octave: 6
        }),
        95
    );
}

#[test]
fn test_midi_pitch_to_note() {
    let a4 = midi_pitch_to_note(69).unwrap();
    assert_eq!(a4.octave, 4);
    assert_eq!(a4.pitch_class, 9);

    let a0 = midi_pitch_to_note(21).unwrap();
    assert_eq!(a0.octave, 0);
    assert_eq!(a0.pitch_class, 9);

    let b6 = midi_pitch_to_note(95).unwrap();
    assert_eq!(b6.octave, 6);
    assert_eq!(b6.pitch_class, 11);
}

#[test]
fn midi_pitch_below_octave_zero_is_rejected() {
    assert_eq!(midi_pitch_to_note(11).unwrap_err(), SeqError::InvalidArgument);
    assert_eq!(midi_pitch_to_note(0).unwrap_err(), SeqError::InvalidArgument);
    assert!(midi_pitch_to_note(12).is_ok());
}

#[test]
fn raw_note_bytes() {
    // Note-on on channel 1: status 0x90; note-off on channel 16: status 0x8F.
    let on = MidiNote { on_off: true, channel: 1, pitch: 60, velocity: 101 };
    assert_eq!(on.get_raw_note_on_bytes(), [144, 60, 101]);
    let off = MidiNote { on_off: false, channel: 16, pitch: 127, velocity: 1 };
    assert_eq!(off.get_raw_note_on_bytes(), [143, 127, 1]);
}
