//! MIDI value types: notes on the chromatic grid and raw three-byte messages.
//!
//! Musical time throughout the crate is measured in ticks, a fixed-point
//! subdivision of a bar: `TICKS_PER_BAR` ticks make one bar.

use vstd::prelude::*;

use crate::SeqError;

verus! {

/// Number of time-grid ticks in one bar (one bar = four quarter notes).
pub const TICKS_PER_BAR: u32 = 1_000_000;

/// A note of the twelve-tone grid: a pitch class (0 = C .. 11 = B) and an
/// octave in the MIDI convention where octave 0 starts at pitch 12.
#[derive(Clone, Copy, Debug, PartialEq, Eq, Structural)]
pub struct Note {
    /// Semitone within the octave, `0..12`.
    pub pitch_class: u8,
    /// Octave; MIDI pitch 12 is the C of octave 0.
    pub octave: u8,
}

impl Note {
    /// The MIDI pitch this note stands for, as a mathematical integer.
    pub open spec fn midi_val(self) -> int {
        (self.octave + 1) * 12 + self.pitch_class
    }

    /// A well-formed note has a pitch class below 12 and fits the MIDI
    /// pitch range `0..=127`.
    pub open spec fn wf(self) -> bool {
        self.pitch_class < 12 && self.midi_val() <= 127
    }
}

/// One MIDI note message: direction (on/off), channel `1..=16`,
/// pitch `0..=127` and velocity `0..=127`.
#[derive(Clone, Copy, Debug, PartialEq, Eq, Structural)]
pub struct MidiNote {
    pub on_off: bool,
    /// Channel, should be 1-16
    pub channel: u8,
    pub pitch: u8,
    pub velocity: u8,
}

impl MidiNote {
    /// Validity of the fields against the MIDI ranges.
    pub open spec fn wf(self) -> bool {
        &&& 1 <= self.channel <= 16
        &&& self.pitch <= 127
        &&& self.velocity <= 127
    }

    /// The status byte of this note's raw message:
    /// `0x90 | (channel - 1)` for note-on, `0x80 | (channel - 1)` for note-off.
    pub open spec fn status_byte(self) -> int {
        (8 + if self.on_off { 1int } else { 0int }) * 16 + (self.channel - 1)
    }

    /// The raw three-byte MIDI message for this note: status, pitch, velocity.
    pub fn get_raw_note_on_bytes(&self) -> (r: [u8; 3])
        requires
            self.wf(),
        ensures
            r@.len() == 3,
            r@[0] == self.status_byte(),
            r@[1] == self.pitch,
            r@[2] == self.velocity,
    {
        [
            (8 + self.on_off as u8) * 16 + (self.channel - 1),
            self.pitch,
            self.velocity,
        ]
    }
}

/// The MIDI pitch of a note: 12 plus twelve per octave plus the pitch class.
pub fn note_to_midi_pitch(note: &Note) -> (r: u8)
    requires
        note.wf(),
    ensures
        r == note.midi_val(),
{
    (note.octave + 1) * 12 + note.pitch_class
}

/// The note a MIDI pitch stands for. Pitches below 12 are rejected: octave 0
/// starts at pitch 12 and negative octaves have no representation.
pub fn midi_pitch_to_note(pitch: u8) -> (r: Result<Note, SeqError>)
    ensures
        pitch >= 12 ==> r == Ok::<Note, SeqError>(Note {
            pitch_class: (pitch % 12) as u8,
            octave: (pitch / 12 - 1) as u8,
        }),
        pitch >= 12 ==> r.unwrap().midi_val() == pitch,
        12 <= pitch <= 127 ==> r.unwrap().wf(),
        pitch < 12 ==> r == Err::<Note, SeqError>(SeqError::InvalidArgument),
{
    if pitch < 12 {
        return Err(SeqError::InvalidArgument);
    }
    let note = Note { pitch_class: pitch % 12, octave: pitch / 12 - 1 };
    proof {
        assert(note.midi_val() == pitch) by {
            vstd::arithmetic::div_mod::lemma_fundamental_div_mod(pitch as int, 12);
        };
    }
    Ok(note)
}

} // verus!
