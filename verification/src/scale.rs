//! Harmonic quantization: the Ionian (major) scale of a root note, obtained
//! from the `rust-music-theory` crate.

use vstd::prelude::*;

use rust_music_theory::note::{Notes, Pitch};
use rust_music_theory::scale::{Direction, Mode, Scale, ScaleType};

verus! {

/// Semitone offset of the i-th degree of an Ionian scale above its root
/// (eight degrees, the octave included).
pub open spec fn ionian_offset(i: int) -> int {
    if i == 0 {
        0
    } else if i == 1 {
        2
    } else if i == 2 {
        4
    } else if i == 3 {
        5
    } else if i == 4 {
        7
    } else if i == 5 {
        9
    } else if i == 6 {
        11
    } else {
        12
    }
}

/// Whether a pitch's class is one of the Ionian scale degrees of a root
/// pitch class.
pub open spec fn ionian_pitch_class(root_pc: int, pitch: int) -> bool {
    exists|j: int| 0 <= j < 8 && pitch % 12 == (root_pc + #[trigger] ionian_offset(j)) % 12
}

/// The MIDI pitches of the ascending Ionian scale rooted at the given pitch
/// class and octave.
///
/// Relies on `rust_music_theory`'s `Pitch::from_u8`, `Scale::new` with
/// `ScaleType::Diatonic` / `Mode::Ionian` / `Direction::Ascending` (which
/// cannot fail on the diatonic interval table, so the unwrap never fires),
/// `Notes::notes` and `Note::midi_pitch`: eight notes, the root first, each
/// degree one Ionian interval (2,2,1,2,2,2,1 semitones) above the last;
/// `midi_pitch` returns `(octave + 1) * 12` plus the pitch class, clamped to
/// 127. For roots up to octave 7 nothing clamps, the first value is the
/// root's own MIDI pitch, and every degree's pitch class is the root's
/// shifted by the Ionian offset (the crate's octave bookkeeping can misplace
/// an interior degree by a whole octave, so only the modular claim holds of
/// every degree).
#[verifier::external_body]
fn ionian_scale_pitches(root_pc: u8, root_octave: u8) -> (r: Vec<u8>)
    requires
        root_pc < 12,
    ensures
        r@.len() == 8,
        forall|i: int| 0 <= i < 8 ==> r@[i] <= 127,
        root_octave <= 7 ==> r@[0] == (root_octave + 1) * 12 + root_pc,
        root_octave <= 7 ==> forall|i: int| 0 <= i < 8 ==> r@[i] as int % 12 == (
        root_pc + ionian_offset(i)) % 12,
{
    let tonic = Pitch::from_u8(root_pc);
    let scale = Scale::new(
        ScaleType::Diatonic,
        tonic,
        root_octave as i16,
        Some(Mode::Ionian),
        Direction::Ascending,
    ).unwrap();
    scale.notes().iter().map(|n| n.midi_pitch()).collect()
}

/// The Ionian scale of a root note as MIDI pitches, each clamped to the MIDI
/// range; the scale is never empty.
pub(crate) fn ionian_scale_of(root: &crate::midi::Note) -> (r: Vec<u8>)
    requires
        root.wf(),
    ensures
        r@.len() == 8,
        forall|i: int| 0 <= i < 8 ==> r@[i] <= 127,
        root.octave <= 7 ==> forall|i: int|
            0 <= i < 8 ==> ionian_pitch_class(root.pitch_class as int, (#[trigger] r@[i]) as int),
{
    let r = ionian_scale_pitches(root.pitch_class, root.octave);
    proof {
        if root.octave <= 7 {
            assert forall|i: int| 0 <= i < 8 implies ionian_pitch_class(
                root.pitch_class as int,
                (#[trigger] r@[i]) as int,
            ) by {
                assert(r@[i] as int % 12 == (root.pitch_class + ionian_offset(i)) % 12);
            };
        }
    }
    r
}

} // verus!
