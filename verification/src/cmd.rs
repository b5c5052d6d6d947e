//! Control commands: the plain-value form of the control protocol's
//! messages, and their dispatch onto the sequencer.

use vstd::prelude::*;

use crate::midi::{midi_pitch_to_note, Note};
use crate::seq::{
    add_base_seq_spec, add_fx_processor_spec, change_loop_len_spec, change_note_len_spec,
    regen_base_seq_spec, remove_base_seq_spec, seq_status_from_u32, set_nb_events_spec,
    transpose_spec, BaseSeqParams, BaseSeqType, EuclidBase, RandomBase, SeqParams, SeqStatus,
    Sequencer,
};
use crate::SeqError;

verus! {

/// One parsed control command, with plain-value arguments: times in ticks,
/// tempi in hundredths of a BPM, roots as MIDI pitches, statuses as their
/// numeric codes.
#[derive(Clone, Copy, Debug, PartialEq, Eq, Structural)]
pub enum Command {
    SetStatus { status: u32 },
    SetBpm { bpm_centi: u32 },
    SetLoopLength { base_seq_id: u32, loop_length: u32 },
    Regenerate { base_seq_id: u32 },
    SetRoot { base_seq_id: u32, midi_pitch: u8 },
    SetNoteLen { base_seq_id: u32, note_len: u32 },
    Empty,
    RemoveBaseSeq { base_seq_id: u32 },
    AddRandomBase {
        loop_length: u32,
        root_pitch: u8,
        nb_events: u32,
        note_len_avg: u32,
        note_len_div: u32,
        velocity_avg: u8,
        velocity_div: u32,
        midi_ch: u8,
    },
    AddEuclidBase {
        loop_length: u32,
        root_pitch: u8,
        pulses: u32,
        steps: u32,
        note_len_avg: u32,
        note_len_div: u32,
        velocity_avg: u8,
        velocity_div: u32,
        midi_ch: u8,
    },
    SetNbEvents { base_seq_id: u32, nb_events: u32 },
    AddFxProcessor { owner_id: u32 },
    EncoderDelta { delta: i32 },
}

/// The tempo a relative encoder step leaves behind: the step's square is
/// added with the step's sign (an input acceleration), and the result is
/// floored at zero. In hundredths of a BPM, a step of `delta` moves the
/// tempo by `delta * delta / 100` BPM exactly.
pub open spec fn encoder_bpm(bpm_centi: int, delta: int) -> int {
    let moved = if delta >= 0 {
        bpm_centi + delta * delta
    } else {
        bpm_centi - delta * delta
    };
    if moved < 0 {
        0
    } else if moved > u32::MAX as int {
        u32::MAX as int
    } else {
        moved
    }
}

impl Sequencer {
    /// Apply one parsed control command: validate its arguments, then
    /// dispatch to the corresponding mutator. Invalid arguments and unknown
    /// ids are reported and leave the state untouched; each arm's clause
    /// states the dispatched mutator's exact effect, so a dispatcher that
    /// dropped or misrouted a command would not verify.
    pub fn apply_command(&mut self, cmd: Command) -> (r: Result<(), SeqError>)
        requires
            old(self).inv(),
        ensures
            final(self).inv(),
            ({
                match cmd {
                    Command::SetStatus { status } => {
                        &&& (status <= 3 <==> r is Ok)
                        &&& (status > 3 ==> r == Err::<(), SeqError>(SeqError::InvalidArgument)
                            && *final(self) == *old(self))
                        &&& (r is Ok ==> *final(self) == (Sequencer {
                            params: (SeqParams {
                                status: seq_status_from_u32_spec(status),
                                ..old(self).params
                            }),
                            ..*old(self)
                        }))
                    },
                    Command::SetBpm { bpm_centi } => {
                        &&& (bpm_centi >= 1 <==> r is Ok)
                        &&& (bpm_centi == 0 ==> r == Err::<(), SeqError>(SeqError::InvalidArgument)
                            && *final(self) == *old(self))
                        &&& (r is Ok ==> *final(self) == (Sequencer {
                            params: (SeqParams { bpm_centi, ..old(self).params }),
                            ..*old(self)
                        }))
                    },
                    Command::EncoderDelta { delta } => {
                        &&& r is Ok
                        &&& *final(self) == (Sequencer {
                            params: (SeqParams {
                                bpm_centi: encoder_bpm(
                                    old(self).params.bpm_centi as int,
                                    delta as int,
                                ) as u32,
                                ..old(self).params
                            }),
                            ..*old(self)
                        })
                    },
                    Command::Empty => {
                        &&& r is Ok
                        &&& final(self).seqs().len() == 0
                        &&& final(self).fx_procs@.len() == 0
                        &&& final(self).params == (SeqParams { incr: 0, ..old(self).params })
                        &&& final(self).internal == old(self).internal
                        &&& final(self).rng == old(self).rng
                    },
                    Command::SetLoopLength { base_seq_id, loop_length } => change_loop_len_spec(
                        *old(self),
                        *final(self),
                        base_seq_id,
                        loop_length,
                        r,
                    ),
                    Command::Regenerate { base_seq_id } => regen_base_seq_spec(
                        *old(self),
                        *final(self),
                        base_seq_id,
                        r,
                    ),
                    Command::SetRoot { base_seq_id, midi_pitch } => {
                        &&& (midi_pitch < 12 ==> r == Err::<(), SeqError>(
                            SeqError::InvalidArgument,
                        ) && *final(self) == *old(self))
                        &&& (midi_pitch >= 12 ==> transpose_spec(
                            *old(self),
                            *final(self),
                            base_seq_id,
                            (Note {
                                pitch_class: (midi_pitch % 12) as u8,
                                octave: (midi_pitch / 12 - 1) as u8,
                            }),
                            r,
                        ))
                    },
                    Command::SetNoteLen { base_seq_id, note_len } => change_note_len_spec(
                        *old(self),
                        *final(self),
                        base_seq_id,
                        note_len,
                        r,
                    ),
                    Command::RemoveBaseSeq { base_seq_id } => remove_base_seq_spec(
                        *old(self),
                        *final(self),
                        base_seq_id,
                        r,
                    ),
                    Command::SetNbEvents { base_seq_id, nb_events } => set_nb_events_spec(
                        *old(self),
                        *final(self),
                        base_seq_id,
                        nb_events,
                        r,
                    ),
                    Command::AddFxProcessor { owner_id } => add_fx_processor_spec(
                        *old(self),
                        *final(self),
                        owner_id,
                        r,
                    ),
                    Command::AddRandomBase {
                        loop_length,
                        root_pitch,
                        nb_events,
                        note_len_avg,
                        note_len_div,
                        velocity_avg,
                        velocity_div,
                        midi_ch,
                    } => {
                        &&& (root_pitch < 12 ==> r == Err::<(), SeqError>(
                            SeqError::InvalidArgument,
                        ) && *final(self) == *old(self))
                        &&& (root_pitch >= 12 ==> add_base_seq_spec(
                            *old(self),
                            *final(self),
                            (BaseSeqParams {
                                ty: BaseSeqType::Random(RandomBase { nb_events }),
                                loop_length,
                                root_note: (Note {
                                    pitch_class: (root_pitch % 12) as u8,
                                    octave: (root_pitch / 12 - 1) as u8,
                                }),
                                note_len_avg,
                                note_len_div,
                                velocity_avg,
                                velocity_div,
                                midi_ch,
                            }),
                            r,
                        ))
                    },
                    Command::AddEuclidBase {
                        loop_length,
                        root_pitch,
                        pulses,
                        steps,
                        note_len_avg,
                        note_len_div,
                        velocity_avg,
                        velocity_div,
                        midi_ch,
                    } => {
                        &&& (root_pitch < 12 ==> r == Err::<(), SeqError>(
                            SeqError::InvalidArgument,
                        ) && *final(self) == *old(self))
                        &&& (root_pitch >= 12 ==> add_base_seq_spec(
                            *old(self),
                            *final(self),
                            (BaseSeqParams {
                                ty: BaseSeqType::Euclid(EuclidBase { pulses, steps }),
                                loop_length,
                                root_note: (Note {
                                    pitch_class: (root_pitch % 12) as u8,
                                    octave: (root_pitch / 12 - 1) as u8,
                                }),
                                note_len_avg,
                                note_len_div,
                                velocity_avg,
                                velocity_div,
                                midi_ch,
                            }),
                            r,
                        ))
                    },
                }
            }),
    {
        match cmd {
            Command::SetStatus { status } => {
                match seq_status_from_u32(status) {
                    Some(st) => {
                        self.params.status = st;
                        Ok(())
                    },
                    None => Err(SeqError::InvalidArgument),
                }
            },
            Command::SetBpm { bpm_centi } => {
                if bpm_centi == 0 {
                    return Err(SeqError::InvalidArgument);
                }
                self.params.bpm_centi = bpm_centi;
                Ok(())
            },
            Command::SetLoopLength { base_seq_id, loop_length } => {
                match self.change_loop_len(base_seq_id, loop_length) {
                    Ok(()) => Ok(()),
                    Err(e) => Err(e),
                }
            },
            Command::Regenerate { base_seq_id } => {
                match self.regen_base_seq(base_seq_id) {
                    Ok(()) => Ok(()),
                    Err(e) => Err(e),
                }
            },
            Command::SetRoot { base_seq_id, midi_pitch } => {
                if midi_pitch > 127 {
                    proof {
                        let nt = Note {
                            pitch_class: (midi_pitch % 12) as u8,
                            octave: (midi_pitch / 12 - 1) as u8,
                        };
                        assert(nt.midi_val() == midi_pitch) by {
                            vstd::arithmetic::div_mod::lemma_fundamental_div_mod(
                                midi_pitch as int,
                                12,
                            );
                        };
                    }
                    return Err(SeqError::InvalidArgument);
                }
                let note = match midi_pitch_to_note(midi_pitch) {
                    Ok(n) => n,
                    Err(e) => {
                        return Err(e);
                    },
                };
                match self.transpose(base_seq_id, note) {
                    Ok(()) => Ok(()),
                    Err(e) => Err(e),
                }
            },
            Command::SetNoteLen { base_seq_id, note_len } => {
                match self.change_note_len(base_seq_id, note_len) {
                    Ok(()) => Ok(()),
                    Err(e) => Err(e),
                }
            },
            Command::Empty => {
                self.empty();
                Ok(())
            },
            Command::RemoveBaseSeq { base_seq_id } => {
                match self.remove_base_seq(base_seq_id) {
                    Ok(()) => Ok(()),
                    Err(e) => Err(e),
                }
            },
            Command::AddRandomBase {
                loop_length,
                root_pitch,
                nb_events,
                note_len_avg,
                note_len_div,
                velocity_avg,
                velocity_div,
                midi_ch,
            } => {
                let root_note = match midi_pitch_to_note(root_pitch) {
                    Ok(n) => n,
                    Err(e) => {
                        return Err(e);
                    },
                };
                let params = BaseSeqParams {
                    ty: BaseSeqType::Random(RandomBase { nb_events }),
                    loop_length,
                    root_note,
                    note_len_avg,
                    note_len_div,
                    velocity_avg,
                    velocity_div,
                    midi_ch,
                };
                match self.add_base_seq(params) {
                    Ok(()) => Ok(()),
                    Err(e) => Err(e),
                }
            },
            Command::AddEuclidBase {
                loop_length,
                root_pitch,
                pulses,
                steps,
                note_len_avg,
                note_len_div,
                velocity_avg,
                velocity_div,
                midi_ch,
            } => {
                let root_note = match midi_pitch_to_note(root_pitch) {
                    Ok(n) => n,
                    Err(e) => {
                        return Err(e);
                    },
                };
                let params = BaseSeqParams {
                    ty: BaseSeqType::Euclid(EuclidBase { pulses, steps }),
                    loop_length,
                    root_note,
                    note_len_avg,
                    note_len_div,
                    velocity_avg,
                    velocity_div,
                    midi_ch,
                };
                match self.add_base_seq(params) {
                    Ok(()) => Ok(()),
                    Err(e) => Err(e),
                }
            },
            Command::SetNbEvents { base_seq_id, nb_events } => {
                match self.set_nb_events(base_seq_id, nb_events) {
                    Ok(()) => Ok(()),
                    Err(e) => Err(e),
                }
            },
            Command::AddFxProcessor { owner_id } => {
                match self.add_fx_processor(owner_id) {
                    Ok(()) => Ok(()),
                    Err(e) => Err(e),
                }
            },
            Command::EncoderDelta { delta } => {
                proof {
                    assert(0 <= (delta as int) * (delta as int) <= 0x4000_0000_0000_0000)
                        by (nonlinear_arith)
                        requires
                            -0x8000_0000 <= delta as int <= 0x7FFF_FFFF,
                    ;
                }
                let dd = (delta as i64) * (delta as i64);
                let moved: i64 = if delta >= 0 {
                    self.params.bpm_centi as i64 + dd
                } else {
                    self.params.bpm_centi as i64 - dd
                };
                let clamped: u32 = if moved < 0 {
                    0
                } else if moved > u32::MAX as i64 {
                    u32::MAX
                } else {
                    moved as u32
                };
                self.params.bpm_centi = clamped;
                Ok(())
            },
        }
    }
}

/// The status a numeric control argument stands for, as a specification.
pub open spec fn seq_status_from_u32_spec(v: u32) -> SeqStatus {
    if v == 0 {
        SeqStatus::Stop
    } else if v == 1 {
        SeqStatus::Start
    } else if v == 2 {
        SeqStatus::Pause
    } else {
        SeqStatus::Shutdown
    }
}

} // verus!
