use gisele::cmd::Command;
use gisele::midi::{Note, TICKS_PER_BAR};
use gisele::seq::{BaseSeqParams, BaseSeqType, EuclidBase, Event, EventType, RandomBase, SeqStatus, Sequencer};
use gisele::SeqError;

const BAR: u32 = TICKS_PER_BAR;
const BPM_120: u32 = 12_000;

fn note_of(e: &Event) -> gisele::midi::MidiNote {
    match e.e_type {
        EventType::MidiNote(n) => n,
        EventType::Fill => panic!("expected a note event"),
    }
}

fn random_params(loop_length: u32, nb_events: u32, note_len_avg: u32, midi_ch: u8) -> BaseSeqParams {
    BaseSeqParams {
        ty: BaseSeqType::Random(RandomBase { nb_events }),
        loop_length,
        root_note: Note { pitch_class: 0, octave: 4 },
        note_len_avg,
        note_len_div: 0,
        velocity_avg: 100,
        velocity_div: 0,
        midi_ch,
    }
}

fn euclid_params(loop_length: u32, pulses: u32, steps: u32, midi_ch: u8) -> BaseSeqParams {
    BaseSeqParams {
        ty: BaseSeqType::Euclid(EuclidBase { pulses, steps }),
        loop_length,
        root_note: Note { pitch_class: 0, octave: 4 },
        note_len_avg: BAR / 2,
        note_len_div: 0,
        velocity_avg: 100,
        velocity_div: 0,
        midi_ch,
    }
}

/// The microseconds one tick must span for the window to advance by `ticks`
/// grid positions at 120 BPM.
fn usecs_for(ticks: u32) -> u64 {
    ticks as u64 * 6000 / BPM_120 as u64
}

fn assert_sorted_and_head_ok(seq: &Sequencer) {
    for bs in &seq.base_seqs {
        for w in bs.event_buffer.windows(2) {
            assert!(w[0].bar_pos <= w[1].bar_pos);
        }
        if bs.event_buffer.is_empty() {
            assert_eq!(bs.event_head, 0);
        } else {
            assert!(bs.event_head < bs.event_buffer.len());
        }
    }
}

#[test]
fn single_random_note_on_then_off() {
    // One random voice: BPM 120, loop four bars, one note of half a bar with
    // no deviation. The note-on lands at the loop start and its note-off
    // half a bar later. The head starts strictly after position zero, so the
    // note-off sounds in the quarter-bar cycle covering the half-bar mark,
    // and the note-on in the cycle that opens the second pass of the loop.
    let mut seq = Sequencer::new_seeded(BPM_120, 7);
    seq.add_base_seq(random_params(4 * BAR, 1, BAR / 2, 1)).unwrap();
    assert_eq!(seq.base_seqs[0].event_buffer.len(), 2);
    seq.apply_command(Command::SetStatus { status: 1 }).unwrap();

    let dt = usecs_for(BAR / 4);
    let mut t = 0u64;
    let mut per_cycle: Vec<Vec<gisele::seq::Event>> = Vec::new();
    for _ in 0..17 {
        per_cycle.push(seq.tick(t, t + dt));
        t += dt;
    }
    // The note-off at half a bar comes in the third cycle, [0.5, 0.75) bars.
    for (c, out) in per_cycle.iter().enumerate() {
        if c == 2 {
            assert_eq!(out.len(), 1);
            let off = note_of(&out[0]);
            assert!(!off.on_off);
            assert_eq!(off.channel, 1);
            assert_eq!(off.velocity, 100);
            assert_eq!(out[0].bar_pos, BAR / 2);
        } else if c == 16 {
            // The cycle [4.0, 4.25) bars opens the second pass: the note-on
            // at position zero sounds now, exactly once.
            assert_eq!(out.len(), 1);
            let on = note_of(&out[0]);
            assert!(on.on_off);
            assert_eq!(on.channel, 1);
            assert_eq!(out[0].bar_pos, 0);
        } else {
            assert_eq!(out.len(), 0);
        }
    }
    assert_eq!(seq.internal.window_end, 17 * (BAR / 4) as u64);
}

#[test]
fn euclid_three_eight_plays_on_the_grid() {
    // Euclid(3,8) over eight bars: the pattern is 1,0,0,1,0,0,1,0, so the
    // note-ons of the first full pass lie on bars 0, 3 and 6 with the root
    // pitch 60 on the configured channel.
    let mut seq = Sequencer::new_seeded(BPM_120, 11);
    seq.add_base_seq(euclid_params(8 * BAR, 3, 8, 2)).unwrap();
    seq.apply_command(Command::SetStatus { status: 1 }).unwrap();

    let dt = usecs_for(8 * BAR) as u64;
    let out = seq.tick(0, dt);
    let ons: Vec<&Event> = out.iter().filter(|e| note_of(e).on_off).collect();
    assert_eq!(ons.len(), 3);
    let mut on_positions: Vec<u32> = ons.iter().map(|e| e.bar_pos).collect();
    on_positions.sort();
    assert_eq!(on_positions, vec![0, 3 * BAR, 6 * BAR]);
    for e in &ons {
        let n = note_of(e);
        assert_eq!(n.pitch, 60);
        assert_eq!(n.channel, 2);
    }
    // Each pulse also has its note-off half a bar later.
    assert_eq!(out.len(), 6);
}

#[test]
fn stop_sends_all_notes_off_and_rewinds() {
    // Two voices on channels 1 and 3: a stop tick emits 128 note-offs of
    // velocity 1 for each used channel, then the window and every head sit
    // at zero.
    let mut seq = Sequencer::new_seeded(BPM_120, 3);
    seq.add_base_seq(random_params(4 * BAR, 2, BAR / 2, 1)).unwrap();
    seq.add_base_seq(euclid_params(8 * BAR, 3, 8, 3)).unwrap();
    seq.apply_command(Command::SetStatus { status: 1 }).unwrap();
    seq.tick(0, usecs_for(BAR));
    assert!(seq.internal.window_end > 0);

    seq.apply_command(Command::SetStatus { status: 0 }).unwrap();
    let out = seq.tick(0, usecs_for(BAR / 4));
    assert_eq!(out.len(), 2 * 128);
    for e in &out {
        let n = note_of(e);
        assert!(!n.on_off);
        assert_eq!(n.velocity, 1);
        assert!(n.channel == 1 || n.channel == 3);
    }
    assert_eq!(seq.internal.window_start, 0);
    assert_eq!(seq.internal.window_end, 0);
    for bs in &seq.base_seqs {
        assert_eq!(bs.event_head, 0);
    }

    // Silent afterwards: the next tick emits nothing and moves nothing.
    let out2 = seq.tick(0, usecs_for(BAR));
    assert_eq!(out2.len(), 0);
    assert_eq!(seq.internal.window_end, 0);
}

#[test]
fn stop_with_all_sixteen_channels() {
    // With every MIDI channel in use the stop tail is 16 * 128 note-offs.
    let mut seq = Sequencer::new_seeded(BPM_120, 5);
    for ch in 1..=16u8 {
        seq.add_base_seq(random_params(4 * BAR, 0, BAR / 2, ch)).unwrap();
    }
    seq.apply_command(Command::SetStatus { status: 1 }).unwrap();
    seq.tick(0, usecs_for(BAR));
    seq.apply_command(Command::SetStatus { status: 0 }).unwrap();
    let out = seq.tick(0, usecs_for(BAR / 4));
    assert_eq!(out.len(), 16 * 128);
}

#[test]
fn pause_silences_but_keeps_position() {
    let mut seq = Sequencer::new_seeded(BPM_120, 13);
    seq.add_base_seq(random_params(4 * BAR, 2, BAR / 2, 4)).unwrap();
    seq.apply_command(Command::SetStatus { status: 1 }).unwrap();
    seq.tick(0, usecs_for(BAR));
    let w = seq.internal.window_end;
    seq.apply_command(Command::SetStatus { status: 2 }).unwrap();
    let out = seq.tick(0, usecs_for(BAR / 4));
    assert_eq!(out.len(), 128);
    assert!(seq.internal.window_end > w);
}

#[test]
fn set_nb_events_resynchronizes_the_head() {
    // After a mid-playback regeneration the head points at the first event
    // strictly after the prior window end reduced into the loop.
    let mut seq = Sequencer::new_seeded(BPM_120, 17);
    seq.add_base_seq(random_params(4 * BAR, 3, BAR / 2, 1)).unwrap();
    seq.apply_command(Command::SetStatus { status: 1 }).unwrap();
    seq.tick(0, usecs_for(BAR + BAR / 3));
    let window_end = seq.internal.window_end;

    seq.apply_command(Command::SetNbEvents { base_seq_id: 0, nb_events: 5 }).unwrap();
    let bs = &seq.base_seqs[0];
    assert_eq!(bs.event_buffer.len(), 10);
    let key = (window_end % (bs.params.loop_length as u64)) as u32;
    let expected = match bs.event_buffer.iter().position(|e| e.bar_pos > key) {
        Some(i) => i,
        None => 0,
    };
    assert_eq!(bs.event_head, expected);
    assert_sorted_and_head_ok(&seq);
}

#[test]
fn shrunk_loop_skips_expired_events() {
    // Shrinking the loop under the highest positions leaves those events in
    // the buffer; the tick skips them and emits only in-range ones.
    let mut seq = Sequencer::new_seeded(BPM_120, 19);
    seq.add_base_seq(euclid_params(8 * BAR, 3, 8, 1)).unwrap();
    seq.apply_command(Command::SetLoopLength { base_seq_id: 0, loop_length: 2 * BAR }).unwrap();
    assert!(seq.base_seqs[0].event_buffer.iter().any(|e| e.bar_pos >= 2 * BAR));
    seq.apply_command(Command::SetStatus { status: 1 }).unwrap();

    let out = seq.tick(0, usecs_for(2 * BAR));
    assert_eq!(out.len(), 2);
    for e in &out {
        assert!(e.bar_pos < 2 * BAR);
    }
    assert_sorted_and_head_ok(&seq);
}

#[test]
fn fx_processor_jitters_pitch_within_range() {
    // A pitch-jitter processor moves each emitted pitch by at most six
    // semitones around the buffered pitch, clamped to the MIDI range;
    // everything else of the event is untouched.
    let mut seq = Sequencer::new_seeded(BPM_120, 23);
    seq.add_base_seq(euclid_params(8 * BAR, 3, 8, 1)).unwrap();
    seq.apply_command(Command::AddFxProcessor { owner_id: 0 }).unwrap();
    assert_eq!(seq.base_seqs[0].fx_proc_ids, vec![1]);
    seq.apply_command(Command::SetStatus { status: 1 }).unwrap();

    let out = seq.tick(0, usecs_for(8 * BAR));
    assert_eq!(out.len(), 6);
    for e in &out {
        let n = note_of(e);
        assert!(54 <= n.pitch && n.pitch <= 66);
        assert_eq!(n.channel, 1);
        assert_eq!(n.velocity, 100);
    }
}

#[test]
fn window_advances_monotonically_while_playing() {
    let mut seq = Sequencer::new_seeded(BPM_120, 29);
    seq.add_base_seq(random_params(4 * BAR, 1, BAR / 2, 1)).unwrap();
    seq.apply_command(Command::SetStatus { status: 1 }).unwrap();
    let mut prev_end = 0u64;
    let mut t = 0u64;
    for _ in 0..5 {
        let dt = usecs_for(BAR / 8);
        seq.tick(t, t + dt);
        assert_eq!(seq.internal.window_start, prev_end);
        assert!(seq.internal.window_end > prev_end);
        prev_end = seq.internal.window_end;
        t += dt;
    }
}

#[test]
fn emitted_count_matches_events_in_window() {
    // Over one whole loop of quarter-bar cycles, each buffered event is
    // emitted exactly once: the per-cycle counts sum to the buffer length.
    let mut seq = Sequencer::new_seeded(BPM_120, 31);
    seq.add_base_seq(random_params(4 * BAR, 6, BAR / 2, 1)).unwrap();
    let total_events = seq.base_seqs[0].event_buffer.len();
    assert_eq!(total_events, 12);
    seq.apply_command(Command::SetStatus { status: 1 }).unwrap();
    let dt = usecs_for(BAR / 4);
    let mut t = 0u64;
    for _ in 0..16 {
        seq.tick(t, t + dt);
        t += dt;
    }
    // Over the second full pass of the loop every buffered event falls in
    // exactly one quarter-bar window, so the per-cycle counts sum to the
    // buffer length.
    let mut emitted = 0usize;
    for _ in 0..16 {
        emitted += seq.tick(t, t + dt).len();
        t += dt;
    }
    assert_eq!(emitted, total_events);
}

#[test]
fn transpose_shifts_pitches_and_composes() {
    // Transposing from C4 to D4 then to E4 gives the buffer of the direct
    // transposition to E4 when nothing clamps.
    let mut seq_twice = Sequencer::new_seeded(BPM_120, 37);
    seq_twice.add_base_seq(euclid_params(8 * BAR, 3, 8, 1)).unwrap();
    let mut seq_once = Sequencer::new_seeded(BPM_120, 37);
    seq_once.add_base_seq(euclid_params(8 * BAR, 3, 8, 1)).unwrap();
    assert_eq!(seq_twice.base_seqs[0].event_buffer, seq_once.base_seqs[0].event_buffer);

    let d4 = Note { pitch_class: 2, octave: 4 };
    let e4 = Note { pitch_class: 4, octave: 4 };
    seq_twice.transpose(0, d4).unwrap();
    for e in &seq_twice.base_seqs[0].event_buffer {
        assert_eq!(note_of(e).pitch, 62);
    }
    seq_twice.transpose(0, e4).unwrap();
    seq_once.transpose(0, e4).unwrap();
    assert_eq!(seq_twice.base_seqs[0].event_buffer, seq_once.base_seqs[0].event_buffer);
    for e in &seq_once.base_seqs[0].event_buffer {
        assert_eq!(note_of(e).pitch, 64);
    }
}

#[test]
fn transpose_clamps_at_the_midi_range() {
    let mut seq = Sequencer::new_seeded(BPM_120, 41);
    seq.add_base_seq(euclid_params(8 * BAR, 3, 8, 1)).unwrap();
    // From C4 (60) up to pitch 120: a shift of +60 clamps at 127.
    seq.transpose(0, Note { pitch_class: 0, octave: 9 }).unwrap();
    for e in &seq.base_seqs[0].event_buffer {
        assert_eq!(note_of(e).pitch, 120);
    }
    seq.transpose(0, Note { pitch_class: 0, octave: 4 }).unwrap();
    for e in &seq.base_seqs[0].event_buffer {
        assert_eq!(note_of(e).pitch, 60);
    }
}

#[test]
fn change_note_len_moves_only_note_offs_and_composes() {
    // Note-ons stay; note-offs move by the difference of the averages,
    // wrapped into the loop. Two changes land where the single change does.
    let mut seq = Sequencer::new_seeded(BPM_120, 43);
    seq.add_base_seq(euclid_params(8 * BAR, 3, 8, 1)).unwrap();
    let ons_before: Vec<u32> = seq.base_seqs[0]
        .event_buffer
        .iter()
        .filter(|e| note_of(e).on_off)
        .map(|e| e.bar_pos)
        .collect();

    let mut seq_once = Sequencer::new_seeded(BPM_120, 43);
    seq_once.add_base_seq(euclid_params(8 * BAR, 3, 8, 1)).unwrap();

    seq.apply_command(Command::SetNoteLen { base_seq_id: 0, note_len: BAR }).unwrap();
    seq.apply_command(Command::SetNoteLen { base_seq_id: 0, note_len: BAR / 4 }).unwrap();
    seq_once.apply_command(Command::SetNoteLen { base_seq_id: 0, note_len: BAR / 4 }).unwrap();

    let offs = |s: &Sequencer| -> Vec<u32> {
        let mut v: Vec<u32> = s.base_seqs[0]
            .event_buffer
            .iter()
            .filter(|e| !note_of(e).on_off)
            .map(|e| e.bar_pos)
            .collect();
        v.sort();
        v
    };
    assert_eq!(offs(&seq), offs(&seq_once));
    // The expected positions: each on moved a quarter bar right.
    let mut expected: Vec<u32> = ons_before.iter().map(|&p| (p + BAR / 4) % (8 * BAR)).collect();
    expected.sort();
    assert_eq!(offs(&seq), expected);
    let ons_after: Vec<u32> = seq.base_seqs[0]
        .event_buffer
        .iter()
        .filter(|e| note_of(e).on_off)
        .map(|e| e.bar_pos)
        .collect();
    assert_eq!(ons_before, ons_after);
    assert_sorted_and_head_ok(&seq);
}

#[test]
fn random_generation_stays_on_the_scale() {
    // Every generated note-on pitch belongs to the Ionian scale of the root.
    let mut seq = Sequencer::new_seeded(BPM_120, 47);
    seq.add_base_seq(random_params(4 * BAR, 32, BAR / 2, 1)).unwrap();
    let scale = [60u8, 62, 64, 65, 67, 69, 71, 72];
    assert_eq!(seq.base_seqs[0].event_buffer.len(), 64);
    for e in &seq.base_seqs[0].event_buffer {
        assert!(scale.contains(&note_of(e).pitch));
        assert!(e.bar_pos < 4 * BAR);
    }
    assert_sorted_and_head_ok(&seq);
}

#[test]
fn seeded_generation_is_deterministic() {
    let mut a = Sequencer::new_seeded(BPM_120, 53);
    let mut b = Sequencer::new_seeded(BPM_120, 53);
    a.add_base_seq(random_params(4 * BAR, 8, BAR / 2, 1)).unwrap();
    b.add_base_seq(random_params(4 * BAR, 8, BAR / 2, 1)).unwrap();
    assert_eq!(a.base_seqs[0].event_buffer, b.base_seqs[0].event_buffer);
}

#[test]
fn errors_on_bad_arguments_and_missing_ids() {
    let mut seq = Sequencer::new_seeded(BPM_120, 59);
    assert_eq!(seq.regen_base_seq(0).unwrap_err(), SeqError::NotFound);
    assert_eq!(seq.remove_base_seq(3).unwrap_err(), SeqError::NotFound);
    assert_eq!(seq.add_fx_processor(0).unwrap_err(), SeqError::NotFound);
    assert_eq!(
        seq.apply_command(Command::SetBpm { bpm_centi: 0 }).unwrap_err(),
        SeqError::InvalidArgument
    );
    assert_eq!(
        seq.apply_command(Command::SetStatus { status: 9 }).unwrap_err(),
        SeqError::InvalidArgument
    );

    seq.add_base_seq(euclid_params(8 * BAR, 3, 8, 1)).unwrap();
    // Resizing a Euclidean voice is refused.
    assert_eq!(
        seq.set_nb_events(0, 5).unwrap_err(),
        SeqError::InvalidArgument
    );
    assert_eq!(
        seq.change_loop_len(0, 0).unwrap_err(),
        SeqError::InvalidArgument
    );
    // A root below the first octave is refused.
    assert_eq!(
        seq.apply_command(Command::SetRoot { base_seq_id: 0, midi_pitch: 5 }).unwrap_err(),
        SeqError::InvalidArgument
    );
    // More pulses than steps is refused with a generation error.
    assert_eq!(
        seq.add_base_seq(euclid_params(8 * BAR, 9, 8, 1)).unwrap_err(),
        SeqError::GenerationRefused
    );
    // An indivisible loop refuses generation by leaving the buffer empty.
    seq.add_base_seq(euclid_params(8 * BAR + 1, 3, 8, 1)).unwrap();
    assert_eq!(seq.base_seqs[1].event_buffer.len(), 0);
}

#[test]
fn encoder_delta_accelerates_the_tempo() {
    let mut seq = Sequencer::new_seeded(BPM_120, 61);
    seq.apply_command(Command::EncoderDelta { delta: 5 }).unwrap();
    assert_eq!(seq.params.bpm_centi, BPM_120 + 25);
    seq.apply_command(Command::EncoderDelta { delta: -5 }).unwrap();
    assert_eq!(seq.params.bpm_centi, BPM_120);
    // A huge negative step floors the tempo at zero.
    seq.apply_command(Command::EncoderDelta { delta: -4000 }).unwrap();
    assert_eq!(seq.params.bpm_centi, 0);
}

#[test]
fn empty_drops_everything_and_resets_ids() {
    let mut seq = Sequencer::new_seeded(BPM_120, 67);
    seq.add_base_seq(random_params(4 * BAR, 1, BAR / 2, 1)).unwrap();
    seq.add_base_seq(random_params(4 * BAR, 1, BAR / 2, 2)).unwrap();
    seq.apply_command(Command::AddFxProcessor { owner_id: 0 }).unwrap();
    assert_eq!(seq.params.incr, 3);
    seq.apply_command(Command::Empty).unwrap();
    assert_eq!(seq.base_seqs.len(), 0);
    assert_eq!(seq.fx_procs.len(), 0);
    assert_eq!(seq.params.incr, 0);
    seq.add_base_seq(random_params(4 * BAR, 1, BAR / 2, 1)).unwrap();
    assert_eq!(seq.base_seqs[0].id, 0);
}

#[test]
fn remove_base_seq_keeps_the_others() {
    let mut seq = Sequencer::new_seeded(BPM_120, 71);
    seq.add_base_seq(random_params(4 * BAR, 1, BAR / 2, 1)).unwrap();
    seq.add_base_seq(random_params(4 * BAR, 2, BAR / 2, 2)).unwrap();
    seq.remove_base_seq(0).unwrap();
    assert_eq!(seq.base_seqs.len(), 1);
    assert_eq!(seq.base_seqs[0].id, 1);
    assert!(seq.get_base_seq(0).is_err());
    assert!(seq.get_base_seq(1).is_ok());
}

#[test]
fn buffers_stay_sorted_after_every_mutator() {
    let mut seq = Sequencer::new_seeded(BPM_120, 73);
    seq.add_base_seq(random_params(4 * BAR, 5, BAR / 2, 1)).unwrap();
    assert_sorted_and_head_ok(&seq);
    seq.apply_command(Command::SetNoteLen { base_seq_id: 0, note_len: 3 * BAR }).unwrap();
    assert_sorted_and_head_ok(&seq);
    seq.apply_command(Command::Regenerate { base_seq_id: 0 }).unwrap();
    assert_sorted_and_head_ok(&seq);
    seq.apply_command(Command::SetNbEvents { base_seq_id: 0, nb_events: 9 }).unwrap();
    assert_sorted_and_head_ok(&seq);
    seq.transpose(0, Note { pitch_class: 7, octave: 3 }).unwrap();
    assert_sorted_and_head_ok(&seq);
}

#[test]
fn incr_event_head_wraps_and_ignores_empty() {
    let mut seq = Sequencer::new_seeded(BPM_120, 79);
    seq.add_base_seq(random_params(4 * BAR, 1, BAR / 2, 1)).unwrap();
    let bs = &mut seq.base_seqs[0];
    assert_eq!(bs.event_buffer.len(), 2);
    let start = bs.event_head;
    bs.incr_event_head();
    bs.incr_event_head();
    assert_eq!(bs.event_head, start);

    let mut seq2 = Sequencer::new_seeded(BPM_120, 79);
    seq2.add_base_seq(random_params(4 * BAR, 0, BAR / 2, 1)).unwrap();
    let bs2 = &mut seq2.base_seqs[0];
    bs2.incr_event_head();
    assert_eq!(bs2.event_head, 0);
}

#[test]
fn notes_off_lists_every_pitch_once_per_used_channel() {
    let mut seq = Sequencer::new_seeded(BPM_120, 83);
    seq.add_base_seq(random_params(4 * BAR, 0, BAR / 2, 3)).unwrap();
    let out = seq.notes_off();
    assert_eq!(out.len(), 128);
    for (p, e) in out.iter().enumerate() {
        let n = note_of(e);
        assert!(!n.on_off);
        assert_eq!(n.channel, 3);
        assert_eq!(n.pitch, p as u8);
        assert_eq!(n.velocity, 1);
    }
}

#[test]
fn shutdown_acts_like_pause_on_the_tick() {
    let mut seq = Sequencer::new_seeded(BPM_120, 89);
    seq.add_base_seq(random_params(4 * BAR, 1, BAR / 2, 1)).unwrap();
    seq.apply_command(Command::SetStatus { status: 1 }).unwrap();
    seq.tick(0, usecs_for(BAR / 4));
    seq.apply_command(Command::SetStatus { status: 3 }).unwrap();
    assert_eq!(seq.params.status, SeqStatus::Shutdown);
    let out = seq.tick(0, usecs_for(BAR / 4));
    assert_eq!(out.len(), 128);
    assert!(seq.internal.window_end > 0);
}
