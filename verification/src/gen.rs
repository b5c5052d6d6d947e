//! Pattern generators: pure construction of a base sequence's event buffer
//! from its parameter record and a random-number generator.

use vstd::prelude::*;

use crate::euclid::{count_ones, euclid_pattern, gen_euclid};
use crate::midi::{note_to_midi_pitch, MidiNote};
use crate::rng::{centered_draw, rand_below};
use crate::scale::{ionian_pitch_class, ionian_scale_of};
use crate::seq::{BaseSeqParams, BaseSeqType, Event, EventType};
use crate::SeqError;

verus! {

/// Generated buffers come in note-on / note-off pairs: the event at an even
/// index turns a note on, the following event turns the same note off.
pub open spec fn gen_pairs_wf(s: Seq<Event>, p: BaseSeqParams) -> bool {
    &&& s.len() % 2 == 0
    &&& forall|k: int|
        0 <= k < s.len() / 2 ==> {
            let on = #[trigger] s[2 * k];
            let off = s[2 * k + 1];
            &&& on.spec_note().on_off == true
            &&& off.spec_note().on_off == false
            &&& on.spec_note().pitch == off.spec_note().pitch
            &&& on.spec_note().velocity == off.spec_note().velocity
        }
}

/// Every generated event is a well-formed note on the sequence's channel,
/// positioned inside the loop.
pub open spec fn gen_events_ok(s: Seq<Event>, p: BaseSeqParams) -> bool {
    forall|i: int|
        0 <= i < s.len() ==> (#[trigger] s[i]).wf_on_channel(p.midi_ch) && s[i].bar_pos
            < p.loop_length
}

/// Draw a velocity around `avg` with deviation `div`, clamped to the MIDI
/// range.
fn draw_velocity(rng: &mut rand::rngs::StdRng, avg: u8, div: u32) -> (v: u8)
    requires
        avg <= 127,
        div <= 1_000_000,
    ensures
        v <= 127,
        div == 0 ==> v == avg,
{
    let c = centered_draw(rng, div);
    let val: i64 = avg as i64 + c;
    if val < 0 {
        0
    } else if val > 127 {
        127
    } else {
        val as u8
    }
}

/// Draw a note length in ticks around `avg` with deviation `div`; draws
/// below zero clamp to zero.
fn draw_note_len(rng: &mut rand::rngs::StdRng, avg: u32, div: u32) -> (l: u64)
    requires
        div <= 1_000_000_000,
    ensures
        l <= avg + 6_000_000_000,
        div == 0 ==> l == avg,
{
    let c = centered_draw(rng, div);
    let val: i64 = avg as i64 + c;
    if val < 0 {
        0
    } else {
        val as u64
    }
}

/// Generate the buffer of a random base sequence: for each of `nb_events`
/// notes, a pitch drawn from the Ionian scale of the root, a velocity and a
/// length drawn around their configured averages, a note-on at the current
/// offset and the matching note-off a note-length later (wrapped into the
/// loop); offsets advance by a uniform draw over the loop.
pub fn gen_rand_midi_vec(params: &BaseSeqParams, rng: &mut rand::rngs::StdRng) -> (r: Vec<Event>)
    requires
        params.wf(),
        params.ty is Random,
    ensures
        r@.len() == 2 * params.spec_nb_events(),
        gen_events_ok(r@, *params),
        gen_pairs_wf(r@, *params),
        params.spec_nb_events() > 0 ==> r@[0].bar_pos == 0,
        params.root_note.octave <= 7 ==> forall|j: int|
            0 <= j < r@.len() ==> ionian_pitch_class(
                params.root_note.pitch_class as int,
                (#[trigger] r@[j]).spec_note().pitch as int,
            ),
        params.velocity_div == 0 ==> forall|j: int|
            0 <= j < r@.len() ==> (#[trigger] r@[j]).spec_note().velocity == params.velocity_avg,
        params.note_len_div == 0 ==> forall|k: int|
            0 <= k < params.spec_nb_events() ==> (#[trigger] r@[2 * k + 1]).bar_pos as int == (
            r@[2 * k].bar_pos + params.note_len_avg) as int % params.loop_length as int,
{
    let nb = match params.ty {
        BaseSeqType::Random(r) => r.nb_events,
        BaseSeqType::Euclid(_) => 0,
    };
    let scale = ionian_scale_of(&params.root_note);
    let mut events: Vec<Event> = Vec::new();
    let mut step_offset: u32 = 0;
    let mut k: u32 = 0;
    while k < nb
        invariant
            params.wf(),
            k <= nb,
            scale@.len() == 8,
            forall|i: int| 0 <= i < 8 ==> scale@[i] <= 127,
            params.root_note.octave <= 7 ==> forall|i: int|
                0 <= i < 8 ==> ionian_pitch_class(
                    params.root_note.pitch_class as int,
                    (#[trigger] scale@[i]) as int,
                ),
            step_offset < params.loop_length,
            k == 0 ==> step_offset == 0,
            events@.len() == 2 * k,
            gen_events_ok(events@, *params),
            gen_pairs_wf(events@, *params),
            events@.len() > 0 ==> events@[0].bar_pos == 0,
            params.root_note.octave <= 7 ==> forall|j: int|
                0 <= j < events@.len() ==> ionian_pitch_class(
                    params.root_note.pitch_class as int,
                    (#[trigger] events@[j]).spec_note().pitch as int,
                ),
            params.velocity_div == 0 ==> forall|j: int|
                0 <= j < events@.len() ==> (#[trigger] events@[j]).spec_note().velocity
                    == params.velocity_avg,
            params.note_len_div == 0 ==> forall|kk: int|
                0 <= kk < k ==> (#[trigger] events@[2 * kk + 1]).bar_pos as int == (events@[2
                    * kk].bar_pos + params.note_len_avg) as int % params.loop_length as int,
        decreases nb - k,
    {
        let idx = rand_below(rng, 8);
        let pitch = scale[idx as usize];
        let velocity = draw_velocity(rng, params.velocity_avg, params.velocity_div);
        let note_len = draw_note_len(rng, params.note_len_avg, params.note_len_div);
        let on = Event {
            e_type: EventType::MidiNote(
                MidiNote { on_off: true, channel: params.midi_ch, pitch, velocity },
            ),
            bar_pos: step_offset,
        };
        let off_pos = ((step_offset as u64 + note_len) % (params.loop_length as u64)) as u32;
        let off = Event {
            e_type: EventType::MidiNote(
                MidiNote { on_off: false, channel: params.midi_ch, pitch, velocity },
            ),
            bar_pos: off_pos,
        };
        let ghost before = events@;
        events.push(on);
        events.push(off);
        proof {
            assert(events@ == before.push(on).push(off));
            assert(forall|i: int| 0 <= i < before.len() ==> events@[i] == before[i]);
            assert(events@[2 * k as int] == on);
            assert(events@[2 * k as int + 1] == off);
        }
        let incr = rand_below(rng, params.loop_length);
        step_offset = ((step_offset as u64 + incr as u64) % (params.loop_length as u64)) as u32;
        k = k + 1;
    }
    events
}

/// What ties a stored buffer to the generator that filled it: the buffer is
/// a permutation of a generated sequence `g` with the generator's
/// guarantees — well-formed paired events, the random count, the Euclidean
/// pattern's note-on grid, and scale membership of random pitches.
pub open spec fn generated_from(buf: Seq<Event>, g: Seq<Event>, p: BaseSeqParams) -> bool {
    &&& buf.to_multiset() == g.to_multiset()
    &&& (forall|key: u32|
        crate::seq::events_at_pos(buf, key) == crate::seq::events_at_pos(g, key))
    &&& gen_events_ok(g, p)
    &&& gen_pairs_wf(g, p)
    &&& (p.ty is Random ==> {
        &&& g.len() == 2 * p.spec_nb_events()
        &&& (p.root_note.octave <= 7 ==> forall|j: int|
            0 <= j < g.len() ==> crate::scale::ionian_pitch_class(
                p.root_note.pitch_class as int,
                (#[trigger] g[j]).spec_note().pitch as int,
            ))
    })
    &&& (p.ty is Euclid && p.spec_steps() > 0 && p.loop_length as int % p.spec_steps() as int
        == 0 && p.spec_pulses() <= p.spec_steps() ==> {
        let delta = p.loop_length as int / p.spec_steps() as int;
        &&& g.len() == 2 * p.spec_pulses()
        &&& (forall|a: int|
            0 <= a < p.spec_pulses() ==> (#[trigger] g[2 * a]).bar_pos as int == pulse_positions(
            euclid_pattern(p.spec_pulses(), p.spec_steps()), delta)[a])
        &&& (forall|j: int|
            0 <= j < g.len() ==> (#[trigger] g[j]).spec_note().pitch == p.root_note.midi_val())
    })
    &&& (p.ty is Euclid && !(p.spec_steps() > 0 && p.loop_length as int % p.spec_steps() as int
        == 0) ==> g.len() == 0)
}

/// The grid positions of a pattern's pulses: for every index holding a 1,
/// the index times the step width, in index order.
pub open spec fn pulse_positions(pat: Seq<u8>, delta: int) -> Seq<int>
    decreases pat.len(),
{
    if pat.len() == 0 {
        Seq::empty()
    } else {
        pulse_positions(pat.drop_last(), delta) + (if pat.last() == 1 {
            seq![(pat.len() - 1) * delta]
        } else {
            Seq::<int>::empty()
        })
    }
}

/// A pattern has as many pulse positions as ones.
pub proof fn lemma_pulse_positions_len(pat: Seq<u8>, delta: int)
    ensures
        pulse_positions(pat, delta).len() == count_ones(pat),
    decreases pat.len(),
{
    if pat.len() > 0 {
        lemma_pulse_positions_len(pat.drop_last(), delta);
    }
}

/// Generate the buffer of a Euclidean base sequence. When the loop length is
/// not a whole multiple of the step count (or there are no steps) the
/// generation is refused with an empty buffer; when the pulses outnumber the
/// steps it is refused with an error. Otherwise each pulse of the Euclidean
/// pattern yields a note-on on its step boundary, with the matching
/// note-off a drawn note-length later, wrapped into the loop.
pub fn gen_euclid_midi_vec(params: &BaseSeqParams, rng: &mut rand::rngs::StdRng) -> (r: Result<
    Vec<Event>,
    SeqError,
>)
    requires
        params.wf(),
        params.ty is Euclid,
    ensures
        ({
            let pulses = params.spec_pulses();
            let steps = params.spec_steps();
            let divisible = steps > 0 && params.loop_length as int % steps as int == 0;
            &&& (!divisible ==> r is Ok && r.unwrap()@.len() == 0)
            &&& (divisible && pulses > steps ==> r == Err::<Vec<Event>, SeqError>(
                SeqError::GenerationRefused,
            ))
            &&& (divisible && pulses <= steps ==> {
                let v = r.unwrap()@;
                let delta = params.loop_length as int / steps as int;
                &&& r is Ok
                &&& v.len() == 2 * pulses
                &&& gen_events_ok(v, *params)
                &&& gen_pairs_wf(v, *params)
                &&& (forall|a: int|
                    0 <= a < pulses ==> (#[trigger] v[2 * a]).bar_pos as int == pulse_positions(
                    euclid_pattern(pulses, steps), delta)[a])
                &&& (forall|j: int|
                    0 <= j < v.len() ==> (#[trigger] v[j]).spec_note().pitch
                        == params.root_note.midi_val())
                &&& (forall|a: int|
                    0 <= a < pulses ==> (#[trigger] v[2 * a]).bar_pos as int % delta == 0)
                &&& (forall|a: int, b: int|
                    0 <= a < b < pulses ==> #[trigger] v[2 * a].bar_pos < #[trigger] v[2
                        * b].bar_pos)
            })
        }),
{
    let (pulses, steps) = match params.ty {
        BaseSeqType::Euclid(e) => (e.pulses, e.steps),
        BaseSeqType::Random(_) => (0, 0),
    };
    if steps == 0 || params.loop_length % steps != 0 {
        // The loop cannot be divided evenly into the steps: refuse
        // generation and leave the buffer empty.
        return Ok(Vec::new());
    }
    let rhythm = match gen_euclid(pulses, steps) {
        Ok(v) => v,
        Err(e) => {
            return Err(e);
        },
    };
    let delta = params.loop_length / steps;
    proof {
        assert(params.loop_length as int == (steps as int) * (delta as int)) by {
            vstd::arithmetic::div_mod::lemma_fundamental_div_mod(
                params.loop_length as int,
                steps as int,
            );
        };
        assert(delta >= 1) by {
            if delta == 0 {
                assert((steps as int) * 0int == 0) by (nonlinear_arith);
            }
        };
    }
    let pitch = note_to_midi_pitch(&params.root_note);
    let mut events: Vec<Event> = Vec::new();
    let mut i: usize = 0;
    while i < rhythm.len()
        invariant
            params.wf(),
            params.loop_length as int == (steps as int) * (delta as int),
            delta >= 1,
            pitch <= 127,
            pitch == params.root_note.midi_val(),
            rhythm@.len() == steps,
            crate::euclid::is_binary(rhythm@),
            i <= steps,
            events@.len() == 2 * count_ones(rhythm@.take(i as int)),
            gen_events_ok(events@, *params),
            gen_pairs_wf(events@, *params),
            pulse_positions(rhythm@.take(i as int), delta as int).len() == count_ones(
                rhythm@.take(i as int),
            ),
            forall|aa: int|
                0 <= aa < events@.len() / 2 ==> (#[trigger] events@[2 * aa]).bar_pos as int
                    == pulse_positions(rhythm@.take(i as int), delta as int)[aa],
            forall|j: int|
                0 <= j < events@.len() ==> (#[trigger] events@[j]).spec_note().pitch
                    == params.root_note.midi_val(),
            forall|a: int|
                0 <= a < events@.len() / 2 ==> (#[trigger] events@[2 * a]).bar_pos < (i as int) * (delta as int),
            forall|a: int|
                0 <= a < events@.len() / 2 ==> (#[trigger] events@[2 * a]).bar_pos as int
                    % delta as int == 0,
            forall|a: int, b: int|
                0 <= a < b < events@.len() / 2 ==> #[trigger] events@[2 * a].bar_pos
                    < #[trigger] events@[2 * b].bar_pos,
        decreases rhythm@.len() - i,
    {
        let velocity = draw_velocity(rng, params.velocity_avg, params.velocity_div);
        let note_len = draw_note_len(rng, params.note_len_avg, params.note_len_div);
        proof {
            assert(rhythm@.take(i + 1).drop_last() =~= rhythm@.take(i as int));
            lemma_pulse_positions_len(rhythm@.take(i + 1), delta as int);
            assert((i as int) * (delta as int) + delta as int == ((i + 1) as int) * (delta as int))
                by (nonlinear_arith);
            assert(((i + 1) as int) * (delta as int) <= (steps as int) * (delta as int))
                by (nonlinear_arith)
                requires
                    i + 1 <= steps as int,
                    delta >= 1,
            ;
        }
        if rhythm[i] == 1 {
            let on_pos_64 = (i as u64) * (delta as u64);
            proof {
                assert((i as int) * (delta as int) < (steps as int) * (delta as int)) by (nonlinear_arith)
                    requires
                        i < steps as int,
                        delta >= 1,
                ;
                assert(on_pos_64 as int % delta as int == 0) by {
                    vstd::arithmetic::div_mod::lemma_mod_multiples_basic(i as int, delta as int);
                };
            }
            let on_pos = on_pos_64 as u32;
            let on = Event {
                e_type: EventType::MidiNote(
                    MidiNote { on_off: true, channel: params.midi_ch, pitch, velocity },
                ),
                bar_pos: on_pos,
            };
            let off_pos = ((on_pos as u64 + note_len) % (params.loop_length as u64)) as u32;
            let off = Event {
                e_type: EventType::MidiNote(
                    MidiNote { on_off: false, channel: params.midi_ch, pitch, velocity },
                ),
                bar_pos: off_pos,
            };
            let ghost before = events@;
            events.push(on);
            events.push(off);
            proof {
                assert(events@ == before.push(on).push(off));
                assert(forall|j: int| 0 <= j < before.len() ==> events@[j] == before[j]);
                assert(2 * (before.len() as int / 2) == before.len() as int);
                assert(events@[before.len() as int] == on);
                assert(events@[before.len() as int + 1] == off);
            }
        }
        i = i + 1;
    }
    proof {
        assert(rhythm@.take(rhythm@.len() as int) =~= rhythm@);
    }
    Ok(events)
}

} // verus!
