//! The realtime process cycle: advance the musical clock, handle the status
//! state machine, select the events of every base sequence whose positions
//! fall in the cycle's window, run them through their effect processors, and
//! hand them back for output.

use vstd::prelude::*;

use crate::midi::TICKS_PER_BAR;
use crate::seq::{
    in_cycle_spec, notes_off_spec, BaseSeq, Event, SeqInternalStatus, SeqStatus, Sequencer,
};

verus! {

/// Whether the scan consumes this event: either it lies outside the loop
/// (and is skipped) or it falls in the cycle's window (and is emitted).
pub open spec fn consumable(e: Event, ws: int, we: int, l: int) -> bool {
    e.bar_pos >= l || in_cycle_spec(ws, we, e.bar_pos as int, l)
}

/// The buffer rotated so that the playback head comes first.
pub open spec fn rot(buf: Seq<Event>, head: int) -> Seq<Event> {
    buf.skip(head) + buf.take(head)
}

/// How many events one scan consumes from the front of the rotated buffer:
/// it stops at the first event that is neither expired nor in the window.
pub open spec fn scan_steps(s: Seq<Event>, ws: int, we: int, l: int) -> nat
    decreases s.len(),
{
    if s.len() == 0 {
        0
    } else if consumable(s[0], ws, we, l) {
        1 + scan_steps(s.drop_first(), ws, we, l)
    } else {
        0
    }
}

/// The events one scan emits: the consumed events that lie inside the loop,
/// in buffer order.
pub open spec fn scan_emits(s: Seq<Event>, ws: int, we: int, l: int) -> Seq<Event>
    decreases s.len(),
{
    if s.len() == 0 {
        Seq::empty()
    } else if consumable(s[0], ws, we, l) {
        (if s[0].bar_pos < l {
            seq![s[0]]
        } else {
            Seq::empty()
        }) + scan_emits(s.drop_first(), ws, we, l)
    } else {
        Seq::empty()
    }
}

/// The in-loop events of a fully consumed prefix, in order.
pub open spec fn kept(s: Seq<Event>, l: int) -> Seq<Event>
    decreases s.len(),
{
    if s.len() == 0 {
        Seq::empty()
    } else if s[0].bar_pos < l {
        seq![s[0]] + kept(s.drop_first(), l)
    } else {
        kept(s.drop_first(), l)
    }
}

/// Appending one event to a prefix extends its kept events by that event
/// when it lies inside the loop.
proof fn lemma_kept_push(s: Seq<Event>, e: Event, l: int)
    ensures
        kept(s.push(e), l) == kept(s, l) + (if e.bar_pos < l {
            seq![e]
        } else {
            Seq::<Event>::empty()
        }),
    decreases s.len(),
{
    if s.len() == 0 {
        assert(s.push(e).drop_first() =~= Seq::<Event>::empty());
        assert(s.push(e)[0] == e);
        assert(kept(Seq::<Event>::empty(), l) == Seq::<Event>::empty());
        assert(s =~= Seq::<Event>::empty());
        if e.bar_pos < l {
            assert(kept(s.push(e), l) == seq![e] + kept(Seq::<Event>::empty(), l));
            assert(kept(s.push(e), l) =~= kept(s, l) + seq![e]);
        } else {
            assert(kept(s.push(e), l) == kept(Seq::<Event>::empty(), l));
            assert(kept(s.push(e), l) =~= kept(s, l) + Seq::<Event>::empty());
        }
    } else {
        assert(s.push(e).drop_first() =~= s.drop_first().push(e));
        assert(s.push(e)[0] == s[0]);
        lemma_kept_push(s.drop_first(), e, l);
        if s[0].bar_pos < l {
            assert(kept(s.push(e), l) =~= kept(s, l) + (if e.bar_pos < l {
                seq![e]
            } else {
                Seq::<Event>::empty()
            }));
        } else {
            assert(kept(s.push(e), l) =~= kept(s, l) + (if e.bar_pos < l {
                seq![e]
            } else {
                Seq::<Event>::empty()
            }));
        }
    }
}

/// Splitting a scan after a consumed prefix of length `c`: the scan walks
/// the whole prefix and goes on with the rest.
proof fn lemma_scan_split(s: Seq<Event>, ws: int, we: int, l: int, c: int)
    requires
        0 <= c <= s.len(),
        forall|k: int| 0 <= k < c ==> consumable(#[trigger] s[k], ws, we, l),
    ensures
        scan_steps(s, ws, we, l) == c + scan_steps(s.skip(c), ws, we, l),
        scan_emits(s, ws, we, l) == kept(s.take(c), l) + scan_emits(s.skip(c), ws, we, l),
    decreases c,
{
    if c == 0 {
        assert(s.skip(0) =~= s);
        assert(s.take(0) =~= Seq::<Event>::empty());
        assert(kept(s.take(0), l) + scan_emits(s, ws, we, l) =~= scan_emits(s, ws, we, l));
    } else {
        assert(consumable(s[0], ws, we, l));
        let t = s.drop_first();
        assert(forall|k: int| 0 <= k < c - 1 ==> consumable(#[trigger] t[k], ws, we, l)) by {
            assert(forall|k: int| 0 <= k < c - 1 ==> t[k] == s[k + 1]);
        };
        lemma_scan_split(t, ws, we, l, c - 1);
        assert(t.skip(c - 1) =~= s.skip(c));
        assert(t.take(c - 1) =~= s.take(c).drop_first());
        assert(s.take(c)[0] == s[0]);
        if s[0].bar_pos < l {
            assert(kept(s.take(c), l) == seq![s[0]] + kept(t.take(c - 1), l));
            assert(scan_emits(s, ws, we, l) =~= kept(s.take(c), l) + scan_emits(
                s.skip(c),
                ws,
                we,
                l,
            ));
        } else {
            assert(kept(s.take(c), l) == kept(t.take(c - 1), l));
            assert(scan_emits(s, ws, we, l) =~= kept(s.take(c), l) + scan_emits(
                s.skip(c),
                ws,
                we,
                l,
            ));
        }
    }
}

/// The rotated buffer reads the original circularly from the head.
proof fn lemma_rot_index(buf: Seq<Event>, head: int, k: int)
    requires
        0 <= head < buf.len(),
        0 <= k < buf.len(),
    ensures
        rot(buf, head)[k] == buf[(head + k) % (buf.len() as int)],
{
    let n = buf.len() as int;
    if head + k < n {
        vstd::arithmetic::div_mod::lemma_small_mod((head + k) as nat, n as nat);
    } else {
        let x = head + k - n;
        vstd::arithmetic::div_mod::lemma_mod_multiples_vanish(1, x, n);
        vstd::arithmetic::div_mod::lemma_small_mod(x as nat, n as nat);
        assert(rot(buf, head)[k] == buf.take(head)[k - (n - head)]);
    }
}

/// Stepping a circular index: adding one and wrapping at the length.
proof fn lemma_step_mod(a: int, n: int)
    requires
        n >= 1,
        a >= 0,
    ensures
        (a + 1) % n == if (a % n) + 1 == n {
            0int
        } else {
            (a % n) + 1
        },
{
    vstd::arithmetic::div_mod::lemma_add_mod_noop(a, 1, n);
    if n == 1 {
        vstd::arithmetic::div_mod::lemma_small_mod(0, 1);
        vstd::arithmetic::div_mod::lemma_mod_self_0(1);
        vstd::arithmetic::div_mod::lemma_mod_twice(a, 1);
        vstd::arithmetic::div_mod::lemma_mod_division_less_than_divisor(a, 1);
    } else {
        vstd::arithmetic::div_mod::lemma_small_mod(1, n as nat);
        vstd::arithmetic::div_mod::lemma_mod_division_less_than_divisor(a, n);
        if (a % n) + 1 == n {
            vstd::arithmetic::div_mod::lemma_mod_self_0(n);
        } else {
            vstd::arithmetic::div_mod::lemma_small_mod(((a % n) + 1) as nat, n as nat);
        }
    }
}

/// One sequence's share of a tick: walk the buffer circularly from the head,
/// skipping events that lie outside the loop, emitting events whose
/// positions fall in the window, and stopping at the first event that is not
/// yet due. Returns the emitted events and the new head position.
pub fn select_events(buf: &Vec<Event>, head: usize, internal: &crate::seq::SeqInternal, l: u32) -> (r:
    (Vec<Event>, usize))
    requires
        l >= 1,
        buf@.len() == 0 ==> head == 0,
        buf@.len() > 0 ==> head < buf@.len(),
    ensures
        ({
            let ws = internal.window_start as int;
            let we = internal.window_end as int;
            let rotated = rot(buf@, head as int);
            &&& r.0@ == scan_emits(rotated, ws, we, l as int)
            &&& (buf@.len() == 0 ==> r.1 == 0)
            &&& (buf@.len() > 0 ==> r.1 == (head + scan_steps(rotated, ws, we, l as int)) as int % (
            buf@.len() as int))
        }),
{
    let ghost ws = internal.window_start as int;
    let ghost we = internal.window_end as int;
    let n = buf.len();
    let mut emitted: Vec<Event> = Vec::new();
    if n == 0 {
        proof {
            assert(rot(buf@, 0) =~= Seq::<Event>::empty());
        }
        return (emitted, 0);
    }
    let ghost rotated = rot(buf@, head as int);
    let mut h = head;
    let mut c: usize = 0;
    let mut stop = false;
    proof {
        vstd::arithmetic::div_mod::lemma_small_mod(head as nat, n as nat);
        assert(rotated.take(0) =~= Seq::<Event>::empty());
    }
    while c < n && !stop
        invariant
            n == buf@.len(),
            n > 0,
            head < n,
            l >= 1,
            c <= n,
            h < n,
            rotated == rot(buf@, head as int),
            ws == internal.window_start as int,
            we == internal.window_end as int,
            h as int == (head + c) as int % n as int,
            forall|k: int| 0 <= k < c ==> consumable(#[trigger] rotated[k], ws, we, l as int),
            emitted@ == kept(rotated.take(c as int), l as int),
            stop ==> c < n && !consumable(rotated[c as int], ws, we, l as int),
        decreases n - c, (if stop { 0int } else { 1int }),
    {
        let e = buf[h];
        proof {
            lemma_rot_index(buf@, head as int, c as int);
            assert(e == rotated[c as int]);
            assert(rotated.take(c + 1) =~= rotated.take(c as int).push(e));
            lemma_kept_push(rotated.take(c as int), e, l as int);
            lemma_step_mod((head + c) as int, n as int);
        }
        if e.bar_pos >= l {
            // Outside the (possibly shortened) loop: skip without emitting.
            h = if h + 1 == n {
                0
            } else {
                h + 1
            };
            c = c + 1;
            proof {
                assert(emitted@ =~= kept(rotated.take(c as int), l as int));
            }
        } else if internal.event_in_cycle(e.bar_pos, l) {
            emitted.push(e);
            h = if h + 1 == n {
                0
            } else {
                h + 1
            };
            c = c + 1;
            proof {
                assert(emitted@ =~= kept(rotated.take(c as int), l as int));
            }
        } else {
            // The event is due in a later cycle: the head stays on it.
            stop = true;
        }
    }
    proof {
        lemma_scan_split(rotated, ws, we, l as int, c as int);
        if c < n {
            assert(rotated.skip(c as int)[0] == rotated[c as int]) by {
                assert(rotated.skip(c as int).len() > 0);
            };
            assert(scan_steps(rotated.skip(c as int), ws, we, l as int) == 0);
            assert(scan_emits(rotated.skip(c as int), ws, we, l as int) =~= Seq::<Event>::empty());
        } else {
            assert(rotated.skip(c as int) =~= Seq::<Event>::empty());
        }
        assert(scan_steps(rotated, ws, we, l as int) == c);
        assert(emitted@ =~= scan_emits(rotated, ws, we, l as int));
        assert(rotated.take(n as int) =~= rotated);
    }
    (emitted, h)
}

/// The ticks the playback window advances in one cycle of `dt_usecs`
/// microseconds at `bpm_centi` hundredths of a beat per minute: the window
/// formula `bpm * dt / 6e7` bars, on the tick grid.
pub open spec fn advance_ticks(bpm_centi: int, dt_usecs: int) -> int {
    bpm_centi * dt_usecs / 6000
}

/// The events a playing tick emits before effect processing: each base
/// sequence's scan, in the order the sequences were added.
pub open spec fn tick_emits(seqs: Seq<BaseSeq>, ws: int, we: int) -> Seq<Event>
    decreases seqs.len(),
{
    if seqs.len() == 0 {
        Seq::empty()
    } else {
        tick_emits(seqs.drop_last(), ws, we) + scan_emits(
            rot(seqs.last().buf(), seqs.last().event_head as int),
            ws,
            we,
            seqs.last().params.loop_length as int,
        )
    }
}

/// A copy of an id list.
fn clone_ids(v: &Vec<u32>) -> (r: Vec<u32>)
    ensures
        r@ == v@,
{
    let mut out: Vec<u32> = Vec::new();
    let mut i: usize = 0;
    while i < v.len()
        invariant
            i <= v@.len(),
            out@ == v@.take(i as int),
        decreases v@.len() - i,
    {
        out.push(v[i]);
        proof {
            assert(v@.take(i + 1) =~= v@.take(i as int).push(v@[i as int]));
        }
        i = i + 1;
    }
    proof {
        assert(v@.take(v@.len() as int) =~= v@);
    }
    out
}

impl Sequencer {
    /// One realtime process cycle.
    ///
    /// When the control status is Start the sequencer plays: the window
    /// advances by exactly `advance_ticks` (the new window start is the old
    /// window end, so across consecutive playing ticks the window end
    /// strictly increases whenever the advance is positive), every base
    /// sequence emits the events of its scan — the buffer entries from the
    /// head whose positions fall in the window, skipping entries outside the
    /// loop — run through its effect processors (which may only move pitches
    /// within the MIDI range), and the heads move past what was emitted.
    ///
    /// On Pause or Shutdown while playing, the tick emits the all-notes-off
    /// tail and falls silent; on Stop it additionally rewinds every head and
    /// the window to zero. While silent, nothing happens.
    pub fn tick(&mut self, current_usecs: u64, next_usecs: u64) -> (r: Vec<Event>)
        requires
            old(self).inv(),
            current_usecs <= next_usecs,
            old(self).params.bpm_centi as int * (next_usecs - current_usecs) <= u64::MAX,
            old(self).internal.window_end + advance_ticks(
                old(self).params.bpm_centi as int,
                next_usecs as int - current_usecs as int,
            ) <= u64::MAX,
        ensures
            final(self).inv(),
            final(self).params == old(self).params,
            final(self).fx_procs@.len() == old(self).fx_procs@.len(),
            ({
                let st = old(self).params.status;
                let playing0 = old(self).internal.status is Playing || st is Start;
                let we0 = old(self).internal.window_end as int;
                let adv = advance_ticks(
                    old(self).params.bpm_centi as int,
                    next_usecs as int - current_usecs as int,
                );
                &&& (!playing0 ==> *final(self) == *old(self) && r@.len() == 0)
                &&& (playing0 && (st is Pause || st is Shutdown) ==> {
                    &&& r@ == notes_off_spec(old(self).seqs(), 1)
                    &&& final(self).internal.status is Silence
                    &&& final(self).internal.window_start == we0
                    &&& final(self).internal.window_end == we0 + adv
                    &&& final(self).base_seqs == old(self).base_seqs
                    &&& final(self).fx_procs == old(self).fx_procs
                })
                &&& (playing0 && st is Stop ==> {
                    &&& r@ == notes_off_spec(old(self).seqs(), 1)
                    &&& final(self).internal.status is Silence
                    &&& final(self).internal.window_start == 0
                    &&& final(self).internal.window_end == 0
                    &&& final(self).seqs().len() == old(self).seqs().len()
                    &&& (forall|i: int|
                        0 <= i < old(self).seqs().len() ==> final(self).seqs()[i] == (BaseSeq {
                            event_head: 0,
                            ..#[trigger] old(self).seqs()[i]
                        }))
                    &&& final(self).fx_procs == old(self).fx_procs
                })
                &&& (st is Start ==> {
                    let te = tick_emits(old(self).seqs(), we0, we0 + adv);
                    &&& final(self).internal.status is Playing
                    &&& final(self).internal.window_start == we0
                    &&& final(self).internal.window_end == we0 + adv
                    &&& final(self).seqs().len() == old(self).seqs().len()
                    &&& (forall|i: int|
                        0 <= i < old(self).seqs().len() ==> {
                            let s0 = #[trigger] old(self).seqs()[i];
                            let s1 = final(self).seqs()[i];
                            &&& s1.params == s0.params
                            &&& s1.event_buffer == s0.event_buffer
                            &&& s1.fx_proc_ids == s0.fx_proc_ids
                            &&& s1.id == s0.id
                            &&& (adv == 0 ==> s1.event_head == s0.event_head)
                            &&& (adv > 0 && s0.buf().len() > 0 ==> s1.event_head as int == (
                            s0.event_head + scan_steps(
                                rot(s0.buf(), s0.event_head as int),
                                we0,
                                we0 + adv,
                                s0.params.loop_length as int,
                            )) as int % (s0.buf().len() as int))
                        })
                    &&& (adv == 0 ==> r@.len() == 0)
                    &&& (adv > 0 ==> {
                        &&& r@.len() == te.len()
                        &&& (forall|j: int|
                            0 <= j < te.len() ==> {
                                let e0 = #[trigger] te[j];
                                let e1 = r@[j];
                                &&& e1.bar_pos == e0.bar_pos
                                &&& (e0.is_note() ==> {
                                    &&& e1.is_note()
                                    &&& e1.spec_note().channel == e0.spec_note().channel
                                    &&& e1.spec_note().velocity == e0.spec_note().velocity
                                    &&& e1.spec_note().on_off == e0.spec_note().on_off
                                    &&& (e0.spec_note().wf() ==> e1.spec_note().wf())
                                })
                                &&& (!e0.is_note() ==> e1 == e0)
                            })
                    })
                })
            }),
    {
        let ghost pre = *old(self);
        if matches!(self.params.status, SeqStatus::Start) {
            self.internal.status = SeqInternalStatus::Playing;
        }
        if matches!(self.internal.status, SeqInternalStatus::Silence) {
            return Vec::new();
        }

        // Advance the process window dynamically to allow for playback speed
        // variations.
        let dt = next_usecs - current_usecs;
        let adv = (self.params.bpm_centi as u64 * dt) / 6000;
        let we0 = self.internal.window_end;
        self.internal.window_start = we0;
        self.internal.window_end = we0 + adv;

        // Track the current whole bar, for observability.
        let new_curr_bar = #[verifier::truncate] ((self.internal.window_end / (
        TICKS_PER_BAR as u64)) as u32);
        if new_curr_bar != self.internal.curr_bar {
            self.internal.curr_bar = new_curr_bar;
        }

        // On pause or stop, send the all-notes-off tail and fall silent; a
        // stop also rewinds everything to the start.
        if !matches!(self.params.status, SeqStatus::Start) {
            let out = self.notes_off();
            if matches!(self.params.status, SeqStatus::Stop) {
                self.reset_base_seqs();
                self.internal.window_start = 0;
                self.internal.window_end = 0;
            }
            self.internal.status = SeqInternalStatus::Silence;
            return out;
        }

        if adv == 0 {
            // The cycle is too short to move the tick grid: nothing is due.
            return Vec::new();
        }

        let mut out: Vec<Event> = Vec::new();
        let n = self.base_seqs.len();
        let ghost ws = we0 as int;
        let ghost we = we0 as int + adv as int;
        let mut i: usize = 0;
        while i < n
            invariant
                self.inv(),
                pre.inv(),
                n == self.seqs().len(),
                n == pre.seqs().len(),
                i <= n,
                pre == *old(self),
                self.params == pre.params,
                self.internal.status is Playing,
                self.internal.window_start == ws,
                self.internal.window_end == we,
                ws == pre.internal.window_end as int,
                we == ws + adv as int,
                adv >= 1,
                self.fx_procs@.len() == pre.fx_procs@.len(),
                forall|q: int|
                    0 <= q < pre.fx_procs@.len() ==> (#[trigger] self.fx_procs@[q]).id
                        == pre.fx_procs@[q].id,
                forall|q: int|
                    0 <= q < n ==> {
                        let s0 = #[trigger] pre.seqs()[q];
                        let s1 = self.seqs()[q];
                        &&& s1.params == s0.params
                        &&& s1.event_buffer == s0.event_buffer
                        &&& s1.fx_proc_ids == s0.fx_proc_ids
                        &&& s1.id == s0.id
                    },
                forall|q: int| i <= q < n ==> self.seqs()[q] == pre.seqs()[q],
                forall|q: int|
                    0 <= q < i ==> {
                        let s0 = #[trigger] pre.seqs()[q];
                        let s1 = self.seqs()[q];
                        &&& (s0.buf().len() > 0 ==> s1.event_head as int == (s0.event_head
                            + scan_steps(
                            rot(s0.buf(), s0.event_head as int),
                            ws,
                            we,
                            s0.params.loop_length as int,
                        )) as int % (s0.buf().len() as int))
                        &&& (s0.buf().len() == 0 ==> s1.event_head == 0)
                        &&& s1.head_in_range()
                    },
                out@.len() == tick_emits(pre.seqs().take(i as int), ws, we).len(),
                forall|j: int|
                    0 <= j < out@.len() ==> {
                        let e0 = #[trigger] tick_emits(pre.seqs().take(i as int), ws, we)[j];
                        let e1 = out@[j];
                        &&& e1.bar_pos == e0.bar_pos
                        &&& (e0.is_note() ==> {
                            &&& e1.is_note()
                            &&& e1.spec_note().channel == e0.spec_note().channel
                            &&& e1.spec_note().velocity == e0.spec_note().velocity
                            &&& e1.spec_note().on_off == e0.spec_note().on_off
                            &&& (e0.spec_note().wf() ==> e1.spec_note().wf())
                        })
                        &&& (!e0.is_note() ==> e1 == e0)
                    },
            decreases n - i,
        {
            proof {
                assert(self.seqs()[i as int].inv());
                assert(self.seqs()[i as int] == pre.seqs()[i as int]);
            }
            let l = self.base_seqs[i].params.loop_length;
            let head = self.base_seqs[i].event_head;
            let (selected, new_head) = select_events(
                &self.base_seqs[i].event_buffer,
                head,
                &self.internal,
                l,
            );
            let ghost sel = scan_emits(
                rot(pre.seqs()[i as int].buf(), pre.seqs()[i as int].event_head as int),
                ws,
                we,
                l as int,
            );
            let bs = crate::seq::base_seq_at(&mut self.base_seqs, i);
            bs.event_head = new_head;
            proof {
                assert forall|q: int| 0 <= q < n implies (#[trigger] self.seqs()[q]).inv()
                    && self.seqs()[q].id < self.params.incr by {
                    assert(pre.seqs()[q].inv());
                    assert(pre.seqs()[q].id < pre.params.incr);
                };
                assert forall|a: int, b: int| 0 <= a < b < n implies (#[trigger] self.seqs()[a]).id
                    != (#[trigger] self.seqs()[b]).id by {
                    assert(self.seqs()[a].id == pre.seqs()[a].id);
                    assert(self.seqs()[b].id == pre.seqs()[b].id);
                };
                assert forall|a: int, b: int|
                    0 <= a < b < self.fx_procs@.len() implies (#[trigger] self.fx_procs@[a]).id != (
                    #[trigger] self.fx_procs@[b]).id by {
                    assert(self.fx_procs@[a].id == pre.fx_procs@[a].id);
                    assert(self.fx_procs@[b].id == pre.fx_procs@[b].id);
                };
                assert forall|q: int|
                    0 <= q < self.fx_procs@.len() implies (#[trigger] self.fx_procs@[q]).id
                        < self.params.incr by {
                    assert(pre.fx_procs@[q].id < pre.params.incr);
                };
                assert(self.inv());
            }
            let ghost after_head = self.base_seqs;
            let ids = clone_ids(&self.base_seqs[i].fx_proc_ids);
            let ghost out_before = out@;
            let mut k: usize = 0;
            while k < selected.len()
                invariant
                    self.inv(),
                    pre.inv(),
                    k <= selected@.len(),
                    selected@ == sel,
                    self.params == pre.params,
                    self.internal.status is Playing,
                    self.internal.window_start == ws,
                    self.internal.window_end == we,
                    self.fx_procs@.len() == pre.fx_procs@.len(),
                    forall|q: int|
                        0 <= q < pre.fx_procs@.len() ==> (#[trigger] self.fx_procs@[q]).id
                            == pre.fx_procs@[q].id,
                    self.base_seqs == after_head,
                    out@.len() == out_before.len() + k,
                    forall|j: int| 0 <= j < out_before.len() ==> out@[j] == out_before[j],
                    forall|j: int|
                        0 <= j < k ==> {
                            let e0 = #[trigger] sel[j];
                            let e1 = out@[out_before.len() + j];
                            &&& e1.bar_pos == e0.bar_pos
                            &&& (e0.is_note() ==> {
                                &&& e1.is_note()
                                &&& e1.spec_note().channel == e0.spec_note().channel
                                &&& e1.spec_note().velocity == e0.spec_note().velocity
                                &&& e1.spec_note().on_off == e0.spec_note().on_off
                                &&& (e0.spec_note().wf() ==> e1.spec_note().wf())
                            })
                            &&& (!e0.is_note() ==> e1 == e0)
                        },
                decreases selected@.len() - k,
            {
                let mut ev = selected[k];
                self.process_event(&ids, &mut ev);
                out.push(ev);
                k = k + 1;
            }
            proof {
                assert(pre.seqs().take(i + 1).drop_last() =~= pre.seqs().take(i as int));
                assert(pre.seqs().take(i + 1).last() == pre.seqs()[i as int]);
                assert(tick_emits(pre.seqs().take(i + 1), ws, we) == tick_emits(
                    pre.seqs().take(i as int),
                    ws,
                    we,
                ) + sel);
            }
            i = i + 1;
        }
        proof {
            assert(pre.seqs().take(n as int) =~= pre.seqs());
        }
        out
    }
}


/// One tick emits exactly the events of its window: when every buffered
/// event lies inside the loop and the events whose positions fall in the
/// window are precisely the first `kk` of the rotated buffer (the head is
/// aligned with the window, as the head synchronization and the previous
/// tick leave it), the scan emits exactly those `kk` events and consumes
/// nothing else.
pub proof fn lemma_scan_emits_window(s: Seq<Event>, ws: int, we: int, l: int, kk: int)
    requires
        l >= 1,
        forall|i: int| 0 <= i < s.len() ==> (#[trigger] s[i]).bar_pos < l,
        0 <= kk <= s.len(),
        forall|i: int| 0 <= i < kk ==> in_cycle_spec(ws, we, (#[trigger] s[i]).bar_pos as int, l),
        forall|i: int|
            kk <= i < s.len() ==> !in_cycle_spec(ws, we, (#[trigger] s[i]).bar_pos as int, l),
    ensures
        scan_emits(s, ws, we, l) == s.take(kk),
        scan_steps(s, ws, we, l) == kk,
    decreases kk, s.len(),
{
    if kk == 0 {
        if s.len() == 0 {
            assert(s.take(0) =~= scan_emits(s, ws, we, l));
        } else {
            assert(!consumable(s[0], ws, we, l));
            assert(s.take(0) =~= scan_emits(s, ws, we, l));
        }
    } else {
        assert(in_cycle_spec(ws, we, s[0].bar_pos as int, l));
        assert(consumable(s[0], ws, we, l));
        let t = s.drop_first();
        assert(forall|i: int| 0 <= i < t.len() ==> t[i] == s[i + 1]);
        lemma_scan_emits_window(t, ws, we, l, kk - 1);
        assert(s.take(kk) =~= seq![s[0]] + t.take(kk - 1));
        assert(scan_emits(s, ws, we, l) == seq![s[0]] + scan_emits(t, ws, we, l));
    }
}

} // verus!
