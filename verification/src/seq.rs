//! The sequencer core: events on the bar grid, base sequences with their
//! sorted event buffers and playback heads, and the global sequencer state.

use vstd::prelude::*;

use crate::gen::{gen_euclid_midi_vec, gen_rand_midi_vec, generated_from};
use crate::midi::{note_to_midi_pitch, MidiNote, Note};
use crate::SeqError;

verus! {

/// What an event carries: a MIDI note, or the reserved `Fill` marker.
#[derive(Clone, Copy, Debug, PartialEq, Eq, Structural)]
pub enum EventType {
    MidiNote(MidiNote),
    Fill,
}

/// One schedulable event: its kind and its position on the bar grid, in
/// ticks from the owning sequence's loop start.
#[derive(Clone, Copy, Debug, PartialEq, Eq, Structural)]
pub struct Event {
    pub e_type: EventType,
    /// Ticks from sequence start (i.e. position on grid).
    pub bar_pos: u32,
}

impl Event {
    /// Whether the event carries a MIDI note.
    pub open spec fn is_note(self) -> bool {
        self.e_type is MidiNote
    }

    /// The note carried by the event.
    pub open spec fn spec_note(self) -> MidiNote {
        match self.e_type {
            EventType::MidiNote(n) => n,
            EventType::Fill => arbitrary(),
        }
    }

    /// A buffer event is a well-formed note on the given channel.
    pub open spec fn wf_on_channel(self, midi_ch: u8) -> bool {
        &&& self.is_note()
        &&& self.spec_note().wf()
        &&& self.spec_note().channel == midi_ch
    }
}

/// The buffer is sorted non-decreasingly by bar position.
pub open spec fn sorted_by_pos(s: Seq<Event>) -> bool {
    forall|i: int, j: int| 0 <= i <= j < s.len() ==> s[i].bar_pos <= s[j].bar_pos
}

/// The head points at the first event strictly after the playback key, or at
/// 0 when no event lies strictly after it.
pub open spec fn head_synced(buf: Seq<Event>, head: int, key: int) -> bool {
    if exists|i: int| 0 <= i < buf.len() && buf[i].bar_pos > key {
        &&& 0 <= head < buf.len()
        &&& buf[head].bar_pos > key
        &&& forall|j: int| 0 <= j < head ==> buf[j].bar_pos <= key
    } else {
        head == 0
    }
}


/// The events at one bar position, in buffer order. A stable re-sort keeps
/// this subsequence for every position.
pub open spec fn events_at_pos(s: Seq<Event>, key: u32) -> Seq<Event>
    decreases s.len(),
{
    if s.len() == 0 {
        Seq::empty()
    } else {
        events_at_pos(s.drop_last(), key) + (if s.last().bar_pos == key {
            seq![s.last()]
        } else {
            Seq::<Event>::empty()
        })
    }
}

proof fn lemma_events_at_pos_concat(a: Seq<Event>, b: Seq<Event>, key: u32)
    ensures
        events_at_pos(a + b, key) == events_at_pos(a, key) + events_at_pos(b, key),
    decreases b.len(),
{
    if b.len() == 0 {
        assert(a + b =~= a);
        assert(events_at_pos(a, key) + events_at_pos(b, key) =~= events_at_pos(a, key));
    } else {
        assert((a + b).drop_last() =~= a + b.drop_last());
        lemma_events_at_pos_concat(a, b.drop_last(), key);
        assert(events_at_pos(a + b, key) =~= events_at_pos(a, key) + events_at_pos(b, key));
    }
}

proof fn lemma_events_at_pos_none(s: Seq<Event>, key: u32)
    requires
        forall|j: int| 0 <= j < s.len() ==> (#[trigger] s[j]).bar_pos != key,
    ensures
        events_at_pos(s, key) == Seq::<Event>::empty(),
    decreases s.len(),
{
    if s.len() > 0 {
        lemma_events_at_pos_none(s.drop_last(), key);
    }
}

/// Sort events by bar position, keeping the relative order of equal
/// positions (each event is inserted after the ones it ties with).
pub(crate) fn sort_events_by_pos(v: &mut Vec<Event>)
    ensures
        sorted_by_pos(final(v)@),
        final(v)@.to_multiset() == old(v)@.to_multiset(),
        final(v)@.len() == old(v)@.len(),
        forall|key: u32| events_at_pos(final(v)@, key) == events_at_pos(old(v)@, key),
{
    broadcast use vstd::seq_lib::group_to_multiset_ensures;

    let mut out: Vec<Event> = Vec::new();
    let mut i: usize = 0;
    while i < v.len()
        invariant
            i <= v@.len(),
            sorted_by_pos(out@),
            out@.to_multiset() == v@.take(i as int).to_multiset(),
            out@.len() == i,
            forall|key: u32| events_at_pos(out@, key) == events_at_pos(v@.take(i as int), key),
        decreases v@.len() - i,
    {
        let e = v[i];
        let mut k: usize = 0;
        while k < out.len() && out[k].bar_pos <= e.bar_pos
            invariant
                k <= out@.len(),
                forall|j: int| 0 <= j < k ==> out@[j].bar_pos <= e.bar_pos,
            decreases out@.len() - k,
        {
            k = k + 1;
        }
        proof {
            assert(forall|j: int| k <= j < out@.len() ==> e.bar_pos < #[trigger] out@[j].bar_pos);
            assert(v@.take(i + 1).drop_last() =~= v@.take(i as int));
            assert(v@.take(i + 1) =~= v@.take(i as int).push(v@[i as int]));
        }
        let ghost old_out = out@;
        out.insert(k, e);
        proof {
            assert(out@ == old_out.insert(k as int, e));
            assert(out@.to_multiset() == old_out.to_multiset().insert(e)) by {
                vstd::seq_lib::to_multiset_insert(old_out, k as int, e);
            };
            assert(v@.take(i + 1).to_multiset() == v@.take(i as int).to_multiset().insert(e)) by {
                assert(v@.take(i + 1) =~= v@.take(i as int).push(e));
                vstd::seq_lib::to_multiset_build(v@.take(i as int), e);
            };
            assert forall|a: int, b: int| 0 <= a <= b < out@.len() implies out@[a].bar_pos
                <= out@[b].bar_pos by {
                if a < k && b >= k {
                    if b > k {
                        assert(out@[b] == old_out[b - 1]);
                    }
                }
            };
            assert forall|key: u32| events_at_pos(out@, key) == events_at_pos(
                v@.take(i + 1),
                key,
            ) by {
                assert(out@ =~= (old_out.take(k as int) + seq![e]) + old_out.skip(k as int));
                assert(old_out =~= old_out.take(k as int) + old_out.skip(k as int));
                lemma_events_at_pos_concat(
                    old_out.take(k as int) + seq![e],
                    old_out.skip(k as int),
                    key,
                );
                lemma_events_at_pos_concat(old_out.take(k as int), seq![e], key);
                lemma_events_at_pos_concat(old_out.take(k as int), old_out.skip(k as int), key);
                assert(seq![e].drop_last() =~= Seq::<Event>::empty());
                assert(events_at_pos(Seq::<Event>::empty(), key) == Seq::<Event>::empty());
                assert(events_at_pos(seq![e], key) =~= (if e.bar_pos == key {
                    seq![e]
                } else {
                    Seq::<Event>::empty()
                }));
                if key == e.bar_pos {
                    assert forall|j: int|
                        0 <= j < old_out.skip(k as int).len() implies (#[trigger] old_out.skip(
                        k as int,
                    )[j]).bar_pos != key by {
                        assert(old_out.skip(k as int)[j] == old_out[k + j]);
                    };
                    lemma_events_at_pos_none(old_out.skip(k as int), key);
                }
                assert(v@.take(i + 1).drop_last() =~= v@.take(i as int));
                assert(events_at_pos(out@, key) =~= events_at_pos(v@.take(i + 1), key));
            };
        }
        i = i + 1;
    }
    proof {
        assert(v@.take(v@.len() as int) =~= v@);
    }
    *v = out;
}

/// The control-plane request state of the sequencer.
#[derive(Clone, Copy, Debug, PartialEq, Eq, Structural)]
pub enum SeqStatus {
    /// Pause and reset sequencer to start position
    Stop,
    Start,
    Pause,
    /// Sequencer is set to shutdown gracefully
    Shutdown,
}

/// The status a numeric control argument stands for: 0 = Stop, 1 = Start,
/// 2 = Pause, 3 = Shutdown; anything else is unknown.
pub fn seq_status_from_u32(v: u32) -> (r: Option<SeqStatus>)
    ensures
        v == 0 ==> r == Some(SeqStatus::Stop),
        v == 1 ==> r == Some(SeqStatus::Start),
        v == 2 ==> r == Some(SeqStatus::Pause),
        v == 3 ==> r == Some(SeqStatus::Shutdown),
        v > 3 ==> r is None,
{
    if v == 0 {
        Some(SeqStatus::Stop)
    } else if v == 1 {
        Some(SeqStatus::Start)
    } else if v == 2 {
        Some(SeqStatus::Pause)
    } else if v == 3 {
        Some(SeqStatus::Shutdown)
    } else {
        None
    }
}

/// The playback state the realtime callback observes.
#[derive(Clone, Copy, Debug, PartialEq, Eq, Structural)]
pub enum SeqInternalStatus {
    Silence,
    Playing,
}

/// Global sequencer parameters, written by the control plane.
#[derive(Clone, Copy, Debug, PartialEq, Eq, Structural)]
pub struct SeqParams {
    pub status: SeqStatus,
    /// Tempo in hundredths of a beat per minute (12000 is 120 BPM).
    pub bpm_centi: u32,
    /// Counter of total nb of base sequences / effect processors ever
    /// created, used for ids.
    pub incr: u32,
}

/// Which kind of base sequence, with its kind-specific parameters.
#[derive(Clone, Copy, Debug, PartialEq, Eq, Structural)]
pub enum BaseSeqType {
    Random(RandomBase),
    Euclid(EuclidBase),
}

/// Parameters of a random base sequence.
#[derive(Clone, Copy, Debug, PartialEq, Eq, Structural)]
pub struct RandomBase {
    pub nb_events: u32,
}

/// Parameters of a Euclidean-rhythm base sequence.
#[derive(Clone, Copy, Debug, PartialEq, Eq, Structural)]
pub struct EuclidBase {
    pub pulses: u32,
    pub steps: u32,
}

/// All parameters of one base sequence.
#[derive(Clone, Copy, Debug, PartialEq, Eq, Structural)]
pub struct BaseSeqParams {
    pub ty: BaseSeqType,
    /// Loop length in ticks; `4 * TICKS_PER_BAR` is one measure of four bars.
    pub loop_length: u32,
    pub root_note: Note,
    /// Average note length in ticks.
    pub note_len_avg: u32,
    /// Standard deviation of the note length draw, in ticks.
    pub note_len_div: u32,
    /// Average velocity, in the MIDI range 0-127.
    pub velocity_avg: u8,
    /// Standard deviation of the velocity draw.
    pub velocity_div: u32,
    /// Channel, should be 1-16
    pub midi_ch: u8,
}

impl BaseSeqParams {
    /// The event count of a random sequence's parameters.
    pub open spec fn spec_nb_events(self) -> u32 {
        match self.ty {
            BaseSeqType::Random(r) => r.nb_events,
            BaseSeqType::Euclid(_) => arbitrary(),
        }
    }

    /// The pulse count of a Euclidean sequence's parameters.
    pub open spec fn spec_pulses(self) -> u32 {
        match self.ty {
            BaseSeqType::Euclid(e) => e.pulses,
            BaseSeqType::Random(_) => arbitrary(),
        }
    }

    /// The step count of a Euclidean sequence's parameters.
    pub open spec fn spec_steps(self) -> u32 {
        match self.ty {
            BaseSeqType::Euclid(e) => e.steps,
            BaseSeqType::Random(_) => arbitrary(),
        }
    }

    /// Validity of a parameter record: positive loop, well-formed root,
    /// MIDI-range velocity and channel, and bounded deviations (the bounds
    /// keep every internal draw within 64-bit arithmetic).
    pub open spec fn wf(self) -> bool {
        &&& self.loop_length >= 1
        &&& self.root_note.wf()
        &&& self.velocity_avg <= 127
        &&& 1 <= self.midi_ch <= 16
        &&& self.note_len_div <= 1_000_000_000
        &&& self.velocity_div <= 1_000_000
    }
}

/// State of a base sequence: its parameters, its generated event buffer
/// sorted by bar position, the playback head, and the ids of the effect
/// processors it feeds.
pub struct BaseSeq {
    pub params: BaseSeqParams,
    /// Current position in the event buffer.
    pub event_head: usize,
    /// Events ordered by their bar positions.
    pub event_buffer: Vec<Event>,
    /// Ids of the effect processors to which this sequence feeds events.
    pub fx_proc_ids: Vec<u32>,
    /// Unique identifier of the base sequence.
    pub id: u32,
}

impl BaseSeq {
    /// The event buffer as a mathematical sequence.
    pub open spec fn buf(self) -> Seq<Event> {
        self.event_buffer@
    }

    /// The head points into the buffer, or to 0 when the buffer is empty.
    pub open spec fn head_in_range(self) -> bool {
        if self.buf().len() == 0 {
            self.event_head == 0
        } else {
            self.event_head < self.buf().len()
        }
    }

    /// Every buffered event is a well-formed note on this sequence's channel.
    pub open spec fn events_wf(self) -> bool {
        forall|i: int| 0 <= i < self.buf().len() ==> (#[trigger] self.buf()[i]).wf_on_channel(
            self.params.midi_ch,
        )
    }

    /// Every buffered event lies inside the current loop. Holds after
    /// generation; shrinking the loop length may break it, in which case the
    /// realtime tick skips the out-of-range events.
    pub open spec fn events_in_loop(self) -> bool {
        forall|i: int| 0 <= i < self.buf().len() ==> (#[trigger] self.buf()[i]).bar_pos
            < self.params.loop_length
    }

    /// The base sequence invariant: valid parameters, sorted buffer,
    /// in-range head, well-formed events.
    pub open spec fn inv(self) -> bool {
        &&& self.params.wf()
        &&& sorted_by_pos(self.buf())
        &&& self.head_in_range()
        &&& self.events_wf()
    }

    /// Advance the playback head one event, wrapping at the buffer end; a
    /// no-op on an empty buffer.
    pub fn incr_event_head(&mut self)
        requires
            old(self).head_in_range(),
        ensures
            final(self).head_in_range(),
            *final(self) == (BaseSeq { event_head: final(self).event_head, ..*old(self) }),
            old(self).buf().len() == 0 ==> final(self).event_head == 0,
            old(self).buf().len() > 0 ==> final(self).event_head == (old(self).event_head + 1) as int
                % old(self).buf().len() as int,
    {
        if self.event_buffer.len() > 0 {
            self.event_head = (self.event_head + 1) % self.event_buffer.len();
        }
    }

    /// Place the head on the first event strictly after the playback
    /// position `window_end` reduced into this sequence's loop; 0 when no
    /// event is strictly after it or the buffer is empty.
    pub fn sync_event_head(&mut self, window_end: u64)
        requires
            old(self).params.loop_length >= 1,
            sorted_by_pos(old(self).buf()),
        ensures
            *final(self) == (BaseSeq { event_head: final(self).event_head, ..*old(self) }),
            final(self).head_in_range(),
            head_synced(
                old(self).buf(),
                final(self).event_head as int,
                window_end as int % old(self).params.loop_length as int,
            ),
    {
        let key = (window_end % (self.params.loop_length as u64)) as u32;
        let mut i: usize = 0;
        let n = self.event_buffer.len();
        while i < n && self.event_buffer[i].bar_pos <= key
            invariant
                i <= n,
                n == self.buf().len(),
                *self == *old(self),
                forall|j: int| 0 <= j < i ==> self.buf()[j].bar_pos <= key,
            decreases n - i,
        {
            i = i + 1;
        }
        if i == n {
            self.event_head = 0;
        } else {
            self.event_head = i;
        }
    }
}

/// Additional sequencer state, owned by the realtime callback.
pub struct SeqInternal {
    /// When stopping, indicates whether we are on the final cycle before
    /// silence; only note-off events are allowed on the final cycle.
    pub status: SeqInternalStatus,
    /// Start of the current process cycle on the bar grid, in ticks; reset
    /// on stop.
    pub window_start: u64,
    /// End of the current process cycle on the bar grid, in ticks; reset on
    /// stop.
    pub window_end: u64,
    /// Current bar position on the loop rhythm grid, kept for logging.
    pub curr_bar: u32,
}

/// Membership of a bar position in the window `[ws, we)` once both window
/// bounds are reduced into the loop of length `l`: the plain interval when
/// the reduced window does not wrap, the wrapped pair of intervals when it
/// does. Exact for windows that advanced by at most one loop (`ws < we`
/// and `we - ws <= l`).
pub open spec fn in_cycle_spec(ws: int, we: int, pos: int, l: int) -> bool
    recommends
        l >= 1,
{
    let s = ws % l;
    let e = we % l;
    if s < e {
        s <= pos < e
    } else {
        s <= pos || pos < e
    }
}

impl SeqInternal {
    /// The state before the first cycle: silence, window at zero.
    pub fn new() -> (r: SeqInternal)
        ensures
            r.status == SeqInternalStatus::Silence,
            r.window_start == 0,
            r.window_end == 0,
            r.curr_bar == 0,
    {
        SeqInternal {
            status: SeqInternalStatus::Silence,
            window_start: 0,
            window_end: 0,
            curr_bar: 0,
        }
    }

    /// Whether an event at `event_time` (ticks into a loop of `loop_len`
    /// ticks) falls in the current cycle's window.
    pub fn event_in_cycle(&self, event_time: u32, loop_len: u32) -> (r: bool)
        requires
            loop_len >= 1,
        ensures
            r == in_cycle_spec(
                self.window_start as int,
                self.window_end as int,
                event_time as int,
                loop_len as int,
            ),
    {
        let win_start_looped = (self.window_start % (loop_len as u64)) as u32;
        let win_end_looped = (self.window_end % (loop_len as u64)) as u32;
        if win_start_looped < win_end_looped {
            win_start_looped <= event_time && event_time < win_end_looped
        } else {
            // The window wraps the loop boundary.
            win_start_looped <= event_time || event_time < win_end_looped
        }
    }
}


/// The clamp of a pitch value into the MIDI range.
pub open spec fn clamp_pitch(p: int) -> int {
    if p < 0 {
        0
    } else if p > 127 {
        127
    } else {
        p
    }
}

/// The event with its note's pitch shifted by `diff`, clamped into the MIDI
/// range; events that carry no note are unchanged.
pub open spec fn transpose_event(e: Event, diff: int) -> Event {
    match e.e_type {
        EventType::MidiNote(n) => Event {
            e_type: EventType::MidiNote(
                MidiNote { pitch: clamp_pitch(n.pitch + diff) as u8, ..n },
            ),
            ..e
        },
        EventType::Fill => e,
    }
}

/// A note-off position after the average note length changes from `old_avg`
/// to `new_avg`: the position moves by the difference, wrapped into the loop.
pub open spec fn shifted_pos(pos: int, old_avg: int, new_avg: int, l: int) -> int
    recommends
        l >= 1,
{
    (pos + new_avg - old_avg) % l
}

/// The event with its position shifted when it is a note-off; note-ons and
/// other events are unchanged.
pub open spec fn shift_off_event(e: Event, old_avg: int, new_avg: int, l: int) -> Event {
    if e.is_note() && !e.spec_note().on_off {
        Event { bar_pos: shifted_pos(e.bar_pos as int, old_avg, new_avg, l) as u32, ..e }
    } else {
        e
    }
}

/// Well-formedness of the events survives any permutation of a buffer.
proof fn lemma_buffer_wf_transfer(a: Seq<Event>, b: Seq<Event>, ch: u8)
    requires
        a.to_multiset() == b.to_multiset(),
        forall|i: int| 0 <= i < a.len() ==> (#[trigger] a[i]).wf_on_channel(ch),
    ensures
        forall|i: int| 0 <= i < b.len() ==> (#[trigger] b[i]).wf_on_channel(ch),
{
    broadcast use vstd::seq_lib::group_to_multiset_ensures;

    assert forall|i: int| 0 <= i < b.len() implies (#[trigger] b[i]).wf_on_channel(ch) by {
        assert(b.contains(b[i]));
        assert(b.to_multiset().count(b[i]) > 0);
        assert(a.contains(b[i]));
        let j = choose|j: int| 0 <= j < a.len() && a[j] == b[i];
        assert(a[j].wf_on_channel(ch));
    };
}

/// Containment of the events in the loop survives any permutation.
proof fn lemma_buffer_pos_transfer(a: Seq<Event>, b: Seq<Event>, ll: u32)
    requires
        a.to_multiset() == b.to_multiset(),
        forall|i: int| 0 <= i < a.len() ==> (#[trigger] a[i]).bar_pos < ll,
    ensures
        forall|i: int| 0 <= i < b.len() ==> (#[trigger] b[i]).bar_pos < ll,
{
    broadcast use vstd::seq_lib::group_to_multiset_ensures;

    assert forall|i: int| 0 <= i < b.len() implies (#[trigger] b[i]).bar_pos < ll by {
        assert(b.contains(b[i]));
        assert(b.to_multiset().count(b[i]) > 0);
        assert(a.contains(b[i]));
        let j = choose|j: int| 0 <= j < a.len() && a[j] == b[i];
        assert(a[j].bar_pos < ll);
    };
}

/// Subtracting a shift modulo the loop equals adding its complement.
proof fn lemma_shift_sub(pos: int, d0: int, l: int)
    requires
        l >= 1,
        pos >= 0,
        d0 >= 0,
    ensures
        (pos + (l - d0 % l)) % l == (pos - d0) % l,
{
    let k = d0 / l;
    vstd::arithmetic::div_mod::lemma_fundamental_div_mod(d0, l);
    assert(pos + (l - d0 % l) == l * (k + 1) + (pos - d0)) by (nonlinear_arith)
        requires
            d0 == l * k + d0 % l,
    ;
    vstd::arithmetic::div_mod::lemma_mod_multiples_vanish(k + 1, pos - d0, l);
}

/// The shifted note-off position, computed without leaving unsigned range.
fn shift_pos_exec(pos: u32, old_avg: u32, new_avg: u32, l: u32) -> (r: u32)
    requires
        l >= 1,
    ensures
        r == shifted_pos(pos as int, old_avg as int, new_avg as int, l as int),
        r < l,
{
    if new_avg >= old_avg {
        let d = (new_avg - old_avg) as u64;
        ((pos as u64 + d) % (l as u64)) as u32
    } else {
        let d0 = (old_avg - new_avg) as u64;
        let dm = d0 % (l as u64);
        let r = ((pos as u64 + ((l as u64) - dm)) % (l as u64)) as u32;
        proof {
            lemma_shift_sub(pos as int, d0 as int, l as int);
        }
        r
    }
}

impl BaseSeq {
    /// Regenerate the full event buffer from the current parameters, sort it
    /// by bar position, and resynchronize the playback head against the
    /// given window end.
    pub fn gen_fill(&mut self, window_end: u64, rng: &mut rand::rngs::StdRng) -> (r: Result<
        (),
        SeqError,
    >)
        requires
            old(self).params.wf(),
        ensures
            r is Err <==> (old(self).params.ty is Euclid && old(self).params.spec_steps() > 0
                && old(self).params.loop_length as int % old(self).params.spec_steps() as int == 0
                && old(self).params.spec_pulses() > old(self).params.spec_steps()),
            r is Err ==> *final(self) == *old(self) && r == Err::<(), SeqError>(
                SeqError::GenerationRefused,
            ),
            r is Ok ==> {
                &&& final(self).params == old(self).params
                &&& final(self).id == old(self).id
                &&& final(self).fx_proc_ids == old(self).fx_proc_ids
                &&& final(self).inv()
                &&& final(self).events_in_loop()
                &&& head_synced(
                    final(self).buf(),
                    final(self).event_head as int,
                    window_end as int % old(self).params.loop_length as int,
                )
                &&& (old(self).params.ty is Random ==> final(self).buf().len() == 2 * old(
                    self,
                ).params.spec_nb_events())
                &&& (exists|g: Seq<Event>|
                    #[trigger] generated_from(final(self).buf(), g, old(self).params))
            },
    {
        let mut events = match self.params.ty {
            BaseSeqType::Random(_) => gen_rand_midi_vec(&self.params, rng),
            BaseSeqType::Euclid(_) => match gen_euclid_midi_vec(&self.params, rng) {
                Ok(v) => v,
                Err(e) => {
                    return Err(e);
                },
            },
        };
        let ghost generated = events@;
        let ghost ch = self.params.midi_ch;
        let ghost ll = self.params.loop_length;
        sort_events_by_pos(&mut events);
        proof {
            lemma_buffer_wf_transfer(generated, events@, ch);
            lemma_buffer_pos_transfer(generated, events@, ll);
        }
        self.event_buffer = events;
        self.sync_event_head(window_end);
        proof {
            assert(generated_from(self.buf(), generated, old(self).params));
        }
        Ok(())
    }

    /// Create a base sequence with the given id and fill its event buffer;
    /// the window end synchronizes the fresh playback head. Fails when the
    /// Euclidean parameters are invalid.
    pub fn new_fill(
        params: BaseSeqParams,
        id: u32,
        window_end: u64,
        rng: &mut rand::rngs::StdRng,
    ) -> (r: Result<BaseSeq, SeqError>)
        requires
            params.wf(),
        ensures
            r is Err <==> (params.ty is Euclid && params.spec_steps() > 0
                && params.loop_length as int % params.spec_steps() as int == 0
                && params.spec_pulses() > params.spec_steps()),
            r is Err ==> r == Err::<BaseSeq, SeqError>(SeqError::GenerationRefused),
            r is Ok ==> {
                let s = r.unwrap();
                &&& s.inv()
                &&& s.id == id
                &&& s.params == params
                &&& s.fx_proc_ids@.len() == 0
                &&& s.events_in_loop()
                &&& head_synced(
                    s.buf(),
                    s.event_head as int,
                    window_end as int % params.loop_length as int,
                )
                &&& (params.ty is Random ==> s.buf().len() == 2 * params.spec_nb_events())
                &&& (exists|g: Seq<Event>| #[trigger] generated_from(s.buf(), g, params))
            },
    {
        let mut base_seq = BaseSeq {
            params,
            event_head: 0,
            event_buffer: Vec::new(),
            fx_proc_ids: Vec::new(),
            id,
        };
        match base_seq.gen_fill(window_end, rng) {
            Ok(()) => Ok(base_seq),
            Err(e) => Err(e),
        }
    }

    /// Change the event count of a random sequence and regenerate its
    /// buffer; refused for Euclidean sequences.
    pub fn set_nb_events(
        &mut self,
        target_nb_events: u32,
        window_end: u64,
        rng: &mut rand::rngs::StdRng,
    ) -> (r: Result<(), SeqError>)
        requires
            old(self).params.wf(),
        ensures
            !(old(self).params.ty is Random) ==> r == Err::<(), SeqError>(
                SeqError::InvalidArgument,
            ) && *final(self) == *old(self),
            old(self).params.ty is Random ==> {
                &&& r is Ok
                &&& final(self).params == (BaseSeqParams {
                    ty: BaseSeqType::Random(RandomBase { nb_events: target_nb_events }),
                    ..old(self).params
                })
                &&& final(self).id == old(self).id
                &&& final(self).fx_proc_ids == old(self).fx_proc_ids
                &&& final(self).inv()
                &&& final(self).events_in_loop()
                &&& final(self).buf().len() == 2 * target_nb_events
                &&& (exists|g: Seq<Event>|
                    #[trigger] generated_from(final(self).buf(), g, final(self).params))
                &&& head_synced(
                    final(self).buf(),
                    final(self).event_head as int,
                    window_end as int % old(self).params.loop_length as int,
                )
            },
    {
        match self.params.ty {
            BaseSeqType::Random(_) => {},
            BaseSeqType::Euclid(_) => {
                return Err(SeqError::InvalidArgument);
            },
        }
        self.params.ty = BaseSeqType::Random(RandomBase { nb_events: target_nb_events });
        let r = self.gen_fill(window_end, rng);
        proof {
            assert(r is Ok);
        }
        r
    }

    /// Move every note-off by the difference between the target average note
    /// length and the current one (wrapped into the loop), keep note-ons in
    /// place, record the new average, re-sort and resynchronize the head.
    pub fn change_note_len(&mut self, target_note_len: u32, window_end: u64)
        requires
            old(self).inv(),
        ensures
            final(self).inv(),
            final(self).params == (BaseSeqParams {
                note_len_avg: target_note_len,
                ..old(self).params
            }),
            final(self).id == old(self).id,
            final(self).fx_proc_ids == old(self).fx_proc_ids,
            final(self).buf().to_multiset() == old(self).buf().map_values(
                |e: Event|
                    shift_off_event(
                        e,
                        old(self).params.note_len_avg as int,
                        target_note_len as int,
                        old(self).params.loop_length as int,
                    ),
            ).to_multiset(),
            forall|key: u32|
                events_at_pos(final(self).buf(), key) == events_at_pos(
                    old(self).buf().map_values(
                        |e: Event|
                            shift_off_event(
                                e,
                                old(self).params.note_len_avg as int,
                                target_note_len as int,
                                old(self).params.loop_length as int,
                            ),
                    ),
                    key,
                ),
            head_synced(
                final(self).buf(),
                final(self).event_head as int,
                window_end as int % old(self).params.loop_length as int,
            ),
    {
        let old_avg = self.params.note_len_avg;
        let l = self.params.loop_length;
        let n = self.event_buffer.len();
        let ghost ch = self.params.midi_ch;
        let mut j: usize = 0;
        while j < n
            invariant
                j <= n,
                n == self.buf().len(),
                n == old(self).buf().len(),
                l == old(self).params.loop_length,
                l >= 1,
                old_avg == old(self).params.note_len_avg,
                self.params == old(self).params,
                self.id == old(self).id,
                self.fx_proc_ids == old(self).fx_proc_ids,
                self.event_head == old(self).event_head,
                forall|idx: int|
                    0 <= idx < j ==> self.buf()[idx] == shift_off_event(
                        #[trigger] old(self).buf()[idx],
                        old_avg as int,
                        target_note_len as int,
                        l as int,
                    ),
                forall|idx: int| j <= idx < n ==> self.buf()[idx] == old(self).buf()[idx],
            decreases n - j,
        {
            let e = self.event_buffer[j];
            let is_off = match e.e_type {
                EventType::MidiNote(nn) => !nn.on_off,
                EventType::Fill => false,
            };
            if is_off {
                let new_pos = shift_pos_exec(e.bar_pos, old_avg, target_note_len, l);
                self.event_buffer.set(j, Event { bar_pos: new_pos, ..e });
            }
            j = j + 1;
        }
        self.params.note_len_avg = target_note_len;
        let ghost mapped = old(self).buf().map_values(
            |e: Event|
                shift_off_event(e, old_avg as int, target_note_len as int, l as int),
        );
        proof {
            assert(self.buf() =~= mapped);
            assert forall|i: int| 0 <= i < mapped.len() implies (#[trigger] mapped[i]).wf_on_channel(
                ch,
            ) by {
                assert(old(self).buf()[i].wf_on_channel(ch));
                assert(mapped[i] == shift_off_event(
                    old(self).buf()[i],
                    old_avg as int,
                    target_note_len as int,
                    l as int,
                ));
            };
        }
        sort_events_by_pos(&mut self.event_buffer);
        proof {
            lemma_buffer_wf_transfer(mapped, self.buf(), ch);
        }
        self.sync_event_head(window_end);
    }

    /// Shift the pitch of every buffered note by the difference between the
    /// target root and the current root, clamped into the MIDI range, and
    /// make the target the new root. Positions and ordering are untouched.
    pub fn transpose(&mut self, target_root_note: Note)
        requires
            old(self).inv(),
            target_root_note.wf(),
        ensures
            final(self).inv(),
            final(self).params == (BaseSeqParams {
                root_note: target_root_note,
                ..old(self).params
            }),
            final(self).event_head == old(self).event_head,
            final(self).id == old(self).id,
            final(self).fx_proc_ids == old(self).fx_proc_ids,
            final(self).buf() == old(self).buf().map_values(
                |e: Event|
                    transpose_event(
                        e,
                        target_root_note.midi_val() - old(self).params.root_note.midi_val(),
                    ),
            ),
    {
        let root_note_midi = note_to_midi_pitch(&self.params.root_note);
        let target_root_note_midi = note_to_midi_pitch(&target_root_note);
        let pitch_diff: i32 = target_root_note_midi as i32 - root_note_midi as i32;
        let n = self.event_buffer.len();
        let mut j: usize = 0;
        while j < n
            invariant
                j <= n,
                n == self.buf().len(),
                n == old(self).buf().len(),
                self.params == old(self).params,
                self.id == old(self).id,
                self.fx_proc_ids == old(self).fx_proc_ids,
                self.event_head == old(self).event_head,
                pitch_diff == target_root_note.midi_val() - old(self).params.root_note.midi_val(),
                forall|idx: int|
                    0 <= idx < j ==> self.buf()[idx] == transpose_event(
                        #[trigger] old(self).buf()[idx],
                        pitch_diff as int,
                    ),
                forall|idx: int| j <= idx < n ==> self.buf()[idx] == old(self).buf()[idx],
            decreases n - j,
        {
            let e = self.event_buffer[j];
            match e.e_type {
                EventType::MidiNote(note) => {
                    let p = note.pitch as i32 + pitch_diff;
                    let new_pitch: u8 = if p < 0 {
                        0
                    } else if p > 127 {
                        127
                    } else {
                        p as u8
                    };
                    self.event_buffer.set(
                        j,
                        Event {
                            e_type: EventType::MidiNote(MidiNote { pitch: new_pitch, ..note }),
                            ..e
                        },
                    );
                },
                EventType::Fill => {},
            }
            j = j + 1;
        }
        self.params.root_note = target_root_note;
        proof {
            assert(self.buf() =~= old(self).buf().map_values(
                |e: Event|
                    transpose_event(
                        e,
                        target_root_note.midi_val() - old(self).params.root_note.midi_val(),
                    ),
            ));
        }
    }
}


/// A per-event effect processor: adds a pitch jitter drawn around zero to
/// every note it processes.
pub struct FxProcessor {
    /// The processor's own random source.
    pub rng: rand::rngs::StdRng,
    /// Unique identifier of the effect processor.
    pub id: u32,
}

impl FxProcessor {
    /// A new processor with its own deterministic random source.
    pub fn new(id: u32, seed: u64) -> (r: FxProcessor)
        ensures
            r.id == id,
    {
        FxProcessor { rng: crate::rng::rng_from_seed(seed), id }
    }

    /// Add a whole-semitone jitter of at most six semitones, drawn around
    /// zero with a deviation of one semitone, to the note's pitch,
    /// saturating at the MIDI range; events without a note are unchanged.
    pub fn process(&mut self, event: &mut Event)
        ensures
            final(self).id == old(self).id,
            old(event).is_note() ==> (exists|d: int|
                -6 <= d <= 6 && *final(event) == transpose_event(*old(event), d)),
            !old(event).is_note() ==> *final(event) == *old(event),
    {
        match event.e_type {
            EventType::MidiNote(note) => {
                // The draw is made on a grid of a thousandth of a semitone
                // and rounded to the nearest semitone.
                let c = crate::rng::centered_draw(&mut self.rng, 1000);
                let j: i64 = (((c + 6500) as u64 / 1000) as i64) - 6;
                let p = note.pitch as i64 + j;
                let new_pitch: u8 = if p < 0 {
                    0
                } else if p > 127 {
                    127
                } else {
                    p as u8
                };
                event.e_type = EventType::MidiNote(MidiNote { pitch: new_pitch, ..note });
                proof {
                    assert(-6 <= j <= 6);
                    assert(*event == transpose_event(*old(event), j as int));
                }
            },
            EventType::Fill => {},
        }
    }
}

/// A mutable reference to one base sequence of the collection.
pub(crate) fn base_seq_at(v: &mut Vec<BaseSeq>, i: usize) -> (element: &mut BaseSeq)
    requires
        i < old(v)@.len(),
    ensures
        *element == old(v)@[i as int],
        final(v)@ == old(v)@.update(i as int, *final(element)),
{
    &mut v[i]
}

/// A mutable reference to one effect processor of the registry.
fn fx_proc_at(v: &mut Vec<FxProcessor>, i: usize) -> (element: &mut FxProcessor)
    requires
        i < old(v)@.len(),
    ensures
        *element == old(v)@[i as int],
        final(v)@ == old(v)@.update(i as int, *final(element)),
{
    &mut v[i]
}

/// A note-off of velocity 1 for the given channel and pitch, as emitted by
/// the all-notes-off tail.
pub open spec fn off_event(ch: u8, pitch: u8) -> Event {
    Event {
        e_type: EventType::MidiNote(
            MidiNote { on_off: false, channel: ch, pitch, velocity: 1 },
        ),
        bar_pos: 0,
    }
}

/// Some base sequence plays on the given channel.
pub open spec fn channel_used(s: Seq<BaseSeq>, ch: u8) -> bool {
    exists|i: int| 0 <= i < s.len() && (#[trigger] s[i]).params.midi_ch == ch
}

/// The 128 note-offs of one channel, by ascending pitch.
pub open spec fn offs_for_channel(ch: u8) -> Seq<Event> {
    Seq::new(128, |p: int| off_event(ch, p as u8))
}

/// The full all-notes-off tail from channel `ch` up: 128 note-offs for every
/// channel that some base sequence uses, channels ascending.
pub open spec fn notes_off_spec(s: Seq<BaseSeq>, ch: int) -> Seq<Event>
    decreases 17 - ch,
{
    if ch < 1 || ch > 16 {
        Seq::empty()
    } else {
        (if channel_used(s, ch as u8) {
            offs_for_channel(ch as u8)
        } else {
            Seq::empty()
        }) + notes_off_spec(s, ch + 1)
    }
}

/// The aggregate sequencer: control parameters, the base sequences, the
/// effect-processor registry, the realtime-internal state, and the random
/// source feeding the generators.
pub struct Sequencer {
    pub params: SeqParams,
    /// Current state of the base sequences from which events are played.
    pub base_seqs: Vec<BaseSeq>,
    /// Effect processor registry.
    pub fx_procs: Vec<FxProcessor>,
    /// Internal sequencer state, owned by the realtime callback.
    pub internal: SeqInternal,
    /// The random source feeding generation and effect seeds.
    pub rng: rand::rngs::StdRng,
}

impl Sequencer {
    /// The base sequences as a mathematical sequence.
    pub open spec fn seqs(self) -> Seq<BaseSeq> {
        self.base_seqs@
    }

    /// The sequencer invariant: every base sequence holds its own invariant,
    /// every id was assigned below the counter, ids never repeat, and the
    /// playback window is ordered.
    pub open spec fn inv(self) -> bool {
        &&& forall|i: int| 0 <= i < self.seqs().len() ==> (#[trigger] self.seqs()[i]).inv()
        &&& forall|i: int|
            0 <= i < self.seqs().len() ==> (#[trigger] self.seqs()[i]).id < self.params.incr
        &&& forall|i: int, j: int|
            0 <= i < j < self.seqs().len() ==> (#[trigger] self.seqs()[i]).id != (
            #[trigger] self.seqs()[j]).id
        &&& forall|i: int|
            0 <= i < self.fx_procs@.len() ==> (#[trigger] self.fx_procs@[i]).id
                < self.params.incr
        &&& forall|i: int, j: int|
            0 <= i < j < self.fx_procs@.len() ==> (#[trigger] self.fx_procs@[i]).id != (
            #[trigger] self.fx_procs@[j]).id
        &&& self.internal.window_start <= self.internal.window_end
    }

    /// A sequencer at rest with the given tempo (in hundredths of a BPM),
    /// with an arbitrary random seed.
    pub fn new(bpm_centi: u32) -> (r: Sequencer)
        ensures
            r.inv(),
            r.params == (SeqParams { status: SeqStatus::Stop, bpm_centi, incr: 0 }),
            r.seqs().len() == 0,
            r.fx_procs@.len() == 0,
            r.internal.status == SeqInternalStatus::Silence,
            r.internal.window_start == 0 && r.internal.window_end == 0,
    {
        Self::new_seeded(bpm_centi, crate::rng::random_seed())
    }

    /// A sequencer at rest with the given tempo and a deterministic random
    /// source built from the seed.
    pub fn new_seeded(bpm_centi: u32, seed: u64) -> (r: Sequencer)
        ensures
            r.inv(),
            r.params == (SeqParams { status: SeqStatus::Stop, bpm_centi, incr: 0 }),
            r.seqs().len() == 0,
            r.fx_procs@.len() == 0,
            r.internal.status == SeqInternalStatus::Silence,
            r.internal.window_start == 0 && r.internal.window_end == 0,
    {
        Sequencer {
            params: SeqParams { status: SeqStatus::Stop, bpm_centi, incr: 0 },
            base_seqs: Vec::new(),
            fx_procs: Vec::new(),
            internal: SeqInternal::new(),
            rng: crate::rng::rng_from_seed(seed),
        }
    }

    /// The index of the base sequence with the given id.
    fn find_base_seq(&self, base_seq_id: u32) -> (r: Option<usize>)
        ensures
            r is Some ==> 0 <= r.unwrap() < self.seqs().len() && self.seqs()[
                r.unwrap() as int
            ].id == base_seq_id,
            r is None ==> forall|i: int|
                0 <= i < self.seqs().len() ==> (#[trigger] self.seqs()[i]).id != base_seq_id,
    {
        let mut i: usize = 0;
        let n = self.base_seqs.len();
        while i < n
            invariant
                i <= n,
                n == self.seqs().len(),
                forall|j: int| 0 <= j < i ==> (#[trigger] self.seqs()[j]).id != base_seq_id,
            decreases n - i,
        {
            if self.base_seqs[i].id == base_seq_id {
                return Some(i);
            }
            i = i + 1;
        }
        None
    }

    /// The index of the effect processor with the given id.
    fn find_fx_proc(&self, fx_proc_id: u32) -> (r: Option<usize>)
        ensures
            r is Some ==> 0 <= r.unwrap() < self.fx_procs@.len() && self.fx_procs@[
                r.unwrap() as int
            ].id == fx_proc_id,
            r is None ==> forall|i: int|
                0 <= i < self.fx_procs@.len() ==> (#[trigger] self.fx_procs@[i]).id != fx_proc_id,
    {
        let mut i: usize = 0;
        let n = self.fx_procs.len();
        while i < n
            invariant
                i <= n,
                n == self.fx_procs@.len(),
                forall|j: int| 0 <= j < i ==> (#[trigger] self.fx_procs@[j]).id != fx_proc_id,
            decreases n - i,
        {
            if self.fx_procs[i].id == fx_proc_id {
                return Some(i);
            }
            i = i + 1;
        }
        None
    }

    /// Base sequence getter.
    pub fn get_base_seq(&self, base_seq_id: u32) -> (r: Result<&BaseSeq, SeqError>)
        ensures
            r is Ok <==> contains_id(self.seqs(), base_seq_id),
            r is Ok ==> (exists|i: int|
                #![auto]
                0 <= i < self.seqs().len() && self.seqs()[i].id == base_seq_id && *r.unwrap()
                    == self.seqs()[i]),
            r is Err ==> r == Err::<&BaseSeq, SeqError>(SeqError::NotFound),
    {
        match self.find_base_seq(base_seq_id) {
            Some(i) => Ok(&self.base_seqs[i]),
            None => Err(SeqError::NotFound),
        }
    }

    /// Effect processor getter.
    pub fn get_fx_proc(&self, fx_proc_id: u32) -> (r: Result<&FxProcessor, SeqError>)
        ensures
            r is Ok <==> (exists|i: int|
                0 <= i < self.fx_procs@.len() && (#[trigger] self.fx_procs@[i]).id == fx_proc_id),
            r is Ok ==> (exists|i: int|
                #![auto]
                0 <= i < self.fx_procs@.len() && self.fx_procs@[i].id == fx_proc_id && *r.unwrap()
                    == self.fx_procs@[i]),
            r is Err ==> r == Err::<&FxProcessor, SeqError>(SeqError::NotFound),
    {
        match self.find_fx_proc(fx_proc_id) {
            Some(i) => Ok(&self.fx_procs[i]),
            None => Err(SeqError::NotFound),
        }
    }
}


/// How many of the channels from `ch` up to 16 some base sequence uses.
pub open spec fn used_channels_from(s: Seq<BaseSeq>, ch: int) -> int
    decreases 17 - ch,
{
    if ch < 1 || ch > 16 {
        0
    } else {
        (if channel_used(s, ch as u8) {
            1int
        } else {
            0int
        }) + used_channels_from(s, ch + 1)
    }
}

/// The all-notes-off tail holds exactly 128 note-offs for each channel in
/// use: a stop over `k` used channels writes `128 * k` events.
pub proof fn lemma_notes_off_len(s: Seq<BaseSeq>, ch: int)
    ensures
        notes_off_spec(s, ch).len() == 128 * used_channels_from(s, ch),
    decreases 17 - ch,
{
    if ch < 1 || ch > 16 {
    } else {
        lemma_notes_off_len(s, ch + 1);
    }
}

/// Some base sequence carries the given id.
pub open spec fn contains_id(s: Seq<BaseSeq>, id: u32) -> bool {
    exists|i: int| 0 <= i < s.len() && (#[trigger] s[i]).id == id
}

/// Some effect processor of the registry carries the given id.
pub open spec fn fx_contains_id(s: Seq<FxProcessor>, id: u32) -> bool {
    exists|i: int| 0 <= i < s.len() && (#[trigger] s[i]).id == id
}


/// A Euclidean parameter record whose generation is refused with an error:
/// the loop divides evenly into the steps but the pulses outnumber them.
pub open spec fn euclid_refused(p: BaseSeqParams) -> bool {
    &&& p.ty is Euclid
    &&& p.spec_steps() > 0
    &&& p.loop_length as int % p.spec_steps() as int == 0
    &&& p.spec_pulses() > p.spec_steps()
}

/// Whether a parameter record is accepted by the mutators.
pub fn params_valid(p: &BaseSeqParams) -> (r: bool)
    ensures
        r == p.wf(),
{
    p.loop_length >= 1 && p.root_note.pitch_class < 12 && (p.root_note.octave as u32 + 1) * 12
        + p.root_note.pitch_class as u32 <= 127 && p.velocity_avg <= 127 && 1 <= p.midi_ch
        && p.midi_ch <= 16 && p.note_len_div <= 1_000_000_000 && p.velocity_div <= 1_000_000
}

/// Whether a note is well-formed: pitch class below 12 and MIDI pitch in
/// range.
pub fn note_valid(n: &Note) -> (r: bool)
    ensures
        r == n.wf(),
{
    n.pitch_class < 12 && (n.octave as u32 + 1) * 12 + n.pitch_class as u32 <= 127
}

/// Everything of the sequencer but the base sequence at `i` (and the random
/// source) is unchanged between the two states.
pub open spec fn same_but_seq(pre: Sequencer, post: Sequencer, i: int) -> bool {
    &&& post.params == pre.params
    &&& post.internal == pre.internal
    &&& post.fx_procs == pre.fx_procs
    &&& post.base_seqs@ == pre.base_seqs@.update(i, post.base_seqs@[i])
}


/// The exact effect of adding a base sequence built from `p`: refusals leave
/// everything but the random source unchanged, success appends the generated
/// sequence under the next id and advances the counter.
pub open spec fn add_base_seq_spec(
    pre: Sequencer,
    post: Sequencer,
    p: BaseSeqParams,
    r: Result<(), SeqError>,
) -> bool {
    &&& (r is Err ==> post == (Sequencer { rng: post.rng, ..pre }))
    &&& (!p.wf() || pre.params.incr == u32::MAX ==> r == Err::<(), SeqError>(
        SeqError::InvalidArgument,
    ))
    &&& (p.wf() && pre.params.incr < u32::MAX && euclid_refused(p) ==> r == Err::<(), SeqError>(
        SeqError::GenerationRefused,
    ))
    &&& (p.wf() && pre.params.incr < u32::MAX && !euclid_refused(p) ==> r is Ok)
    &&& (r is Ok ==> {
        &&& post.params == (SeqParams { incr: (pre.params.incr + 1) as u32, ..pre.params })
        &&& post.fx_procs == pre.fx_procs
        &&& post.internal == pre.internal
        &&& post.seqs().len() == pre.seqs().len() + 1
        &&& post.seqs().drop_last() == pre.seqs()
        &&& ({
            let sq = post.seqs().last();
            &&& sq.params == p
            &&& sq.id == pre.params.incr
            &&& sq.inv()
            &&& sq.events_in_loop()
            &&& sq.fx_proc_ids@.len() == 0
            &&& head_synced(
                sq.buf(),
                sq.event_head as int,
                pre.internal.window_end as int % p.loop_length as int,
            )
            &&& (p.ty is Random ==> sq.buf().len() == 2 * p.spec_nb_events())
            &&& (exists|g: Seq<Event>| #[trigger] crate::gen::generated_from(sq.buf(), g, p))
        })
    })
}

/// The exact effect of attaching an effect processor to the sequence with
/// the given id: the processor is appended under the next id, which is also
/// appended to the owner's id list.
pub open spec fn add_fx_processor_spec(
    pre: Sequencer,
    post: Sequencer,
    base_seq_id: u32,
    r: Result<(), SeqError>,
) -> bool {
    &&& (r is Err ==> post == (Sequencer { rng: post.rng, ..pre }))
    &&& (!contains_id(pre.seqs(), base_seq_id) ==> r == Err::<(), SeqError>(SeqError::NotFound))
    &&& (contains_id(pre.seqs(), base_seq_id) && pre.params.incr == u32::MAX ==> r == Err::<
        (),
        SeqError,
    >(SeqError::InvalidArgument))
    &&& (contains_id(pre.seqs(), base_seq_id) && pre.params.incr < u32::MAX ==> r is Ok)
    &&& (r is Ok ==> {
        &&& post.params == (SeqParams { incr: (pre.params.incr + 1) as u32, ..pre.params })
        &&& post.internal == pre.internal
        &&& post.fx_procs@.len() == pre.fx_procs@.len() + 1
        &&& post.fx_procs@.drop_last() == pre.fx_procs@
        &&& post.fx_procs@.last().id == pre.params.incr
        &&& (exists|i: int|
            #![auto]
            {
                &&& 0 <= i < pre.seqs().len()
                &&& pre.seqs()[i].id == base_seq_id
                &&& post.base_seqs@ == pre.base_seqs@.update(i, post.base_seqs@[i])
                &&& post.base_seqs@[i] == (BaseSeq {
                    fx_proc_ids: post.base_seqs@[i].fx_proc_ids,
                    ..pre.base_seqs@[i]
                })
                &&& post.base_seqs@[i].fx_proc_ids@ == pre.base_seqs@[i].fx_proc_ids@.push(
                    pre.params.incr,
                )
            })
    })
}

/// The exact effect of regenerating the sequence with the given id.
pub open spec fn regen_base_seq_spec(
    pre: Sequencer,
    post: Sequencer,
    base_seq_id: u32,
    r: Result<(), SeqError>,
) -> bool {
    &&& (!contains_id(pre.seqs(), base_seq_id) ==> r == Err::<(), SeqError>(SeqError::NotFound)
        && post == (Sequencer { rng: post.rng, ..pre }))
    &&& (contains_id(pre.seqs(), base_seq_id) ==> (exists|i: int|
        #![auto]
        {
            &&& 0 <= i < pre.seqs().len()
            &&& pre.seqs()[i].id == base_seq_id
            &&& same_but_seq(pre, post, i)
            &&& ({
                let s0 = pre.seqs()[i];
                let s1 = post.seqs()[i];
                if euclid_refused(s0.params) {
                    r == Err::<(), SeqError>(SeqError::GenerationRefused) && s1 == s0
                } else {
                    &&& r is Ok
                    &&& s1.params == s0.params
                    &&& s1.id == s0.id
                    &&& s1.fx_proc_ids == s0.fx_proc_ids
                    &&& s1.inv()
                    &&& s1.events_in_loop()
                    &&& head_synced(
                        s1.buf(),
                        s1.event_head as int,
                        pre.internal.window_end as int % s0.params.loop_length as int,
                    )
                    &&& (s0.params.ty is Random ==> s1.buf().len() == 2
                        * s0.params.spec_nb_events())
                    &&& (exists|g: Seq<Event>|
                        #[trigger] crate::gen::generated_from(s1.buf(), g, s1.params))
                }
            })
        }))
}

/// The exact effect of changing the average note length of the sequence with
/// the given id: note-offs shift by the difference, wrapped into the loop.
pub open spec fn change_note_len_spec(
    pre: Sequencer,
    post: Sequencer,
    base_seq_id: u32,
    target_note_len: u32,
    r: Result<(), SeqError>,
) -> bool {
    &&& (!contains_id(pre.seqs(), base_seq_id) ==> r == Err::<(), SeqError>(SeqError::NotFound)
        && post == pre)
    &&& (contains_id(pre.seqs(), base_seq_id) ==> r is Ok && (exists|i: int|
        #![auto]
        {
            &&& 0 <= i < pre.seqs().len()
            &&& pre.seqs()[i].id == base_seq_id
            &&& same_but_seq(pre, post, i)
            &&& post.rng == pre.rng
            &&& ({
                let s0 = pre.seqs()[i];
                let s1 = post.seqs()[i];
                &&& s1.params == (BaseSeqParams { note_len_avg: target_note_len, ..s0.params })
                &&& s1.id == s0.id
                &&& s1.fx_proc_ids == s0.fx_proc_ids
                &&& s1.inv()
                &&& (forall|key: u32|
                    events_at_pos(s1.buf(), key) == events_at_pos(
                        s0.buf().map_values(
                            |e: Event|
                                shift_off_event(
                                    e,
                                    s0.params.note_len_avg as int,
                                    target_note_len as int,
                                    s0.params.loop_length as int,
                                ),
                        ),
                        key,
                    ))
                &&& s1.buf().to_multiset() == s0.buf().map_values(
                    |e: Event|
                        shift_off_event(
                            e,
                            s0.params.note_len_avg as int,
                            target_note_len as int,
                            s0.params.loop_length as int,
                        ),
                ).to_multiset()
                &&& head_synced(
                    s1.buf(),
                    s1.event_head as int,
                    pre.internal.window_end as int % s0.params.loop_length as int,
                )
            })
        }))
}

/// The exact effect of overwriting the loop length of the sequence with the
/// given id; its buffer and head are untouched.
pub open spec fn change_loop_len_spec(
    pre: Sequencer,
    post: Sequencer,
    base_seq_id: u32,
    target_loop_len: u32,
    r: Result<(), SeqError>,
) -> bool {
    &&& (target_loop_len == 0 ==> r == Err::<(), SeqError>(SeqError::InvalidArgument) && post
        == pre)
    &&& (target_loop_len >= 1 && !contains_id(pre.seqs(), base_seq_id) ==> r == Err::<
        (),
        SeqError,
    >(SeqError::NotFound) && post == pre)
    &&& (target_loop_len >= 1 && contains_id(pre.seqs(), base_seq_id) ==> r is Ok && (exists|i: int|
        #![auto]
        {
            &&& 0 <= i < pre.seqs().len()
            &&& pre.seqs()[i].id == base_seq_id
            &&& same_but_seq(pre, post, i)
            &&& post.rng == pre.rng
            &&& post.seqs()[i] == (BaseSeq {
                params: (BaseSeqParams { loop_length: target_loop_len, ..pre.seqs()[i].params }),
                ..pre.seqs()[i]
            })
        }))
}

/// The exact effect of resizing the random sequence with the given id:
/// the parameters take the new event count and the buffer regenerates;
/// Euclidean sequences refuse.
pub open spec fn set_nb_events_spec(
    pre: Sequencer,
    post: Sequencer,
    base_seq_id: u32,
    target_nb_events: u32,
    r: Result<(), SeqError>,
) -> bool {
    &&& (!contains_id(pre.seqs(), base_seq_id) ==> r == Err::<(), SeqError>(SeqError::NotFound)
        && post == (Sequencer { rng: post.rng, ..pre }))
    &&& (contains_id(pre.seqs(), base_seq_id) ==> (exists|i: int|
        #![auto]
        {
            &&& 0 <= i < pre.seqs().len()
            &&& pre.seqs()[i].id == base_seq_id
            &&& same_but_seq(pre, post, i)
            &&& ({
                let s0 = pre.seqs()[i];
                let s1 = post.seqs()[i];
                if s0.params.ty is Random {
                    &&& r is Ok
                    &&& s1.params == (BaseSeqParams {
                        ty: BaseSeqType::Random(RandomBase { nb_events: target_nb_events }),
                        ..s0.params
                    })
                    &&& s1.id == s0.id
                    &&& s1.fx_proc_ids == s0.fx_proc_ids
                    &&& s1.inv()
                    &&& s1.events_in_loop()
                    &&& s1.buf().len() == 2 * target_nb_events
                    &&& (exists|g: Seq<Event>|
                        #[trigger] crate::gen::generated_from(s1.buf(), g, s1.params))
                    &&& head_synced(
                        s1.buf(),
                        s1.event_head as int,
                        pre.internal.window_end as int % s0.params.loop_length as int,
                    )
                } else {
                    r == Err::<(), SeqError>(SeqError::InvalidArgument) && s1 == s0
                }
            })
        }))
}

/// The exact effect of transposing the sequence with the given id to a new
/// root: every pitch moves by the root difference, clamped into MIDI range.
pub open spec fn transpose_spec(
    pre: Sequencer,
    post: Sequencer,
    base_seq_id: u32,
    target_root_note: Note,
    r: Result<(), SeqError>,
) -> bool {
    &&& (!target_root_note.wf() ==> r == Err::<(), SeqError>(SeqError::InvalidArgument) && post
        == pre)
    &&& (target_root_note.wf() && !contains_id(pre.seqs(), base_seq_id) ==> r == Err::<
        (),
        SeqError,
    >(SeqError::NotFound) && post == pre)
    &&& (target_root_note.wf() && contains_id(pre.seqs(), base_seq_id) ==> r is Ok && (exists|i: int|
        #![auto]
        {
            &&& 0 <= i < pre.seqs().len()
            &&& pre.seqs()[i].id == base_seq_id
            &&& same_but_seq(pre, post, i)
            &&& post.rng == pre.rng
            &&& ({
                let s0 = pre.seqs()[i];
                let s1 = post.seqs()[i];
                &&& s1.params == (BaseSeqParams { root_note: target_root_note, ..s0.params })
                &&& s1.event_head == s0.event_head
                &&& s1.id == s0.id
                &&& s1.fx_proc_ids == s0.fx_proc_ids
                &&& s1.inv()
                &&& s1.buf() == s0.buf().map_values(
                    |e: Event|
                        transpose_event(
                            e,
                            target_root_note.midi_val() - s0.params.root_note.midi_val(),
                        ),
                )
            })
        }))
}

/// The exact effect of removing the sequence with the given id.
pub open spec fn remove_base_seq_spec(
    pre: Sequencer,
    post: Sequencer,
    base_seq_id: u32,
    r: Result<(), SeqError>,
) -> bool {
    &&& (!contains_id(pre.seqs(), base_seq_id) ==> r == Err::<(), SeqError>(SeqError::NotFound)
        && post == pre)
    &&& (contains_id(pre.seqs(), base_seq_id) ==> r is Ok && (exists|i: int|
        #![auto]
        {
            &&& 0 <= i < pre.seqs().len()
            &&& pre.seqs()[i].id == base_seq_id
            &&& post.base_seqs@ == pre.base_seqs@.remove(i)
            &&& post.params == pre.params
            &&& post.fx_procs == pre.fx_procs
            &&& post.internal == pre.internal
            &&& post.rng == pre.rng
        }))
}

impl Sequencer {
    /// Append a new base sequence generated from the given parameters and
    /// assign it the next id. Invalid parameters (or an exhausted id space)
    /// and refused Euclidean records leave the state untouched.
    pub fn add_base_seq(&mut self, base_seq_params: BaseSeqParams) -> (r: Result<(), SeqError>)
        requires
            old(self).inv(),
        ensures
            final(self).inv(),
            add_base_seq_spec(*old(self), *final(self), base_seq_params, r),
    {
        if !params_valid(&base_seq_params) {
            return Err(SeqError::InvalidArgument);
        }
        if self.params.incr == u32::MAX {
            return Err(SeqError::InvalidArgument);
        }
        let we = self.internal.window_end;
        let id = self.params.incr;
        let base_seq = match BaseSeq::new_fill(base_seq_params, id, we, &mut self.rng) {
            Ok(sq) => sq,
            Err(e) => {
                return Err(e);
            },
        };
        let ghost before = self.base_seqs@;
        self.base_seqs.push(base_seq);
        self.params.incr = self.params.incr + 1;
        proof {
            assert(self.base_seqs@.drop_last() =~= before);
        }
        Ok(())
    }

    /// Create an effect processor owned by the base sequence of the given
    /// id, registering the processor's id with its owner.
    pub fn add_fx_processor(&mut self, base_seq_id: u32) -> (r: Result<(), SeqError>)
        requires
            old(self).inv(),
        ensures
            final(self).inv(),
            add_fx_processor_spec(*old(self), *final(self), base_seq_id, r),
    {
        let idx = match self.find_base_seq(base_seq_id) {
            Some(i) => i,
            None => {
                return Err(SeqError::NotFound);
            },
        };
        if self.params.incr == u32::MAX {
            return Err(SeqError::InvalidArgument);
        }
        let id = self.params.incr;
        let seed = crate::rng::rand_u64(&mut self.rng);
        let fx = FxProcessor::new(id, seed);
        let bs = base_seq_at(&mut self.base_seqs, idx);
        bs.fx_proc_ids.push(id);
        let ghost fx_before = self.fx_procs@;
        self.fx_procs.push(fx);
        self.params.incr = self.params.incr + 1;
        proof {
            assert(self.fx_procs@.drop_last() =~= fx_before);
            let ghost i = idx as int;
            assert(old(self).seqs()[i].id == base_seq_id);
            assert(self.base_seqs@ == old(self).base_seqs@.update(i, self.base_seqs@[i]));
            assert(self.base_seqs@[i] == (BaseSeq {
                fx_proc_ids: self.base_seqs@[i].fx_proc_ids,
                ..old(self).base_seqs@[i]
            }));
            assert(self.base_seqs@[i].fx_proc_ids@ == old(self).base_seqs@[i].fx_proc_ids@.push(
                old(self).params.incr,
            ));
        }
        Ok(())
    }

    /// Regenerate the buffer of the base sequence with the given id.
    pub fn regen_base_seq(&mut self, base_seq_id: u32) -> (r: Result<(), SeqError>)
        requires
            old(self).inv(),
        ensures
            final(self).inv(),
            regen_base_seq_spec(*old(self), *final(self), base_seq_id, r),
    {
        let idx = match self.find_base_seq(base_seq_id) {
            Some(i) => i,
            None => {
                return Err(SeqError::NotFound);
            },
        };
        let we = self.internal.window_end;
        let bs = base_seq_at(&mut self.base_seqs, idx);
        let r = bs.gen_fill(we, &mut self.rng);
        proof {
            let ghost i = idx as int;
            assert(old(self).seqs()[i].id == base_seq_id);
            assert(same_but_seq(*old(self), *self, i));
        }
        r
    }

    /// Change the average note length of the base sequence with the given
    /// id, moving its note-offs accordingly.
    pub fn change_note_len(&mut self, base_seq_id: u32, target_note_len: u32) -> (r: Result<
        (),
        SeqError,
    >)
        requires
            old(self).inv(),
        ensures
            final(self).inv(),
            change_note_len_spec(*old(self), *final(self), base_seq_id, target_note_len, r),
    {
        let idx = match self.find_base_seq(base_seq_id) {
            Some(i) => i,
            None => {
                return Err(SeqError::NotFound);
            },
        };
        let we = self.internal.window_end;
        let bs = base_seq_at(&mut self.base_seqs, idx);
        bs.change_note_len(target_note_len, we);
        proof {
            let ghost i = idx as int;
            assert(old(self).seqs()[i].id == base_seq_id);
            assert(same_but_seq(*old(self), *self, i));
        }
        Ok(())
    }

    /// Overwrite the loop length of the base sequence with the given id. The
    /// buffer is not rewritten: events now outside the loop are skipped by
    /// the realtime tick.
    pub fn change_loop_len(&mut self, base_seq_id: u32, target_loop_len: u32) -> (r: Result<
        (),
        SeqError,
    >)
        requires
            old(self).inv(),
        ensures
            final(self).inv(),
            change_loop_len_spec(*old(self), *final(self), base_seq_id, target_loop_len, r),
    {
        if target_loop_len == 0 {
            return Err(SeqError::InvalidArgument);
        }
        let idx = match self.find_base_seq(base_seq_id) {
            Some(i) => i,
            None => {
                return Err(SeqError::NotFound);
            },
        };
        let bs = base_seq_at(&mut self.base_seqs, idx);
        bs.params.loop_length = target_loop_len;
        proof {
            let ghost i = idx as int;
            assert(old(self).seqs()[i].id == base_seq_id);
            assert(same_but_seq(*old(self), *self, i));
            assert(self.seqs()[i] == (BaseSeq {
                params: (BaseSeqParams {
                    loop_length: target_loop_len,
                    ..old(self).seqs()[i].params
                }),
                ..old(self).seqs()[i]
            }));
        }
        Ok(())
    }

    /// Change the event count of the random base sequence with the given id
    /// and regenerate it; refused for Euclidean sequences.
    pub fn set_nb_events(&mut self, base_seq_id: u32, target_nb_events: u32) -> (r: Result<
        (),
        SeqError,
    >)
        requires
            old(self).inv(),
        ensures
            final(self).inv(),
            set_nb_events_spec(*old(self), *final(self), base_seq_id, target_nb_events, r),
    {
        let idx = match self.find_base_seq(base_seq_id) {
            Some(i) => i,
            None => {
                return Err(SeqError::NotFound);
            },
        };
        let we = self.internal.window_end;
        let bs = base_seq_at(&mut self.base_seqs, idx);
        let r = bs.set_nb_events(target_nb_events, we, &mut self.rng);
        proof {
            let ghost i = idx as int;
            assert(old(self).seqs()[i].id == base_seq_id);
            assert(same_but_seq(*old(self), *self, i));
        }
        r
    }

    /// Transpose the base sequence with the given id to a new root note.
    pub fn transpose(&mut self, base_seq_id: u32, target_root_note: Note) -> (r: Result<
        (),
        SeqError,
    >)
        requires
            old(self).inv(),
        ensures
            final(self).inv(),
            transpose_spec(*old(self), *final(self), base_seq_id, target_root_note, r),
    {
        if !note_valid(&target_root_note) {
            return Err(SeqError::InvalidArgument);
        }
        let idx = match self.find_base_seq(base_seq_id) {
            Some(i) => i,
            None => {
                return Err(SeqError::NotFound);
            },
        };
        let bs = base_seq_at(&mut self.base_seqs, idx);
        bs.transpose(target_root_note);
        proof {
            let ghost i = idx as int;
            assert(old(self).seqs()[i].id == base_seq_id);
            assert(same_but_seq(*old(self), *self, i));
        }
        Ok(())
    }

    /// Drop every base sequence and effect processor and reset the id
    /// counter: the id space starts over.
    pub fn empty(&mut self)
        requires
            old(self).inv(),
        ensures
            final(self).inv(),
            final(self).seqs().len() == 0,
            final(self).fx_procs@.len() == 0,
            final(self).params == (SeqParams { incr: 0, ..old(self).params }),
            final(self).internal == old(self).internal,
            final(self).rng == old(self).rng,
    {
        self.base_seqs = Vec::new();
        self.fx_procs = Vec::new();
        self.params.incr = 0;
    }

    /// Reset every base sequence's playback head to the loop start.
    pub fn reset_base_seqs(&mut self)
        requires
            old(self).inv(),
        ensures
            final(self).inv(),
            final(self).params == old(self).params,
            final(self).fx_procs == old(self).fx_procs,
            final(self).internal == old(self).internal,
            final(self).rng == old(self).rng,
            final(self).seqs().len() == old(self).seqs().len(),
            forall|i: int|
                0 <= i < old(self).seqs().len() ==> final(self).seqs()[i] == (BaseSeq {
                    event_head: 0,
                    ..#[trigger] old(self).seqs()[i]
                }),
    {
        let n = self.base_seqs.len();
        let mut i: usize = 0;
        while i < n
            invariant
                i <= n,
                n == self.seqs().len(),
                n == old(self).seqs().len(),
                self.params == old(self).params,
                self.fx_procs == old(self).fx_procs,
                self.internal == old(self).internal,
                self.rng == old(self).rng,
                forall|j: int|
                    0 <= j < i ==> self.seqs()[j] == (BaseSeq {
                        event_head: 0,
                        ..#[trigger] old(self).seqs()[j]
                    }),
                forall|j: int| i <= j < n ==> self.seqs()[j] == old(self).seqs()[j],
            decreases n - i,
        {
            let bs = base_seq_at(&mut self.base_seqs, i);
            bs.event_head = 0;
            i = i + 1;
        }
        proof {
            assert forall|j: int| 0 <= j < n implies (#[trigger] self.seqs()[j]).inv() && self.seqs()[
                j
            ].id < self.params.incr by {
                assert(old(self).seqs()[j].inv());
                assert(self.seqs()[j] == (BaseSeq { event_head: 0, ..old(self).seqs()[j] }));
            };
            assert forall|a: int, b: int| 0 <= a < b < n implies (#[trigger] self.seqs()[a]).id != (
            #[trigger] self.seqs()[b]).id by {
                assert(self.seqs()[a].id == old(self).seqs()[a].id);
                assert(self.seqs()[b].id == old(self).seqs()[b].id);
            };
        }
    }

    /// Remove the base sequence with the given id.
    pub fn remove_base_seq(&mut self, base_seq_id: u32) -> (r: Result<(), SeqError>)
        requires
            old(self).inv(),
        ensures
            final(self).inv(),
            remove_base_seq_spec(*old(self), *final(self), base_seq_id, r),
    {
        let idx = match self.find_base_seq(base_seq_id) {
            Some(i) => i,
            None => {
                return Err(SeqError::NotFound);
            },
        };
        let ghost before = self.base_seqs@;
        self.base_seqs.remove(idx);
        proof {
            let ghost i = idx as int;
            assert(old(self).seqs()[i].id == base_seq_id);
            assert(forall|j: int|
                0 <= j < self.seqs().len() ==> #[trigger] self.seqs()[j] == (if j < i {
                    before[j]
                } else {
                    before[j + 1]
                }));
        }
        Ok(())
    }

    /// Whether some base sequence plays on the given channel.
    fn channel_used_exec(&self, ch: u8) -> (r: bool)
        ensures
            r == channel_used(self.seqs(), ch),
    {
        let n = self.base_seqs.len();
        let mut i: usize = 0;
        while i < n
            invariant
                i <= n,
                n == self.seqs().len(),
                forall|j: int| 0 <= j < i ==> (#[trigger] self.seqs()[j]).params.midi_ch != ch,
            decreases n - i,
        {
            if self.base_seqs[i].params.midi_ch == ch {
                return true;
            }
            i = i + 1;
        }
        false
    }

    /// The all-notes-off tail: a note-off of velocity 1 for every pitch on
    /// every channel some base sequence uses, channels then pitches
    /// ascending.
    pub fn notes_off(&self) -> (r: Vec<Event>)
        ensures
            r@ == notes_off_spec(self.seqs(), 1),
    {
        let mut out: Vec<Event> = Vec::new();
        let mut ch: u8 = 1;
        while ch <= 16
            invariant
                1 <= ch <= 17,
                notes_off_spec(self.seqs(), 1) == out@ + notes_off_spec(self.seqs(), ch as int),
            decreases 17 - ch,
        {
            let ghost out0 = out@;
            if self.channel_used_exec(ch) {
                let mut pitch: u16 = 0;
                while pitch < 128
                    invariant
                        pitch <= 128,
                        out@ == out0 + offs_for_channel(ch).take(pitch as int),
                    decreases 128 - pitch,
                {
                    out.push(
                        Event {
                            e_type: EventType::MidiNote(
                                MidiNote {
                                    on_off: false,
                                    channel: ch,
                                    pitch: pitch as u8,
                                    velocity: 1,
                                },
                            ),
                            bar_pos: 0,
                        },
                    );
                    proof {
                        assert(out@ =~= out0 + offs_for_channel(ch).take(pitch + 1));
                    }
                    pitch = pitch + 1;
                }
                proof {
                    assert(offs_for_channel(ch).take(128) =~= offs_for_channel(ch));
                    assert(notes_off_spec(self.seqs(), 1) =~= out@ + notes_off_spec(
                        self.seqs(),
                        ch + 1,
                    ));
                }
            } else {
                proof {
                    assert(notes_off_spec(self.seqs(), 1) =~= out@ + notes_off_spec(
                        self.seqs(),
                        ch + 1,
                    ));
                }
            }
            ch = ch + 1;
        }
        out
    }

    /// Run an event through the effect processors of the given ids, in
    /// order; ids with no registered processor are silently skipped. The
    /// processors may move the note's pitch within the MIDI range; nothing
    /// else of the event changes.
    pub fn process_event(&mut self, proc_ids: &Vec<u32>, event: &mut Event)
        requires
            old(self).inv(),
        ensures
            final(self).inv(),
            final(self).params == old(self).params,
            final(self).base_seqs == old(self).base_seqs,
            final(self).internal == old(self).internal,
            final(self).fx_procs@.len() == old(self).fx_procs@.len(),
            forall|i: int|
                0 <= i < old(self).fx_procs@.len() ==> (#[trigger] final(self).fx_procs@[i]).id
                    == old(self).fx_procs@[i].id,
            final(event).bar_pos == old(event).bar_pos,
            !old(event).is_note() ==> *final(event) == *old(event),
            old(event).is_note() ==> {
                &&& final(event).is_note()
                &&& final(event).spec_note().channel == old(event).spec_note().channel
                &&& final(event).spec_note().velocity == old(event).spec_note().velocity
                &&& final(event).spec_note().on_off == old(event).spec_note().on_off
                &&& (old(event).spec_note().wf() ==> final(event).spec_note().wf())
            },
            (forall|k: int|
                0 <= k < proc_ids@.len() ==> !fx_contains_id(
                    old(self).fx_procs@,
                    #[trigger] proc_ids@[k],
                )) ==> *final(event) == *old(event) && final(self).fx_procs == old(self).fx_procs,
    {
        let ghost ev0 = *event;
        let n = proc_ids.len();
        let mut k: usize = 0;
        while k < n
            invariant
                old(self).inv(),
                k <= n,
                n == proc_ids@.len(),
                self.params == old(self).params,
                self.base_seqs == old(self).base_seqs,
                self.internal == old(self).internal,
                self.fx_procs@.len() == old(self).fx_procs@.len(),
                forall|i: int|
                    0 <= i < old(self).fx_procs@.len() ==> (#[trigger] self.fx_procs@[i]).id == old(
                        self,
                    ).fx_procs@[i].id,
                event.bar_pos == ev0.bar_pos,
                !ev0.is_note() ==> *event == ev0,
                ev0.is_note() ==> {
                    &&& event.is_note()
                    &&& event.spec_note().channel == ev0.spec_note().channel
                    &&& event.spec_note().velocity == ev0.spec_note().velocity
                    &&& event.spec_note().on_off == ev0.spec_note().on_off
                    &&& (ev0.spec_note().wf() ==> event.spec_note().wf())
                },
                (forall|q: int|
                    0 <= q < proc_ids@.len() ==> !fx_contains_id(
                        old(self).fx_procs@,
                        #[trigger] proc_ids@[q],
                    )) ==> *event == ev0 && self.fx_procs == old(self).fx_procs,
            decreases n - k,
        {
            let fx_proc_id = proc_ids[k];
            match self.find_fx_proc(fx_proc_id) {
                Some(i) => {
                    let ghost evk = *event;
                    let fx = fx_proc_at(&mut self.fx_procs, i);
                    fx.process(event);
                    proof {
                        if evk.is_note() {
                            let d = choose|d: int|
                                -6 <= d <= 6 && *event == transpose_event(evk, d);
                            assert(*event == transpose_event(evk, d));
                        }
                    }
                },
                None => {},
            }
            k = k + 1;
        }
    }
}


/// Transposing twice composes: transposing by `d1` and then by `d2` yields
/// the transposition by `d1 + d2`, provided no pitch clamps at the
/// intermediate step. (Transposing to a root `r1` from `r0` shifts by
/// `midi(r1) - midi(r0)`, so the two-step shift sums to the direct one.)
pub proof fn lemma_transpose_compose(s: Seq<Event>, d1: int, d2: int)
    requires
        forall|i: int|
            0 <= i < s.len() ==> ((#[trigger] s[i]).is_note() ==> 0 <= s[i].spec_note().pitch + d1
                <= 127),
    ensures
        s.map_values(|e: Event| transpose_event(e, d1)).map_values(
            |e: Event| transpose_event(e, d2),
        ) == s.map_values(|e: Event| transpose_event(e, d1 + d2)),
{
    let m1 = s.map_values(|e: Event| transpose_event(e, d1));
    let m2 = m1.map_values(|e: Event| transpose_event(e, d2));
    let md = s.map_values(|e: Event| transpose_event(e, d1 + d2));
    assert forall|i: int| 0 <= i < s.len() implies m2[i] == md[i] by {
        let e = s[i];
        match e.e_type {
            EventType::MidiNote(n) => {
                assert(clamp_pitch(n.pitch + d1) == n.pitch + d1);
            },
            EventType::Fill => {},
        }
    };
    assert(m2 =~= md);
}

/// Changing the average note length twice composes: moving the note-offs for
/// a change from `a` to `x` and then from `x` to `y` lands them exactly
/// where the single change from `a` to `y` does.
pub proof fn lemma_shift_compose(pos: int, a: int, x: int, y: int, l: int)
    requires
        l >= 1,
    ensures
        shifted_pos(shifted_pos(pos, a, x, l), x, y, l) == shifted_pos(pos, a, y, l),
{
    let m = pos + x - a;
    let c = y - x;
    vstd::arithmetic::div_mod::lemma_add_mod_noop(m, c, l);
    vstd::arithmetic::div_mod::lemma_add_mod_noop_right(m % l, c, l);
}

/// The note-length change law lifted to whole buffers: shifting every
/// note-off for a change from `a` to `x` and then for a change from `x` to
/// `y` gives the buffer of the single change from `a` to `y`. Note-ons never
/// move.
pub proof fn lemma_change_note_len_compose(s: Seq<Event>, a: int, x: int, y: int, l: int)
    requires
        1 <= l <= u32::MAX,
    ensures
        s.map_values(|e: Event| shift_off_event(e, a, x, l)).map_values(
            |e: Event| shift_off_event(e, x, y, l),
        ) == s.map_values(|e: Event| shift_off_event(e, a, y, l)),
{
    let m1 = s.map_values(|e: Event| shift_off_event(e, a, x, l));
    let m2 = m1.map_values(|e: Event| shift_off_event(e, x, y, l));
    let md = s.map_values(|e: Event| shift_off_event(e, a, y, l));
    assert forall|i: int| 0 <= i < s.len() implies m2[i] == md[i] by {
        let e = s[i];
        if e.is_note() && !e.spec_note().on_off {
            vstd::arithmetic::div_mod::lemma_mod_division_less_than_divisor(e.bar_pos + x - a, l);
            lemma_shift_compose(e.bar_pos as int, a, x, y, l);
            assert(m1[i].bar_pos == shifted_pos(e.bar_pos as int, a, x, l));
            assert(m2[i].bar_pos == shifted_pos(shifted_pos(e.bar_pos as int, a, x, l), x, y, l));
        }
    };
    assert(m2 =~= md);
}


/// The window membership formula is exact: once both bounds are reduced
/// into the loop, a position is in the cycle precisely when some pass of
/// the loop places it inside the global window `[ws, we)`. This holds for
/// every window that moved forward by at most one loop.
pub proof fn lemma_in_cycle_global(ws: int, we: int, pos: int, l: int)
    requires
        l >= 1,
        0 <= pos < l,
        0 <= ws < we,
        we - ws <= l,
    ensures
        in_cycle_spec(ws, we, pos, l) <==> (exists|k: int| ws <= pos + #[trigger] (k * l) < we),
{
    let s = ws % l;
    let e = we % l;
    let qs = ws / l;
    let qe = we / l;
    vstd::arithmetic::div_mod::lemma_fundamental_div_mod(ws, l);
    vstd::arithmetic::div_mod::lemma_fundamental_div_mod(we, l);
    vstd::arithmetic::div_mod::lemma_mod_division_less_than_divisor(ws, l);
    vstd::arithmetic::div_mod::lemma_mod_division_less_than_divisor(we, l);
    assert(ws == l * qs + s);
    assert(we == l * qe + e);
    if s < e {
        assert(qe == qs) by (nonlinear_arith)
            requires
                ws == l * qs + s,
                we == l * qe + e,
                0 < we - ws <= l,
                0 < e - s < l,
                l >= 1,
        ;
        if in_cycle_spec(ws, we, pos, l) {
            assert(s <= pos < e);
            assert(ws <= pos + qs * l < we) by (nonlinear_arith)
                requires
                    ws == l * qs + s,
                    we == l * qs + e,
                    s <= pos < e,
            ;
        }
        if exists|k: int| ws <= pos + #[trigger] (k * l) < we {
            let k = choose|k: int| ws <= pos + #[trigger] (k * l) < we;
            assert(k == qs) by (nonlinear_arith)
                requires
                    ws == l * qs + s,
                    we == l * qs + e,
                    ws <= pos + k * l < we,
                    0 <= pos < l,
                    0 <= s < l,
                    0 <= e < l,
                    l >= 1,
            ;
            assert(s <= pos < e) by (nonlinear_arith)
                requires
                    ws == l * qs + s,
                    we == l * qs + e,
                    ws <= pos + qs * l < we,
            ;
        }
    } else {
        // The reduced window wraps the loop boundary.
        assert(qe == qs + 1) by (nonlinear_arith)
            requires
                ws == l * qs + s,
                we == l * qe + e,
                0 < we - ws <= l,
                0 <= s - e < l,
                l >= 1,
        ;
        if in_cycle_spec(ws, we, pos, l) {
            if s <= pos {
                assert(ws <= pos + qs * l < we) by (nonlinear_arith)
                    requires
                        ws == l * qs + s,
                        we == l * (qs + 1) + e,
                        s <= pos < l,
                        0 <= e,
                ;
            } else {
                assert(pos < e);
                assert(ws <= pos + (qs + 1) * l < we) by (nonlinear_arith)
                    requires
                        ws == l * qs + s,
                        we == l * (qs + 1) + e,
                        0 <= pos < e,
                        s < l,
                ;
            }
        }
        if exists|k: int| ws <= pos + #[trigger] (k * l) < we {
            let k = choose|k: int| ws <= pos + #[trigger] (k * l) < we;
            assert(k == qs || k == qs + 1) by (nonlinear_arith)
                requires
                    ws == l * qs + s,
                    we == l * (qs + 1) + e,
                    ws <= pos + k * l < we,
                    0 <= pos < l,
                    0 <= s < l,
                    0 <= e < l,
                    l >= 1,
            ;
            if k == qs {
                assert(s <= pos) by (nonlinear_arith)
                    requires
                        ws == l * qs + s,
                        ws <= pos + qs * l,
                ;
            } else {
                assert(pos < e) by (nonlinear_arith)
                    requires
                        we == l * (qs + 1) + e,
                        pos + (qs + 1) * l < we,
                ;
            }
        }
    }
}

/// Consecutive cycles never emit a position twice: when the window advances
/// from `[w0, w1)` to `[w1, w2)` and the two cycles together cover at most
/// one loop, no bar position is in both.
pub proof fn lemma_in_cycle_no_double_count(w0: int, w1: int, w2: int, pos: int, l: int)
    requires
        l >= 1,
        0 <= pos < l,
        0 <= w0 < w1 < w2,
        w2 - w0 <= l,
    ensures
        !(in_cycle_spec(w0, w1, pos, l) && in_cycle_spec(w1, w2, pos, l)),
{
    if in_cycle_spec(w0, w1, pos, l) && in_cycle_spec(w1, w2, pos, l) {
        lemma_in_cycle_global(w0, w1, pos, l);
        lemma_in_cycle_global(w1, w2, pos, l);
        let k1 = choose|k: int| w0 <= pos + #[trigger] (k * l) < w1;
        let k2 = choose|k: int| w1 <= pos + #[trigger] (k * l) < w2;
        assert(false) by (nonlinear_arith)
            requires
                w0 <= pos + k1 * l < w1,
                w1 <= pos + k2 * l < w2,
                w2 - w0 <= l,
                l >= 1,
        ;
    }
}

} // verus!
