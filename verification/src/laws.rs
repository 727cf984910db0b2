//! Properties of the library as a whole: what a receiver hears of the event
//! stream, how the engine settles, what a reset does, and the keyboard layout.

use vstd::prelude::*;
use vstd::multiset::Multiset;
use crate::keys::{
    NOTE_COUNT,
    shifted_note_spec,
    is_black_spec,
    wk_x_halves_spec,
    class_offset_halves,
};
use crate::params::ParamsView;
use crate::engine::{
    MidiEvent,
    EngineState,
    step,
    event_channel,
    event_velocity,
    concat_upto,
    flush_fn,
    retrigger_fn,
    sync_fn,
    flush_at,
    retrigger_at,
    sync_at,
    off_event,
    on_event,
    reset_state,
};

verus! {

broadcast use vstd::multiset::group_multiset_axioms;

// ── What a receiver hears ────────────────────────────────────────────────────

/// A receiver's sounding notes, as `(channel, note)` pairs counted with
/// multiplicity, after one event: a NoteOn adds one, a NoteOff takes one away.
pub open spec fn apply_event(m: Multiset<(u8, u8)>, e: MidiEvent) -> Multiset<(u8, u8)> {
    match e {
        MidiEvent::NoteOn { channel, note, velocity } => m.insert((channel, note)),
        MidiEvent::NoteOff { channel, note } => m.remove((channel, note)),
    }
}

/// A receiver's sounding notes after a sequence of events, in order.
pub open spec fn apply_events(m: Multiset<(u8, u8)>, evs: Seq<MidiEvent>) -> Multiset<(u8, u8)>
    decreases evs.len(),
{
    if evs.len() == 0 {
        m
    } else {
        apply_event(apply_events(m, evs.drop_last()), evs.last())
    }
}

/// The sum of `g(i)` for keys `0..n`.
pub open spec fn sum_upto(g: spec_fn(int) -> Multiset<(u8, u8)>, n: nat) -> Multiset<(u8, u8)>
    decreases n,
{
    if n == 0 {
        Multiset::empty()
    } else {
        sum_upto(g, (n - 1) as nat).add(g(n - 1))
    }
}

/// The note key `i` holds on channel `ch`, if it is active.
pub open spec fn held_at(active: Seq<bool>, ch: u8, octave: int, i: int) -> Multiset<(u8, u8)> {
    if active[i] {
        Multiset::singleton((ch, shifted_note_spec(i, octave) as u8))
    } else {
        Multiset::empty()
    }
}

/// `held_at` as a function of the key.
pub open spec fn held_fn(active: Seq<bool>, ch: u8, octave: int) -> spec_fn(int) -> Multiset<(u8, u8)> {
    |i: int| held_at(active, ch, octave, i)
}

/// The notes the engine holds on channel `ch`: one for each active key,
/// at the octave offset it was sent with.
pub open spec fn held_notes(s: EngineState, ch: u8) -> Multiset<(u8, u8)> {
    sum_upto(held_fn(s.active, ch, s.prev), s.active.len())
}

proof fn lemma_apply_concat(m: Multiset<(u8, u8)>, a: Seq<MidiEvent>, b: Seq<MidiEvent>)
    ensures
        apply_events(m, a + b) == apply_events(apply_events(m, a), b),
    decreases b.len(),
{
    if b.len() == 0 {
        assert(a + b =~= a);
    } else {
        assert((a + b).drop_last() =~= a + b.drop_last());
        assert((a + b).last() == b.last());
        lemma_apply_concat(m, a, b.drop_last());
    }
}

proof fn lemma_apply_one(m: Multiset<(u8, u8)>, e: MidiEvent)
    ensures
        apply_events(m, seq![e]) == apply_event(m, e),
{
    assert(seq![e].drop_last() =~= Seq::<MidiEvent>::empty());
    assert(apply_events(m, Seq::<MidiEvent>::empty()) == m);
}

proof fn lemma_apply_two(m: Multiset<(u8, u8)>, e1: MidiEvent, e2: MidiEvent)
    ensures
        apply_events(m, seq![e1, e2]) == apply_event(apply_event(m, e1), e2),
{
    assert(seq![e1, e2].drop_last() =~= seq![e1]);
    lemma_apply_one(m, e1);
}

proof fn lemma_insert_remove(y: Multiset<(u8, u8)>, a: (u8, u8))
    ensures
        y.add(Multiset::singleton(a)).remove(a) =~= y,
        y.add(Multiset::empty()) =~= y,
{
    let s = Multiset::singleton(a);
    assert forall|v: (u8, u8)| #[trigger] y.add(s).sub(s).count(v) == y.count(v) by {
        if v == a {
        } else {
            assert(s.count(v) == 0);
        }
    }
}

/// Key by key: if the events of each key turn that key's old notes into its
/// new ones, whatever else sounds, then the events of keys `0..n` turn the
/// old notes of those keys into their new ones.
proof fn lemma_keywise(
    f: spec_fn(int) -> Seq<MidiEvent>,
    before: spec_fn(int) -> Multiset<(u8, u8)>,
    after: spec_fn(int) -> Multiset<(u8, u8)>,
    n: nat,
    x: Multiset<(u8, u8)>,
)
    requires
        forall|i: int, y: Multiset<(u8, u8)>|
            #![trigger apply_events(y.add(before(i)), f(i))]
            0 <= i < n ==> apply_events(y.add(before(i)), f(i)) == y.add(after(i)),
    ensures
        apply_events(x.add(sum_upto(before, n)), concat_upto(f, n)) == x.add(sum_upto(after, n)),
    decreases n,
{
    if n == 0 {
        assert(x.add(Multiset::empty()) =~= x);
    } else {
        let k = (n - 1) as nat;
        let ob = before(k as int);
        let nb = after(k as int);
        lemma_keywise(f, before, after, k, x.add(ob));
        assert(x.add(sum_upto(before, n)) =~= x.add(ob).add(sum_upto(before, k)));
        lemma_apply_concat(x.add(ob).add(sum_upto(before, k)), concat_upto(f, k), f(k as int));
        let y = x.add(sum_upto(after, k));
        assert(x.add(ob).add(sum_upto(after, k)) =~= y.add(ob));
        assert(apply_events(y.add(before(k as int)), f(k as int)) == y.add(after(k as int)));
        assert(y.add(nb) =~= x.add(sum_upto(after, n)));
    }
}

/// Every NoteOn and NoteOff that a block sends keeps a receiver in step with
/// the engine: if the receiver sounds exactly the notes the engine holds on
/// the configured channel before the block, it sounds exactly the notes the
/// engine holds after it. No note is left hanging, none is started twice.
pub proof fn lemma_events_track_held_notes(s: EngineState, p: ParamsView)
    requires
        s.wf(),
        p.wf(),
    ensures
        apply_events(held_notes(s, event_channel(p)), step(s, p).1) == held_notes(
            step(s, p).0,
            event_channel(p),
        ),
{
    let ch = event_channel(p);
    let vel = event_velocity(p);
    let n = NOTE_COUNT as nat;
    let next = step(s, p).0;
    let before = held_fn(s.active, ch, s.prev);
    let after = held_fn(next.active, ch, next.prev);
    let empty = Multiset::<(u8, u8)>::empty();
    if s.pending {
        let f = flush_fn(s.active, ch, s.prev);
        assert forall|i: int, y: Multiset<(u8, u8)>|
            #![trigger apply_events(y.add(before(i)), f(i))]
            0 <= i < n implies apply_events(y.add(before(i)), f(i)) == y.add(after(i)) by {
            let a = (ch, shifted_note_spec(i, s.prev) as u8);
            lemma_insert_remove(y, a);
            if s.active[i] {
                lemma_apply_one(y.add(before(i)), off_event(ch, i, s.prev));
            } else {
                assert(f(i) =~= Seq::<MidiEvent>::empty());
            }
        }
        lemma_keywise(f, before, after, n, empty);
    } else if p.octave_offset != s.prev {
        let f = retrigger_fn(s.active, p.wants, ch, vel, s.prev, p.octave_offset);
        assert forall|i: int, y: Multiset<(u8, u8)>|
            #![trigger apply_events(y.add(before(i)), f(i))]
            0 <= i < n implies apply_events(y.add(before(i)), f(i)) == y.add(after(i)) by {
            let a = (ch, shifted_note_spec(i, s.prev) as u8);
            let b = (ch, shifted_note_spec(i, p.octave_offset) as u8);
            lemma_insert_remove(y, a);
            lemma_insert_remove(y, b);
            if s.active[i] {
                if p.wants[i] {
                    lemma_apply_two(
                        y.add(before(i)),
                        off_event(ch, i, s.prev),
                        on_event(ch, i, p.octave_offset, vel),
                    );
                } else {
                    lemma_apply_one(y.add(before(i)), off_event(ch, i, s.prev));
                }
            } else {
                assert(f(i) =~= Seq::<MidiEvent>::empty());
            }
        }
        lemma_keywise(f, before, after, n, empty);
    } else {
        let f = sync_fn(s.active, p.wants, ch, vel, s.prev);
        assert forall|i: int, y: Multiset<(u8, u8)>|
            #![trigger apply_events(y.add(before(i)), f(i))]
            0 <= i < n implies apply_events(y.add(before(i)), f(i)) == y.add(after(i)) by {
            let a = (ch, shifted_note_spec(i, s.prev) as u8);
            lemma_insert_remove(y, a);
            if p.wants[i] && !s.active[i] {
                lemma_apply_one(y.add(before(i)), on_event(ch, i, s.prev, vel));
            } else if !p.wants[i] && s.active[i] {
                lemma_apply_one(y.add(before(i)), off_event(ch, i, s.prev));
            } else {
                assert(f(i) =~= Seq::<MidiEvent>::empty());
            }
        }
        lemma_keywise(f, before, after, n, empty);
    }
    assert(empty.add(sum_upto(before, n)) =~= sum_upto(before, n));
    assert(empty.add(sum_upto(after, n)) =~= sum_upto(after, n));
}

// ── Settling ─────────────────────────────────────────────────────────────────

proof fn lemma_concat_empty(f: spec_fn(int) -> Seq<MidiEvent>, n: nat)
    requires
        forall|i: int| 0 <= i < n ==> #[trigger] f(i) == Seq::<MidiEvent>::empty(),
    ensures
        concat_upto(f, n) == Seq::<MidiEvent>::empty(),
    decreases n,
{
    if n > 0 {
        lemma_concat_empty(f, (n - 1) as nat);
        assert(concat_upto(f, n) =~= Seq::<MidiEvent>::empty());
    }
}

/// The state after one block.
pub open spec fn after(s: EngineState, p: ParamsView) -> EngineState {
    step(s, p).0
}

/// With the parameters left alone, two blocks bring the engine to rest:
/// after them the active notes are exactly the keys toggled on, and a
/// further block sends nothing and changes nothing.
pub proof fn lemma_settles_within_two_blocks(s: EngineState, p: ParamsView)
    requires
        s.wf(),
        p.wf(),
    ensures
        after(after(s, p), p).active == p.wants,
        step(after(after(s, p), p), p).1 == Seq::<MidiEvent>::empty(),
        after(after(after(s, p), p), p) == after(after(s, p), p),
{
    let s1 = after(s, p);
    let s2 = after(s1, p);
    assert(!s1.pending && s1.prev == p.octave_offset && s1.active.len() == NOTE_COUNT);
    assert(s2.active =~= p.wants);
    let ch = event_channel(p);
    let vel = event_velocity(p);
    let f = sync_fn(s2.active, p.wants, ch, vel, s2.prev);
    assert forall|i: int| 0 <= i < NOTE_COUNT implies #[trigger] f(i) == Seq::<MidiEvent>::empty() by {
        assert(f(i) =~= Seq::<MidiEvent>::empty());
    }
    lemma_concat_empty(f, NOTE_COUNT as nat);
    assert(after(s2, p).active =~= s2.active);
}

// ── Reset ────────────────────────────────────────────────────────────────────

/// After a reset, the next block releases every held note, whatever the
/// parameters say: a receiver that sounded the held notes sounds nothing,
/// every event sent is a NoteOff, and no key is left active.
pub proof fn lemma_reset_releases_everything(s: EngineState, p: ParamsView)
    requires
        s.wf(),
        p.wf(),
    ensures
        apply_events(held_notes(s, event_channel(p)), step(reset_state(s), p).1)
            == Multiset::<(u8, u8)>::empty(),
        forall|i: int|
            0 <= i < NOTE_COUNT ==> !(#[trigger] after(reset_state(s), p).active[i]),
        forall|k: int|
            0 <= k < step(reset_state(s), p).1.len() ==> (#[trigger] step(
                reset_state(s),
                p,
            ).1[k]) is NoteOff,
{
    let r = reset_state(s);
    let ch = event_channel(p);
    lemma_events_track_held_notes(r, p);
    assert(held_notes(r, ch) == held_notes(s, ch));
    let next = after(r, p);
    let g = held_fn(next.active, ch, next.prev);
    lemma_sum_empty(g, NOTE_COUNT as nat);
    let f = flush_fn(s.active, ch, s.prev);
    lemma_concat_all(f, |e: MidiEvent| e is NoteOff, NOTE_COUNT as nat);
}

proof fn lemma_sum_empty(g: spec_fn(int) -> Multiset<(u8, u8)>, n: nat)
    requires
        forall|i: int| 0 <= i < n ==> #[trigger] g(i) == Multiset::<(u8, u8)>::empty(),
    ensures
        sum_upto(g, n) == Multiset::<(u8, u8)>::empty(),
    decreases n,
{
    if n > 0 {
        lemma_sum_empty(g, (n - 1) as nat);
        assert(sum_upto(g, n) =~= Multiset::<(u8, u8)>::empty());
    }
}

proof fn lemma_concat_all(f: spec_fn(int) -> Seq<MidiEvent>, ok: spec_fn(MidiEvent) -> bool, n: nat)
    requires
        forall|i: int, k: int| 0 <= i < n && 0 <= k < f(i).len() ==> ok(#[trigger] f(i)[k]),
    ensures
        forall|k: int| 0 <= k < concat_upto(f, n).len() ==> ok(#[trigger] concat_upto(f, n)[k]),
    decreases n,
{
    if n > 0 {
        let m = (n - 1) as nat;
        lemma_concat_all(f, ok, m);
        let a = concat_upto(f, m);
        let b = f(m as int);
        assert forall|k: int| 0 <= k < (a + b).len() implies ok(#[trigger] (a + b)[k]) by {
            if k < a.len() {
                assert((a + b)[k] == a[k]);
            } else {
                assert((a + b)[k] == b[k - a.len()]);
            }
        }
    }
}

// ── Every event is well formed ───────────────────────────────────────────────

/// An event on the configured channel, with a valid MIDI note, and for a
/// NoteOn the configured velocity.
pub open spec fn event_conforms(p: ParamsView, e: MidiEvent) -> bool {
    match e {
        MidiEvent::NoteOn { channel, note, velocity } => {
            &&& channel as int == p.channel - 1
            &&& note <= 127
            &&& velocity as int == p.velocity
        },
        MidiEvent::NoteOff { channel, note } => {
            &&& channel as int == p.channel - 1
            &&& note <= 127
        },
    }
}

/// Every event a block sends is on the configured MIDI channel (counted
/// from zero), names a valid MIDI note `0..=127`, and every NoteOn carries
/// the configured velocity.
pub proof fn lemma_events_conform(s: EngineState, p: ParamsView)
    requires
        s.wf(),
        p.wf(),
    ensures
        forall|k: int|
            0 <= k < step(s, p).1.len() ==> event_conforms(p, #[trigger] step(s, p).1[k]),
{
    let ch = event_channel(p);
    let vel = event_velocity(p);
    let ok = |e: MidiEvent| event_conforms(p, e);
    let n = NOTE_COUNT as nat;
    if s.pending {
        let f = flush_fn(s.active, ch, s.prev);
        assert forall|i: int, k: int| 0 <= i < n && 0 <= k < f(i).len() implies ok(
            #[trigger] f(i)[k],
        ) by {
            assert(0 <= shifted_note_spec(i, s.prev) <= 127);
        }
        lemma_concat_all(f, ok, n);
    } else if p.octave_offset != s.prev {
        let f = retrigger_fn(s.active, p.wants, ch, vel, s.prev, p.octave_offset);
        assert forall|i: int, k: int| 0 <= i < n && 0 <= k < f(i).len() implies ok(
            #[trigger] f(i)[k],
        ) by {
            assert(0 <= shifted_note_spec(i, s.prev) <= 127);
            assert(0 <= shifted_note_spec(i, p.octave_offset) <= 127);
        }
        lemma_concat_all(f, ok, n);
    } else {
        let f = sync_fn(s.active, p.wants, ch, vel, s.prev);
        assert forall|i: int, k: int| 0 <= i < n && 0 <= k < f(i).len() implies ok(
            #[trigger] f(i)[k],
        ) by {
            assert(0 <= shifted_note_spec(i, s.prev) <= 127);
        }
        lemma_concat_all(f, ok, n);
    }
}

/// "All Notes Off": once every key is toggled off, within two blocks no
/// note is held any more, so a receiver in step with the engine sounds
/// nothing.
pub proof fn lemma_all_notes_off(s: EngineState, p: ParamsView)
    requires
        s.wf(),
        p.wf(),
        forall|i: int| 0 <= i < NOTE_COUNT ==> !(#[trigger] p.wants[i]),
    ensures
        held_notes(after(after(s, p), p), event_channel(p)) == Multiset::<(u8, u8)>::empty(),
{
    lemma_settles_within_two_blocks(s, p);
    let s2 = after(after(s, p), p);
    lemma_sum_empty(held_fn(s2.active, event_channel(p), s2.prev), NOTE_COUNT as nat);
}

/// Every block ends with no flush pending, one flag per key, and the octave
/// offset it ran with remembered as the one the active notes were sent with.
pub proof fn lemma_block_adopts_octave(s: EngineState, p: ParamsView)
    requires
        s.wf(),
        p.wf(),
    ensures
        !after(s, p).pending,
        after(s, p).prev == p.octave_offset,
        after(s, p).wf(),
{
}

/// A block with no flush pending and an unchanged octave offset makes the
/// active keys exactly the keys toggled on.
pub proof fn lemma_normal_block_follows_toggles(s: EngineState, p: ParamsView)
    requires
        s.wf(),
        p.wf(),
        !s.pending,
        p.octave_offset == s.prev,
    ensures
        after(s, p).active == p.wants,
{
    assert(after(s, p).active =~= p.wants);
}

/// An octave change (no flush pending) keeps held every key that was held
/// and is still toggled on, now sounding at the new octave, releases the
/// held keys toggled off, and starts no key that was not held.
pub proof fn lemma_octave_change_keeps_held_keys(s: EngineState, p: ParamsView)
    requires
        s.wf(),
        p.wf(),
        !s.pending,
        p.octave_offset != s.prev,
    ensures
        forall|i: int|
            0 <= i < NOTE_COUNT ==> #[trigger] after(s, p).active[i] == (s.active[i]
                && p.wants[i]),
        after(s, p).prev == p.octave_offset,
{
}

// ── Keyboard layout ──────────────────────────────────────────────────────────

/// Keys are laid out left to right in pitch order: a higher note sits
/// strictly further right.
pub proof fn lemma_key_positions_increase(a: int, b: int)
    requires
        0 <= a < b,
    ensures
        wk_x_halves_spec(a) < wk_x_halves_spec(b),
{
    let qa = a / 12;
    let qb = b / 12;
    let ra = a % 12;
    let rb = b % 12;
    assert(a == qa * 12 + ra && 0 <= ra < 12);
    assert(b == qb * 12 + rb && 0 <= rb < 12);
    assert(0 <= class_offset_halves(ra) <= 12);
    assert(0 <= class_offset_halves(rb) <= 12);
    if qa == qb {
        assert(ra < rb);
    } else {
        assert(qa < qb);
        assert(qa * 14 + 14 <= qb * 14);
    }
}

/// White keys sit at whole white-key positions (their left edge), black keys
/// half-way between two of them (their centre).
pub proof fn lemma_position_parity(n: int)
    requires
        0 <= n,
    ensures
        is_black_spec(n) <==> wk_x_halves_spec(n) % 2 == 1,
{
    let q = n / 12;
    assert((q * 14 + class_offset_halves(n % 12)) % 2 == class_offset_halves(n % 12) % 2) by {
        assert(q * 14 == 2 * (q * 7));
    }
}

/// A black key has a white key on either side and is centred on the
/// boundary between them.
pub proof fn lemma_black_key_centred(n: int)
    requires
        1 <= n,
        is_black_spec(n),
    ensures
        !is_black_spec(n - 1),
        !is_black_spec(n + 1),
        wk_x_halves_spec(n - 1) + 1 == wk_x_halves_spec(n),
        wk_x_halves_spec(n) + 1 == wk_x_halves_spec(n + 1),
{
    assert((n - 1) / 12 == n / 12 && (n - 1) % 12 == n % 12 - 1);
    assert((n + 1) / 12 == n / 12 && (n + 1) % 12 == n % 12 + 1);
}

/// White keys tile the keyboard: the next white key above a white key
/// starts exactly one white-key width further right.
pub proof fn lemma_white_keys_adjacent(n: int)
    requires
        0 <= n,
        !is_black_spec(n),
    ensures
        !is_black_spec(n + 1) ==> wk_x_halves_spec(n + 1) == wk_x_halves_spec(n) + 2,
        is_black_spec(n + 1) ==> !is_black_spec(n + 2) && wk_x_halves_spec(n + 2)
            == wk_x_halves_spec(n) + 2,
{
    let q = n / 12;
    let r = n % 12;
    if r == 11 {
        assert((n + 1) / 12 == q + 1 && (n + 1) % 12 == 0);
    } else if r == 10 {
        assert((n + 1) / 12 == q && (n + 1) % 12 == 11);
    } else {
        assert((n + 1) / 12 == q && (n + 1) % 12 == r + 1);
        assert((n + 2) / 12 == q && (n + 2) % 12 == r + 2);
    }
}


/// Each octave spans seven white-key widths, and its C sits at the left
/// edge of the octave.
pub proof fn lemma_octave_spans_seven_white_keys(n: int)
    requires
        0 <= n,
    ensures
        wk_x_halves_spec(n + 12) == wk_x_halves_spec(n) + 14,
        n % 12 == 0 ==> wk_x_halves_spec(n) == 14 * (n / 12),
{
    assert((n + 12) / 12 == n / 12 + 1 && (n + 12) % 12 == n % 12);
}

} // verus!
