//! Animation playback: which channels a tick evaluates, in which order, and
//! how their results land on node properties.
use vstd::prelude::*;

verus! {

/// Which animations a tick plays.
#[derive(Debug, Clone, Copy, PartialEq, Eq, Structural)]
pub enum Mode {
    /// No animation plays.
    Off,
    Single(usize),
    All,
}

/// The node property a channel drives.
#[derive(Debug, Clone, Copy, PartialEq, Eq, Structural)]
pub enum Property {
    Translation,
    Rotation,
    Scale,
}

/// A channel of a loaded animation: its animation, its property, and its
/// position among that animation's channels of the property.
#[derive(Debug, Clone, Copy, PartialEq, Eq, Structural)]
pub struct ChannelRef {
    pub animation: usize,
    pub property: Property,
    pub index: usize,
}

/// How many channels of each property an animation holds.
#[derive(Debug, Clone, Copy, PartialEq, Eq, Structural)]
pub struct ChannelCounts {
    pub translations: usize,
    pub rotations: usize,
    pub scales: usize,
}

/// Playback state of a set of animations.
#[derive(Debug, Clone, Copy, PartialEq, Eq, Structural)]
pub struct Playback {
    pub mode: Mode,
    pub paused: bool,
}

/// The channels of one property of animation `a`, in list order.
pub open spec fn property_refs(a: usize, property: Property, count: usize) -> Seq<ChannelRef> {
    Seq::new(count as nat, |k: int| ChannelRef { animation: a, property, index: k as usize })
}

/// The channels of animation `a` in evaluation order: translations, then
/// scales, then rotations.
pub open spec fn animation_refs(a: usize, c: ChannelCounts) -> Seq<ChannelRef> {
    property_refs(a, Property::Translation, c.translations) + property_refs(
        a,
        Property::Scale,
        c.scales,
    ) + property_refs(a, Property::Rotation, c.rotations)
}

/// The channels of animations `k..` in list order.
pub open spec fn all_refs(counts: Seq<ChannelCounts>, k: nat) -> Seq<ChannelRef>
    decreases counts.len() - k,
{
    if k >= counts.len() {
        seq![]
    } else {
        animation_refs(k as usize, counts[k as int]) + all_refs(counts, k + 1)
    }
}

/// The channels a tick evaluates under `mode`, in evaluation order.
pub open spec fn scheduled(mode: Mode, counts: Seq<ChannelCounts>) -> Seq<ChannelRef> {
    match mode {
        Mode::Off => seq![],
        Mode::Single(i) => animation_refs(i, counts[i as int]),
        Mode::All => all_refs(counts, 0),
    }
}

/// A mode names an animation that exists, if it names one.
pub open spec fn mode_in_range(mode: Mode, len: nat) -> bool {
    match mode {
        Mode::Single(i) => i < len,
        _ => true,
    }
}

fn push_property_refs(out: &mut Vec<ChannelRef>, a: usize, property: Property, count: usize)
    ensures
        final(out)@ == old(out)@ + property_refs(a, property, count),
{
    let ghost start = old(out)@;
    let mut k: usize = 0;
    while k < count
        invariant
            0 <= k <= count,
            out@ == start + property_refs(a, property, k),
        decreases count - k,
    {
        out.push(ChannelRef { animation: a, property, index: k });
        assert(out@ =~= start + property_refs(a, property, (k + 1) as usize));
        k = k + 1;
    }
}

fn push_animation_refs(out: &mut Vec<ChannelRef>, a: usize, c: ChannelCounts)
    ensures
        final(out)@ == old(out)@ + animation_refs(a, c),
{
    let ghost start = old(out)@;
    push_property_refs(out, a, Property::Translation, c.translations);
    push_property_refs(out, a, Property::Scale, c.scales);
    push_property_refs(out, a, Property::Rotation, c.rotations);
    assert(out@ =~= start + animation_refs(a, c));
}

impl Playback {
    /// Playback of nothing, not paused.
    pub fn new() -> (r: Playback)
        ensures
            r.mode == Mode::Off,
            !r.paused,
    {
        Playback { mode: Mode::Off, paused: false }
    }

    /// Lists the channels that one tick evaluates, in the order their
    /// results are applied: none for `Mode::Off`, the channels of the chosen
    /// animation for `Mode::Single`, and those of every animation in list
    /// order for `Mode::All`.
    pub fn schedule(&self, counts: &Vec<ChannelCounts>) -> (r: Vec<ChannelRef>)
        requires
            mode_in_range(self.mode, counts.len() as nat),
        ensures
            r@ == scheduled(self.mode, counts@),
    {
        let mut out: Vec<ChannelRef> = Vec::new();
        match self.mode {
            Mode::Off => {
                assert(out@ =~= scheduled(self.mode, counts@));
            },
            Mode::Single(i) => {
                push_animation_refs(&mut out, i, counts[i]);
                assert(out@ =~= scheduled(self.mode, counts@));
            },
            Mode::All => {
                let mut k: usize = 0;
                while k < counts.len()
                    invariant
                        0 <= k <= counts.len(),
                        out@ + all_refs(counts@, k as nat) == all_refs(counts@, 0),
                    decreases counts.len() - k,
                {
                    let ghost before = out@;
                    push_animation_refs(&mut out, k, counts[k]);
                    assert(out@ + all_refs(counts@, (k + 1) as nat) =~= before + all_refs(
                        counts@,
                        k as nat,
                    ));
                    k = k + 1;
                }
                assert(out@ =~= out@ + all_refs(counts@, k as nat));
            },
        }
        out
    }
}

/// The values after applying `writes` in order: each write replaces the
/// value of its target.
pub open spec fn applied<T>(values: Seq<T>, writes: Seq<(usize, T)>) -> Seq<T>
    decreases writes.len(),
{
    if writes.len() == 0 {
        values
    } else {
        let last = writes.last();
        applied(values, writes.drop_last()).update(last.0 as int, last.1)
    }
}

/// Every write targets an existing value.
pub open spec fn writes_in_bounds<T>(writes: Seq<(usize, T)>, len: nat) -> bool {
    forall|j: int| 0 <= j < writes.len() ==> (#[trigger] writes[j]).0 < len
}

proof fn lemma_applied_len<T>(values: Seq<T>, writes: Seq<(usize, T)>)
    requires
        writes_in_bounds(writes, values.len()),
    ensures
        applied(values, writes).len() == values.len(),
    decreases writes.len(),
{
    if writes.len() > 0 {
        let w = writes.drop_last();
        assert forall|k: int| 0 <= k < w.len() implies (#[trigger] w[k]).0 < values.len() by {
            assert(w[k] == writes[k]);
        }
        lemma_applied_len(values, w);
    }
}

/// Applies channel results to one node property, in order, so that of two
/// results for the same node the later one stays.
pub fn apply_writes<T: Copy>(values: &mut Vec<T>, writes: &Vec<(usize, T)>)
    requires
        writes_in_bounds(writes@, old(values).len() as nat),
    ensures
        final(values)@ == applied(old(values)@, writes@),
{
    let ghost start = old(values)@;
    let mut j: usize = 0;
    while j < writes.len()
        invariant
            0 <= j <= writes.len(),
            writes_in_bounds(writes@, start.len()),
            values@ == applied(start, writes@.take(j as int)),
            values@.len() == start.len(),
        decreases writes.len() - j,
    {
        let (target, value) = writes[j];
        assert(writes@[j as int].0 < start.len());
        values.set(target, value);
        assert(writes@.take((j + 1) as int).drop_last() =~= writes@.take(j as int));
        j = j + 1;
    }
    assert(writes@.take(j as int) =~= writes@);
}

/// Last writer wins: after applying a list of writes, a value that some
/// write targets holds the value of the last write that targets it.
pub proof fn lemma_last_writer_wins<T>(values: Seq<T>, writes: Seq<(usize, T)>, j: int)
    requires
        writes_in_bounds(writes, values.len()),
        0 <= j < writes.len(),
        forall|k: int| j < k < writes.len() ==> (#[trigger] writes[k]).0 != writes[j].0,
    ensures
        applied(values, writes)[writes[j].0 as int] == writes[j].1,
    decreases writes.len(),
{
    let n = writes[j].0 as int;
    let w = writes.drop_last();
    lemma_applied_len(values, w);
    if j < writes.len() - 1 {
        assert(writes.last().0 != n);
        assert forall|k: int| j < k < w.len() implies (#[trigger] w[k]).0 != w[j].0 by {
            assert(w[k] == writes[k]);
        }
        assert(writes_in_bounds(w, values.len()));
        lemma_last_writer_wins(values, w, j);
    }
}

/// A value that no write targets keeps its value.
pub proof fn lemma_untargeted_kept<T>(values: Seq<T>, writes: Seq<(usize, T)>, n: int)
    requires
        writes_in_bounds(writes, values.len()),
        0 <= n < values.len(),
        forall|k: int| 0 <= k < writes.len() ==> (#[trigger] writes[k]).0 != n,
    ensures
        applied(values, writes)[n] == values[n],
    decreases writes.len(),
{
    if writes.len() > 0 {
        let w = writes.drop_last();
        assert(writes.last().0 != n);
        assert forall|k: int| 0 <= k < w.len() implies (#[trigger] w[k]).0 != n && w[k].0
            < values.len() by {
            assert(w[k] == writes[k]);
        }
        lemma_applied_len(values, w);
        lemma_untargeted_kept(values, w, n);
    }
}

/// Under `Mode::Off` a tick evaluates no channel, so applying its results
/// changes no value.
pub proof fn lemma_mode_off_changes_nothing<T>(
    counts: Seq<ChannelCounts>,
    values: Seq<T>,
    writes: Seq<(usize, T)>,
)
    requires
        writes.len() == scheduled(Mode::Off, counts).len(),
    ensures
        scheduled(Mode::Off, counts).len() == 0,
        applied(values, writes) == values,
{
}

/// Channels in one animation.
pub open spec fn channel_total(c: ChannelCounts) -> nat {
    (c.translations + c.scales + c.rotations) as nat
}

/// Channels in the animations before `a`.
pub open spec fn refs_before(counts: Seq<ChannelCounts>, a: nat) -> nat
    decreases a,
{
    if a == 0 || a > counts.len() {
        0
    } else {
        refs_before(counts, (a - 1) as nat) + channel_total(counts[a - 1])
    }
}

proof fn lemma_all_refs_block(counts: Seq<ChannelCounts>, k: nat, a: nat, j: int)
    requires
        k <= a < counts.len(),
        0 <= j < channel_total(counts[a as int]),
    ensures
        refs_before(counts, k) <= refs_before(counts, a),
        refs_before(counts, a) - refs_before(counts, k) + j < all_refs(counts, k).len(),
        all_refs(counts, k)[refs_before(counts, a) - refs_before(counts, k) + j] == animation_refs(
            a as usize,
            counts[a as int],
        )[j],
    decreases a - k,
{
    let first = animation_refs(k as usize, counts[k as int]);
    let rest = all_refs(counts, k + 1);
    assert(all_refs(counts, k) == first + rest);
    assert(first.len() == channel_total(counts[k as int]));
    if k < a {
        lemma_all_refs_block(counts, k + 1, a, j);
        assert(refs_before(counts, k + 1) == refs_before(counts, k) + channel_total(
            counts[k as int],
        ));
    }
}

/// Under `Mode::All` the channels of each animation form one block of the
/// schedule, and the blocks follow the list of animations: animation `a`'s
/// `j`-th channel comes right after the channels of all earlier
/// animations and its own first `j` channels. So of two channels of
/// different animations that target the same node property, the one of the
/// later animation is applied last.
pub proof fn lemma_all_mode_blocks(counts: Seq<ChannelCounts>, a: nat, j: int)
    requires
        a < counts.len(),
        0 <= j < channel_total(counts[a as int]),
    ensures
        refs_before(counts, a) + j < scheduled(Mode::All, counts).len(),
        scheduled(Mode::All, counts)[refs_before(counts, a) + j] == animation_refs(
            a as usize,
            counts[a as int],
        )[j],
        forall|b: nat| a < b < counts.len() ==> refs_before(counts, a) + j < #[trigger] refs_before(
            counts,
            b,
        ),
{
    lemma_all_refs_block(counts, 0, a, j);
    assert forall|b: nat| a < b < counts.len() implies refs_before(counts, a) + j
        < #[trigger] refs_before(counts, b) by {
        lemma_refs_before_grows(counts, a + 1, b);
    }
}

proof fn lemma_refs_before_grows(counts: Seq<ChannelCounts>, m: nat, n: nat)
    requires
        m <= n <= counts.len(),
    ensures
        refs_before(counts, m) <= refs_before(counts, n),
    decreases n - m,
{
    if m < n {
        lemma_refs_before_grows(counts, m, (n - 1) as nat);
    }
}

/// Keyframes `i` and `i + 1` bracket time `t`: `keys[i] <= t < keys[i + 1]`.
pub open spec fn brackets(keys: Seq<u32>, t: u32, i: int) -> bool {
    0 <= i && i + 1 < keys.len() && keys[i] <= t && t < keys[i + 1]
}

/// Finds the keyframe pair a playback time falls in: the first `i` with
/// `keys[i] <= t < keys[i + 1]`, or `0` when no pair brackets `t`. Times
/// are given as keys that order as the times do.
pub fn locate_keyframe(keys: &Vec<u32>, t: u32) -> (r: usize)
    requires
        keys.len() >= 2,
    ensures
        r + 1 < keys.len(),
        (exists|i: int| brackets(keys@, t, i)) ==> brackets(keys@, t, r as int) && forall|j: int|
            0 <= j < r ==> !brackets(keys@, t, j),
        !(exists|i: int| brackets(keys@, t, i)) ==> r == 0,
{
    let mut i: usize = 0;
    while i + 1 < keys.len()
        invariant
            keys.len() >= 2,
            0 <= i < keys.len(),
            forall|j: int| 0 <= j < i ==> !brackets(keys@, t, j),
        decreases keys.len() - i,
    {
        if keys[i] <= t && t < keys[i + 1] {
            assert(brackets(keys@, t, i as int));
            return i;
        }
        i = i + 1;
    }
    assert forall|j: int| !brackets(keys@, t, j) by {
        if 0 <= j < i {
        }
    }
    0
}

} // verus!
