//! The random sources the generators draw from: the system generator of the
//! `rand` crate, and a deterministic replay source that cycles through a
//! recorded sequence of draws.
//!
//! The replay source has a full functional model, `SourceModel`, so that
//! everything generated from it is a function of the recorded draws alone.

use vstd::prelude::*;

verus! {

/// The abstract state of a replay source: the recorded draws and the
/// position of the next one.
#[verifier::ext_equal]
pub ghost struct SourceModel {
    pub draws: Seq<u64>,
    pub pos: nat,
}

/// The index below `bound` that a replay source in state `m` yields: the
/// draw at the current position, reduced modulo `bound`. A source with no
/// recorded draws always yields zero.
pub open spec fn pick_of(m: SourceModel, bound: nat) -> nat
    recommends
        bound > 0,
{
    if m.draws.len() == 0 {
        0
    } else {
        (m.draws[(m.pos % m.draws.len()) as int] as nat) % bound
    }
}

/// The state of a replay source after one draw: the position moves on by
/// one and wraps around at the end of the recorded draws.
pub open spec fn step_of(m: SourceModel) -> SourceModel {
    SourceModel {
        draws: m.draws,
        pos: if m.draws.len() == 0 {
            0
        } else {
            (m.pos + 1) % m.draws.len()
        },
    }
}

/// A deterministic source that replays its recorded draws, cycling when
/// they are exhausted.
pub struct ReplaySource {
    draws: Vec<u64>,
    pos: usize,
}

impl ReplaySource {
    /// The position always points at a recorded draw.
    pub closed spec fn wf(&self) -> bool {
        if self.draws@.len() == 0 {
            self.pos == 0
        } else {
            self.pos < self.draws@.len()
        }
    }

    /// The abstract state of this source.
    pub closed spec fn model(&self) -> SourceModel {
        SourceModel { draws: self.draws@, pos: self.pos as nat }
    }

    /// A replay source at the start of the given draws.
    pub fn new(draws: Vec<u64>) -> (r: ReplaySource)
        ensures
            r.wf(),
            r.model() == (SourceModel { draws: draws@, pos: 0nat }),
    {
        ReplaySource { draws, pos: 0 }
    }

    /// The next index below `bound`, exactly as the model says.
    fn pick(&mut self, bound: usize) -> (r: usize)
        requires
            bound > 0,
            old(self).wf(),
        ensures
            final(self).wf(),
            r < bound,
            r as nat == pick_of(old(self).model(), bound as nat),
            final(self).model() == step_of(old(self).model()),
    {
        if self.draws.len() == 0 {
            0
        } else {
            let d = self.draws[self.pos];
            let ghost len = self.draws@.len();
            let ghost p = self.pos as nat;
            self.pos = if self.pos + 1 == self.draws.len() {
                0
            } else {
                self.pos + 1
            };
            proof {
                assert(d % (bound as u64) < bound as u64);
                vstd::arithmetic::div_mod::lemma_small_mod(p, len);
                if p + 1 == len {
                    assert((p + 1) % len == 0nat) by (nonlinear_arith)
                        requires
                            p + 1 == len && len > 0,
                    ;
                } else {
                    vstd::arithmetic::div_mod::lemma_small_mod(p + 1, len);
                }
                assert((d % (bound as u64)) as nat == (d as nat) % (bound as nat));
            }
            (d % (bound as u64)) as usize
        }
    }
}

/// The thread-local generator of the `rand` crate, declared so that a value
/// of it can be held; nothing is assumed about its contents.
#[verifier::external_type_specification]
#[verifier::external_body]
pub struct ExThreadRng(rand::rngs::ThreadRng);

/// Relies on `rand::rng`: a handle to the thread-local system generator.
#[verifier::external_body]
fn system_rng() -> rand::rngs::ThreadRng {
    rand::rng()
}

/// Relies on `rand::Rng::random_range` over `0..bound`: a uniform index
/// below `bound`. The range is non-empty, so the call does not panic.
#[verifier::external_body]
fn system_pick(rng: &mut rand::rngs::ThreadRng, bound: usize) -> (r: usize)
    requires
        bound > 0,
    ensures
        r < bound,
{
    rand::Rng::random_range(rng, 0..bound)
}

/// Relies on `rand::seq::SliceRandom::shuffle`: permutes the slice in place,
/// uniformly; the bytes are rearranged, none is added or lost.
#[verifier::external_body]
fn system_shuffle(rng: &mut rand::rngs::ThreadRng, v: &mut Vec<u8>)
    ensures
        final(v)@.to_multiset() == old(v)@.to_multiset(),
{
    rand::seq::SliceRandom::shuffle(v.as_mut_slice(), rng)
}

/// One swap of the positions `i` and `j`.
pub open spec fn swapped(s: Seq<u8>, i: int, j: int) -> Seq<u8>
    recommends
        0 <= i < s.len(),
        0 <= j < s.len(),
{
    s.update(i, s[j]).update(j, s[i])
}

/// The sequence and the source state after the downward pass of the shuffle
/// that still has to handle positions `i` down to `1`: each position is
/// swapped with a drawn position at or below it.
pub open spec fn shuffle_from(s: Seq<u8>, i: nat, m: SourceModel) -> (Seq<u8>, SourceModel)
    recommends
        i < s.len(),
    decreases i,
{
    if i == 0 {
        (s, m)
    } else {
        let j = pick_of(m, i + 1);
        shuffle_from(swapped(s, i as int, j as int), (i - 1) as nat, step_of(m))
    }
}

/// The sequence and the source state after a full shuffle; sequences of at
/// most one character are left alone and consume no draws.
pub open spec fn shuffled(s: Seq<u8>, m: SourceModel) -> (Seq<u8>, SourceModel) {
    if s.len() <= 1 {
        (s, m)
    } else {
        shuffle_from(s, (s.len() - 1) as nat, m)
    }
}

/// A swap rearranges a sequence: the characters and their counts stay.
pub proof fn lemma_swapped_multiset(s: Seq<u8>, i: int, j: int)
    requires
        0 <= i < s.len(),
        0 <= j < s.len(),
    ensures
        swapped(s, i, j).len() == s.len(),
        swapped(s, i, j).to_multiset() == s.to_multiset(),
{
    broadcast use vstd::seq_lib::to_multiset_update;
    broadcast use vstd::seq_lib::group_to_multiset_ensures;

    let t = s.update(i, s[j]);
    assert(t.to_multiset() == s.to_multiset().insert(s[j]).remove(s[i]));
    assert(t[j] == if i == j {
        s[i]
    } else {
        s[j]
    });
    assert(swapped(s, i, j).to_multiset() == t.to_multiset().insert(s[i]).remove(t[j]));
    assert(s.contains(s[i]));
    assert(s.to_multiset().count(s[i]) > 0);
    assert(s.contains(s[j]));
    assert(s.to_multiset().count(s[j]) > 0);
    assert(swapped(s, i, j).to_multiset() =~= s.to_multiset());
}

/// The downward pass of the shuffle rearranges the sequence: the characters
/// and their counts stay.
pub proof fn lemma_shuffle_from_multiset(s: Seq<u8>, i: nat, m: SourceModel)
    requires
        i < s.len(),
    ensures
        shuffle_from(s, i, m).0.len() == s.len(),
        shuffle_from(s, i, m).0.to_multiset() == s.to_multiset(),
    decreases i,
{
    if i > 0 {
        let j = pick_of(m, i + 1);
        assert(j < i + 1);
        lemma_swapped_multiset(s, i as int, j as int);
        lemma_shuffle_from_multiset(swapped(s, i as int, j as int), (i - 1) as nat, step_of(m));
    }
}

/// Two sequences with the same characters in the same counts contain the
/// same characters.
pub proof fn lemma_permutation_contains(a: Seq<u8>, b: Seq<u8>)
    requires
        a.to_multiset() == b.to_multiset(),
    ensures
        forall|c: u8| a.contains(c) <==> b.contains(c),
{
    broadcast use vstd::seq_lib::group_to_multiset_ensures;

    assert forall|c: u8| a.contains(c) <==> b.contains(c) by {
        assert(a.contains(c) <==> a.to_multiset().count(c) > 0);
        assert(b.contains(c) <==> b.to_multiset().count(c) > 0);
    }
}

/// A full shuffle rearranges the sequence: the characters and their counts
/// stay.
pub proof fn lemma_shuffled_multiset(s: Seq<u8>, m: SourceModel)
    ensures
        shuffled(s, m).0.len() == s.len(),
        shuffled(s, m).0.to_multiset() == s.to_multiset(),
{
    if s.len() > 1 {
        lemma_shuffle_from_multiset(s, (s.len() - 1) as nat, m);
    }
}

impl ReplaySource {
    /// The verified in-place shuffle of the replay source: the downward pass
    /// over the positions, each swapped with a drawn position at or below it,
    /// exactly as the model says.
    fn shuffle(&mut self, v: &mut Vec<u8>)
        requires
            old(self).wf(),
        ensures
            final(self).wf(),
            final(v)@ == shuffled(old(v)@, old(self).model()).0,
            final(self).model() == shuffled(old(v)@, old(self).model()).1,
    {
        if v.len() <= 1 {
            return ;
        }
        let ghost target = shuffled(old(v)@, old(self).model());
        let n = v.len();
        let mut i: usize = n - 1;
        while i >= 1
            invariant
                i < n,
                v@.len() == n as nat,
                v@.len() == old(v)@.len(),
                self.wf(),
                shuffle_from(v@, i as nat, self.model()) == target,
            decreases i,
        {
            let j = self.pick(i + 1);
            let vi = v[i];
            let vj = v[j];
            v[i] = vj;
            v[j] = vi;
            i = i - 1;
        }
    }
}

/// A source of randomness for the generators: the system generator of the
/// `rand` crate, or a deterministic replay of recorded draws.
pub enum RandomSource {
    System(rand::rngs::ThreadRng),
    Replay(ReplaySource),
}

impl RandomSource {
    /// Whether this is the deterministic replay source.
    pub open spec fn is_replay(&self) -> bool {
        self is Replay
    }

    /// The abstract state of the replay source; immaterial for the system
    /// source.
    pub open spec fn model(&self) -> SourceModel {
        match self {
            RandomSource::Replay(r) => r.model(),
            RandomSource::System(_) => SourceModel { draws: Seq::empty(), pos: 0nat },
        }
    }

    /// The source is in a usable state.
    pub open spec fn wf(&self) -> bool {
        match self {
            RandomSource::Replay(r) => r.wf(),
            RandomSource::System(_) => true,
        }
    }

    /// A source backed by the system generator.
    pub fn system() -> (r: RandomSource)
        ensures
            r.wf(),
            !r.is_replay(),
    {
        RandomSource::System(system_rng())
    }

    /// A deterministic source at the start of the given draws.
    pub fn replay(draws: Vec<u64>) -> (r: RandomSource)
        ensures
            r.wf(),
            r.is_replay(),
            r.model() == (SourceModel { draws: draws@, pos: 0nat }),
    {
        RandomSource::Replay(ReplaySource::new(draws))
    }

    /// Pick one index uniformly below `bound`. On the replay source the
    /// result and the new state are exactly what the model says.
    pub fn pick_index(&mut self, bound: usize) -> (r: usize)
        requires
            bound > 0,
            old(self).wf(),
        ensures
            final(self).wf(),
            r < bound,
            final(self).is_replay() == old(self).is_replay(),
            old(self).is_replay() ==> r as nat == pick_of(old(self).model(), bound as nat)
                && final(self).model() == step_of(old(self).model()),
    {
        match self {
            RandomSource::System(rng) => system_pick(rng, bound),
            RandomSource::Replay(rs) => rs.pick(bound),
        }
    }

    /// Shuffle the bytes in place: a permutation, so the characters and
    /// their counts stay. On the replay source the permutation and the new
    /// state are exactly what the model says.
    pub fn shuffle(&mut self, v: &mut Vec<u8>)
        requires
            old(self).wf(),
        ensures
            final(self).wf(),
            final(self).is_replay() == old(self).is_replay(),
            final(v)@.len() == old(v)@.len(),
            final(v)@.to_multiset() == old(v)@.to_multiset(),
            old(self).is_replay() ==> final(v)@ == shuffled(old(v)@, old(self).model()).0
                && final(self).model() == shuffled(old(v)@, old(self).model()).1,
    {
        broadcast use vstd::seq_lib::group_to_multiset_ensures;

        match self {
            RandomSource::System(rng) => {
                system_shuffle(rng, v);
                proof {
                    assert(v@.to_multiset().len() == v@.len());
                    assert(old(v)@.to_multiset().len() == old(v)@.len());
                }
            },
            RandomSource::Replay(rs) => {
                rs.shuffle(v);
                proof {
                    lemma_shuffled_multiset(old(v)@, old(self).model());
                }
            },
        }
    }
}

} // verus!
