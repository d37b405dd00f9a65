use crate::context::Context;
use crate::context::Part;
use crate::partitions::LabelFunction;
use rand::rngs::StdRng;
use rand::Rng;
use rand::SeedableRng;
use vstd::prelude::*;

verus! {

/// rand's `StdRng`. Nothing is said of the state of a generator.
#[verifier::external_type_specification]
#[verifier::external_body]
pub struct ExStdRng(StdRng);

/// rand's `Rng::gen_range` on `0..bound`: some index below `bound`. It panics on an empty
/// range, so `bound` is positive. Which index comes is the generator's affair.
#[verifier::external_body]
pub(crate) fn random_index(rng: &mut StdRng, bound: usize) -> (index: usize)
    requires
        bound > 0,
    ensures
        index < bound,
{
    rng.gen_range(0..bound)
}

/// The generator that `seed` starts: what rand's `seed_from_u64` makes of `seed`.
pub uninterp spec fn rng_started_from(seed: u64) -> StdRng;

/// rand's `SeedableRng::seed_from_u64` for `StdRng`: a generator started from `seed`. The
/// same seed starts the same generator; of what the generator then gives nothing is said.
#[verifier::external_body]
fn seeded_rng(seed: u64) -> (rng: StdRng)
    ensures
        rng == rng_started_from(seed),
{
    StdRng::seed_from_u64(seed)
}

/// fxhash's `hash64` of a name. The hash reads the bytes in the machine's byte order, so
/// nothing is said of its value.
#[verifier::external_body]
fn name_offset(name: &str) -> u64 {
    fxhash::hash64(name)
}

/// A stream of random numbers: a type that stands for one slot of the generators, and the
/// name that sets the stream apart from the others.
pub trait RandomId {
    /// The slot of this stream. Two streams of one context must not share a slot.
    const INDEX: usize;

    fn get_name() -> &'static str;
}

/// The generator of one stream, and whether it is to start anew before it is next used.
pub struct RandomHolder {
    pub(crate) rng: StdRng,
    pub(crate) reseed: bool,
}

/// The base seed and the generators of the streams that were asked for.
pub struct RandomData {
    pub(crate) base_seed: u64,
    pub(crate) random_holders: Vec<Option<RandomHolder>>,
}

/// The seed of a stream: the base seed plus the offset of the stream's name, modulo 2^64.
pub open spec fn stream_seed_spec(base_seed: u64, offset: u64) -> u64 {
    ((base_seed + offset) % 0x1_0000_0000_0000_0000) as u64
}

/// The seed of the stream whose name has the offset `offset`.
pub fn stream_seed(base_seed: u64, offset: u64) -> (seed: u64)
    ensures
        seed == stream_seed_spec(base_seed, offset),
{
    base_seed.wrapping_add(offset)
}

impl RandomData {
    /// The base seed.
    pub open(crate) spec fn base_seed(&self) -> u64 {
        self.base_seed
    }

    /// Whether the stream in `slot` has a generator, and if so, whether the generator is to
    /// start anew before it is next used.
    pub open(crate) spec fn pending(&self, slot: usize) -> Option<bool> {
        if slot < self.random_holders.len() && self.random_holders[slot as int] is Some {
            Some(self.random_holders[slot as int]->0.reseed)
        } else {
            None
        }
    }

    /// The generator of the stream in `slot`, as it stands, if the stream has one.
    pub open(crate) spec fn generator(&self, slot: usize) -> Option<StdRng> {
        if slot < self.random_holders.len() && self.random_holders[slot as int] is Some {
            Some(self.random_holders[slot as int]->0.rng)
        } else {
            None
        }
    }

    pub fn new() -> (random: RandomData)
        ensures
            random.base_seed() == 0,
            forall|slot: usize| random.pending(slot) is None,
            forall|slot: usize| random.generator(slot) is None,
    {
        RandomData { base_seed: 0, random_holders: Vec::new() }
    }

    /// Sets the base seed, and has every generator start anew before it is next used.
    pub fn set_base_random_seed(&mut self, base_seed: u64)
        ensures
            final(self).base_seed() == base_seed,
            forall|slot: usize|
                final(self).pending(slot) == if old(self).pending(slot) is Some {
                    Some(true)
                } else {
                    None
                },
            forall|slot: usize| final(self).generator(slot) == old(self).generator(slot),
    {
        self.base_seed = base_seed;
        let mut i: usize = 0;
        while i < self.random_holders.len()
            invariant
                i <= self.random_holders.len(),
                self.base_seed == base_seed,
                self.random_holders.len() == old(self).random_holders.len(),
                forall|slot: usize| self.generator(slot) == old(self).generator(slot),
                forall|slot: usize|
                    self.pending(slot) == if old(self).pending(slot) is Some {
                        if slot < i {
                            Some(true)
                        } else {
                            old(self).pending(slot)
                        }
                    } else {
                        None
                    },
            decreases self.random_holders.len() - i,
        {
            let ghost before = *self;
            match &mut self.random_holders[i] {
                Some(holder) => {
                    holder.reseed = true;
                },
                None => {},
            }
            assert forall|slot: usize|
                self.pending(slot) == if old(self).pending(slot) is Some {
                    if slot < i + 1 {
                        Some(true)
                    } else {
                        old(self).pending(slot)
                    }
                } else {
                    None
                } by {
                assert(before.pending(slot) == if old(self).pending(slot) is Some {
                    if slot < i {
                        Some(true)
                    } else {
                        old(self).pending(slot)
                    }
                } else {
                    None
                });
                if slot != i {
                    assert(self.pending(slot) == before.pending(slot));
                }
            }
            assert forall|slot: usize| self.generator(slot) == old(self).generator(slot) by {
                assert(before.generator(slot) == old(self).generator(slot));
            }
            i += 1;
        }
    }

    /// The generator that `get_rng` hands out for the stream in `slot`, whose name has the
    /// offset `offset`: the one that the stream has, unless the stream is new or is to start
    /// anew; then the one that the stream's seed starts.
    pub open spec fn generator_for(&self, slot: usize, offset: u64) -> StdRng {
        if self.pending(slot) == Some(false) {
            self.generator(slot)->0
        } else {
            rng_started_from(stream_seed_spec(self.base_seed(), offset))
        }
    }

    /// The generator of the stream in `slot`, whose name has the offset `offset`. A generator
    /// that is new, or that is to start anew, starts from the stream's seed. What the caller
    /// leaves of the generator is what the stream has from then on.
    pub fn get_rng(&mut self, slot: usize, offset: u64) -> (rng: &mut StdRng)
        requires
            slot < usize::MAX,
        ensures
            *rng == old(self).generator_for(slot, offset),
            final(self).generator(slot) == Some(*final(rng)),
            final(self).base_seed() == old(self).base_seed(),
            final(self).pending(slot) == Some(false),
            forall|other: usize| other != slot ==> final(self).pending(other) == old(self).pending(other),
            forall|other: usize| other != slot ==> final(self).generator(other) == old(self).generator(other),
    {
        let seed = stream_seed(self.base_seed, offset);
        while self.random_holders.len() <= slot
            invariant
                self.base_seed == old(self).base_seed,
                forall|other: usize| self.pending(other) == old(self).pending(other),
                forall|other: usize| self.generator(other) == old(self).generator(other),
            decreases slot + 1 - self.random_holders.len(),
        {
            self.random_holders.push(None);
        }
        let fresh = match &self.random_holders[slot] {
            Some(holder) => holder.reseed,
            None => true,
        };
        if fresh {
            self.random_holders[slot] = Some(RandomHolder { rng: seeded_rng(seed), reseed: false });
        }
        match &mut self.random_holders[slot] {
            Some(holder) => &mut holder.rng,
            None => vstd::pervasive::unreached(),
        }
    }
}

/// What a context offers about its random streams.
pub trait RandomContext<A: Copy, D, L: LabelFunction> {
    /// The context that this is.
    spec fn context(&self) -> &Context<A, D, L>;

    /// Sets the base seed of the random streams, and has every stream start anew.
    fn set_base_random_seed(&mut self, base_seed: u64)
        requires
            old(self).context().wf(),
        ensures
            final(self).context().wf(),
            final(self).context().random().base_seed() == base_seed,
            forall|slot: usize|
                final(self).context().random().pending(slot) ==
                    if old(self).context().random().pending(slot) is Some {
                    Some(true)
                } else {
                    None
                },
            forall|slot: usize|
                final(self).context().random().generator(slot) == old(self).context().random().generator(slot),
            Context::changes_only(old(self).context(), final(self).context(), set![Part::Random]),
    ;

    /// The generator of stream `R`. A stream that was not asked for since the base seed was
    /// set starts from the base seed plus the offset of its name. The offset is the hash of
    /// the name, which depends on the machine's byte order; `RandomData::get_rng` says the
    /// same of a given offset.
    fn get_rng<R: RandomId>(&mut self) -> (rng: &mut StdRng)
        requires
            old(self).context().wf(),
            R::INDEX < usize::MAX,
        ensures
            final(self).context().wf(),
            exists|offset: u64| *rng == #[trigger] old(self).context().random().generator_for(R::INDEX, offset),
            old(self).context().random().pending(R::INDEX) == Some(false) ==> *rng
                == old(self).context().random().generator(R::INDEX)->0,
            final(self).context().random().generator(R::INDEX) == Some(*final(rng)),
            forall|other: usize|
                other != R::INDEX ==> final(self).context().random().generator(other) ==
                    old(self).context().random().generator(other),
            final(self).context().random().base_seed() == old(self).context().random().base_seed(),
            final(self).context().random().pending(R::INDEX) == Some(false),
            forall|other: usize|
                other != R::INDEX ==> final(self).context().random().pending(other) ==
                    old(self).context().random().pending(other),
            Context::changes_only(old(self).context(), final(self).context(), set![Part::Random]),
    ;
}

impl<A: Copy, D, L: LabelFunction> RandomContext<A, D, L> for Context<A, D, L> {
    open spec fn context(&self) -> &Context<A, D, L> {
        self
    }

    fn set_base_random_seed(&mut self, base_seed: u64)
    {
        self.random.set_base_random_seed(base_seed);
    }

    fn get_rng<R: RandomId>(&mut self) -> (rng: &mut StdRng)
    {
        let offset = name_offset(R::get_name());
        let ghost before = self.random;
        let rng = self.random.get_rng(R::INDEX, offset);
        assert(*rng == before.generator_for(R::INDEX, offset));
        rng
    }
}

} // verus!
