//! Event gating: the seam where sampling and rate limiting veto an event before any
//! format or write layer sees it.
//!
//! A sampler and a rate limiter answer the same question ("should this event
//! survive?") from different angles. [`EventGate`] is that question as a trait, and
//! [`GateLayer`] applies any chain of gates. Adding a third axis of control means
//! implementing `EventGate`.

use vstd::prelude::*;

use crate::logging::level::Level;
use crate::logging::rate_limit::{self, RateLimit, RateLimiter};
use crate::logging::sampling::{self, SampleConfig, Sampler};

verus! {

/// What a gate is told of what it is asked about.
#[derive(Debug, Clone, Copy)]
pub struct Metadata {
    /// The level.
    pub level: Level,
    /// Whether it is an event rather than a span.
    pub is_event: bool,
}

/// What a gate may consult besides itself: the clock, and the state of the calling
/// thread's random generator.
#[derive(Debug, Clone, Copy)]
pub struct Ambient {
    /// Nanoseconds of a clock that never goes back.
    pub now: u64,
    /// The state of the generator.
    pub generator: u64,
}

/// A per-event predicate that can veto an event before it is formatted.
pub trait EventGate: Sized {
    /// Whether `allowed` is a possible answer in state `self` with the surroundings
    /// `around`, leaving the state `after` and the surroundings `around_after`.
    spec fn answers(
        self,
        meta: Metadata,
        around: Ambient,
        allowed: bool,
        after: Self,
        around_after: Ambient,
    ) -> bool;

    /// Return `false` to drop the event.
    fn allows(&mut self, meta: &Metadata, around: &mut Ambient) -> (allowed: bool)
        ensures
            old(self).answers(*meta, *old(around), allowed, *final(self), *final(around)),
    ;
}

impl EventGate for Sampler {
    open spec fn answers(
        self,
        meta: Metadata,
        around: Ambient,
        allowed: bool,
        after: Self,
        around_after: Ambient,
    ) -> bool {
        &&& after.settings() == self.settings()
        &&& around_after.now == around.now
        &&& (allowed, around_after.generator) == sampling::sampled(
            self.settings(),
            meta.level,
            around.generator,
        )
    }

    fn allows(&mut self, meta: &Metadata, around: &mut Ambient) -> (allowed: bool) {
        let mut state: u64 = around.generator;
        let allowed: bool = self.should_sample(meta.level, &mut state);
        around.generator = state;
        allowed
    }
}

impl EventGate for RateLimiter {
    /// Rate limiting is volume control, so the answer ignores `meta`: every event
    /// costs the same single token regardless of level.
    open spec fn answers(
        self,
        meta: Metadata,
        around: Ambient,
        allowed: bool,
        after: Self,
        around_after: Ambient,
    ) -> bool {
        &&& after.limit() == self.limit()
        &&& around_after == around
        &&& (allowed, after.bucket()) == rate_limit::admitted(
            self.limit(),
            self.bucket(),
            around.now as int,
        )
    }

    fn allows(&mut self, meta: &Metadata, around: &mut Ambient) -> (allowed: bool) {
        let now: u64 = around.now;
        self.allow(now)
    }
}

/// Either of the built-in gates.
#[derive(Debug)]
pub enum Gate {
    /// Sampling.
    Sampler(Sampler),
    /// Rate limiting.
    RateLimiter(RateLimiter),
}

impl EventGate for Gate {
    open spec fn answers(
        self,
        meta: Metadata,
        around: Ambient,
        allowed: bool,
        after: Self,
        around_after: Ambient,
    ) -> bool {
        match (self, after) {
            (Gate::Sampler(a), Gate::Sampler(b)) => a.answers(
                meta,
                around,
                allowed,
                b,
                around_after,
            ),
            (Gate::RateLimiter(a), Gate::RateLimiter(b)) => a.answers(
                meta,
                around,
                allowed,
                b,
                around_after,
            ),
            _ => false,
        }
    }

    fn allows(&mut self, meta: &Metadata, around: &mut Ambient) -> (allowed: bool) {
        match self {
            Gate::Sampler(gate) => gate.allows(meta, around),
            Gate::RateLimiter(gate) => gate.allows(meta, around),
        }
    }
}

/// Whether the gates from position `i` on, asked in turn, may answer `allowed`
/// together and be left as `after`. The first veto ends the asking: the gates behind
/// it stay as they were.
pub open spec fn chain_answers<G: EventGate>(
    gates: Seq<G>,
    i: int,
    meta: Metadata,
    around: Ambient,
    allowed: bool,
    after: Seq<G>,
    around_after: Ambient,
) -> bool
    decreases gates.len() - i,
{
    if i >= gates.len() {
        allowed && around_after == around
    } else {
        exists|ok: bool, between: Ambient|
            {
                &&& #[trigger] gates[i].answers(meta, around, ok, after[i], between)
                &&& if ok {
                    chain_answers(gates, i + 1, meta, between, allowed, after, around_after)
                } else {
                    &&& !allowed
                    &&& around_after == between
                    &&& forall|j: int| i < j < gates.len() ==> after[j] == gates[j]
                }
            }
    }
}

/// Applies a chain of [`EventGate`]s to every event.
///
/// Gates are consulted in order and the chain short-circuits on the first veto, so an
/// event dropped by an earlier gate never reaches a later one. Spans are never gated.
#[derive(Debug)]
pub struct GateLayer<G: EventGate> {
    gates: Vec<G>,
}

impl<G: EventGate> GateLayer<G> {
    /// The gates, in the order in which they are consulted.
    pub closed spec fn gates(&self) -> Seq<G> {
        self.gates@
    }

    /// Build a layer from `gates`, or `None` when there is nothing to gate.
    pub fn new(gates: Vec<G>) -> (layer: Option<GateLayer<G>>)
        ensures
            match layer {
                Some(l) => gates@.len() > 0 && l.gates() == gates@,
                None => gates@.len() == 0,
            },
    {
        if gates.len() == 0 {
            return None;
        }
        Some(GateLayer { gates })
    }

    /// Whether what `meta` describes passes.
    ///
    /// Gates drop *events*. Vetoing a span would delete the context that surviving
    /// events are recorded under, so spans always pass and only the events inside them
    /// are gated.
    pub fn enabled(&mut self, meta: &Metadata, around: &mut Ambient) -> (allowed: bool)
        ensures
            final(self).gates().len() == old(self).gates().len(),
            if meta.is_event {
                chain_answers(
                    old(self).gates(),
                    0,
                    *meta,
                    *old(around),
                    allowed,
                    final(self).gates(),
                    *final(around),
                )
            } else {
                allowed && *final(self) == *old(self) && *final(around) == *old(around)
            },
    {
        if !meta.is_event {
            return true;
        }
        ask_from(&mut self.gates, 0, meta, around)
    }
}

/// Ask the gates from position `i` on.
fn ask_from<G: EventGate>(
    gates: &mut Vec<G>,
    i: usize,
    meta: &Metadata,
    around: &mut Ambient,
) -> (allowed: bool)
    requires
        i <= old(gates)@.len(),
    ensures
        final(gates)@.len() == old(gates)@.len(),
        forall|j: int| 0 <= j < i ==> final(gates)@[j] == old(gates)@[j],
        chain_answers(
            old(gates)@,
            i as int,
            *meta,
            *old(around),
            allowed,
            final(gates)@,
            *final(around),
        ),
    decreases old(gates)@.len() - i,
{
    if i == gates.len() {
        return true;
    }
    let ghost before = gates@;
    let ok: bool = gates[i].allows(meta, around);
    let ghost between = *around;
    let ghost asked = gates@;
    if !ok {
        proof {
            assert(before[i as int].answers(*meta, *old(around), false, gates@[i as int], between));
        }
        return false;
    }
    let allowed: bool = ask_from(gates, i + 1, meta, around);
    proof {
        assert(before[i as int].answers(*meta, *old(around), true, gates@[i as int], between));
        lemma_chain_same(
            asked,
            before,
            i + 1,
            *meta,
            between,
            allowed,
            gates@,
            *around,
        );
    }
    allowed
}

/// The answer of a chain depends on the gates from its position on alone.
proof fn lemma_chain_same<G: EventGate>(
    a: Seq<G>,
    b: Seq<G>,
    i: int,
    meta: Metadata,
    around: Ambient,
    allowed: bool,
    after: Seq<G>,
    around_after: Ambient,
)
    requires
        a.len() == b.len(),
        0 <= i,
        forall|j: int| i <= j < a.len() ==> a[j] == b[j],
        chain_answers(a, i, meta, around, allowed, after, around_after),
    ensures
        chain_answers(b, i, meta, around, allowed, after, around_after),
    decreases a.len() - i,
{
    if i < a.len() {
        let (ok, between) = choose|ok: bool, between: Ambient|
            {
                &&& #[trigger] a[i].answers(meta, around, ok, after[i], between)
                &&& if ok {
                    chain_answers(a, i + 1, meta, between, allowed, after, around_after)
                } else {
                    &&& !allowed
                    &&& around_after == between
                    &&& forall|j: int| i < j < a.len() ==> after[j] == a[j]
                }
            };
        assert(b[i].answers(meta, around, ok, after[i], between));
        if ok {
            lemma_chain_same(a, b, i + 1, meta, between, allowed, after, around_after);
        }
    }
}

/// Assemble the layer from whichever gates were configured.
///
/// Order matters and is fixed here: sampling is consulted before rate limiting. An
/// event the sampler discards must not also spend a token, or a one-percent sample
/// would drain the bucket a hundred times faster than the events it keeps.
pub fn layer_for(
    sampling: Option<SampleConfig>,
    rate_limit: Option<RateLimit>,
    now: u64,
) -> (layer: Option<GateLayer<Gate>>)
    ensures
        layer is None <==> sampling is None && rate_limit is None,
        layer is Some ==> gates_for(sampling, rate_limit, now, layer->0.gates()),
{
    let mut gates: Vec<Gate> = Vec::new();
    match sampling {
        Some(config) => {
            gates.push(Gate::Sampler(Sampler::new(config)));
        },
        None => {},
    }
    match rate_limit {
        Some(config) => {
            gates.push(Gate::RateLimiter(RateLimiter::new(config, now)));
        },
        None => {},
    }
    GateLayer::new(gates)
}

/// Whether the gates are those that were configured: the sampler first, then the
/// limiter with a full bucket.
pub open spec fn gates_for(
    sampling: Option<SampleConfig>,
    rate_limit: Option<RateLimit>,
    now: u64,
    gates: Seq<Gate>,
) -> bool {
    let samplers: int = if sampling is Some { 1 } else { 0 };
    let limiters: int = if rate_limit is Some { 1 } else { 0 };
    &&& gates.len() == samplers + limiters
    &&& sampling is Some ==> (gates[0] matches Gate::Sampler(s) && s.settings() == sampling->0)
    &&& rate_limit is Some ==> (gates[samplers] matches Gate::RateLimiter(l) && l.limit()
        == rate_limit->0 && l.bucket() == (rate_limit::BucketState {
        credit: rate_limit::capacity(rate_limit->0),
        last: now as int,
    }))
}

/// A sampled-out event spends no token: where the sampler drops an event, the limiter
/// behind it is not consulted.
pub proof fn law_sampled_out_spends_nothing(
    gates: Seq<Gate>,
    meta: Metadata,
    around: Ambient,
    allowed: bool,
    after: Seq<Gate>,
    around_after: Ambient,
)
    requires
        gates.len() == 2,
        gates[0] is Sampler,
        gates[1] is RateLimiter,
        chain_answers(gates, 0, meta, around, allowed, after, around_after),
        !sampling::sampled(gates[0]->Sampler_0.settings(), meta.level, around.generator).0,
    ensures
        !allowed,
        after[1] == gates[1],
{
}

/// An event passes exactly where every gate lets it: with both built-in gates, where
/// the sampler keeps it and then the limiter has a token for it.
pub proof fn law_both_gates(
    gates: Seq<Gate>,
    meta: Metadata,
    around: Ambient,
    allowed: bool,
    after: Seq<Gate>,
    around_after: Ambient,
)
    requires
        gates.len() == 2,
        gates[0] is Sampler,
        gates[1] is RateLimiter,
        chain_answers(gates, 0, meta, around, allowed, after, around_after),
    ensures
        allowed == (sampling::sampled(
            gates[0]->Sampler_0.settings(),
            meta.level,
            around.generator,
        ).0 && rate_limit::admitted(
            gates[1]->RateLimiter_0.limit(),
            gates[1]->RateLimiter_0.bucket(),
            around.now as int,
        ).0),
{
    reveal_with_fuel(chain_answers, 3);
}

/// The configured gates decide: a sampler alone lets through what it keeps, a limiter
/// alone what it has a token for in a bucket that was full at the start, and both
/// together what both let through.
pub proof fn law_configured_gates(
    sampling: Option<SampleConfig>,
    rate_limit: Option<RateLimit>,
    start: u64,
    gates: Seq<Gate>,
    meta: Metadata,
    around: Ambient,
    allowed: bool,
    after: Seq<Gate>,
    around_after: Ambient,
)
    requires
        gates_for(sampling, rate_limit, start, gates),
        chain_answers(gates, 0, meta, around, allowed, after, around_after),
    ensures
        allowed <==> {
            &&& sampling matches Some(config) ==> sampling::sampled(
                config,
                meta.level,
                around.generator,
            ).0
            &&& rate_limit matches Some(limit) ==> rate_limit::admitted(
                limit,
                rate_limit::BucketState {
                    credit: rate_limit::capacity(limit),
                    last: start as int,
                },
                around.now as int,
            ).0
        },
        around_after.now == around.now,
        sampling is None ==> around_after == around,
{
    reveal_with_fuel(chain_answers, 3);
}

/// Rate limiting is volume control: the limiter's answer does not depend on what it is
/// asked about, nor on the generator, and it leaves the surroundings as they are.
pub proof fn law_limiter_ignores_the_event(
    limiter: RateLimiter,
    a: Metadata,
    b: Metadata,
    around: Ambient,
    allowed: bool,
    after: RateLimiter,
    around_after: Ambient,
)
    requires
        limiter.answers(a, around, allowed, after, around_after),
    ensures
        limiter.answers(b, around, allowed, after, around_after),
        around_after == around,
        after.limit() == limiter.limit(),
{
}

/// Whether a gate may let the event through, in some surroundings, and be left as
/// `after`.
pub open spec fn consents<G: EventGate>(gate: G, meta: Metadata, after: G) -> bool {
    exists|before: Ambient, behind: Ambient| #[trigger]
        gate.answers(meta, before, true, after, behind)
}

/// The first veto ends the asking, whatever the gates are: where a chain drops an event,
/// some gate vetoed it and every gate behind that one is left as it was; where it lets
/// the event through, no gate vetoed it.
pub proof fn law_first_veto_ends<G: EventGate>(
    gates: Seq<G>,
    i: int,
    meta: Metadata,
    around: Ambient,
    allowed: bool,
    after: Seq<G>,
    around_after: Ambient,
)
    requires
        0 <= i <= gates.len(),
        chain_answers(gates, i, meta, around, allowed, after, around_after),
    ensures
        allowed ==> forall|k: int|
            i <= k < gates.len() ==> #[trigger] consents(gates[k], meta, after[k]),
        !allowed ==> exists|k: int, before: Ambient|
            i <= k < gates.len() && #[trigger] gates[k].answers(
                meta,
                before,
                false,
                after[k],
                around_after,
            ) && (forall|j: int| k < j < gates.len() ==> after[j] == gates[j]),
    decreases gates.len() - i,
{
    if i < gates.len() {
        let (ok, between) = choose|ok: bool, between: Ambient|
            {
                &&& #[trigger] gates[i].answers(meta, around, ok, after[i], between)
                &&& if ok {
                    chain_answers(gates, i + 1, meta, between, allowed, after, around_after)
                } else {
                    &&& !allowed
                    &&& around_after == between
                    &&& forall|j: int| i < j < gates.len() ==> after[j] == gates[j]
                }
            };
        if ok {
            law_first_veto_ends(gates, i + 1, meta, between, allowed, after, around_after);
            if allowed {
                assert(consents(gates[i], meta, after[i]));
            } else {
                let (k, before) = choose|k: int, before: Ambient|
                    i + 1 <= k < gates.len() && #[trigger] gates[k].answers(
                        meta,
                        before,
                        false,
                        after[k],
                        around_after,
                    ) && (forall|j: int| k < j < gates.len() ==> after[j] == gates[j]);
                assert(gates[k].answers(meta, before, false, after[k], around_after));
            }
        } else {
            assert(gates[i].answers(meta, around, false, after[i], around_after));
        }
    }
}

} // verus!
