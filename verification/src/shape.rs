use crate::error::{CustomError, CustomResult};
use vstd::prelude::*;

verus! {

/// The capability contract every drawable entity satisfies.
///
/// The core never constructs shapes and never inspects their concrete
/// type: it only stores them and fans lifecycle calls out to them. Each
/// implementer describes its own behaviour through the four spec
/// relations, and each executable operation is bound to its relation, so
/// that callers can reason about a fan-out without knowing the shape.
pub trait Shape: Sized {
    /// The graphics context handed to every shape at init time.
    type Context;

    /// One external input event.
    type Event;

    /// How a successful or failed `init` relates the shape's old and new
    /// state and the context it was handed. The default promises
    /// nothing; verified shapes override it.
    open spec fn init_spec(pre: Self, post: Self, ctx: Self::Context, r: CustomResult) -> bool {
        true
    }

    /// How `update` relates old state, new state, the elapsed time and
    /// its result. The default promises nothing; verified shapes
    /// override it.
    open spec fn update_spec(pre: Self, post: Self, elapsed_ms: u64, r: CustomResult) -> bool {
        true
    }

    /// How `input` relates old state, new state, the event and its
    /// result. The default promises nothing; verified shapes override it.
    open spec fn input_spec(pre: Self, post: Self, event: Self::Event, r: CustomResult) -> bool {
        true
    }

    /// What `draw` may return in a given state; drawing never mutates
    /// the shape. The default promises nothing; verified shapes
    /// override it.
    open spec fn draw_spec(shape: Self, r: CustomResult) -> bool {
        true
    }

    /// Acquire graphics resources. Called exactly once, before any other
    /// operation, by the owner.
    fn init(&mut self, ctx: &Self::Context) -> (r: CustomResult)
        ensures
            Self::init_spec(*old(self), *final(self), *ctx, r),
    ;

    /// Advance internal simulation state by the elapsed time. Called once
    /// per loop iteration, before draw.
    fn update(&mut self, elapsed_ms: u64) -> (r: CustomResult)
        ensures
            Self::update_spec(*old(self), *final(self), elapsed_ms, r),
    ;

    /// React to one external input event. Called once per queued event.
    fn input(&mut self, event: &Self::Event) -> (r: CustomResult)
        ensures
            Self::input_spec(*old(self), *final(self), *event, r),
    ;

    /// Issue rendering commands from current state, without mutating it.
    fn draw(&self) -> (r: CustomResult)
        ensures
            Self::draw_spec(*self, r),
    ;
}

/// One successful lifecycle step of a single shape: an `update` with
/// some elapsed time, or an `input` with some event, that returned Ok.
/// `draw` never mutates a shape, so it contributes no step.
pub open spec fn shape_step<S: Shape>(pre: S, post: S) -> bool {
    (exists|elapsed_ms: u64| S::update_spec(pre, post, elapsed_ms, Ok(()))) || (exists|
        event: S::Event,
    |
        S::input_spec(pre, post, event, Ok(())))
}

/// `post` is reachable from `pre` by finitely many successful lifecycle
/// steps.
pub open spec fn shape_evolves<S: Shape>(pre: S, post: S) -> bool {
    exists|chain: Seq<S>|
        #![trigger chain.len()]
        chain.len() >= 1 && chain[0] == pre && chain[chain.len() - 1] == post && (forall|k: int|
            0 <= k < chain.len() - 1 ==> shape_step(#[trigger] chain[k], chain[k + 1]))
}

/// One failing dispatch of a single shape: the lifecycle call whose
/// error a fan-out returned. A failing `draw` leaves the shape as it is.
pub open spec fn shape_fails<S: Shape>(pre: S, post: S, e: CustomError) -> bool {
    (exists|elapsed_ms: u64| S::update_spec(pre, post, elapsed_ms, Err(e))) || (exists|
        event: S::Event,
    |
        S::input_spec(pre, post, event, Err(e))) || (post == pre && S::draw_spec(pre, Err(e)))
}

/// Every shape of `post` evolved from its counterpart in `pre` by
/// successful lifecycle steps alone.
pub open spec fn all_evolve<S: Shape>(pre: Seq<S>, post: Seq<S>) -> bool {
    post.len() == pre.len() && forall|i: int|
        0 <= i < pre.len() ==> shape_evolves(pre[i], #[trigger] post[i])
}

/// Some shape of `pre` evolved by successful steps and then failed the
/// dispatch that produced `e`, while every other shape only took
/// successful steps.
pub open spec fn some_shape_fails<S: Shape>(pre: Seq<S>, post: Seq<S>, e: CustomError) -> bool {
    exists|k: int, mid: S|
        0 <= k < pre.len() && shape_evolves(pre[k], mid) && #[trigger] shape_fails(
            mid,
            post[k],
            e,
        ) && (forall|i: int|
            0 <= i < pre.len() && i != k ==> shape_evolves(pre[i], #[trigger] post[i]))
}

/// Every shape evolves to itself by the empty chain of steps.
pub proof fn lemma_evolves_refl<S: Shape>(s: S)
    ensures
        shape_evolves(s, s),
{
    let chain = seq![s];
    assert(chain.len() == 1);
    assert(chain[0] == s);
    assert(forall|k: int|
        0 <= k < chain.len() - 1 ==> shape_step(#[trigger] chain[k], chain[k + 1]));
    assert(shape_evolves(s, s));
}

/// One more successful step extends an evolution.
pub proof fn lemma_evolves_step<S: Shape>(a: S, b: S, c: S)
    requires
        shape_evolves(a, b),
        shape_step(b, c),
    ensures
        shape_evolves(a, c),
{
    let chain = choose|chain: Seq<S>|
        #![trigger chain.len()]
        chain.len() >= 1 && chain[0] == a && chain[chain.len() - 1] == b && (forall|k: int|
            0 <= k < chain.len() - 1 ==> shape_step(#[trigger] chain[k], chain[k + 1]));
    let longer = chain.push(c);
    assert(longer[0] == a);
    assert(longer[longer.len() - 1] == c);
    assert forall|k: int| 0 <= k < longer.len() - 1 implies shape_step(
        #[trigger] longer[k],
        longer[k + 1],
    ) by {
        if k < chain.len() - 1 {
            assert(longer[k] == chain[k]);
            assert(longer[k + 1] == chain[k + 1]);
        } else {
            assert(k == chain.len() - 1);
            assert(longer[k] == b);
            assert(longer[k + 1] == c);
        }
    }
    assert(shape_evolves(a, c));
}

} // verus!
