use crate::error::{CustomError, CustomResult};
use crate::shape::Shape;
use vstd::prelude::*;

verus! {

/// An ordered collection of shapes. Insertion order is dispatch order:
/// every fan-out walks the shapes front to back and stops at the first
/// failure, propagating that shape's error and leaving the remaining
/// shapes untouched.
pub struct ShapesManager<S: Shape> {
    pub shapes: Vec<S>,
}

impl<S: Shape> ShapesManager<S> {
    /// An empty collection.
    pub fn new() -> (m: Self)
        ensures
            m.shapes@ == Seq::<S>::empty(),
    {
        Self { shapes: Vec::new() }
    }

    /// Appends one shape; all earlier shapes keep their place.
    pub fn add_shape(&mut self, shape: S)
        ensures
            final(self).shapes@ == old(self).shapes@.push(shape),
    {
        self.shapes.push(shape);
    }

    /// Fans `init` out to every shape in insertion order, stopping at the
    /// first failure; shapes after the failing one are not touched.
    pub fn init(&mut self, ctx: &S::Context) -> (r: CustomResult)
        ensures
            final(self).shapes@.len() == old(self).shapes@.len(),
            match r {
                Ok(()) => forall|k: int|
                    0 <= k < old(self).shapes@.len() ==> S::init_spec(
                        old(self).shapes@[k],
                        #[trigger] final(self).shapes@[k],
                        *ctx,
                        Ok(()),
                    ),
                Err(e) => exists|k: int|
                    0 <= k < old(self).shapes@.len() && #[trigger] S::init_spec(
                        old(self).shapes@[k],
                        final(self).shapes@[k],
                        *ctx,
                        Err(e),
                    ) && (forall|t: int|
                        0 <= t < k ==> S::init_spec(
                            old(self).shapes@[t],
                            #[trigger] final(self).shapes@[t],
                            *ctx,
                            Ok(()),
                        )) && (forall|t: int|
                        k < t < old(self).shapes@.len() ==> #[trigger] final(self).shapes@[t]
                            == old(self).shapes@[t]),
            },
    {
        let n = self.shapes.len();
        let mut i: usize = 0;
        while i < n
            invariant
                i <= n,
                n == self.shapes@.len(),
                self.shapes@.len() == old(self).shapes@.len(),
                forall|t: int|
                    0 <= t < i ==> S::init_spec(
                        old(self).shapes@[t],
                        #[trigger] self.shapes@[t],
                        *ctx,
                        Ok(()),
                    ),
                forall|t: int| i <= t < n ==> #[trigger] self.shapes@[t] == old(self).shapes@[t],
            decreases n - i,
        {
            let r = self.shapes[i].init(ctx);
            match r {
                Ok(()) => {
                    proof {
                        assert(r->Ok_0 == ());
                        assert(S::init_spec(
                            old(self).shapes@[i as int],
                            self.shapes@[i as int],
                            *ctx,
                            Ok(()),
                        ));
                    }
                },
                Err(e) => {
                    proof {
                        assert(S::init_spec(
                            old(self).shapes@[i as int],
                            self.shapes@[i as int],
                            *ctx,
                            Err(e),
                        ));
                    }
                    return Err(e);
                },
            }
            i = i + 1;
        }
        Ok(())
    }

    /// Fans `update` out to every shape in insertion order with the same
    /// elapsed time, stopping at the first failure; shapes after the
    /// failing one are not touched and its error is returned unchanged.
    pub fn update(&mut self, elapsed_ms: u64) -> (r: CustomResult)
        ensures
            final(self).shapes@.len() == old(self).shapes@.len(),
            match r {
                Ok(()) => forall|k: int|
                    0 <= k < old(self).shapes@.len() ==> S::update_spec(
                        old(self).shapes@[k],
                        #[trigger] final(self).shapes@[k],
                        elapsed_ms,
                        Ok(()),
                    ),
                Err(e) => exists|k: int|
                    0 <= k < old(self).shapes@.len() && #[trigger] S::update_spec(
                        old(self).shapes@[k],
                        final(self).shapes@[k],
                        elapsed_ms,
                        Err(e),
                    ) && (forall|t: int|
                        0 <= t < k ==> S::update_spec(
                            old(self).shapes@[t],
                            #[trigger] final(self).shapes@[t],
                            elapsed_ms,
                            Ok(()),
                        )) && (forall|t: int|
                        k < t < old(self).shapes@.len() ==> #[trigger] final(self).shapes@[t]
                            == old(self).shapes@[t]),
            },
    {
        let n = self.shapes.len();
        let mut i: usize = 0;
        while i < n
            invariant
                i <= n,
                n == self.shapes@.len(),
                self.shapes@.len() == old(self).shapes@.len(),
                forall|t: int|
                    0 <= t < i ==> S::update_spec(
                        old(self).shapes@[t],
                        #[trigger] self.shapes@[t],
                        elapsed_ms,
                        Ok(()),
                    ),
                forall|t: int| i <= t < n ==> #[trigger] self.shapes@[t] == old(self).shapes@[t],
            decreases n - i,
        {
            let r = self.shapes[i].update(elapsed_ms);
            match r {
                Ok(()) => {
                    proof {
                        assert(r->Ok_0 == ());
                        assert(S::update_spec(
                            old(self).shapes@[i as int],
                            self.shapes@[i as int],
                            elapsed_ms,
                            Ok(()),
                        ));
                    }
                },
                Err(e) => {
                    proof {
                        assert(S::update_spec(
                            old(self).shapes@[i as int],
                            self.shapes@[i as int],
                            elapsed_ms,
                            Err(e),
                        ));
                    }
                    return Err(e);
                },
            }
            i = i + 1;
        }
        Ok(())
    }

    /// Fans one input event out to every shape in insertion order,
    /// stopping at the first failure.
    pub fn input(&mut self, event: &S::Event) -> (r: CustomResult)
        ensures
            final(self).shapes@.len() == old(self).shapes@.len(),
            match r {
                Ok(()) => forall|k: int|
                    0 <= k < old(self).shapes@.len() ==> S::input_spec(
                        old(self).shapes@[k],
                        #[trigger] final(self).shapes@[k],
                        *event,
                        Ok(()),
                    ),
                Err(e) => exists|k: int|
                    0 <= k < old(self).shapes@.len() && #[trigger] S::input_spec(
                        old(self).shapes@[k],
                        final(self).shapes@[k],
                        *event,
                        Err(e),
                    ) && (forall|t: int|
                        0 <= t < k ==> S::input_spec(
                            old(self).shapes@[t],
                            #[trigger] final(self).shapes@[t],
                            *event,
                            Ok(()),
                        )) && (forall|t: int|
                        k < t < old(self).shapes@.len() ==> #[trigger] final(self).shapes@[t]
                            == old(self).shapes@[t]),
            },
    {
        let n = self.shapes.len();
        let mut i: usize = 0;
        while i < n
            invariant
                i <= n,
                n == self.shapes@.len(),
                self.shapes@.len() == old(self).shapes@.len(),
                forall|t: int|
                    0 <= t < i ==> S::input_spec(
                        old(self).shapes@[t],
                        #[trigger] self.shapes@[t],
                        *event,
                        Ok(()),
                    ),
                forall|t: int| i <= t < n ==> #[trigger] self.shapes@[t] == old(self).shapes@[t],
            decreases n - i,
        {
            let r = self.shapes[i].input(event);
            match r {
                Ok(()) => {
                    proof {
                        assert(r->Ok_0 == ());
                        assert(S::input_spec(
                            old(self).shapes@[i as int],
                            self.shapes@[i as int],
                            *event,
                            Ok(()),
                        ));
                    }
                },
                Err(e) => {
                    proof {
                        assert(S::input_spec(
                            old(self).shapes@[i as int],
                            self.shapes@[i as int],
                            *event,
                            Err(e),
                        ));
                    }
                    return Err(e);
                },
            }
            i = i + 1;
        }
        Ok(())
    }

    /// Fans `draw` out to every shape in insertion order, stopping at the
    /// first failure. Drawing never mutates the shapes.
    pub fn draw(&self) -> (r: CustomResult)
        ensures
            match r {
                Ok(()) => forall|k: int|
                    0 <= k < self.shapes@.len() ==> S::draw_spec(
                        #[trigger] self.shapes@[k],
                        Ok(()),
                    ),
                Err(e) => exists|k: int|
                    0 <= k < self.shapes@.len() && #[trigger] S::draw_spec(
                        self.shapes@[k],
                        Err(e),
                    ) && (forall|t: int|
                        0 <= t < k ==> S::draw_spec(#[trigger] self.shapes@[t], Ok(()))),
            },
    {
        let n = self.shapes.len();
        let mut i: usize = 0;
        while i < n
            invariant
                i <= n,
                n == self.shapes@.len(),
                forall|t: int| 0 <= t < i ==> S::draw_spec(#[trigger] self.shapes@[t], Ok(())),
            decreases n - i,
        {
            let r = self.shapes[i].draw();
            match r {
                Ok(()) => {
                    proof {
                        assert(r->Ok_0 == ());
                        assert(S::draw_spec(self.shapes@[i as int], Ok(())));
                    }
                },
                Err(e) => {
                    return Err(e);
                },
            }
            i = i + 1;
        }
        Ok(())
    }
}

} // verus!
