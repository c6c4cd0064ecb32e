mod error;
mod parser;
mod shader_helper;
mod shape;
mod shape_manager;
mod window;

pub use crate::error::{CustomError, CustomResult};
pub use crate::parser::{parse_shader, ShaderSource};
pub use crate::shader_helper::{
    build_shader_program, compile, link, CompiledShader, GraphicsApi, ProgramId, Stage,
};
pub use crate::shape::{
    all_evolve, lemma_evolves_refl, lemma_evolves_step, shape_evolves, shape_fails, shape_step,
    some_shape_fails, Shape,
};
pub use crate::shape_manager::ShapesManager;
pub use crate::window::WindowSystem;

use vstd::prelude::*;

verus! {

/// The loop driver: owns the windowing collaborator and the shape
/// collection, and drives time-stepped iterations until the window
/// reports it should close or a shape fails.
pub struct SimpleGl<W: WindowSystem, S: Shape<Event = <W as WindowSystem>::Event>> {
    window: W,
    shapes_manager: ShapesManager<S>,
}

impl<W: WindowSystem, S: Shape<Event = <W as WindowSystem>::Event>> SimpleGl<W, S> {
    /// The shapes the driver owns, in dispatch order.
    pub closed spec fn shapes(&self) -> Seq<S> {
        self.shapes_manager.shapes@
    }

    /// One-time setup: binds the context, enables input capture, fixes
    /// the presentation cadence, then initialises every shape in
    /// insertion order. The first shape failure is returned unchanged
    /// and no driver is produced.
    pub fn init(window: W, ctx: &S::Context, shapes_manager: ShapesManager<S>) -> (r: Result<
        Self,
        CustomError,
    >)
        ensures
            match r {
                Ok(sgl) => sgl.shapes().len() == shapes_manager.shapes@.len() && forall|k: int|
                    0 <= k < shapes_manager.shapes@.len() ==> S::init_spec(
                        shapes_manager.shapes@[k],
                        #[trigger] sgl.shapes()[k],
                        *ctx,
                        Ok(()),
                    ),
                Err(e) => exists|k: int, post: S|
                    0 <= k < shapes_manager.shapes@.len() && #[trigger] S::init_spec(
                        shapes_manager.shapes@[k],
                        post,
                        *ctx,
                        Err(e),
                    ),
            },
    {
        let mut window = window;
        let mut manager = shapes_manager;
        window.make_current();
        window.set_key_polling();
        window.set_vsync();
        let r = manager.init(ctx);
        match r {
            Ok(()) => {
                proof {
                    assert(r->Ok_0 == ());
                }
                Ok(SimpleGl { window, shapes_manager: manager })
            },
            Err(e) => Err(e),
        }
    }

    /// The elapsed time between two monotonic clock readings, clamped
    /// at zero in case the collaborator's clock steps backwards.
    pub fn elapsed_between(last_ms: u64, curr_ms: u64) -> (elapsed: u64)
        ensures
            curr_ms >= last_ms ==> elapsed == curr_ms - last_ms,
            curr_ms < last_ms ==> elapsed == 0,
    {
        if curr_ms >= last_ms {
            curr_ms - last_ms
        } else {
            0
        }
    }

    /// Drives the render loop. Each iteration, while the window does not
    /// report it should close: read the clock and compute the elapsed
    /// time since the previous iteration, poll input events, update every
    /// shape, dispatch each polled event in arrival order, draw every
    /// shape, and present the frame. The first failure from any fan-out
    /// aborts the loop immediately and is returned unchanged.
    ///
    /// On success every shape has evolved from its starting state by
    /// successful update and input steps alone; on failure some shape so
    /// evolved and then failed the dispatch that produced the returned
    /// error, while every other shape still only took successful steps.
    #[verifier::rlimit(50)]
    pub fn main_loop(&mut self) -> (r: CustomResult)
        ensures
            final(self).shapes().len() == old(self).shapes().len(),
            r matches Err(_) ==> old(self).shapes().len() > 0,
            match r {
                Ok(()) => all_evolve(old(self).shapes(), final(self).shapes()),
                Err(e) => some_shape_fails(old(self).shapes(), final(self).shapes(), e),
            },
    {
        let ghost start_shapes = self.shapes_manager.shapes@;
        proof {
            assert forall|i: int| 0 <= i < start_shapes.len() implies shape_evolves(
                start_shapes[i],
                #[trigger] self.shapes_manager.shapes@[i],
            ) by {
                lemma_evolves_refl(start_shapes[i]);
            }
        }
        let mut last_time = self.window.get_time_ms();
        // Termination must be provable, so the loop carries a frame
        // counter; at one frame per vertical-sync interval the bound is
        // out of reach of any run.
        let mut frames_left: u64 = u64::MAX;
        while !self.window.should_close()
            invariant
                self.shapes_manager.shapes@.len() == start_shapes.len(),
                start_shapes == old(self).shapes_manager.shapes@,
                forall|i: int|
                    0 <= i < start_shapes.len() ==> shape_evolves(
                        start_shapes[i],
                        #[trigger] self.shapes_manager.shapes@[i],
                    ),
            decreases frames_left,
        {
            if frames_left == 0 {
                proof {
                    assert(all_evolve(start_shapes, self.shapes_manager.shapes@));
                }
                return Ok(());
            }
            frames_left = frames_left - 1;
            let curr_time = self.window.get_time_ms();
            let elapsed_ms = Self::elapsed_between(last_time, curr_time);
            let events = self.window.poll_events();
            let ghost pre = self.shapes_manager.shapes@;
            match self.shapes_manager.update(elapsed_ms) {
                Ok(()) => {
                    proof {
                        let post = self.shapes_manager.shapes@;
                        assert forall|i: int| 0 <= i < start_shapes.len() implies shape_evolves(
                            start_shapes[i],
                            #[trigger] post[i],
                        ) by {
                            assert(S::update_spec(pre[i], post[i], elapsed_ms, Ok(())));
                            assert(shape_step(pre[i], post[i]));
                            lemma_evolves_step(start_shapes[i], pre[i], post[i]);
                        }
                    }
                },
                Err(e) => {
                    proof {
                        let post = self.shapes_manager.shapes@;
                        let k = choose|k: int|
                            0 <= k < pre.len() && #[trigger] S::update_spec(
                                pre[k],
                                post[k],
                                elapsed_ms,
                                Err(e),
                            ) && (forall|t: int|
                                0 <= t < k ==> S::update_spec(
                                    pre[t],
                                    #[trigger] post[t],
                                    elapsed_ms,
                                    Ok(()),
                                )) && (forall|t: int|
                                k < t < pre.len() ==> #[trigger] post[t] == pre[t]);
                        assert(shape_fails(pre[k], post[k], e));
                        assert forall|i: int|
                            0 <= i < start_shapes.len() && i != k implies shape_evolves(
                            start_shapes[i],
                            #[trigger] post[i],
                        ) by {
                            if i < k {
                                assert(S::update_spec(pre[i], post[i], elapsed_ms, Ok(())));
                                assert(shape_step(pre[i], post[i]));
                                lemma_evolves_step(start_shapes[i], pre[i], post[i]);
                            } else {
                                assert(post[i] == pre[i]);
                            }
                        }
                        assert(shape_evolves(start_shapes[k as int], pre[k as int]));
                        assert(some_shape_fails(start_shapes, self.shapes_manager.shapes@, e));
                    }
                    return Err(e);
                },
            }
            let mut j: usize = 0;
            while j < events.len()
                invariant
                    self.shapes_manager.shapes@.len() == start_shapes.len(),
                    start_shapes == old(self).shapes_manager.shapes@,
                    forall|i: int|
                        0 <= i < start_shapes.len() ==> shape_evolves(
                            start_shapes[i],
                            #[trigger] self.shapes_manager.shapes@[i],
                        ),
                decreases events.len() - j,
            {
                let ghost pre_in = self.shapes_manager.shapes@;
                let event = &events[j];
                match self.shapes_manager.input(event) {
                    Ok(()) => {
                        proof {
                            let ev = *event;
                            let post = self.shapes_manager.shapes@;
                            assert forall|i: int| 0 <= i < start_shapes.len() implies shape_evolves(
                                start_shapes[i],
                                #[trigger] post[i],
                            ) by {
                                assert(S::input_spec(pre_in[i], post[i], ev, Ok(())));
                                assert(shape_step(pre_in[i], post[i]));
                                lemma_evolves_step(start_shapes[i], pre_in[i], post[i]);
                            }
                        }
                    },
                    Err(e) => {
                        proof {
                            let ev = *event;
                            let post = self.shapes_manager.shapes@;
                            let k = choose|k: int|
                                0 <= k < pre_in.len() && #[trigger] S::input_spec(
                                    pre_in[k],
                                    post[k],
                                    ev,
                                    Err(e),
                                ) && (forall|t: int|
                                    0 <= t < k ==> S::input_spec(
                                        pre_in[t],
                                        #[trigger] post[t],
                                        ev,
                                        Ok(()),
                                    )) && (forall|t: int|
                                    k < t < pre_in.len() ==> #[trigger] post[t] == pre_in[t]);
                            assert(shape_fails(pre_in[k], post[k], e));
                            assert forall|i: int|
                                0 <= i < start_shapes.len() && i != k implies shape_evolves(
                                start_shapes[i],
                                #[trigger] post[i],
                            ) by {
                                if i < k {
                                    assert(S::input_spec(pre_in[i], post[i], ev, Ok(())));
                                    assert(shape_step(pre_in[i], post[i]));
                                    lemma_evolves_step(start_shapes[i], pre_in[i], post[i]);
                                } else {
                                    assert(post[i] == pre_in[i]);
                                }
                            }
                            assert(shape_evolves(start_shapes[k as int], pre_in[k as int]));
                            assert(some_shape_fails(start_shapes, self.shapes_manager.shapes@, e));
                        }
                        return Err(e);
                    },
                }
                j = j + 1;
            }
            match self.shapes_manager.draw() {
                Ok(()) => {},
                Err(e) => {
                    proof {
                        let cur = self.shapes_manager.shapes@;
                        let k = choose|k: int|
                            0 <= k < cur.len() && #[trigger] S::draw_spec(cur[k], Err(e)) && (
                            forall|t: int| 0 <= t < k ==> S::draw_spec(#[trigger] cur[t], Ok(())));
                        assert(shape_fails(cur[k], cur[k], e));
                        assert(shape_evolves(start_shapes[k as int], cur[k as int]));
                        assert(some_shape_fails(start_shapes, self.shapes_manager.shapes@, e));
                    }
                    return Err(e);
                },
            }
            self.window.swap_buffers();
            last_time = curr_time;
        }
        proof {
            assert(all_evolve(start_shapes, self.shapes_manager.shapes@));
        }
        Ok(())
    }
}

} // verus!
