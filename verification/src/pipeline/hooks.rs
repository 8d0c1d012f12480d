//! Registering, clearing and replacing the handlers of a pipeline's steps.

use std::sync::Arc;
use vstd::prelude::*;

use crate::pipeline::definition;
use crate::pipeline::definition::{
    Callbacks, Pipeline, PipelineView, StepHandler, StepView, SubContextHandler,
};

verus! {

/// Replacing a step by one of the same name keeps every name where it is.
pub proof fn lemma_with_step<K: Callbacks>(
    p: PipelineView<K>,
    name: Seq<char>,
    step: StepView<K>,
)
    requires
        p.wf(),
        p.has_step(name),
        step.name == name,
    ensures
        ({
            let q = p.with_step(name, step);
            &&& q.wf()
            &&& q.index_of(name) == p.index_of(name)
            &&& q.step(name) == step
            &&& forall|other: Seq<char>| #[trigger] q.has_step(other) == p.has_step(other)
            &&& forall|other: StepView<K>| #[trigger]
                q.with_step(name, other) == p.with_step(name, other)
        }),
{
    let q = p.with_step(name, step);
    let i = p.index_of(name);
    assert(p.is_at(i, name));
    assert(q.is_at(i, name));
    assert forall|a: int, b: int| 0 <= a < b < q.steps.len() implies (#[trigger] q.steps[a]).name
        != (#[trigger] q.steps[b]).name by {
        assert(p.steps[a].name == q.steps[a].name);
        assert(p.steps[b].name == q.steps[b].name);
    }
    q.lemma_index_unique(i, name);
    assert forall|other: Seq<char>| #[trigger] q.has_step(other) == p.has_step(other) by {
        if p.has_step(other) {
            assert(q.is_at(p.index_of(other), other));
        }
        if q.has_step(other) {
            assert(p.is_at(q.index_of(other), other));
        }
    }
    assert forall|other: StepView<K>| #[trigger]
        q.with_step(name, other) == p.with_step(name, other) by {
        assert(q.with_step(name, other) =~= p.with_step(name, other));
    }
}

impl<K: Callbacks> Pipeline<K> {
    /// Registers a `before` handler for a step, after those registered before.
    pub fn before_root(&mut self, step_name: &str, handler: K::Handler) -> (r: &mut Self)
        requires
            old(self).wf(),
            old(self)@.has_step(step_name@),
        ensures
            r.wf(),
            r@ == old(self)@.with_step(
                step_name@,
                (StepView {
                    before: old(self)@.step(step_name@).before.push(StepHandler::Root(handler)),
                    ..old(self)@.step(step_name@)
                }),
            ),
            *final(self) == *final(r),
    {
        let i = self.position(step_name).unwrap();
        let ghost before = *self;
        self.steps[i].before.push(StepHandler::Root(handler));
        proof {
            definition::lemma_step_replaced(before, *self, i as int);
        }
        self
    }

    /// Registers an `on` handler for a step, after those registered before.
    pub fn on_root(&mut self, step_name: &str, handler: K::Handler) -> (r: &mut Self)
        requires
            old(self).wf(),
            old(self)@.has_step(step_name@),
        ensures
            r.wf(),
            r@ == old(self)@.with_step(
                step_name@,
                (StepView {
                    on: old(self)@.step(step_name@).on.push(StepHandler::Root(handler)),
                    ..old(self)@.step(step_name@)
                }),
            ),
            *final(self) == *final(r),
    {
        let i = self.position(step_name).unwrap();
        let ghost before = *self;
        self.steps[i].on.push(StepHandler::Root(handler));
        proof {
            definition::lemma_step_replaced(before, *self, i as int);
        }
        self
    }

    /// Registers an `after` handler for a step, after those registered before.
    pub fn after_root(&mut self, step_name: &str, handler: K::Handler) -> (r: &mut Self)
        requires
            old(self).wf(),
            old(self)@.has_step(step_name@),
        ensures
            r.wf(),
            r@ == old(self)@.with_step(
                step_name@,
                (StepView {
                    after: old(self)@.step(step_name@).after.push(StepHandler::Root(handler)),
                    ..old(self)@.step(step_name@)
                }),
            ),
            *final(self) == *final(r),
    {
        let i = self.position(step_name).unwrap();
        let ghost before = *self;
        self.steps[i].after.push(StepHandler::Root(handler));
        proof {
            definition::lemma_step_replaced(before, *self, i as int);
        }
        self
    }

    /// Registers a run-level finish handler, invoked on **every exit of a full run**.
    ///
    /// Finish handlers run in registration order, and all of them run even if one fails.
    pub fn on_finish(&mut self, handler: K::FinishHandler) -> (r: &mut Self)
        requires
            old(self).wf(),
        ensures
            r.wf(),
            r@ == (PipelineView {
                finish_handlers: old(self)@.finish_handlers.push(handler),
                ..old(self)@
            }),
            *final(self) == *final(r),
    {
        self.finish_handlers.push(handler);
        self
    }

    /// Removes every finish handler.
    pub fn clear_finish_handlers(&mut self) -> (r: &mut Self)
        requires
            old(self).wf(),
        ensures
            r.wf(),
            r@ == (PipelineView { finish_handlers: Seq::empty(), ..old(self)@ }),
            *final(self) == *final(r),
    {
        self.finish_handlers.clear();
        self
    }

    /// Removes every `before` handler of a step.
    pub fn clear_before(&mut self, step_name: &str) -> (r: &mut Self)
        requires
            old(self).wf(),
            old(self)@.has_step(step_name@),
        ensures
            r.wf(),
            r@ == old(self)@.with_step(
                step_name@,
                (StepView { before: Seq::empty(), ..old(self)@.step(step_name@) }),
            ),
            *final(self) == *final(r),
    {
        let i = self.position(step_name).unwrap();
        let ghost before = *self;
        self.steps[i].before = Vec::new();
        proof {
            definition::lemma_step_replaced(before, *self, i as int);
        }
        self
    }

    /// Removes every `on` handler of a step. This includes handlers of sub-contexts and
    /// any conditional master handler.
    ///
    /// The step's extractor is left in place; where that leaves it without a consumer,
    /// [`validate`](Self::validate) says so.
    pub fn clear_on(&mut self, step_name: &str) -> (r: &mut Self)
        requires
            old(self).wf(),
            old(self)@.has_step(step_name@),
        ensures
            r.wf(),
            r@ == old(self)@.with_step(
                step_name@,
                (StepView { on: Seq::empty(),
                    sub_handled: false, ..old(self)@.step(step_name@) }),
            ),
            *final(self) == *final(r),
    {
        let i = self.position(step_name).unwrap();
        let ghost before = *self;
        self.steps[i].on = Vec::new();
        self.steps[i].sub_handled = false;
        proof {
            definition::lemma_step_replaced(before, *self, i as int);
        }
        self
    }

    /// Removes every `after` handler of a step.
    pub fn clear_after(&mut self, step_name: &str) -> (r: &mut Self)
        requires
            old(self).wf(),
            old(self)@.has_step(step_name@),
        ensures
            r.wf(),
            r@ == old(self)@.with_step(
                step_name@,
                (StepView { after: Seq::empty(), ..old(self)@.step(step_name@) }),
            ),
            *final(self) == *final(r),
    {
        let i = self.position(step_name).unwrap();
        let ghost before = *self;
        self.steps[i].after = Vec::new();
        proof {
            definition::lemma_step_replaced(before, *self, i as int);
        }
        self
    }

    /// Removes the step's extractor registration and sub-handler bookkeeping, if any.
    pub fn remove_extractor(&mut self, step_name: &str) -> (r: &mut Self)
        requires
            old(self).wf(),
            old(self)@.has_step(step_name@),
        ensures
            r.wf(),
            r@ == old(self)@.with_step(
                step_name@,
                (StepView { extractor: None, sub_handled: false, ..old(self)@.step(step_name@) }),
            ),
            *final(self) == *final(r),
    {
        let i = self.position(step_name).unwrap();
        let ghost before = *self;
        self.steps[i].extractor = None;
        self.steps[i].sub_handled = false;
        proof {
            definition::lemma_step_replaced(before, *self, i as int);
        }
        self
    }

    /// Leaves the step with exactly this `before` handler.
    pub fn replace_before_root(&mut self, step_name: &str, handler: K::Handler) -> (r: &mut Self)
        requires
            old(self).wf(),
            old(self)@.has_step(step_name@),
        ensures
            r.wf(),
            r@ == old(self)@.with_step(
                step_name@,
                (StepView {
                    before: seq![StepHandler::Root(handler)],
                    ..old(self)@.step(step_name@)
                }),
            ),
            *final(self) == *final(r),
    {
        let i = self.position(step_name).unwrap();
        let ghost before = *self;
        self.clear_before(step_name);
        proof {
            lemma_with_step(before@, step_name@, self@.steps[i as int]);
        }
        self.before_root(step_name, handler);
        proof {
            lemma_with_step(before@, step_name@, self@.steps[i as int]);
            assert(self@ =~= before@.with_step(step_name@, self@.steps[i as int]));
            assert(Seq::empty().push(StepHandler::<K>::Root(handler)) =~= seq![
                StepHandler::<K>::Root(handler),
            ]);
        }
        self
    }

    /// Leaves the step with exactly this `on` handler.
    pub fn replace_on_root(&mut self, step_name: &str, handler: K::Handler) -> (r: &mut Self)
        requires
            old(self).wf(),
            old(self)@.has_step(step_name@),
        ensures
            r.wf(),
            r@ == old(self)@.with_step(
                step_name@,
                (StepView {
                    on: seq![StepHandler::Root(handler)],
                    sub_handled: false,
                    ..old(self)@.step(step_name@)
                }),
            ),
            *final(self) == *final(r),
    {
        let i = self.position(step_name).unwrap();
        let ghost before = *self;
        self.clear_on(step_name);
        proof {
            lemma_with_step(before@, step_name@, self@.steps[i as int]);
        }
        self.on_root(step_name, handler);
        proof {
            lemma_with_step(before@, step_name@, self@.steps[i as int]);
            assert(self@ =~= before@.with_step(step_name@, self@.steps[i as int]));
            assert(Seq::empty().push(StepHandler::<K>::Root(handler)) =~= seq![
                StepHandler::<K>::Root(handler),
            ]);
        }
        self
    }

    /// Leaves the step with exactly this `after` handler.
    pub fn replace_after_root(&mut self, step_name: &str, handler: K::Handler) -> (r: &mut Self)
        requires
            old(self).wf(),
            old(self)@.has_step(step_name@),
        ensures
            r.wf(),
            r@ == old(self)@.with_step(
                step_name@,
                (StepView {
                    after: seq![StepHandler::Root(handler)],
                    ..old(self)@.step(step_name@)
                }),
            ),
            *final(self) == *final(r),
    {
        let i = self.position(step_name).unwrap();
        let ghost before = *self;
        self.clear_after(step_name);
        proof {
            lemma_with_step(before@, step_name@, self@.steps[i as int]);
        }
        self.after_root(step_name, handler);
        proof {
            lemma_with_step(before@, step_name@, self@.steps[i as int]);
            assert(self@ =~= before@.with_step(step_name@, self@.steps[i as int]));
            assert(Seq::empty().push(StepHandler::<K>::Root(handler)) =~= seq![
                StepHandler::<K>::Root(handler),
            ]);
        }
        self
    }

    /// Neutralizes a whole step: clears all three phases, removes the step's extractor and
    /// sub-handler bookkeeping, and leaves a single `on` handler that continues, so that a
    /// trace still shows the step as completed. Finish handlers are untouched.
    pub fn stub_step(&mut self, step_name: &str) -> (r: &mut Self)
        requires
            old(self).wf(),
            old(self)@.has_step(step_name@),
        ensures
            r.wf(),
            r@ == old(self)@.with_step(
                step_name@,
                (StepView {
                    before: Seq::empty(),
                    on: seq![StepHandler::Stub],
                    after: Seq::empty(),
                    extractor: None,
                    sub_handled: false,
                    ..old(self)@.step(step_name@)
                }),
            ),
            *final(self) == *final(r),
    {
        let i = self.position(step_name).unwrap();
        let ghost before = *self;
        let mut stub: Vec<StepHandler<K>> = Vec::new();
        stub.push(StepHandler::Stub);
        self.steps[i].before = Vec::new();
        self.steps[i].on = stub;
        self.steps[i].after = Vec::new();
        self.steps[i].extractor = None;
        self.steps[i].sub_handled = false;
        proof {
            definition::lemma_step_replaced(before, *self, i as int);
            assert(self.steps@[i as int].on@ =~= seq![StepHandler::Stub]);
        }
        self
    }

    /// Registers an extractor producing a sub-context for a step.
    pub fn set_extractor(&mut self, step_name: &str, extractor: K::Extractor) -> (r: &mut Self)
        requires
            old(self).wf(),
            old(self)@.has_step(step_name@),
        ensures
            r.wf(),
            r@ == old(self)@.with_step(
                step_name@,
                (StepView {
                    extractor: Some(Arc::new(extractor)),
                    ..old(self)@.step(step_name@)
                }),
            ),
            *final(self) == *final(r),
    {
        self.set_extractor_impl(step_name, Arc::new(extractor))
    }

    /// Registers a shared extractor, replacing any registered before.
    ///
    /// [`on`](Self::on) takes the extractor in force when the handler is registered, so
    /// replace the extractor **before** registering the handlers that should use it.
    pub fn set_extractor_impl(&mut self, step_name: &str, extractor: Arc<K::Extractor>) -> (r:
        &mut Self)
        requires
            old(self).wf(),
            old(self)@.has_step(step_name@),
        ensures
            r.wf(),
            r@ == old(self)@.with_step(
                step_name@,
                (StepView { extractor: Some(extractor), ..old(self)@.step(step_name@) }),
            ),
            *final(self) == *final(r),
    {
        let i = self.position(step_name).unwrap();
        let ghost before = *self;
        self.steps[i].extractor = Some(extractor);
        proof {
            definition::lemma_step_replaced(before, *self, i as int);
        }
        self
    }

    /// Registers an `on` handler that works on the step's extracted sub-context. The step
    /// must have an extractor.
    pub fn on(&mut self, step_name: &str, handler: K::SubHandler) -> (r: &mut Self)
        requires
            old(self).wf(),
            old(self)@.has_step(step_name@),
            old(self)@.step(step_name@).extractor is Some,
        ensures
            r.wf(),
            ({
                let step = old(self)@.step(step_name@);
                let added = r@.step(step_name@).on;
                &&& r@ == old(self)@.with_step(
                    step_name@,
                    (StepView { on: added, sub_handled: true, ..step }),
                )
                &&& added.len() == step.on.len() + 1
                &&& added.drop_last() == step.on
                &&& added.last() matches StepHandler::Sub(sub)
                &&& sub.step_name@ == step_name@
                &&& sub.extractor == step.extractor->Some_0
                &&& sub.handler == handler
            }),
            *final(self) == *final(r),
    {
        let i = self.position(step_name).unwrap();
        let ghost before = *self;
        let extractor = Arc::clone(self.steps[i].extractor.as_ref().unwrap());
        self.steps[i].on.push(
            StepHandler::Sub(
                SubContextHandler { step_name: step_name.to_string(), extractor, handler },
            ),
        );
        self.steps[i].sub_handled = true;
        proof {
            definition::lemma_step_replaced(before, *self, i as int);
            self@.lemma_index_unique(i as int, step_name@);
            assert(self.steps@[i as int].on@.drop_last() =~= before.steps@[i as int].on@);
        }
        self
    }
}

} // verus!
