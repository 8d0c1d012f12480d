//! What building and editing a pipeline does to it, call by call: which step is touched, how,
//! and what stays as it was.

use std::sync::Arc;
use vstd::prelude::*;

use crate::conditional::ConditionalScopeBuilder;
use crate::control::PipelineControl;
use crate::pipeline::definition;
use crate::pipeline::definition::{
    Callbacks, Pipeline, PipelineView, StepEntry, StepHandler, StepView,
};
use crate::pipeline::hooks;
use crate::trace::StepPhase;

verus! {

/// Whether two pipelines declare the same and finish the same: the same ordering constraints,
/// the same resources produced and consumed, the same finish handlers, the same observer slot.
pub open spec fn declares_the_same<K: Callbacks>(before: Pipeline<K>, after: Pipeline<K>) -> bool {
    &&& after@.ordering_constraints == before@.ordering_constraints
    &&& after@.produced_resources == before@.produced_resources
    &&& after@.consumed_resources == before@.consumed_resources
    &&& after@.finish_handlers == before@.finish_handlers
    &&& after@.observer == before@.observer
}

/// Whether an edit touched the step of this name alone: every step keeps its place and its
/// name, every other step is what it was, and nothing is declared anew.
pub open spec fn touches_only<K: Callbacks>(
    before: Pipeline<K>,
    name: Seq<char>,
    after: Pipeline<K>,
) -> bool {
    &&& after.wf()
    &&& declares_the_same(before, after)
    &&& after.steps@.len() == before.steps@.len()
    &&& forall|i: int|
        0 <= i < before.steps@.len() ==> {
            &&& (#[trigger] after.steps@[i])@.name == before.steps@[i]@.name
            &&& before.steps@[i]@.name != name ==> after.steps@[i]@ == before.steps@[i]@
        }
}

/// Whether the pipeline has the step of this name at this position.
pub open spec fn stands_at<K: Callbacks>(p: Pipeline<K>, i: int, name: Seq<char>) -> bool {
    0 <= i < p.steps@.len() && p.steps@[i]@.name == name
}

/// Replacing a step touches that step alone.
pub(crate) proof fn lemma_touches_only<K: Callbacks>(
    before: Pipeline<K>,
    name: Seq<char>,
    i: int,
    step: StepView<K>,
    after: Pipeline<K>,
)
    requires
        before.wf(),
        stands_at(before, i, name),
        step.name == name,
        after@ == before@.with_step(name, step),
    ensures
        touches_only(before, name, after),
        after.steps@[i]@ == step,
        before@.has_step(name),
        before@.step(name) == before.steps@[i]@,
{
    assert(before@.is_at(i, name));
    before@.lemma_index_unique(i, name);
    hooks::lemma_with_step(before@, name, step);
    assert(after@.steps.len() == after.steps@.len());
    assert forall|j: int| 0 <= j < before.steps@.len() implies {
        &&& (#[trigger] after.steps@[j])@.name == before.steps@[j]@.name
        &&& before.steps@[j]@.name != name ==> after.steps@[j]@ == before.steps@[j]@
    } by {
        assert(after@.steps[j] == after.steps@[j]@);
        assert(before@.steps[j] == before.steps@[j]@);
    }
    assert(after@.steps[i] == after.steps@[i]@);
}

/// The position of a step, as the edits find it.
pub(crate) proof fn lemma_step_at<K: Callbacks>(p: Pipeline<K>, i: int, name: Seq<char>)
    requires
        p.wf(),
        stands_at(p, i, name),
    ensures
        p@.has_step(name),
        p@.index_of(name) == i,
        p@.step(name) == p.steps@[i]@,
{
    assert(p@.is_at(i, name));
    p@.lemma_index_unique(i, name);
}

/// A handler is registered behind those of its phase that were there before, and touches no
/// other phase, nor any other step.
pub proof fn law_a_handler_is_registered_last_in_its_phase<K: Callbacks>(
    before: Pipeline<K>,
    step_name: &str,
    handler: K::Handler,
    i: int,
    first: Pipeline<K>,
    second: Pipeline<K>,
    third: Pipeline<K>,
)
    requires
        before.wf(),
        stands_at(before, i, step_name@),
        exists|p: &mut Pipeline<K>, r: &mut Pipeline<K>| #[trigger]
            call_ensures(Pipeline::<K>::before_root, (p, step_name, handler), r) && *p == before
                && *r == first,
        exists|p: &mut Pipeline<K>, r: &mut Pipeline<K>| #[trigger]
            call_ensures(Pipeline::<K>::on_root, (p, step_name, handler), r) && *p == before && *r
                == second,
        exists|p: &mut Pipeline<K>, r: &mut Pipeline<K>| #[trigger]
            call_ensures(Pipeline::<K>::after_root, (p, step_name, handler), r) && *p == before
                && *r == third,
    ensures
        touches_only(before, step_name@, first),
        touches_only(before, step_name@, second),
        touches_only(before, step_name@, third),
        ({
            let was = before.steps@[i]@;
            &&& first.steps@[i]@ == (StepView {
                before: was.before.push(StepHandler::Root(handler)),
                ..was
            })
            &&& second.steps@[i]@ == (StepView {
                on: was.on.push(StepHandler::Root(handler)),
                ..was
            })
            &&& third.steps@[i]@ == (StepView {
                after: was.after.push(StepHandler::Root(handler)),
                ..was
            })
        }),
{
    lemma_step_at(before, i, step_name@);
    let was = before.steps@[i]@;
    let added = StepHandler::<K>::Root(handler);
    lemma_touches_only(
        before,
        step_name@,
        i,
        (StepView { before: was.before.push(added), ..was }),
        first,
    );
    lemma_touches_only(
        before,
        step_name@,
        i,
        (StepView { on: was.on.push(added), ..was }),
        second,
    );
    lemma_touches_only(
        before,
        step_name@,
        i,
        (StepView { after: was.after.push(added), ..was }),
        third,
    );
}

/// Clearing a phase leaves it without handlers, and touches no other phase and no other step.
/// Clearing `on` also takes back that the step's extractor is consumed.
pub proof fn law_clearing_empties_one_phase<K: Callbacks>(
    before: Pipeline<K>,
    step_name: &str,
    i: int,
    first: Pipeline<K>,
    second: Pipeline<K>,
    third: Pipeline<K>,
)
    requires
        before.wf(),
        stands_at(before, i, step_name@),
        exists|p: &mut Pipeline<K>, r: &mut Pipeline<K>| #[trigger]
            call_ensures(Pipeline::<K>::clear_before, (p, step_name), r) && *p == before && *r
                == first,
        exists|p: &mut Pipeline<K>, r: &mut Pipeline<K>| #[trigger]
            call_ensures(Pipeline::<K>::clear_on, (p, step_name), r) && *p == before && *r
                == second,
        exists|p: &mut Pipeline<K>, r: &mut Pipeline<K>| #[trigger]
            call_ensures(Pipeline::<K>::clear_after, (p, step_name), r) && *p == before && *r
                == third,
    ensures
        touches_only(before, step_name@, first),
        touches_only(before, step_name@, second),
        touches_only(before, step_name@, third),
        ({
            let was = before.steps@[i]@;
            &&& first.steps@[i]@.before.len() == 0
            &&& first.steps@[i]@ == (StepView { before: first.steps@[i]@.before, ..was })
            &&& second.steps@[i]@.on.len() == 0
            &&& second.steps@[i]@ == (StepView {
                on: second.steps@[i]@.on,
                sub_handled: false,
                ..was
            })
            &&& third.steps@[i]@.after.len() == 0
            &&& third.steps@[i]@ == (StepView { after: third.steps@[i]@.after, ..was })
        }),
{
    lemma_step_at(before, i, step_name@);
    let was = before.steps@[i]@;
    lemma_touches_only(
        before,
        step_name@,
        i,
        (StepView { before: Seq::empty(), ..was }),
        first,
    );
    lemma_touches_only(
        before,
        step_name@,
        i,
        (StepView { on: Seq::empty(), sub_handled: false, ..was }),
        second,
    );
    lemma_touches_only(before, step_name@, i, (StepView { after: Seq::empty(), ..was }), third);
}

/// Replacing a phase leaves it with that one handler, and touches no other phase and no other
/// step. Replacing `on` also takes back that the step's extractor is consumed.
pub proof fn law_replacing_leaves_one_handler<K: Callbacks>(
    before: Pipeline<K>,
    step_name: &str,
    handler: K::Handler,
    i: int,
    first: Pipeline<K>,
    second: Pipeline<K>,
    third: Pipeline<K>,
)
    requires
        before.wf(),
        stands_at(before, i, step_name@),
        exists|p: &mut Pipeline<K>, r: &mut Pipeline<K>| #[trigger]
            call_ensures(Pipeline::<K>::replace_before_root, (p, step_name, handler), r) && *p
                == before && *r == first,
        exists|p: &mut Pipeline<K>, r: &mut Pipeline<K>| #[trigger]
            call_ensures(Pipeline::<K>::replace_on_root, (p, step_name, handler), r) && *p
                == before && *r == second,
        exists|p: &mut Pipeline<K>, r: &mut Pipeline<K>| #[trigger]
            call_ensures(Pipeline::<K>::replace_after_root, (p, step_name, handler), r) && *p
                == before && *r == third,
    ensures
        touches_only(before, step_name@, first),
        touches_only(before, step_name@, second),
        touches_only(before, step_name@, third),
        ({
            let was = before.steps@[i]@;
            let only = seq![StepHandler::<K>::Root(handler)];
            &&& first.steps@[i]@ == (StepView { before: only, ..was })
            &&& second.steps@[i]@ == (StepView { on: only, sub_handled: false, ..was })
            &&& third.steps@[i]@ == (StepView { after: only, ..was })
        }),
{
    lemma_step_at(before, i, step_name@);
    let was = before.steps@[i]@;
    let only = seq![StepHandler::<K>::Root(handler)];
    lemma_touches_only(before, step_name@, i, (StepView { before: only, ..was }), first);
    lemma_touches_only(
        before,
        step_name@,
        i,
        (StepView { on: only, sub_handled: false, ..was }),
        second,
    );
    lemma_touches_only(before, step_name@, i, (StepView { after: only, ..was }), third);
}

/// Marking a step optional or required changes that and nothing else, and so do setting its
/// skip predicate, with a label or without one, and clearing it. A predicate set without a
/// label, and one that is cleared, leave no label behind.
pub proof fn law_marking_a_step_changes_the_mark_alone<K: Callbacks>(
    before: Pipeline<K>,
    step_name: &str,
    label: &str,
    cond: K::SkipCondition,
    i: int,
    optional: Pipeline<K>,
    required: Pipeline<K>,
    skipping: Pipeline<K>,
    labeled: Pipeline<K>,
    cleared: Pipeline<K>,
)
    requires
        before.wf(),
        stands_at(before, i, step_name@),
        exists|p: &mut Pipeline<K>, r: &mut Pipeline<K>| #[trigger]
            call_ensures(Pipeline::<K>::optional, (p, step_name), r) && *p == before && *r
                == optional,
        exists|p: &mut Pipeline<K>, r: &mut Pipeline<K>| #[trigger]
            call_ensures(Pipeline::<K>::required, (p, step_name), r) && *p == before && *r
                == required,
        exists|p: &mut Pipeline<K>, r: &mut Pipeline<K>| #[trigger]
            call_ensures(Pipeline::<K>::skip_if, (p, step_name, cond), r) && *p == before && *r
                == skipping,
        exists|p: &mut Pipeline<K>, r: &mut Pipeline<K>| #[trigger]
            call_ensures(Pipeline::<K>::skip_if_labeled, (p, step_name, label, cond), r) && *p
                == before && *r == labeled,
        exists|p: &mut Pipeline<K>, r: &mut Pipeline<K>| #[trigger]
            call_ensures(Pipeline::<K>::clear_skip_condition, (p, step_name), r) && *p == before
                && *r == cleared,
    ensures
        touches_only(before, step_name@, optional),
        touches_only(before, step_name@, required),
        touches_only(before, step_name@, skipping),
        touches_only(before, step_name@, labeled),
        touches_only(before, step_name@, cleared),
        ({
            let was = before.steps@[i]@;
            &&& optional.steps@[i]@ == (StepView { optional: true, ..was })
            &&& required.steps@[i]@ == (StepView { optional: false, ..was })
            &&& skipping.steps@[i]@ == (StepView {
                skip_if: Some(cond),
                skip_label: None,
                ..was
            })
            &&& labeled.steps@[i]@ == (StepView {
                skip_if: Some(cond),
                skip_label: Some(label@),
                ..was
            })
            &&& cleared.steps@[i]@ == (StepView { skip_if: None, skip_label: None, ..was })
        }),
{
    lemma_step_at(before, i, step_name@);
    let was = before.steps@[i]@;
    let name = step_name@;
    lemma_touches_only(before, name, i, (StepView { optional: true, ..was }), optional);
    lemma_touches_only(before, name, i, (StepView { optional: false, ..was }), required);
    lemma_touches_only(
        before,
        name,
        i,
        (StepView { skip_if: Some(cond), skip_label: None, ..was }),
        skipping,
    );
    lemma_touches_only(
        before,
        name,
        i,
        (StepView { skip_if: Some(cond), skip_label: Some(label@), ..was }),
        labeled,
    );
    lemma_touches_only(
        before,
        name,
        i,
        (StepView { skip_if: None, skip_label: None, ..was }),
        cleared,
    );
}

/// Whether a step has nothing registered against it: required, with no skip predicate, no
/// handler and no extractor.
pub open spec fn is_blank<K: Callbacks>(step: StepEntry<K>, name: Seq<char>) -> bool {
    &&& step.def.name@ == name
    &&& !step.def.optional
    &&& step.def.skip_if is None
    &&& step.def.skip_label is None
    &&& step.before@.len() == 0
    &&& step.on@.len() == 0
    &&& step.after@.len() == 0
    &&& step.extractor is None
    &&& !step.sub_handled
}

/// Whether a step is as good as new: blank, and without pending scopes.
pub open spec fn is_new<K: Callbacks>(step: StepEntry<K>, name: Seq<char>) -> bool {
    is_blank(step, name) && !step.scopes_pending
}

/// Whether a new step stands at this position, with all others around it as they were.
pub open spec fn is_inserted<K: Callbacks>(
    before: Pipeline<K>,
    at: int,
    name: Seq<char>,
    after: Pipeline<K>,
) -> bool {
    &&& after.wf()
    &&& declares_the_same(before, after)
    &&& after.steps@.len() == before.steps@.len() + 1
    &&& is_new(after.steps@[at], name)
    &&& forall|i: int|
        0 <= i < at ==> (#[trigger] after.steps@[i])@ == before.steps@[i]@
    &&& forall|i: int|
        at <= i < before.steps@.len() ==> (#[trigger] before.steps@[i])@ == after.steps@[i + 1]@
}

/// A pipeline begins with a new step for each name, in the order given, and with nothing
/// declared.
pub proof fn law_a_pipeline_begins_with_new_steps<K: Callbacks>(
    step_names: &[&str],
    r: Pipeline<K>,
    i: int,
)
    requires
        definition::distinct_names(step_names@),
        call_ensures(Pipeline::<K>::new, (step_names,), r),
        0 <= i < step_names@.len(),
    ensures
        r.wf(),
        r.steps@.len() == step_names@.len(),
        is_new(r.steps@[i], step_names@[i]@),
        r@.ordering_constraints.len() == 0,
        r@.produced_resources.len() == 0,
        r@.consumed_resources.len() == 0,
        r@.finish_handlers.len() == 0,
        r@.observer.origin() is None,
{
    assert(r@.steps.len() == r.steps@.len());
    assert(r@.steps[i] == r.steps@[i]@);
}

/// A new step is inserted right before or right after the named one, and removing a step takes
/// out that one and no other. Everything else keeps its order, and declarations that name a
/// removed step stay.
pub proof fn law_steps_are_inserted_and_removed_in_place<K: Callbacks>(
    before: Pipeline<K>,
    existing: &str,
    new: &str,
    i: int,
    ahead: Pipeline<K>,
    behind: Pipeline<K>,
    without: Pipeline<K>,
)
    requires
        before.wf(),
        stands_at(before, i, existing@),
        !before@.has_step(new@),
        exists|p: &mut Pipeline<K>, r: &mut Pipeline<K>| #[trigger]
            call_ensures(Pipeline::<K>::insert_before_step, (p, existing, new), r) && *p == before
                && *r == ahead,
        exists|p: &mut Pipeline<K>, r: &mut Pipeline<K>| #[trigger]
            call_ensures(Pipeline::<K>::insert_after_step, (p, existing, new), r) && *p == before
                && *r == behind,
        exists|p: &mut Pipeline<K>, r: &mut Pipeline<K>| #[trigger]
            call_ensures(Pipeline::<K>::remove_step, (p, existing), r) && *p == before && *r
                == without,
    ensures
        is_inserted(before, i, new@, ahead),
        is_inserted(before, i + 1, new@, behind),
        without.wf(),
        declares_the_same(before, without),
        without.steps@.len() == before.steps@.len() - 1,
        forall|j: int| 0 <= j < i ==> (#[trigger] without.steps@[j])@ == before.steps@[j]@,
        forall|j: int|
            i <= j < without.steps@.len() ==> (#[trigger] without.steps@[j])@
                == before.steps@[j + 1]@,
{
    lemma_step_at(before, i, existing@);
    assert(ahead@.steps == before@.steps.insert(i, definition::fresh_step(new@)));
    assert(behind@.steps == before@.steps.insert(i + 1, definition::fresh_step(new@)));
    assert(without@.steps == before@.steps.remove(i));
    lemma_inserted(before, i, new@, ahead);
    lemma_inserted(before, i + 1, new@, behind);
    assert(without@.steps.len() == without.steps@.len());
    assert forall|j: int| 0 <= j < without.steps@.len() implies (#[trigger] without.steps@[j])@
        == before.steps@[if j < i {
        j
    } else {
        j + 1
    }]@ by {
        assert(without@.steps[j] == without.steps@[j]@);
        let k = if j < i { j } else { j + 1 };
        assert(before@.steps[k] == before.steps@[k]@);
    }
}

proof fn lemma_inserted<K: Callbacks>(
    before: Pipeline<K>,
    at: int,
    name: Seq<char>,
    after: Pipeline<K>,
)
    requires
        0 <= at <= before.steps@.len(),
        after.wf(),
        after@ == (PipelineView {
            steps: before@.steps.insert(at, definition::fresh_step(name)),
            ..before@
        }),
    ensures
        is_inserted(before, at, name, after),
{
    assert(after@.steps.len() == after.steps@.len());
    assert(after@.steps[at] == after.steps@[at]@);
    assert forall|i: int| 0 <= i < at implies (#[trigger] after.steps@[i])@
        == before.steps@[i]@ by {
        assert(after@.steps[i] == after.steps@[i]@);
        assert(before@.steps[i] == before.steps@[i]@);
    }
    assert forall|i: int| at <= i < before.steps@.len() implies (#[trigger] before.steps@[i])@
        == after.steps@[i + 1]@ by {
        assert(after@.steps[i + 1] == after.steps@[i + 1]@);
        assert(before@.steps[i] == before.steps@[i]@);
    }
}

/// Removing a step that the pipeline does not have changes nothing.
pub proof fn law_removing_an_unknown_step_changes_nothing<K: Callbacks>(
    before: Pipeline<K>,
    name: &str,
    after: Pipeline<K>,
)
    requires
        before.wf(),
        forall|i: int| !stands_at(before, i, name@),
        exists|p: &mut Pipeline<K>, r: &mut Pipeline<K>| #[trigger]
            call_ensures(Pipeline::<K>::remove_step, (p, name), r) && *p == before && *r == after,
    ensures
        after@ == before@,
{
    assert forall|i: int| !before@.is_at(i, name@) by {
        if before@.is_at(i, name@) {
            assert(before@.steps[i] == before.steps@[i]@);
            assert(stands_at(before, i, name@));
        }
    }
}

/// A declaration is added behind those made before, and changes nothing else: an ordering
/// constraint for each later step, in the order given; a resource with the step that produces
/// it; a resource with each step that consumes it, in the order given.
pub proof fn law_declarations_are_added_in_order<K: Callbacks>(
    before: Pipeline<K>,
    one: &str,
    other: &str,
    many: &[&str],
    constrained: Pipeline<K>,
    constrained_all: Pipeline<K>,
    producing: Pipeline<K>,
    consuming: Pipeline<K>,
)
    requires
        before.wf(),
        exists|p: &mut Pipeline<K>, r: &mut Pipeline<K>| #[trigger]
            call_ensures(Pipeline::<K>::must_precede, (p, one, other), r) && *p == before && *r
                == constrained,
        exists|p: &mut Pipeline<K>, r: &mut Pipeline<K>| #[trigger]
            call_ensures(Pipeline::<K>::must_precede_all, (p, one, many), r) && *p == before && *r
                == constrained_all,
        exists|p: &mut Pipeline<K>, r: &mut Pipeline<K>| #[trigger]
            call_ensures(Pipeline::<K>::produces, (p, one, other), r) && *p == before && *r
                == producing,
        exists|p: &mut Pipeline<K>, r: &mut Pipeline<K>| #[trigger]
            call_ensures(Pipeline::<K>::consumed_by, (p, one, many), r) && *p == before && *r
                == consuming,
    ensures
        ({
            let all = constrained_all@.ordering_constraints;
            let old_len = before@.ordering_constraints.len();
            &&& constrained@ == (PipelineView {
                ordering_constraints: before@.ordering_constraints.push((one@, other@)),
                ..before@
            })
            &&& constrained_all@ == (PipelineView { ordering_constraints: all, ..before@ })
            &&& all.len() == old_len + many@.len()
            &&& forall|i: int|
                0 <= i < old_len ==> #[trigger] all[i] == before@.ordering_constraints[i]
            &&& forall|i: int|
                0 <= i < many@.len() ==> all[old_len + i] == (one@, (#[trigger] many@[i])@)
        }),
        producing@ == (PipelineView {
            produced_resources: before@.produced_resources.push((other@, one@)),
            ..before@
        }),
        ({
            let all = consuming@.consumed_resources;
            let old_len = before@.consumed_resources.len();
            &&& consuming@ == (PipelineView { consumed_resources: all, ..before@ })
            &&& all.len() == old_len + many@.len()
            &&& forall|i: int|
                0 <= i < old_len ==> #[trigger] all[i] == before@.consumed_resources[i]
            &&& forall|i: int|
                0 <= i < many@.len() ==> all[old_len + i] == (one@, (#[trigger] many@[i])@)
        }),
{
}

/// Finish handlers are kept in the order of registration, and clearing them leaves none. Neither
/// touches anything else.
pub proof fn law_finish_handlers_are_kept_in_order<K: Callbacks>(
    before: Pipeline<K>,
    handler: K::FinishHandler,
    added: Pipeline<K>,
    cleared: Pipeline<K>,
)
    requires
        before.wf(),
        exists|p: &mut Pipeline<K>, r: &mut Pipeline<K>| #[trigger]
            call_ensures(Pipeline::<K>::on_finish, (p, handler), r) && *p == before && *r
                == added,
        exists|p: &mut Pipeline<K>, r: &mut Pipeline<K>| #[trigger]
            call_ensures(Pipeline::<K>::clear_finish_handlers, (p,), r) && *p == before && *r
                == cleared,
    ensures
        added@ == (PipelineView {
            finish_handlers: before@.finish_handlers.push(handler),
            ..before@
        }),
        cleared@.finish_handlers.len() == 0,
        cleared@ == (PipelineView { finish_handlers: cleared@.finish_handlers, ..before@ }),
{
}

/// Stubbing a step leaves it with one handler, the stub, in `on`, and without an extractor; it
/// keeps its name, whether it is optional, its skip predicate and whether its scopes are
/// pending. A stub continues at once, and no other handler answers without the context.
pub proof fn law_a_stub_stands_for_the_whole_step<K: Callbacks>(
    before: Pipeline<K>,
    step_name: &str,
    i: int,
    after: Pipeline<K>,
    handler: StepHandler<K>,
    answer: Option<PipelineControl>,
)
    requires
        before.wf(),
        stands_at(before, i, step_name@),
        exists|p: &mut Pipeline<K>, r: &mut Pipeline<K>| #[trigger]
            call_ensures(Pipeline::<K>::stub_step, (p, step_name), r) && *p == before && *r
                == after,
        call_ensures(StepHandler::<K>::immediate, (&handler,), answer),
    ensures
        touches_only(before, step_name@, after),
        ({
            let was = before.steps@[i]@;
            let now = after.steps@[i]@;
            &&& now.before.len() == 0
            &&& now.on == seq![StepHandler::<K>::Stub]
            &&& now.after.len() == 0
            &&& now.extractor is None
            &&& !now.sub_handled
            &&& now.optional == was.optional
            &&& now.skip_if == was.skip_if
            &&& now.skip_label == was.skip_label
            &&& now.scopes_pending == was.scopes_pending
        }),
        handler is Stub <==> answer == Some(PipelineControl::Continue),
        !(handler is Stub) <==> answer is None,
{
    lemma_step_at(before, i, step_name@);
    lemma_touches_only(
        before,
        step_name@,
        i,
        (StepView {
            before: Seq::empty(),
            on: seq![StepHandler::Stub],
            after: Seq::empty(),
            extractor: None,
            sub_handled: false,
            ..before.steps@[i]@
        }),
        after,
    );
}

/// A step has the extractor set last, or none once it was removed, which also takes back that
/// it is consumed. A handler on the sub-context is registered behind the other `on` handlers,
/// keeps the extractor that is in force now, and makes it count as consumed.
pub proof fn law_a_handler_keeps_the_extractor_in_force<K: Callbacks>(
    before: Pipeline<K>,
    step_name: &str,
    extractor: K::Extractor,
    shared: Arc<K::Extractor>,
    handler: K::SubHandler,
    i: int,
    set: Pipeline<K>,
    set_shared: Pipeline<K>,
    removed: Pipeline<K>,
    handled: Pipeline<K>,
)
    requires
        before.wf(),
        stands_at(before, i, step_name@),
        before.steps@[i]@.extractor is Some,
        exists|p: &mut Pipeline<K>, r: &mut Pipeline<K>| #[trigger]
            call_ensures(Pipeline::<K>::set_extractor, (p, step_name, extractor), r) && *p
                == before && *r == set,
        exists|p: &mut Pipeline<K>, r: &mut Pipeline<K>| #[trigger]
            call_ensures(Pipeline::<K>::set_extractor_impl, (p, step_name, shared), r) && *p
                == before && *r == set_shared,
        exists|p: &mut Pipeline<K>, r: &mut Pipeline<K>| #[trigger]
            call_ensures(Pipeline::<K>::remove_extractor, (p, step_name), r) && *p == before && *r
                == removed,
        exists|p: &mut Pipeline<K>, r: &mut Pipeline<K>| #[trigger]
            call_ensures(Pipeline::<K>::on, (p, step_name, handler), r) && *p == before && *r
                == handled,
    ensures
        touches_only(before, step_name@, set),
        touches_only(before, step_name@, set_shared),
        touches_only(before, step_name@, removed),
        touches_only(before, step_name@, handled),
        ({
            let was = before.steps@[i]@;
            let on = handled.steps@[i]@.on;
            &&& set.steps@[i]@ == (StepView { extractor: Some(Arc::new(extractor)), ..was })
            &&& set_shared.steps@[i]@ == (StepView { extractor: Some(shared), ..was })
            &&& removed.steps@[i]@ == (StepView { extractor: None, sub_handled: false, ..was })
            &&& handled.steps@[i]@ == (StepView { on, sub_handled: true, ..was })
            &&& on.len() == was.on.len() + 1
            &&& forall|k: int| 0 <= k < was.on.len() ==> #[trigger] on[k] == was.on[k]
            &&& on.last() matches StepHandler::Sub(sub)
            &&& sub.step_name@ == step_name@
            &&& Some(sub.extractor) == was.extractor
            &&& sub.handler == handler
        }),
{
    lemma_step_at(before, i, step_name@);
    let name = step_name@;
    let was = before.steps@[i]@;
    lemma_touches_only(
        before,
        name,
        i,
        (StepView { extractor: Some(Arc::new(extractor)), ..was }),
        set,
    );
    lemma_touches_only(
        before,
        name,
        i,
        (StepView { extractor: Some(shared), ..was }),
        set_shared,
    );
    lemma_touches_only(
        before,
        name,
        i,
        (StepView { extractor: None, sub_handled: false, ..was }),
        removed,
    );
    let on = handled@.step(name).on;
    let step = StepView { on, sub_handled: true, ..was };
    lemma_touches_only(before, name, i, step, handled);
    lemma_step_at(handled, i, name);
    assert forall|k: int| 0 <= k < was.on.len() implies #[trigger] on[k] == was.on[k] by {
        assert(on.drop_last()[k] == on[k]);
    }
}

/// Beginning conditional scopes leaves every step in place: the named one counts as unfinished
/// from then on, and is added as a new step at the end where the pipeline did not have it. The
/// builder starts without scopes, and goes on where none matches.
pub proof fn law_beginning_scopes_marks_the_step<'b, K: Callbacks>(
    before: Pipeline<K>,
    step_name: &str,
    builder: ConditionalScopeBuilder<'b, K>,
    begun: Pipeline<K>,
    i: int,
)
    requires
        before.wf(),
        exists|p: &mut Pipeline<K>| #[trigger]
            call_ensures(Pipeline::<K>::conditional_scopes_for_step, (p, step_name), builder) && *p
                == before,
        *builder.pipeline == begun,
    ensures
        builder.step_name@ == step_name@,
        builder.scopes@.len() == 0,
        builder.on_no_match is Continue,
        declares_the_same(before, begun),
        stands_at(before, i, step_name@) ==> {
            &&& touches_only(before, step_name@, begun)
            &&& begun.steps@[i]@ == (StepView { scopes_pending: true, ..before.steps@[i]@ })
        },
        (forall|j: int| !(#[trigger] stands_at(before, j, step_name@))) ==> {
            let last = before.steps@.len() as int;
            &&& begun.steps@.len() == last + 1
            &&& forall|j: int|
                0 <= j < last ==> (#[trigger] begun.steps@[j])@ == before.steps@[j]@
            &&& is_blank(begun.steps@[last], step_name@)
            &&& begun.steps@[last].scopes_pending
        },
{
    let name = step_name@;
    let q = before@.ensuring_step(name);
    assert(begun@.steps.len() == begun.steps@.len());
    if stands_at(before, i, name) {
        lemma_step_at(before, i, name);
        lemma_touches_only(
            before,
            name,
            i,
            (StepView { scopes_pending: true, ..before.steps@[i]@ }),
            begun,
        );
    }
    if forall|j: int| !(#[trigger] stands_at(before, j, name)) {
        assert forall|j: int| !before@.is_at(j, name) by {
            if before@.is_at(j, name) {
                assert(before@.steps[j] == before.steps@[j]@);
                assert(stands_at(before, j, name));
            }
        }
        let last = before.steps@.len() as int;
        assert(q.steps == before@.steps.push(definition::fresh_step(name)));
        assert(q.is_at(last, name));
        assert forall|j: int| q.is_at(j, name) implies j == last by {
            if 0 <= j < last {
                assert(q.steps[j] == before@.steps[j]);
                assert(!before@.is_at(j, name));
            }
        }
        assert(q.is_at(q.index_of(name), name));
        assert(q.index_of(name) == last);
        assert forall|j: int| 0 <= j < last implies (#[trigger] begun.steps@[j])@
            == before.steps@[j]@ by {
            assert(begun@.steps[j] == begun.steps@[j]@);
            assert(before@.steps[j] == before.steps@[j]@);
        }
        assert(begun@.steps[last] == begun.steps@[last]@);
    }
}

/// A pipeline is asked about by name: the position of a step is where it stands, its names come
/// in order, and a phase has handlers exactly where at least one was registered.
pub proof fn law_a_pipeline_answers_by_name<K: Callbacks>(
    p: Pipeline<K>,
    step_name: &str,
    phase: StepPhase,
    position: Option<usize>,
    names: Vec<String>,
    handled: bool,
    i: int,
)
    requires
        p.wf(),
        call_ensures(Pipeline::<K>::position, (&p, step_name), position),
        call_ensures(Pipeline::<K>::step_names, (&p,), names),
        call_ensures(Pipeline::<K>::has_handlers, (&p, step_name, phase), handled),
    ensures
        position matches Some(at) ==> stands_at(p, at as int, step_name@),
        position is None ==> !stands_at(p, i, step_name@),
        names@.len() == p.steps@.len(),
        0 <= i < names@.len() ==> names@[i]@ == p.steps@[i].def.name@,
        stands_at(p, i, step_name@) ==> handled == match phase {
            StepPhase::Before => p.steps@[i].before@.len() > 0,
            StepPhase::On => p.steps@[i].on@.len() > 0,
            StepPhase::After => p.steps@[i].after@.len() > 0,
        },
{
    if stands_at(p, i, step_name@) {
        lemma_step_at(p, i, step_name@);
        assert(p@.is_at(i, step_name@));
    }
    if 0 <= i < names@.len() {
        assert(p@.steps[i] == p.steps@[i]@);
    }
    if let Some(at) = position {
        assert(p@.steps[at as int] == p.steps@[at as int]@);
    }
}

/// A repeated name is found where it first repeats an earlier one.
pub proof fn law_the_first_repetition_is_found(names: &[&str], r: Option<usize>)
    requires
        call_ensures(definition::first_duplicate, (names,), r),
    ensures
        r matches Some(i) ==> {
            &&& i < names@.len()
            &&& exists|j: int| 0 <= j < i && (#[trigger] names@[j])@ == names@[i as int]@
            &&& forall|a: int, b: int|
                0 <= a < b < i ==> (#[trigger] names@[a])@ != (#[trigger] names@[b])@
        },
        r is None ==> forall|a: int, b: int|
            0 <= a < b < names@.len() ==> (#[trigger] names@[a])@ != (#[trigger] names@[b])@,
{
    if let Some(i) = r {
        let firsts = names@.take(i as int);
        assert forall|a: int, b: int| 0 <= a < b < i implies (#[trigger] names@[a])@ != (
        #[trigger] names@[b])@ by {
            assert(firsts[a] == names@[a]);
            assert(firsts[b] == names@[b]);
        }
    }
}

/// Attaching an observer, and detaching it, work on the one slot that the pipeline shares with
/// its master handlers, and change nothing else. What is put there is what is there from then on,
/// and what is read is a clone of it.
pub proof fn law_the_attached_observer_is_in_force<K: Callbacks>(
    p: &Pipeline<K>,
    observer: K::Observer,
    attached: &Pipeline<K>,
    detached: &Pipeline<K>,
    put: Option<K::Observer>,
    before: Option<K::Observer>,
    after: Option<K::Observer>,
    read: Option<K::Observer>,
)
    requires
        call_ensures(Pipeline::<K>::set_observer, (p, observer), attached),
        call_ensures(Pipeline::<K>::clear_observer, (p,), detached),
        exists|slot: &mut Option<K::Observer>| #[trigger]
            call_ensures(definition::replace_observer::<K::Observer>, (slot, put), ()) && *slot
                == before && *final(slot) == after,
        call_ensures(definition::attached::<K::Observer>, (&before,), read),
    ensures
        attached == p,
        detached == p,
        p.observer.ran_on(Some(observer), definition::replace_observer::<K::Observer>, ()),
        p.observer.ran_on(
            None::<K::Observer>,
            definition::replace_observer::<K::Observer>,
            (),
        ),
        after == put,
        read is Some <==> before is Some,
        read matches Some(copy) ==> cloned(before->Some_0, copy),
{
}

/// What is said of a pipeline is what its fields hold: its steps with all that is registered
/// against them, its declarations, its finish handlers and its observer slot.
pub proof fn law_a_pipeline_is_what_its_fields_hold<K: Callbacks>(p: Pipeline<K>, i: int)
    ensures
        p@.steps.len() == p.steps@.len(),
        0 <= i < p.steps@.len() ==> {
            let step = p@.steps[i];
            let entry = p.steps@[i];
            &&& step == entry@
            &&& step.name == entry.def.name@
            &&& step.optional == entry.def.optional
            &&& step.skip_if == entry.def.skip_if
            &&& step.skip_label is Some <==> entry.def.skip_label is Some
            &&& entry.def.skip_label matches Some(label) ==> step.skip_label == Some(label@)
            &&& step.before == entry.before@ && step.on == entry.on@ && step.after == entry.after@
            &&& step.extractor == entry.extractor
            &&& step.sub_handled == entry.sub_handled
            &&& step.scopes_pending == entry.scopes_pending
        },
        p@.ordering_constraints.len() == p.ordering_constraints@.len(),
        p@.produced_resources.len() == p.produced_resources@.len(),
        p@.consumed_resources.len() == p.consumed_resources@.len(),
        0 <= i < p.ordering_constraints@.len() ==> p@.ordering_constraints[i] == (
            p.ordering_constraints@[i].0@,
            p.ordering_constraints@[i].1@,
        ),
        0 <= i < p.produced_resources@.len() ==> p@.produced_resources[i] == (
            p.produced_resources@[i].0@,
            p.produced_resources@[i].1@,
        ),
        0 <= i < p.consumed_resources@.len() ==> p@.consumed_resources[i] == (
            p.consumed_resources@[i].0@,
            p.consumed_resources@[i].1@,
        ),
        p@.finish_handlers == p.finish_handlers@,
        p@.observer == p.observer,
{
    if 0 <= i < p.steps@.len() {
        assert(p@.steps[i] == p.steps@[i]@);
    }
}

/// In a pipeline no two steps share a name, so a step is found by its name: it is there exactly
/// where some position has the name, and that position is the one that is found.
pub proof fn law_a_step_is_found_by_its_name<K: Callbacks>(p: Pipeline<K>, name: Seq<char>, i: int)
    ensures
        p.wf() <==> forall|a: int, b: int|
            0 <= a < b < p.steps@.len() ==> (#[trigger] p.steps@[a]).def.name@ != (
            #[trigger] p.steps@[b]).def.name@,
        p@.has_step(name) <==> exists|k: int| stands_at(p, k, name),
        p.wf() && stands_at(p, i, name) ==> p@.index_of(name) == i && p@.step(name)
            == p.steps@[i]@,
{
    assert forall|k: int| 0 <= k < p.steps@.len() implies #[trigger] p@.steps[k]
        == p.steps@[k]@ by {}
    assert forall|k: int| p@.is_at(k, name) == #[trigger] stands_at(p, k, name) by {
        if 0 <= k < p.steps@.len() {
            assert(p@.steps[k] == p.steps@[k]@);
        }
    }
    if p@.has_step(name) {
        let k = choose|k: int| p@.is_at(k, name);
        assert(stands_at(p, k, name));
    }
    if exists|k: int| stands_at(p, k, name) {
        let k = choose|k: int| stands_at(p, k, name);
        assert(p@.is_at(k, name));
    }
    if p.wf() && stands_at(p, i, name) {
        lemma_step_at(p, i, name);
    }
    if forall|a: int, b: int|
        0 <= a < b < p.steps@.len() ==> (#[trigger] p.steps@[a]).def.name@ != (
        #[trigger] p.steps@[b]).def.name@ {
        assert forall|a: int, b: int| 0 <= a < b < p@.steps.len() implies (
        #[trigger] p@.steps[a]).name != (#[trigger] p@.steps[b]).name by {
            assert(p@.steps[a] == p.steps@[a]@ && p@.steps[b] == p.steps@[b]@);
            assert(p.steps@[a].def.name@ != p.steps@[b].def.name@);
        }
    }
    if p.wf() {
        assert forall|a: int, b: int| 0 <= a < b < p.steps@.len() implies (
        #[trigger] p.steps@[a]).def.name@ != (#[trigger] p.steps@[b]).def.name@ by {
            assert(p@.steps[a] == p.steps@[a]@ && p@.steps[b] == p.steps@[b]@);
            assert(p@.steps[a].name != p@.steps[b].name);
        }
    }
}

} // verus!
