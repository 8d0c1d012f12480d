//! What validation promises, and how edits of a pipeline bear on it.

use vstd::prelude::*;

use crate::pipeline::definition;
use crate::pipeline::definition::{Callbacks, PipelineView, StepHandler, StepView};
use crate::pipeline::hooks;
use crate::pipeline::run;
use crate::pipeline::run::{RunPlan, RunState};
use crate::pipeline::validate;
use crate::pipeline::validate::Declaration;
use crate::seqs;

verus! {

/// Whether a step is set up soundly: it has something to run or is optional, its extractor
/// is consumed, and its conditional scopes are finalized.
pub open spec fn sound_step<K: Callbacks>(step: StepView<K>) -> bool {
    &&& step.optional || step.before.len() > 0 || step.on.len() > 0 || step.after.len() > 0
    &&& step.extractor is Some ==> step.sub_handled
    &&& !step.scopes_pending
}

/// Whether a step of the pipeline is declared to produce the resource.
pub open spec fn has_producer<K: Callbacks>(p: PipelineView<K>, resource: Seq<char>) -> bool {
    exists|k: int|
        0 <= k < p.produced_resources.len() && (#[trigger] p.produced_resources[k]).0 == resource
            && p.has_step(p.produced_resources[k].1)
}

/// Whether both steps of an ordering constraint are there, the first before the second.
pub open spec fn respected<K: Callbacks>(
    p: PipelineView<K>,
    constraint: (Seq<char>, Seq<char>),
) -> bool {
    &&& p.has_step(constraint.0)
    &&& p.has_step(constraint.1)
    &&& p.index_of(constraint.0) < p.index_of(constraint.1)
}

/// Whether a production and a consumption of the same resource are in the right order.
pub open spec fn in_time<K: Callbacks>(
    p: PipelineView<K>,
    production: Declaration,
    consumption: Declaration,
) -> bool {
    production.0 == consumption.0 ==> p.index_of(production.1) < p.index_of(consumption.1)
}

/// Whether a pipeline is set up soundly: every step is, every ordering constraint is
/// respected, every producer and consumer is a step of the pipeline, every resource that is
/// consumed is produced, and every producer of it runs before every consumer.
pub open spec fn is_sound<K: Callbacks>(p: PipelineView<K>) -> bool {
    &&& forall|i: int| 0 <= i < p.steps.len() ==> sound_step(#[trigger] p.steps[i])
    &&& forall|i: int|
        0 <= i < p.ordering_constraints.len() ==> respected(
            p,
            #[trigger] p.ordering_constraints[i],
        )
    &&& forall|i: int|
        0 <= i < p.produced_resources.len() ==> p.has_step(
            (#[trigger] p.produced_resources[i]).1,
        )
    &&& forall|i: int|
        0 <= i < p.consumed_resources.len() ==> p.has_step(
            (#[trigger] p.consumed_resources[i]).1,
        ) && has_producer(p, p.consumed_resources[i].0)
    &&& forall|i: int, j: int|
        0 <= i < p.produced_resources.len() && 0 <= j < p.consumed_resources.len() ==> in_time(
            p,
            #[trigger] p.produced_resources[i],
            #[trigger] p.consumed_resources[j],
        )
}

/// Validation accepts exactly the pipelines that are set up soundly: it finds a problem
/// wherever there is one, and none where there is not.
pub proof fn law_validation_accepts_exactly_sound_pipelines<K: Callbacks>(p: PipelineView<K>)
    ensures
        validate::problems(p).len() == 0 <==> is_sound(p),
{
    let missing = validate::missing_handlers::<K>();
    let unused = validate::unused_extractor::<K>();
    let unfinalized = validate::unfinalized_scopes::<K>();
    let broken = validate::broken_ordering(p);
    let producer = validate::dangling(p, "producer"@);
    let consumer = validate::dangling(p, "consumer"@);
    let orphaned = validate::orphaned(p);
    let orphans = p.consumed_resources.filter_map(orphaned);
    let late = validate::late_producers(p);
    seqs::lemma_filter_map_empty(p.steps, missing);
    seqs::lemma_filter_map_empty(p.steps, unused);
    seqs::lemma_filter_map_empty(p.steps, unfinalized);
    seqs::lemma_filter_map_empty(p.ordering_constraints, broken);
    seqs::lemma_filter_map_empty(p.produced_resources, producer);
    seqs::lemma_filter_map_empty(p.consumed_resources, consumer);
    seqs::lemma_filter_map_empty(p.consumed_resources, orphaned);
    seqs::lemma_flat_map_empty(p.consumed_resources, late);
    let orphan_names = orphans.map_values(|d: Declaration| d.0);
    seqs::lemma_distinct(orphan_names);
    assert(orphan_names.len() == orphans.len());
    assert((validate::resources_of(orphans).len() == 0) == (orphans.len() == 0));
    assert forall|j: int| 0 <= j < p.consumed_resources.len() implies (late(
        #[trigger] p.consumed_resources[j],
    ).len() == 0 <==> forall|i: int|
        0 <= i < p.produced_resources.len() ==> validate::late_producer(
            p,
            p.consumed_resources[j],
        )(#[trigger] p.produced_resources[i]) is None) by {
        seqs::lemma_filter_map_empty(
            p.produced_resources,
            validate::late_producer(p, p.consumed_resources[j]),
        );
    }
    if validate::problems(p).len() == 0 {
        assert forall|i: int| 0 <= i < p.steps.len() implies sound_step(
            #[trigger] p.steps[i],
        ) by {
            assert(missing(p.steps[i]) is None);
            assert(unused(p.steps[i]) is None);
            assert(unfinalized(p.steps[i]) is None);
        }
        assert forall|i: int| 0 <= i < p.ordering_constraints.len() implies respected(
            p,
            #[trigger] p.ordering_constraints[i],
        ) by {
            assert(broken(p.ordering_constraints[i]) is None);
        }
        assert forall|i: int| 0 <= i < p.produced_resources.len() implies p.has_step(
            (#[trigger] p.produced_resources[i]).1,
        ) by {
            assert(producer(p.produced_resources[i]) is None);
        }
        assert forall|i: int| 0 <= i < p.consumed_resources.len() implies p.has_step(
            (#[trigger] p.consumed_resources[i]).1,
        ) && has_producer(p, p.consumed_resources[i].0) by {
            assert(consumer(p.consumed_resources[i]) is None);
            assert(orphaned(p.consumed_resources[i]) is None);
        }
        assert forall|i: int, j: int|
            0 <= i < p.produced_resources.len() && 0 <= j
                < p.consumed_resources.len() implies in_time(
            p,
            #[trigger] p.produced_resources[i],
            #[trigger] p.consumed_resources[j],
        ) by {
            assert(late(p.consumed_resources[j]).len() == 0);
            assert(validate::late_producer(p, p.consumed_resources[j])(
                p.produced_resources[i],
            ) is None);
        }
    }
    if is_sound(p) {
        assert forall|i: int| 0 <= i < p.steps.len() implies missing(
            #[trigger] p.steps[i],
        ) is None && unused(p.steps[i]) is None && unfinalized(p.steps[i]) is None by {
            assert(sound_step(p.steps[i]));
        }
        assert forall|i: int| 0 <= i < p.ordering_constraints.len() implies broken(
            #[trigger] p.ordering_constraints[i],
        ) is None by {
            assert(respected(p, p.ordering_constraints[i]));
        }
        assert forall|j: int| 0 <= j < p.consumed_resources.len() implies late(
            #[trigger] p.consumed_resources[j],
        ).len() == 0 by {
            assert forall|i: int|
                0 <= i < p.produced_resources.len() implies validate::late_producer(
                p,
                p.consumed_resources[j],
            )(#[trigger] p.produced_resources[i]) is None by {
                assert(in_time(p, p.produced_resources[i], p.consumed_resources[j]));
            }
        }
    }
}

/// A run of a validated pipeline never comes to a required step without handlers, in
/// whichever state it is.
pub proof fn law_a_validated_run_never_misses_handlers<K: Callbacks, E>(
    plan: RunPlan<'_, K>,
    s: RunState<E>,
)
    requires
        validate::problems(plan.pipeline@).len() == 0,
        plan.wf(),
        run::state_wf(plan, s),
    ensures
        !(s.stage is Missing),
{
    law_validation_accepts_exactly_sound_pipelines(plan.pipeline@);
    if s.stage is Missing {
        let i = s.at as int;
        assert(plan.pipeline@.steps[i] == plan.step(i)@);
        assert(sound_step(plan.pipeline@.steps[i]));
    }
}

/// In a validated pipeline the producers of a resource run before its consumers: where both
/// are steps of a run, the step loop comes to the producer first.
pub proof fn law_producers_run_before_consumers<K: Callbacks>(
    p: PipelineView<K>,
    production: int,
    consumption: int,
)
    requires
        p.wf(),
        validate::problems(p).len() == 0,
        0 <= production < p.produced_resources.len(),
        0 <= consumption < p.consumed_resources.len(),
        p.produced_resources[production].0 == p.consumed_resources[consumption].0,
    ensures
        p.is_at(
            p.index_of(p.produced_resources[production].1),
            p.produced_resources[production].1,
        ),
        p.is_at(
            p.index_of(p.consumed_resources[consumption].1),
            p.consumed_resources[consumption].1,
        ),
        p.index_of(p.produced_resources[production].1) < p.index_of(
            p.consumed_resources[consumption].1,
        ),
{
    law_validation_accepts_exactly_sound_pipelines(p);
    assert(in_time(p, p.produced_resources[production], p.consumed_resources[consumption]));
}

/// Removing a step that a declaration still names leaves the declaration dangling, and
/// validation reports it.
pub proof fn law_removing_a_declared_step_is_reported<K: Callbacks>(
    p: PipelineView<K>,
    name: Seq<char>,
    i: int,
)
    requires
        p.wf(),
        ({
            ||| 0 <= i < p.ordering_constraints.len() && (p.ordering_constraints[i].0 == name
                || p.ordering_constraints[i].1 == name)
            ||| 0 <= i < p.produced_resources.len() && p.produced_resources[i].1 == name
            ||| 0 <= i < p.consumed_resources.len() && p.consumed_resources[i].1 == name
        }),
    ensures
        validate::problems(p.without_step(name)).len() > 0,
{
    let q = p.without_step(name);
    law_validation_accepts_exactly_sound_pipelines(q);
    law_a_removed_step_is_gone(p, name, name);
    if 0 <= i < p.ordering_constraints.len() && (p.ordering_constraints[i].0 == name
        || p.ordering_constraints[i].1 == name) {
        assert(!respected(q, q.ordering_constraints[i]));
    }
}

/// Removing a step removes that name and no other, and keeps names distinct.
pub proof fn law_a_removed_step_is_gone<K: Callbacks>(
    p: PipelineView<K>,
    name: Seq<char>,
    other: Seq<char>,
)
    requires
        p.wf(),
    ensures
        p.without_step(name).wf(),
        p.without_step(name).has_step(other) == (p.has_step(other) && other != name),
        p.without_step(name).has_step(other) ==> p.without_step(name).step(other) == p.step(
            other,
        ),
{
    let q = p.without_step(name);
    if p.has_step(name) {
        let i = p.index_of(name);
        assert(p.is_at(i, name));
        let back = |j: int|
            if j < i {
                j
            } else {
                j + 1
            };
        assert forall|j: int| 0 <= j < q.steps.len() implies #[trigger] q.steps[j] == p.steps[back(
            j,
        )] by {}
        assert forall|a: int, b: int| 0 <= a < b < q.steps.len() implies (
        #[trigger] q.steps[a]).name != (#[trigger] q.steps[b]).name by {
            assert(q.steps[a] == p.steps[back(a)]);
            assert(q.steps[b] == p.steps[back(b)]);
        }
        if q.has_step(other) {
            let j = q.index_of(other);
            assert(q.is_at(j, other));
            assert(q.steps[j] == p.steps[back(j)]);
            p.lemma_index_unique(back(j), other);
            p.lemma_index_unique(i, name);
        }
        if p.has_step(other) && other != name {
            let k = p.index_of(other);
            assert(p.is_at(k, other));
            let j = if k < i {
                k
            } else {
                k - 1
            };
            assert(q.is_at(j, other));
        }
    }
}

/// Inserting a step and removing it again restores the pipeline.
pub proof fn law_removal_undoes_insertion<K: Callbacks>(
    p: PipelineView<K>,
    i: int,
    name: Seq<char>,
)
    requires
        p.wf(),
        0 <= i <= p.steps.len(),
        !p.has_step(name),
    ensures
        ({
            let inserted = PipelineView {
                steps: p.steps.insert(i, definition::fresh_step::<K>(name)),
                ..p
            };
            inserted.wf() && inserted.without_step(name) == p
        }),
{
    let inserted = PipelineView {
        steps: p.steps.insert(i, definition::fresh_step::<K>(name)),
        ..p
    };
    assert forall|j: int| 0 <= j < p.steps.len() implies (#[trigger] p.steps[j]).name != name by {
        assert(!p.is_at(j, name));
    }
    assert forall|a: int, b: int| 0 <= a < b < inserted.steps.len() implies (
    #[trigger] inserted.steps[a]).name != (#[trigger] inserted.steps[b]).name by {
        let origin = |j: int|
            if j < i {
                j
            } else {
                j - 1
            };
        if a != i {
            assert(inserted.steps[a] == p.steps[origin(a)]);
        }
        if b != i {
            assert(inserted.steps[b] == p.steps[origin(b)]);
        }
    }
    assert(inserted.is_at(i, name));
    inserted.lemma_index_unique(i, name);
    assert(inserted.without_step(name) =~= p);
}

/// The last edit of a step wins, putting a step back restores the pipeline, and no other
/// step is touched. So marking a step optional and required again, or setting a skip
/// condition and clearing it, leaves the step as if only the last of the two had happened.
pub proof fn law_the_last_edit_of_a_step_wins<K: Callbacks>(
    p: PipelineView<K>,
    name: Seq<char>,
    first: StepView<K>,
    second: StepView<K>,
    other: Seq<char>,
)
    requires
        p.wf(),
        p.has_step(name),
        p.has_step(other),
        other != name,
        first.name == name,
        second.name == name,
    ensures
        p.with_step(name, first).with_step(name, second) == p.with_step(name, second),
        p.with_step(name, first).with_step(name, p.step(name)) == p,
        p.with_step(name, first).step(other) == p.step(other),
{
    hooks::lemma_with_step(p, name, first);
    let q = p.with_step(name, first);
    assert(p.is_at(p.index_of(name), name));
    assert(p.is_at(p.index_of(other), other));
    assert(q.is_at(p.index_of(other), other));
    q.lemma_index_unique(p.index_of(other), other);
    assert(q.with_step(name, p.step(name)) =~= p);
}

/// What stubbing makes of a step.
pub open spec fn stubbed<K: Callbacks>(step: StepView<K>) -> StepView<K> {
    StepView {
        before: Seq::empty(),
        on: seq![StepHandler::Stub],
        after: Seq::empty(),
        extractor: None,
        sub_handled: false,
        ..step
    }
}

/// A stubbed step has no problem of its own, whatever it had before, unless its conditional
/// scopes are pending; and stubbing a step keeps a sound pipeline sound.
pub proof fn law_a_stubbed_step_is_sound<K: Callbacks>(p: PipelineView<K>, name: Seq<char>)
    requires
        p.wf(),
        p.has_step(name),
    ensures
        sound_step(stubbed(p.step(name))) == !p.step(name).scopes_pending,
        is_sound(p) ==> is_sound(p.with_step(name, stubbed(p.step(name)))),
{
    if is_sound(p) {
        lemma_stubbing_keeps_soundness(p, name);
    }
}

proof fn lemma_stubbing_keeps_soundness<K: Callbacks>(p: PipelineView<K>, name: Seq<char>)
    requires
        p.wf(),
        p.has_step(name),
        is_sound(p),
    ensures
        is_sound(p.with_step(name, stubbed(p.step(name)))),
{
    let stub = stubbed(p.step(name));
    assert(p.is_at(p.index_of(name), name));
    hooks::lemma_with_step(p, name, stub);
    let q = p.with_step(name, stub);
    assert forall|i: int| 0 <= i < q.steps.len() implies sound_step(#[trigger] q.steps[i]) by {
        assert(sound_step(p.steps[i]));
    }
    assert forall|other: Seq<char>| p.has_step(other) implies #[trigger] q.index_of(other)
        == p.index_of(other) by {
        assert(p.is_at(p.index_of(other), other));
        assert(q.is_at(p.index_of(other), other));
        q.lemma_index_unique(p.index_of(other), other);
    }
    assert forall|i: int| 0 <= i < q.ordering_constraints.len() implies respected(
        q,
        #[trigger] q.ordering_constraints[i],
    ) by {
        assert(respected(p, p.ordering_constraints[i]));
    }
    assert forall|i: int| 0 <= i < q.consumed_resources.len() implies q.has_step(
        (#[trigger] q.consumed_resources[i]).1,
    ) && has_producer(q, q.consumed_resources[i].0) by {
        let resource = p.consumed_resources[i].0;
        assert(has_producer(p, resource));
        let k = choose|k: int|
            0 <= k < p.produced_resources.len() && (#[trigger] p.produced_resources[k]).0
                == resource && p.has_step(p.produced_resources[k].1);
        assert(q.produced_resources[k].0 == resource);
    }
    assert forall|i: int, j: int|
        0 <= i < q.produced_resources.len() && 0 <= j < q.consumed_resources.len() implies in_time(
        q,
        #[trigger] q.produced_resources[i],
        #[trigger] q.consumed_resources[j],
    ) by {
        assert(in_time(p, p.produced_resources[i], p.consumed_resources[j]));
    }
}

} // verus!
