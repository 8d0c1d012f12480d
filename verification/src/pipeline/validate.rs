//! Checking a pipeline for setup mistakes.
//!
//! What is wrong with a pipeline is given by [`problems`]: a list of (step, message) pairs,
//! section by section. [`Pipeline::validate`] collects exactly that list and reports it.

use vstd::prelude::*;

use crate::error::{OrkaError, OrkaResult};
use crate::pipeline::definition::{Callbacks, Pipeline, PipelineView, StepEntry, StepView};
use crate::pipeline::definition;
use crate::seqs;
use crate::text;

verus! {

/// A step's name and what is wrong with it.
pub type Problem = (Seq<char>, Seq<char>);

/// A resource's name and a step that produces or consumes it.
pub type Declaration = (Seq<char>, Seq<char>);

/// A required step without handlers.
pub open spec fn missing_handlers<K: Callbacks>() -> spec_fn(StepView<K>) -> Option<Problem> {
    |step: StepView<K>|
        if !step.optional && !step.has_any_handlers() {
            Some(
                (
                    step.name,
                    "required step "@ + text::quoted(step.name)
                        + " has no before/on/after handlers; register one or mark it optional"@,
                ),
            )
        } else {
            None
        }
}

/// A step whose extractor no handler consumes.
pub open spec fn unused_extractor<K: Callbacks>() -> spec_fn(StepView<K>) -> Option<Problem> {
    |step: StepView<K>|
        if step.extractor is Some && !step.sub_handled {
            Some(
                (
                    step.name,
                    "step "@ + text::quoted(step.name)
                        + " has an extractor but no on::<SData> handler consuming it"@,
                ),
            )
        } else {
            None
        }
}

/// A step whose conditional scopes were begun and never finalized.
pub open spec fn unfinalized_scopes<K: Callbacks>() -> spec_fn(StepView<K>) -> Option<Problem> {
    |step: StepView<K>|
        if step.scopes_pending {
            Some(
                (
                    step.name,
                    "step "@ + text::quoted(step.name)
                        + " called conditional_scopes_for_step but never finalize_conditional_step(); its scopes were discarded"@,
                ),
            )
        } else {
            None
        }
}

/// An ordering constraint that the step order violates, or that names a step the pipeline
/// does not have.
pub open spec fn broken_ordering<K: Callbacks>(p: PipelineView<K>) -> spec_fn(
    (Seq<char>, Seq<char>),
) -> Option<Problem> {
    |c: (Seq<char>, Seq<char>)|
        if p.has_step(c.0) && p.has_step(c.1) {
            if p.index_of(c.0) >= p.index_of(c.1) {
                Some(
                    (
                        c.0,
                        "ordering constraint violated: "@ + text::quoted(c.0) + " (index "@
                            + text::decimal(p.index_of(c.0) as nat) + ") must precede "@
                            + text::quoted(c.1) + " (index "@ + text::decimal(
                            p.index_of(c.1) as nat,
                        ) + ")"@,
                    ),
                )
            } else {
                None
            }
        } else {
            let missing = if p.has_step(c.0) {
                c.1
            } else {
                c.0
            };
            Some(
                (
                    missing,
                    "ordering constraint "@ + text::quoted(c.0) + " -> "@ + text::quoted(c.1)
                        + " references unknown step "@ + text::quoted(missing)
                        + " (was it removed after the constraint was declared?)"@,
                ),
            )
        }
}

/// A resource declaration naming a step the pipeline does not have.
pub open spec fn dangling<K: Callbacks>(p: PipelineView<K>, role: Seq<char>) -> spec_fn(
    Declaration,
) -> Option<Problem> {
    |d: Declaration|
        if !p.has_step(d.1) {
            Some(
                (
                    d.1,
                    text::quoted(d.1) + " is declared as a "@ + role + " of resource "@
                        + text::quoted(d.0) + " but is no longer a step in this pipeline"@,
                ),
            )
        } else {
            None
        }
}

/// Whether a step of the pipeline is declared to produce the resource.
pub open spec fn is_produced<K: Callbacks>(p: PipelineView<K>, resource: Seq<char>) -> bool {
    exists|i: int|
        0 <= i < p.produced_resources.len() && (#[trigger] p.produced_resources[i]).0 == resource
            && p.has_step(p.produced_resources[i].1)
}

/// A consumption, by a step of the pipeline, of a resource that no step of it produces.
pub open spec fn orphaned<K: Callbacks>(p: PipelineView<K>) -> spec_fn(Declaration) -> Option<
    Declaration,
> {
    |d: Declaration|
        if p.has_step(d.1) && !is_produced(p, d.0) {
            Some(d)
        } else {
            None
        }
}

/// The steps among `declarations` that belong to `resource`.
pub open spec fn steps_of(resource: Seq<char>) -> spec_fn(Declaration) -> Option<Seq<char>> {
    |d: Declaration|
        if d.0 == resource {
            Some(d.1)
        } else {
            None
        }
}

/// The resources that `declarations` name, each once, in order of first appearance.
pub open spec fn resources_of(declarations: Seq<Declaration>) -> Seq<Seq<char>> {
    seqs::distinct(declarations.map_values(|d: Declaration| d.0))
}

/// Each text between quotes.
pub open spec fn quote_each(texts: Seq<Seq<char>>) -> Seq<Seq<char>> {
    texts.map_values(|t: Seq<char>| text::quoted(t))
}

/// A resource nothing produces, reported once with all of its consumers.
pub open spec fn unproduced(orphans: Seq<Declaration>) -> spec_fn(Seq<char>) -> Problem {
    |resource: Seq<char>|
        {
            let consumers = orphans.filter_map(steps_of(resource));
            (
                consumers[0],
                "resource "@ + text::quoted(resource) + " is consumed by "@ + text::joined(
                    quote_each(consumers),
                    ", "@,
                )
                    + " but no step produces it (was the producing step renamed or removed?)"@,
            )
        }
}

/// A producer of what `consumption` consumes that does not run earlier than the consumer.
pub open spec fn late_producer<K: Callbacks>(
    p: PipelineView<K>,
    consumption: Declaration,
) -> spec_fn(Declaration) -> Option<Problem> {
    |production: Declaration|
        if production.0 == consumption.0 && p.has_step(consumption.1) && p.has_step(production.1)
            && p.index_of(production.1) >= p.index_of(consumption.1) {
            Some(
                (
                    production.1,
                    "resource "@ + text::quoted(consumption.0) + " is produced by "@
                        + text::quoted(production.1) + " (index "@ + text::decimal(
                        p.index_of(production.1) as nat,
                    ) + ") but consumed by "@ + text::quoted(consumption.1) + " (index "@
                        + text::decimal(p.index_of(consumption.1) as nat)
                        + "), which runs earlier"@,
                ),
            )
        } else {
            None
        }
}

/// Every late producer of what a declaration consumes.
pub open spec fn late_producers<K: Callbacks>(p: PipelineView<K>) -> spec_fn(Declaration) -> Seq<
    Problem,
> {
    |consumption: Declaration| p.produced_resources.filter_map(late_producer(p, consumption))
}

/// Everything that is wrong with the pipeline, in reporting order:
/// required steps without handlers, unused extractors, unfinalized conditional scopes,
/// broken ordering constraints, dangling producer and consumer declarations, resources
/// nothing produces, and producers that run too late.
pub open spec fn problems<K: Callbacks>(p: PipelineView<K>) -> Seq<Problem> {
    let orphans = p.consumed_resources.filter_map(orphaned(p));
    p.steps.filter_map(missing_handlers()) + p.steps.filter_map(unused_extractor())
        + p.steps.filter_map(unfinalized_scopes()) + p.ordering_constraints.filter_map(
        broken_ordering(p),
    ) + p.produced_resources.filter_map(dangling(p, "producer"@))
        + p.consumed_resources.filter_map(dangling(p, "consumer"@)) + resources_of(
        orphans,
    ).map_values(unproduced(orphans)) + p.consumed_resources.flat_map(late_producers(p))
}

/// How a non-empty list of problems is reported: a single one as it is, several under a
/// heading, each on a line of its own.
pub open spec fn report(found: Seq<Problem>) -> Problem {
    if found.len() == 1 {
        found[0]
    } else {
        (
            "<"@ + text::decimal(found.len()) + " steps>"@,
            "pipeline validation found "@ + text::decimal(found.len()) + " problems:\n"@
                + text::joined(found.map_values(|p: Problem| "  - "@ + p.1), "\n"@),
        )
    }
}

/// Appending one pair appends its view.
proof fn lemma_pair_pushed(before: Seq<(String, String)>, after: Seq<(String, String)>)
    requires
        after.len() == before.len() + 1,
        after == before.push(after.last()),
    ensures
        definition::pair_views(after) == definition::pair_views(before).push(
            (after.last().0@, after.last().1@),
        ),
{
    assert(definition::pair_views(after) =~= definition::pair_views(before).push(
        (after.last().0@, after.last().1@),
    ));
}

/// Whether any phase of the step has a handler.
pub(crate) fn has_any_handlers<K: Callbacks>(step: &StepEntry<K>) -> (r: bool)
    ensures
        r == step@.has_any_handlers(),
{
    step.before.len() > 0 || step.on.len() > 0 || step.after.len() > 0
}

/// Adds the required steps that have no handlers.
fn collect_missing_handlers<K: Callbacks>(p: &Pipeline<K>, found: &mut Vec<(String, String)>)
    ensures
        definition::pair_views(final(found)@) == definition::pair_views(old(found)@)
            + p@.steps.filter_map(missing_handlers()),
{
    let ghost start = definition::pair_views(found@);
    let ghost f = missing_handlers::<K>();
    let mut i: usize = 0;
    while i < p.steps.len()
        invariant
            i <= p.steps.len(),
            f == missing_handlers::<K>(),
            definition::pair_views(found@) == start + p@.steps.take(i as int).filter_map(f),
        decreases p.steps.len() - i,
    {
        let step = &p.steps[i];
        let ghost before = found@;
        proof {
            p@.steps.lemma_filter_map_take_succ(f, i as int);
            assert(p@.steps[i as int] == step@);
        }
        if !step.def.optional && !has_any_handlers(step) {
            let name = step.def.name.as_str();
            let mut message = "required step ".to_string();
            text::push_quoted(&mut message, name);
            message.append(
                " has no before/on/after handlers; register one or mark it optional",
            );
            found.push((step.def.name.clone(), message));
            proof {
                lemma_pair_pushed(before, found@);
            }
        }
        i += 1;
    }
    proof {
        assert(p@.steps.take(i as int) =~= p@.steps);
    }
}

/// Adds the steps whose extractor nothing consumes.
fn collect_unused_extractors<K: Callbacks>(p: &Pipeline<K>, found: &mut Vec<(String, String)>)
    ensures
        definition::pair_views(final(found)@) == definition::pair_views(old(found)@)
            + p@.steps.filter_map(unused_extractor()),
{
    let ghost start = definition::pair_views(found@);
    let ghost f = unused_extractor::<K>();
    let mut i: usize = 0;
    while i < p.steps.len()
        invariant
            i <= p.steps.len(),
            f == unused_extractor::<K>(),
            definition::pair_views(found@) == start + p@.steps.take(i as int).filter_map(f),
        decreases p.steps.len() - i,
    {
        let step = &p.steps[i];
        let ghost before = found@;
        proof {
            p@.steps.lemma_filter_map_take_succ(f, i as int);
            assert(p@.steps[i as int] == step@);
        }
        if step.extractor.is_some() && !step.sub_handled {
            let name = step.def.name.as_str();
            let mut message = "step ".to_string();
            text::push_quoted(&mut message, name);
            message.append(
                " has an extractor but no on::<SData> handler consuming it",
            );
            found.push((step.def.name.clone(), message));
            proof {
                lemma_pair_pushed(before, found@);
            }
        }
        i += 1;
    }
    proof {
        assert(p@.steps.take(i as int) =~= p@.steps);
    }
}

/// Adds the steps whose conditional scopes were never finalized.
fn collect_unfinalized_scopes<K: Callbacks>(p: &Pipeline<K>, found: &mut Vec<(String, String)>)
    ensures
        definition::pair_views(final(found)@) == definition::pair_views(old(found)@)
            + p@.steps.filter_map(unfinalized_scopes()),
{
    let ghost start = definition::pair_views(found@);
    let ghost f = unfinalized_scopes::<K>();
    let mut i: usize = 0;
    while i < p.steps.len()
        invariant
            i <= p.steps.len(),
            f == unfinalized_scopes::<K>(),
            definition::pair_views(found@) == start + p@.steps.take(i as int).filter_map(f),
        decreases p.steps.len() - i,
    {
        let step = &p.steps[i];
        let ghost before = found@;
        proof {
            p@.steps.lemma_filter_map_take_succ(f, i as int);
            assert(p@.steps[i as int] == step@);
        }
        if step.scopes_pending {
            let name = step.def.name.as_str();
            let mut message = "step ".to_string();
            text::push_quoted(&mut message, name);
            message.append(
                " called conditional_scopes_for_step but never finalize_conditional_step(); its scopes were discarded",
            );
            found.push((step.def.name.clone(), message));
            proof {
                lemma_pair_pushed(before, found@);
            }
        }
        i += 1;
    }
    proof {
        assert(p@.steps.take(i as int) =~= p@.steps);
    }
}

/// Adds the ordering constraints that do not hold.
fn collect_broken_orderings<K: Callbacks>(p: &Pipeline<K>, found: &mut Vec<(String, String)>)
    requires
        p.wf(),
    ensures
        definition::pair_views(final(found)@) == definition::pair_views(old(found)@)
            + p@.ordering_constraints.filter_map(broken_ordering(p@)),
{
    let ghost start = definition::pair_views(found@);
    let ghost f = broken_ordering(p@);
    let mut i: usize = 0;
    while i < p.ordering_constraints.len()
        invariant
            i <= p.ordering_constraints.len(),
            p.wf(),
            f == broken_ordering(p@),
            definition::pair_views(found@) == start + p@.ordering_constraints.take(
                i as int,
            ).filter_map(f),
        decreases p.ordering_constraints.len() - i,
    {
        let constraint = &p.ordering_constraints[i];
        let earlier = constraint.0.as_str();
        let later = constraint.1.as_str();
        let ghost before = found@;
        proof {
            p@.ordering_constraints.lemma_filter_map_take_succ(f, i as int);
            assert(p@.ordering_constraints[i as int] == (earlier@, later@));
        }
        let earlier_at = p.position(earlier);
        let later_at = p.position(later);
        match (earlier_at, later_at) {
            (Some(b), Some(a)) => {
                if b >= a {
                    let mut message = "ordering constraint violated: ".to_string();
                    text::push_quoted(&mut message, earlier);
                    message.append(" (index ");
                    text::push_count(&mut message, b);
                    message.append(") must precede ");
                    text::push_quoted(&mut message, later);
                    message.append(" (index ");
                    text::push_count(&mut message, a);
                    message.append(")");
                    found.push((earlier.to_string(), message));
                    proof {
                        lemma_pair_pushed(before, found@);
                    }
                }
            },
            _ => {
                let missing = if earlier_at.is_none() {
                    earlier
                } else {
                    later
                };
                let mut message = "ordering constraint ".to_string();
                text::push_quoted(&mut message, earlier);
                message.append(" -> ");
                text::push_quoted(&mut message, later);
                message.append(" references unknown step ");
                text::push_quoted(&mut message, missing);
                message.append(" (was it removed after the constraint was declared?)");
                found.push((missing.to_string(), message));
                proof {
                    lemma_pair_pushed(before, found@);
                }
            },
        }
        i += 1;
    }
    proof {
        assert(p@.ordering_constraints.take(i as int) =~= p@.ordering_constraints);
    }
}

/// Adds the resource declarations that name a step the pipeline does not have.
fn collect_dangling<K: Callbacks>(
    p: &Pipeline<K>,
    declarations: &Vec<(String, String)>,
    role: &str,
    found: &mut Vec<(String, String)>,
)
    requires
        p.wf(),
    ensures
        definition::pair_views(final(found)@) == definition::pair_views(old(found)@)
            + definition::pair_views(declarations@).filter_map(dangling(p@, role@)),
{
    let ghost start = definition::pair_views(found@);
    let ghost declared = definition::pair_views(declarations@);
    let ghost f = dangling(p@, role@);
    let mut i: usize = 0;
    while i < declarations.len()
        invariant
            i <= declarations.len(),
            p.wf(),
            f == dangling(p@, role@),
            declared == definition::pair_views(declarations@),
            definition::pair_views(found@) == start + declared.take(i as int).filter_map(f),
        decreases declarations.len() - i,
    {
        let resource = declarations[i].0.as_str();
        let step = declarations[i].1.as_str();
        let ghost before = found@;
        proof {
            declared.lemma_filter_map_take_succ(f, i as int);
            assert(declared[i as int] == (resource@, step@));
        }
        if p.position(step).is_none() {
            let mut message = String::new();
            text::push_quoted(&mut message, step);
            message.append(" is declared as a ");
            message.append(role);
            message.append(" of resource ");
            text::push_quoted(&mut message, resource);
            message.append(" but is no longer a step in this pipeline");
            proof {
                assert(Seq::<char>::empty() + text::quoted(step@) =~= text::quoted(step@));
            }
            found.push((step.to_string(), message));
            proof {
                lemma_pair_pushed(before, found@);
            }
        }
        i += 1;
    }
    proof {
        assert(declared.take(i as int) =~= declared);
    }
}

/// Whether a step of the pipeline is declared to produce the resource.
fn has_producer<K: Callbacks>(p: &Pipeline<K>, resource: &String) -> (r: bool)
    requires
        p.wf(),
    ensures
        r == is_produced(p@, resource@),
{
    let mut i: usize = 0;
    while i < p.produced_resources.len()
        invariant
            i <= p.produced_resources.len(),
            p.wf(),
            forall|j: int|
                0 <= j < i ==> !((#[trigger] p@.produced_resources[j]).0 == resource@
                    && p@.has_step(p@.produced_resources[j].1)),
        decreases p.produced_resources.len() - i,
    {
        let production = &p.produced_resources[i];
        assert(p@.produced_resources[i as int] == (production.0@, production.1@));
        if production.0 == *resource && p.position(production.1.as_str()).is_some() {
            return true;
        }
        i += 1;
    }
    false
}

/// The consumptions, by steps of the pipeline, of resources that no step of it produces.
fn orphaned_consumptions<K: Callbacks>(p: &Pipeline<K>) -> (r: Vec<(String, String)>)
    requires
        p.wf(),
    ensures
        definition::pair_views(r@) == p@.consumed_resources.filter_map(orphaned(p@)),
{
    let ghost f = orphaned(p@);
    let mut orphans: Vec<(String, String)> = Vec::new();
    let mut i: usize = 0;
    proof {
        assert(definition::pair_views(orphans@) =~= p@.consumed_resources.take(0).filter_map(f));
    }
    while i < p.consumed_resources.len()
        invariant
            i <= p.consumed_resources.len(),
            p.wf(),
            f == orphaned(p@),
            definition::pair_views(orphans@) == p@.consumed_resources.take(i as int).filter_map(f),
        decreases p.consumed_resources.len() - i,
    {
        let consumption = &p.consumed_resources[i];
        let ghost before = orphans@;
        proof {
            p@.consumed_resources.lemma_filter_map_take_succ(f, i as int);
            assert(p@.consumed_resources[i as int] == (consumption.0@, consumption.1@));
        }
        if p.position(consumption.1.as_str()).is_some() && !has_producer(p, &consumption.0) {
            orphans.push((consumption.0.clone(), consumption.1.clone()));
            proof {
                lemma_pair_pushed(before, orphans@);
            }
        }
        i += 1;
    }
    proof {
        assert(p@.consumed_resources.take(i as int) =~= p@.consumed_resources);
    }
    orphans
}

/// Whether `name` is among `names`.
fn contains_name(names: &Vec<String>, name: &String) -> (r: bool)
    ensures
        r == text::views(names@).contains(name@),
{
    let mut i: usize = 0;
    while i < names.len()
        invariant
            i <= names.len(),
            forall|j: int| 0 <= j < i ==> (#[trigger] text::views(names@)[j]) != name@,
        decreases names.len() - i,
    {
        if names[i] == *name {
            assert(text::views(names@)[i as int] == name@);
            return true;
        }
        i += 1;
    }
    false
}

/// The resources named by the declarations, each once, in order of first appearance.
fn resource_names(declarations: &Vec<(String, String)>) -> (r: Vec<String>)
    ensures
        text::views(r@) == resources_of(definition::pair_views(declarations@)),
{
    let ghost named = definition::pair_views(declarations@).map_values(|d: Declaration| d.0);
    let mut names: Vec<String> = Vec::new();
    let mut i: usize = 0;
    proof {
        assert(text::views(names@) =~= seqs::distinct(named.take(0)));
    }
    while i < declarations.len()
        invariant
            i <= declarations.len(),
            named == definition::pair_views(declarations@).map_values(|d: Declaration| d.0),
            text::views(names@) == seqs::distinct(named.take(i as int)),
        decreases declarations.len() - i,
    {
        let resource = &declarations[i].0;
        proof {
            seqs::lemma_distinct_take(named, i as int);
            assert(named[i as int] == resource@);
        }
        if !contains_name(&names, resource) {
            let ghost before = names@;
            names.push(resource.clone());
            proof {
                assert(text::views(names@) =~= text::views(before).push(resource@));
            }
        }
        i += 1;
    }
    proof {
        assert(named.take(i as int) =~= named);
    }
    names
}

/// The steps that the declarations name for one resource, each between quotes, and the
/// first of them.
fn consumers_of(declarations: &Vec<(String, String)>, resource: &String) -> (r: (
    Vec<String>,
    Option<String>,
))
    ensures
        ({
            let steps = definition::pair_views(declarations@).filter_map(steps_of(resource@));
            &&& text::views(r.0@) == quote_each(steps)
            &&& match r.1 {
                Some(first) => steps.len() > 0 && first@ == steps[0],
                None => steps.len() == 0,
            }
        }),
{
    let ghost declared = definition::pair_views(declarations@);
    let ghost f = steps_of(resource@);
    let mut quoted: Vec<String> = Vec::new();
    let mut first: Option<String> = None;
    let mut i: usize = 0;
    proof {
        assert(declared.take(0).filter_map(f) =~= Seq::empty());
        assert(text::views(quoted@) =~= quote_each(declared.take(0).filter_map(f)));
    }
    while i < declarations.len()
        invariant
            i <= declarations.len(),
            declared == definition::pair_views(declarations@),
            f == steps_of(resource@),
            text::views(quoted@) == quote_each(declared.take(i as int).filter_map(f)),
            match first {
                Some(first) => declared.take(i as int).filter_map(f).len() > 0 && first@
                    == declared.take(i as int).filter_map(f)[0],
                None => declared.take(i as int).filter_map(f).len() == 0,
            },
        decreases declarations.len() - i,
    {
        let ghost before = declared.take(i as int).filter_map(f);
        proof {
            declared.lemma_filter_map_take_succ(f, i as int);
            assert(declared[i as int] == (declarations@[i as int].0@, declarations@[i as int].1@));
        }
        if declarations[i].0 == *resource {
            let step = &declarations[i].1;
            let mut entry = String::new();
            text::push_quoted(&mut entry, step.as_str());
            let ghost listed = quoted@;
            quoted.push(entry);
            if first.is_none() {
                first = Some(step.clone());
            }
            proof {
                let after = declared.take(i as int + 1).filter_map(f);
                assert(after =~= before.push(step@));
                assert(entry@ =~= text::quoted(step@));
                assert(text::views(quoted@) =~= text::views(listed).push(entry@));
                assert(quote_each(after) =~= quote_each(before).push(text::quoted(step@)));
            }
        }
        i += 1;
    }
    proof {
        assert(declared.take(i as int) =~= declared);
    }
    (quoted, first)
}

/// Adds the resources that are consumed and that no step produces.
fn collect_unproduced<K: Callbacks>(p: &Pipeline<K>, found: &mut Vec<(String, String)>)
    requires
        p.wf(),
    ensures
        ({
            let orphans = p@.consumed_resources.filter_map(orphaned(p@));
            definition::pair_views(final(found)@) == definition::pair_views(old(found)@)
                + resources_of(orphans).map_values(unproduced(orphans))
        }),
{
    let orphans = orphaned_consumptions(p);
    let resources = resource_names(&orphans);
    let ghost declared = definition::pair_views(orphans@);
    let ghost named = resources_of(declared);
    let ghost reported = named.map_values(unproduced(declared));
    let ghost start = definition::pair_views(found@);
    let mut i: usize = 0;
    while i < resources.len()
        invariant
            i <= resources.len(),
            declared == definition::pair_views(orphans@),
            named == resources_of(declared),
            named == text::views(resources@),
            reported == named.map_values(unproduced(declared)),
            definition::pair_views(found@) == start + reported.take(i as int),
        decreases resources.len() - i,
    {
        let resource = &resources[i];
        let (quoted, first) = consumers_of(&orphans, resource);
        let ghost consumers = declared.filter_map(steps_of(resource@));
        proof {
            assert(named[i as int] == resource@);
            lemma_resource_has_steps(declared, resource@, i as int);
        }
        let mut message = "resource ".to_string();
        text::push_quoted(&mut message, resource.as_str());
        message.append(" is consumed by ");
        message.append(text::join(&quoted, ", ").as_str());
        message.append(" but no step produces it (was the producing step renamed or removed?)");
        let ghost before = found@;
        found.push((first.unwrap(), message));
        proof {
            lemma_pair_pushed(before, found@);
            assert(reported[i as int] == unproduced(declared)(resource@));
            assert(reported.take(i as int + 1) =~= reported.take(i as int).push(
                reported[i as int],
            ));
        }
        i += 1;
    }
    proof {
        assert(reported.take(i as int) =~= reported);
    }
}

/// A resource that declarations name has at least one step among them.
proof fn lemma_resource_has_steps(declared: Seq<Declaration>, resource: Seq<char>, i: int)
    requires
        0 <= i < resources_of(declared).len(),
        resources_of(declared)[i] == resource,
    ensures
        declared.filter_map(steps_of(resource)).len() > 0,
{
    let named = declared.map_values(|d: Declaration| d.0);
    seqs::lemma_distinct(named);
    assert(seqs::distinct(named).contains(resource));
    let j = choose|j: int| 0 <= j < named.len() && named[j] == resource;
    seqs::lemma_filter_map_empty(declared, steps_of(resource));
    assert(steps_of(resource)(declared[j]) is Some);
}

/// Adds the producers of one consumed resource that run too late for its consumer.
fn collect_late_producers_of<K: Callbacks>(
    p: &Pipeline<K>,
    consumption: &(String, String),
    found: &mut Vec<(String, String)>,
)
    requires
        p.wf(),
    ensures
        definition::pair_views(final(found)@) == definition::pair_views(old(found)@)
            + late_producers(p@)((consumption.0@, consumption.1@)),
{
    let ghost consumed = (consumption.0@, consumption.1@);
    let ghost f = late_producer(p@, consumed);
    let ghost start = definition::pair_views(found@);
    let resource = consumption.0.as_str();
    let consumer = consumption.1.as_str();
    let consumer_at = match p.position(consumer) {
        Some(at) => at,
        None => {
            proof {
                seqs::lemma_filter_map_empty(p@.produced_resources, f);
                assert(p@.produced_resources.filter_map(f) =~= Seq::empty());
            }
            return ;
        },
    };
    let mut i: usize = 0;
    while i < p.produced_resources.len()
        invariant
            i <= p.produced_resources.len(),
            p.wf(),
            consumed == (consumption.0@, consumption.1@),
            resource@ == consumption.0@,
            consumer@ == consumption.1@,
            p@.has_step(consumer@),
            p@.index_of(consumer@) == consumer_at,
            f == late_producer(p@, consumed),
            definition::pair_views(found@) == start + p@.produced_resources.take(
                i as int,
            ).filter_map(f),
        decreases p.produced_resources.len() - i,
    {
        let production = &p.produced_resources[i];
        let ghost before = found@;
        proof {
            p@.produced_resources.lemma_filter_map_take_succ(f, i as int);
            assert(p@.produced_resources[i as int] == (production.0@, production.1@));
        }
        if production.0 == consumption.0 {
            let producer = production.1.as_str();
            if let Some(producer_at) = p.position(producer) {
                if producer_at >= consumer_at {
                    let mut message = "resource ".to_string();
                    text::push_quoted(&mut message, resource);
                    message.append(" is produced by ");
                    text::push_quoted(&mut message, producer);
                    message.append(" (index ");
                    text::push_count(&mut message, producer_at);
                    message.append(") but consumed by ");
                    text::push_quoted(&mut message, consumer);
                    message.append(" (index ");
                    text::push_count(&mut message, consumer_at);
                    message.append("), which runs earlier");
                    found.push((producer.to_string(), message));
                    proof {
                        lemma_pair_pushed(before, found@);
                    }
                }
            }
        }
        i += 1;
    }
    proof {
        assert(p@.produced_resources.take(i as int) =~= p@.produced_resources);
    }
}

/// Adds every producer that runs too late for one of its consumers.
fn collect_late_producers<K: Callbacks>(p: &Pipeline<K>, found: &mut Vec<(String, String)>)
    requires
        p.wf(),
    ensures
        definition::pair_views(final(found)@) == definition::pair_views(old(found)@)
            + p@.consumed_resources.flat_map(late_producers(p@)),
{
    let ghost f = late_producers(p@);
    let ghost start = definition::pair_views(found@);
    let mut i: usize = 0;
    proof {
        seqs::lemma_flat_map_empty(p@.consumed_resources.take(0), f);
        assert(p@.consumed_resources.take(0).flat_map(f) =~= Seq::empty());
    }
    while i < p.consumed_resources.len()
        invariant
            i <= p.consumed_resources.len(),
            p.wf(),
            f == late_producers(p@),
            definition::pair_views(found@) == start + p@.consumed_resources.take(
                i as int,
            ).flat_map(f),
        decreases p.consumed_resources.len() - i,
    {
        proof {
            p@.consumed_resources.lemma_flat_map_take_append(f, i as int);
        }
        collect_late_producers_of(p, &p.consumed_resources[i], found);
        i += 1;
    }
    proof {
        assert(p@.consumed_resources.take(i as int) =~= p@.consumed_resources);
    }
}

/// The messages of the problems, as the lines of a report.
fn report_lines(found: &Vec<(String, String)>) -> (r: Vec<String>)
    ensures
        text::views(r@) == definition::pair_views(found@).map_values(|p: Problem| "  - "@ + p.1),
{
    let mut lines: Vec<String> = Vec::new();
    let mut i: usize = 0;
    while i < found.len()
        invariant
            i <= found.len(),
            lines@.len() == i,
            forall|j: int| 0 <= j < i ==> (#[trigger] lines@[j])@ == "  - "@ + found@[j].1@,
        decreases found.len() - i,
    {
        let mut line = "  - ".to_string();
        line.append(found[i].1.as_str());
        lines.push(line);
        i += 1;
    }
    proof {
        assert(text::views(lines@) =~= definition::pair_views(found@).map_values(
            |p: Problem| "  - "@ + p.1,
        ));
    }
    lines
}

impl<K: Callbacks> Pipeline<K> {
    /// Checks the pipeline for setup mistakes that would otherwise surface at run time (or,
    /// worse, silently do nothing).
    ///
    /// All problems are collected, not just the first; see [`problems`] for what they are
    /// and in which order they are reported.
    pub fn validate(&self) -> (r: OrkaResult<()>)
        requires
            self.wf(),
        ensures
            match r {
                Ok(()) => problems(self@).len() == 0,
                Err(e) => {
                    &&& problems(self@).len() > 0
                    &&& e matches OrkaError::ConfigurationError { step_name, message }
                    &&& (step_name@, message@) == report(problems(self@))
                },
            },
    {
        let mut found: Vec<(String, String)> = Vec::new();
        collect_missing_handlers(self, &mut found);
        collect_unused_extractors(self, &mut found);
        collect_unfinalized_scopes(self, &mut found);
        collect_broken_orderings(self, &mut found);
        collect_dangling(self, &self.produced_resources, "producer", &mut found);
        collect_dangling(self, &self.consumed_resources, "consumer", &mut found);
        collect_unproduced(self, &mut found);
        collect_late_producers(self, &mut found);
        proof {
            assert(definition::pair_views(found@) =~= problems(self@));
        }

        if found.len() == 0 {
            return Ok(());
        }
        if found.len() == 1 {
            let (step_name, message) = found.pop().unwrap();
            return Err(OrkaError::ConfigurationError { step_name, message });
        }
        let lines = report_lines(&found);
        let mut step_name = "<".to_string();
        text::push_count(&mut step_name, found.len());
        step_name.append(" steps>");
        let mut message = "pipeline validation found ".to_string();
        text::push_count(&mut message, found.len());
        message.append(" problems:\n");
        message.append(text::join(&lines, "\n").as_str());
        Err(OrkaError::ConfigurationError { step_name, message })
    }
}

} // verus!
