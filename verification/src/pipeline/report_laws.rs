//! What validation reports of a pipeline: which problems, whom they blame, and in which order.

use vstd::prelude::*;

use crate::error::{OrkaError, OrkaResult};
use crate::pipeline::definition::{Callbacks, Pipeline, PipelineView, StepView};
use crate::pipeline::validate;
use crate::pipeline::validate::{Declaration, Problem};
use crate::pipeline::validate_laws;
use crate::seqs;
use crate::text;
use crate::text_laws;

verus! {

/// Whether a section of a report has one problem for each wanted element, in order, and blames
/// the step that goes with it.
pub open spec fn blames<A>(
    s: Seq<A>,
    wanted: spec_fn(A) -> bool,
    blamed: spec_fn(A) -> Seq<char>,
    section: Seq<Problem>,
) -> bool {
    exists|places: Seq<int>| #[trigger]
        seqs::picks(s, wanted, places) && places.len() == section.len() && forall|k: int|
            0 <= k < section.len() ==> (#[trigger] section[k]).0 == blamed(s[places[k]])
}

proof fn lemma_blames<A>(
    s: Seq<A>,
    f: spec_fn(A) -> Option<Problem>,
    wanted: spec_fn(A) -> bool,
    blamed: spec_fn(A) -> Seq<char>,
)
    requires
        forall|a: A| #[trigger] wanted(a) == (f(a) is Some),
        forall|a: A| (#[trigger] f(a)) matches Some(problem) ==> problem.0 == blamed(a),
    ensures
        blames(s, wanted, blamed, s.filter_map(f)),
{
    let places = seqs::lemma_filter_map_picks(s, f);
    assert((|a: A| f(a) is Some) =~= wanted);
    assert forall|k: int| 0 <= k < places.len() implies (#[trigger] s.filter_map(f)[k]).0
        == blamed(s[places[k]]) by {
        assert(Some(s.filter_map(f)[k]) == f(s[places[k]]));
    }
}

/// A required step that has no handler in any phase.
pub open spec fn lacks_handlers<K: Callbacks>() -> spec_fn(StepView<K>) -> bool {
    |step: StepView<K>|
        !step.optional && step.before.len() == 0 && step.on.len() == 0 && step.after.len() == 0
}

/// A step whose extractor nothing consumes.
pub open spec fn wastes_extractor<K: Callbacks>() -> spec_fn(StepView<K>) -> bool {
    |step: StepView<K>| step.extractor is Some && !step.sub_handled
}

/// A step whose scopes were begun and not finalized.
pub open spec fn leaves_scopes_pending<K: Callbacks>() -> spec_fn(StepView<K>) -> bool {
    |step: StepView<K>| step.scopes_pending
}

/// The step itself.
pub open spec fn the_step<K: Callbacks>() -> spec_fn(StepView<K>) -> Seq<char> {
    |step: StepView<K>| step.name
}

/// An ordering constraint that does not hold.
pub open spec fn is_violated<K: Callbacks>(p: PipelineView<K>) -> spec_fn(
    (Seq<char>, Seq<char>),
) -> bool {
    |c: (Seq<char>, Seq<char>)|
        !p.has_step(c.0) || !p.has_step(c.1) || p.index_of(c.0) >= p.index_of(c.1)
}

/// Of the two steps of a constraint, the one that is missing, the first before the second; the
/// first where neither is.
pub open spec fn the_culprit<K: Callbacks>(p: PipelineView<K>) -> spec_fn(
    (Seq<char>, Seq<char>),
) -> Seq<char> {
    |c: (Seq<char>, Seq<char>)|
        if p.has_step(c.0) && !p.has_step(c.1) {
            c.1
        } else {
            c.0
        }
}

/// A declaration whose step is not one of the pipeline.
pub open spec fn is_dangling<K: Callbacks>(p: PipelineView<K>) -> spec_fn(Declaration) -> bool {
    |d: Declaration| !p.has_step(d.1)
}

/// The declared step.
pub open spec fn the_declared() -> spec_fn(Declaration) -> Seq<char> {
    |d: Declaration| d.1
}

/// Whether the consumption at `i` is by a step of the pipeline, of a resource that no step of it
/// produces.
pub open spec fn is_orphan<K: Callbacks>(p: PipelineView<K>, i: int) -> bool {
    &&& 0 <= i < p.consumed_resources.len()
    &&& p.has_step(p.consumed_resources[i].1)
    &&& !validate_laws::has_producer(p, p.consumed_resources[i].0)
}

/// Whether the consumption at `i` is the first orphan of its resource.
pub open spec fn is_first_orphan<K: Callbacks>(p: PipelineView<K>, i: int) -> bool {
    &&& is_orphan(p, i)
    &&& forall|j: int| #[trigger]
        is_orphan(p, j) && p.consumed_resources[j].0 == p.consumed_resources[i].0 ==> i <= j
}

/// Whether a section has one problem for each resource that is consumed and not produced, and
/// blames its first consumer.
pub open spec fn blames_first_consumers<K: Callbacks>(
    p: PipelineView<K>,
    section: Seq<Problem>,
) -> bool {
    exists|places: Seq<int>| #[trigger]
        are_first_orphans(p, places) && places.len() == section.len() && forall|k: int|
            0 <= k < section.len() ==> (#[trigger] section[k]).0
                == p.consumed_resources[places[k]].1
}

/// Whether these are the first orphans of all resources that have one, each once.
pub open spec fn are_first_orphans<K: Callbacks>(p: PipelineView<K>, places: Seq<int>) -> bool {
    &&& forall|k: int| 0 <= k < places.len() ==> is_first_orphan(p, #[trigger] places[k])
    &&& forall|k: int, l: int|
        0 <= k < l < places.len() ==> (#[trigger] places[k]) < (#[trigger] places[l])
    &&& forall|i: int| #[trigger] is_first_orphan(p, i) ==> places.contains(i)
}

/// Whether the production at `i` comes too late for the consumption at `j`.
pub open spec fn is_late<K: Callbacks>(p: PipelineView<K>, j: int, i: int) -> bool {
    let production = p.produced_resources[i];
    let consumption = p.consumed_resources[j];
    &&& 0 <= i < p.produced_resources.len()
    &&& 0 <= j < p.consumed_resources.len()
    &&& production.0 == consumption.0
    &&& p.has_step(production.1)
    &&& p.has_step(consumption.1)
    &&& p.index_of(consumption.1) <= p.index_of(production.1)
}

/// A consumption and a production, by position.
pub type Pair = (int, int);

/// Whether a pair comes before another: by the consumption, and then by the production.
pub open spec fn comes_before(a: Pair, b: Pair) -> bool {
    a.0 < b.0 || (a.0 == b.0 && a.1 < b.1)
}

/// Whether these are all pairs whose production comes too late, of the first `n` consumptions, in
/// order.
pub open spec fn are_late<K: Callbacks>(p: PipelineView<K>, n: int, pairs: Seq<Pair>) -> bool {
    &&& forall|k: int|
        0 <= k < pairs.len() ==> (#[trigger] pairs[k]).0 < n && is_late(p, pairs[k].0, pairs[k].1)
    &&& forall|k: int, l: int|
        0 <= k < l < pairs.len() ==> comes_before(#[trigger] pairs[k], #[trigger] pairs[l])
    &&& forall|j: int, i: int| #[trigger] is_late(p, j, i) && j < n ==> pairs.contains((j, i))
}

/// Whether a section has one problem for each production that comes too late for a consumption,
/// and blames the producer.
pub open spec fn blames_late_producers<K: Callbacks>(
    p: PipelineView<K>,
    section: Seq<Problem>,
) -> bool {
    exists|pairs: Seq<Pair>| #[trigger]
        are_late(p, p.consumed_resources.len() as int, pairs) && pairs.len() == section.len()
            && forall|k: int|
            0 <= k < section.len() ==> (#[trigger] section[k]).0
                == p.produced_resources[pairs[k].1].1
}

proof fn lemma_late_pairs<K: Callbacks>(p: PipelineView<K>, n: int) -> (pairs: Seq<Pair>)
    requires
        0 <= n <= p.consumed_resources.len(),
    ensures
        are_late(p, n, pairs),
        ({
            let section = p.consumed_resources.take(n).flat_map(validate::late_producers(p));
            &&& section.len() == pairs.len()
            &&& forall|k: int|
                0 <= k < section.len() ==> (#[trigger] section[k]).0
                    == p.produced_resources[pairs[k].1].1
        }),
    decreases n,
{
    let f = validate::late_producers(p);
    if n == 0 {
        seqs::lemma_flat_map_empty(p.consumed_resources.take(0), f);
        Seq::empty()
    } else {
        let j = n - 1;
        let rest = lemma_late_pairs(p, j);
        p.consumed_resources.lemma_flat_map_take_append(f, j);
        let consumption = p.consumed_resources[j];
        let g = validate::late_producer(p, consumption);
        let places = seqs::lemma_filter_map_picks(p.produced_resources, g);
        let wanted = |d: Declaration| g(d) is Some;
        let new = Seq::new(places.len(), |k: int| (j, places[k]));
        let pairs = rest + new;
        let before = p.consumed_resources.take(j).flat_map(f);
        let section = p.consumed_resources.take(n).flat_map(f);
        let added = p.produced_resources.filter_map(g);
        assert(section =~= before + added);
        assert forall|k: int| 0 <= k < pairs.len() implies (#[trigger] pairs[k]).0 < n && is_late(
            p,
            pairs[k].0,
            pairs[k].1,
        ) && section[k].0 == p.produced_resources[pairs[k].1].1 by {
            if k < rest.len() {
                assert(pairs[k] == rest[k]);
                assert(section[k] == before[k]);
            } else {
                let at = k - rest.len();
                assert(pairs[k] == (j, places[at]));
                assert(wanted(p.produced_resources[places[at]]));
                assert(Some(added[at]) == g(p.produced_resources[places[at]]));
            }
        }
        assert forall|k: int, l: int| 0 <= k < l < pairs.len() implies comes_before(
            #[trigger] pairs[k],
            #[trigger] pairs[l],
        ) by {
            if l < rest.len() {
                assert(pairs[k] == rest[k] && pairs[l] == rest[l]);
            } else if k < rest.len() {
                assert(pairs[k] == rest[k]);
            } else {
                assert(places[k - rest.len()] < places[l - rest.len()]);
            }
        }
        assert forall|m: int, i: int| #[trigger] is_late(p, m, i) && m < n implies pairs.contains(
            (m, i),
        ) by {
            if m < j {
                assert(rest.contains((m, i)));
                let k = choose|k: int| 0 <= k < rest.len() && rest[k] == (m, i);
                assert(pairs[k] == (m, i));
            } else {
                assert(wanted(p.produced_resources[i]));
                assert(places.contains(i));
                let k = choose|k: int| 0 <= k < places.len() && places[k] == i;
                assert(pairs[rest.len() + k] == (m, i));
            }
        }
        pairs
    }
}

/// Whether the element at `i` does not occur before.
pub open spec fn is_new_at<A>(s: Seq<A>, i: int) -> bool {
    0 <= i < s.len() && forall|j: int| 0 <= j < i ==> (#[trigger] s[j]) != s[i]
}

/// Where each distinct element occurs first.
proof fn lemma_first_places<A>(s: Seq<A>) -> (places: Seq<int>)
    ensures
        places.len() == seqs::distinct(s).len(),
        forall|k: int|
            0 <= k < places.len() ==> {
                &&& is_new_at(s, #[trigger] places[k])
                &&& s[places[k]] == seqs::distinct(s)[k]
            },
        forall|k: int, l: int|
            0 <= k < l < places.len() ==> (#[trigger] places[k]) < (#[trigger] places[l]),
        forall|i: int| #[trigger] is_new_at(s, i) ==> places.contains(i),
    decreases s.len(),
{
    if s.len() == 0 {
        Seq::empty()
    } else {
        let short = s.drop_last();
        let last = s.len() - 1;
        let rest = lemma_first_places(short);
        seqs::lemma_distinct(short);
        let repeats = seqs::distinct(short).contains(s.last());
        let places = if repeats {
            rest
        } else {
            rest.push(last)
        };
        assert forall|k: int| 0 <= k < places.len() implies {
            &&& is_new_at(s, #[trigger] places[k])
            &&& s[places[k]] == seqs::distinct(s)[k]
        } by {
            if k < rest.len() {
                assert(places[k] == rest[k]);
                assert(s[places[k]] == short[rest[k]]);
                assert forall|j: int| 0 <= j < places[k] implies (#[trigger] s[j])
                    != s[places[k]] by {
                    assert(short[j] == s[j]);
                }
            } else {
                assert forall|j: int| 0 <= j < places[k] implies (#[trigger] s[j])
                    != s[places[k]] by {
                    assert(short[j] == s[j]);
                    assert(short.contains(s[j]));
                }
            }
        }
        assert forall|k: int, l: int| 0 <= k < l < places.len() implies (#[trigger] places[k]) < (
        #[trigger] places[l]) by {
            assert(places[k] == rest[k]);
            if l < rest.len() {
                assert(places[l] == rest[l]);
            }
        }
        assert forall|i: int| #[trigger] is_new_at(s, i) implies places.contains(i) by {
            if i < last {
                assert forall|j: int| 0 <= j < i implies (#[trigger] short[j]) != short[i] by {
                    assert(short[j] == s[j] && short[i] == s[i]);
                }
                assert(is_new_at(short, i));
                assert(rest.contains(i));
                let k = choose|k: int| 0 <= k < rest.len() && rest[k] == i;
                assert(places[k] == i);
            } else {
                if repeats {
                    assert(short.contains(s.last()));
                    let j = choose|j: int| 0 <= j < short.len() && short[j] == s.last();
                    assert(s[j] == s[i]);
                }
                assert(places[places.len() - 1] == last);
            }
        }
        places
    }
}

proof fn lemma_first_consumers<K: Callbacks>(p: PipelineView<K>)
    ensures
        ({
            let orphans = p.consumed_resources.filter_map(validate::orphaned(p));
            blames_first_consumers(
                p,
                validate::resources_of(orphans).map_values(validate::unproduced(orphans)),
            )
        }),
{
    let f = validate::orphaned(p);
    let orphans = p.consumed_resources.filter_map(f);
    let at = seqs::lemma_filter_map_picks(p.consumed_resources, f);
    let named = orphans.map_values(|d: Declaration| d.0);
    let firsts = lemma_first_places(named);
    let resources = validate::resources_of(orphans);
    let section = resources.map_values(validate::unproduced(orphans));
    let places = Seq::new(firsts.len(), |k: int| at[firsts[k]]);
    let wanted = |d: Declaration| f(d) is Some;
    assert forall|m: int| 0 <= m < at.len() implies is_orphan(p, #[trigger] at[m]) && orphans[m]
        == p.consumed_resources[at[m]] && named[m] == orphans[m].0 by {
        assert(wanted(p.consumed_resources[at[m]]));
        assert(Some(orphans[m]) == f(p.consumed_resources[at[m]]));
    }
    assert forall|i: int| #[trigger] is_orphan(p, i) implies at.contains(i) by {
        assert(wanted(p.consumed_resources[i]));
    }
    assert forall|k: int| 0 <= k < places.len() implies is_first_orphan(p, #[trigger] places[k])
        && section[k].0 == p.consumed_resources[places[k]].1 by {
        let m = firsts[k];
        assert(is_new_at(named, m));
        assert(places[k] == at[m]);
        let resource = named[m];
        assert forall|j: int| #[trigger]
            is_orphan(p, j) && p.consumed_resources[j].0 == resource implies places[k] <= j by {
            let n = choose|n: int| 0 <= n < at.len() && at[n] == j;
            assert(named[n] == resource);
            if n < m {
                assert(named[n] != named[m]);
            } else if m < n {
                assert(at[m] < at[n]);
            }
        }
        assert(resources[k] == resource);
        assert forall|j: int| 0 <= j < m implies (#[trigger] orphans[j]).0 != resource by {
            assert(named[j] == orphans[j].0);
        }
        lemma_first_step(orphans, resource, m);
        assert(section[k] == validate::unproduced(orphans)(resource));
    }
    assert forall|k: int, l: int| 0 <= k < l < places.len() implies (#[trigger] places[k]) < (
    #[trigger] places[l]) by {
        assert(firsts[k] < firsts[l]);
        assert(at[firsts[k]] < at[firsts[l]]);
    }
    assert forall|i: int| #[trigger] is_first_orphan(p, i) implies places.contains(i) by {
        let m = choose|m: int| 0 <= m < at.len() && at[m] == i;
        assert forall|j: int| 0 <= j < m implies (#[trigger] named[j]) != named[m] by {
            assert(at[j] < at[m]);
            assert(is_orphan(p, at[j]));
        }
        assert(is_new_at(named, m));
        assert(firsts.contains(m));
        let k = choose|k: int| 0 <= k < firsts.len() && firsts[k] == m;
        assert(places[k] == i);
    }
    assert(are_first_orphans(p, places));
}

/// The first step of a resource is that of its first declaration.
proof fn lemma_first_step(declared: Seq<Declaration>, resource: Seq<char>, m: int)
    requires
        0 <= m < declared.len(),
        declared[m].0 == resource,
        forall|j: int| 0 <= j < m ==> (#[trigger] declared[j]).0 != resource,
    ensures
        declared.filter_map(validate::steps_of(resource)).len() > 0,
        declared.filter_map(validate::steps_of(resource))[0] == declared[m].1,
{
    let g = validate::steps_of(resource);
    let places = seqs::lemma_filter_map_picks(declared, g);
    let wanted = |d: Declaration| g(d) is Some;
    assert(wanted(declared[m]));
    assert(places.contains(m));
    let k = choose|k: int| 0 <= k < places.len() && places[k] == m;
    assert(wanted(declared[places[0]]));
    if k > 0 {
        assert(places[0] < places[k]);
    }
    assert(Some(declared.filter_map(g)[0]) == g(declared[places[0]]));
}

/// Validation finds every problem and no other, and blames the right step for it, in this order:
/// required steps without handlers, extractors that nothing consumes and pending scopes, each by
/// the step; ordering constraints that do not hold, by the step that is missing or comes too
/// late; declarations of steps that are not there, producers first; resources that are consumed
/// and not produced, once each, by their first consumer; and producers that come too late for a
/// consumer.
pub proof fn law_every_problem_blames_its_step<K: Callbacks>(p: PipelineView<K>) -> (sections: Seq<
    Seq<Problem>,
>)
    ensures
        sections.len() == 8,
        validate::problems(p) == sections[0] + sections[1] + sections[2] + sections[3]
            + sections[4] + sections[5] + sections[6] + sections[7],
        blames(p.steps, lacks_handlers(), the_step(), sections[0]),
        blames(p.steps, wastes_extractor(), the_step(), sections[1]),
        blames(p.steps, leaves_scopes_pending(), the_step(), sections[2]),
        blames(p.ordering_constraints, is_violated(p), the_culprit(p), sections[3]),
        blames(p.produced_resources, is_dangling(p), the_declared(), sections[4]),
        blames(p.consumed_resources, is_dangling(p), the_declared(), sections[5]),
        blames_first_consumers(p, sections[6]),
        blames_late_producers(p, sections[7]),
        sections[0] == p.steps.filter_map(validate::missing_handlers()),
        sections[1] == p.steps.filter_map(validate::unused_extractor()),
        sections[2] == p.steps.filter_map(validate::unfinalized_scopes()),
        sections[3] == p.ordering_constraints.filter_map(validate::broken_ordering(p)),
        sections[4] == p.produced_resources.filter_map(validate::dangling(p, "producer"@)),
        sections[5] == p.consumed_resources.filter_map(validate::dangling(p, "consumer"@)),
        ({
            let orphans = p.consumed_resources.filter_map(validate::orphaned(p));
            sections[6] == validate::resources_of(orphans).map_values(
                validate::unproduced(orphans),
            )
        }),
        sections[7] == p.consumed_resources.flat_map(validate::late_producers(p)),
{
    let orphans = p.consumed_resources.filter_map(validate::orphaned(p));
    lemma_blames(p.steps, validate::missing_handlers::<K>(), lacks_handlers(), the_step());
    lemma_blames(p.steps, validate::unused_extractor::<K>(), wastes_extractor(), the_step());
    lemma_blames(
        p.steps,
        validate::unfinalized_scopes::<K>(),
        leaves_scopes_pending(),
        the_step(),
    );
    lemma_blames(
        p.ordering_constraints,
        validate::broken_ordering(p),
        is_violated(p),
        the_culprit(p),
    );
    lemma_blames(
        p.produced_resources,
        validate::dangling(p, "producer"@),
        is_dangling(p),
        the_declared(),
    );
    lemma_blames(
        p.consumed_resources,
        validate::dangling(p, "consumer"@),
        is_dangling(p),
        the_declared(),
    );
    lemma_first_consumers(p);
    let pairs = lemma_late_pairs(p, p.consumed_resources.len() as int);
    assert(p.consumed_resources.take(p.consumed_resources.len() as int)
        =~= p.consumed_resources);
    seq![
        p.steps.filter_map(validate::missing_handlers()),
        p.steps.filter_map(validate::unused_extractor()),
        p.steps.filter_map(validate::unfinalized_scopes()),
        p.ordering_constraints.filter_map(validate::broken_ordering(p)),
        p.produced_resources.filter_map(validate::dangling(p, "producer"@)),
        p.consumed_resources.filter_map(validate::dangling(p, "consumer"@)),
        validate::resources_of(orphans).map_values(validate::unproduced(orphans)),
        p.consumed_resources.flat_map(validate::late_producers(p)),
    ]
}

/// A pipeline validates exactly where it is set up soundly. A single problem is reported as it
/// is; of several, the report says how many there are and holds the message of each.
pub proof fn law_validation_reports_what_it_found<K: Callbacks>(p: Pipeline<K>, r: OrkaResult<()>)
    requires
        p.wf(),
        call_ensures(Pipeline::<K>::validate, (&p,), r),
    ensures
        r is Ok <==> validate_laws::is_sound(p@),
        r matches Err(e) ==> {
            let found = validate::problems(p@);
            &&& found.len() > 0
            &&& e matches OrkaError::ConfigurationError { step_name, message }
            &&& found.len() == 1 ==> step_name@ == found[0].0 && message@ == found[0].1
            &&& found.len() > 1 ==> {
                &&& step_name@ == "<"@ + text::decimal(found.len()) + " steps>"@
                &&& exists|lines: Seq<Seq<char>>| #[trigger]
                    text::joined(lines, "\n"@) == message@.skip(
                        ("pipeline validation found "@ + text::decimal(found.len())
                            + " problems:\n"@).len() as int,
                    ) && lines.len() == found.len() && forall|k: int|
                        0 <= k < lines.len() ==> #[trigger] lines[k] == "  - "@ + found[k].1
            }
        },
{
    validate_laws::law_validation_accepts_exactly_sound_pipelines(p@);
    if let Err(OrkaError::ConfigurationError { step_name, message }) = r {
        let found = validate::problems(p@);
        if found.len() > 1 {
            let lines = found.map_values(|p: Problem| "  - "@ + p.1);
            let heading = "pipeline validation found "@ + text::decimal(found.len())
                + " problems:\n"@;
            assert(message@ =~= heading + text::joined(lines, "\n"@));
            assert(text::joined(lines, "\n"@) =~= message@.skip(heading.len() as int));
        }
    }
}

/// The messages about two steps read alike but for the steps' names, whichever pipelines they
/// belong to, and each kind of problem has words of its own.
pub proof fn law_problems_of_steps_read_alike<K: Callbacks>(a: StepView<K>, b: StepView<K>)
    ensures
        validate::missing_handlers::<K>()(a) matches Some(x) ==> (
        validate::missing_handlers::<K>()(b) matches Some(y) ==> text_laws::read_alike(
            seq![text::quoted(a.name)],
            x.1,
            seq![text::quoted(b.name)],
            y.1,
        )),
        validate::unused_extractor::<K>()(a) matches Some(x) ==> (
        validate::unused_extractor::<K>()(b) matches Some(y) ==> text_laws::read_alike(
            seq![text::quoted(a.name)],
            x.1,
            seq![text::quoted(b.name)],
            y.1,
        )),
        validate::unfinalized_scopes::<K>()(a) matches Some(x) ==> (
        validate::unfinalized_scopes::<K>()(b) matches Some(y) ==> text_laws::read_alike(
            seq![text::quoted(a.name)],
            x.1,
            seq![text::quoted(b.name)],
            y.1,
        )),
{
    let missing = seq![
        "required step "@,
        " has no before/on/after handlers; register one or mark it optional"@,
    ];
    let unused = seq!["step "@, " has an extractor but no on::<SData> handler consuming it"@];
    let pending = seq![
        "step "@,
        " called conditional_scopes_for_step but never finalize_conditional_step(); its scopes were discarded"@,
    ];
    if let Some(x) = validate::missing_handlers::<K>()(a) {
        assert(text_laws::reads_as(missing, seq![text::quoted(a.name)], x.1));
    }
    if let Some(x) = validate::unused_extractor::<K>()(a) {
        assert(text_laws::reads_as(unused, seq![text::quoted(a.name)], x.1));
    }
    if let Some(x) = validate::unfinalized_scopes::<K>()(a) {
        assert(text_laws::reads_as(pending, seq![text::quoted(a.name)], x.1));
    }
}

/// What a message about a constraint reports: both steps with their positions where both are
/// there, and otherwise both names and the one that is missing.
pub open spec fn constraint_fields<K: Callbacks>(
    p: PipelineView<K>,
    c: (Seq<char>, Seq<char>),
) -> Seq<Seq<char>> {
    if p.has_step(c.0) && p.has_step(c.1) {
        seq![
            text::quoted(c.0),
            text::decimal(p.index_of(c.0) as nat),
            text::quoted(c.1),
            text::decimal(p.index_of(c.1) as nat),
        ]
    } else {
        seq![text::quoted(c.0), text::quoted(c.1), text::quoted(the_culprit(p)(c))]
    }
}

/// What a message about a production that comes too late reports: the resource, and both steps
/// with their positions.
pub open spec fn late_fields<K: Callbacks>(
    p: PipelineView<K>,
    production: Declaration,
    consumption: Declaration,
) -> Seq<Seq<char>> {
    seq![
        text::quoted(consumption.0),
        text::quoted(production.1),
        text::decimal(p.index_of(production.1) as nat),
        text::quoted(consumption.1),
        text::decimal(p.index_of(consumption.1) as nat),
    ]
}

/// The messages about two constraints of the same sort, about two declarations that dangle, and
/// about two productions that come too late read alike but for what they report, whichever
/// pipelines they belong to.
pub proof fn law_problems_of_declarations_read_alike<K: Callbacks>(
    p: PipelineView<K>,
    q: PipelineView<K>,
    a: Declaration,
    b: Declaration,
    a_used: Declaration,
    b_used: Declaration,
    role: Seq<char>,
    other: Seq<char>,
)
    ensures
        (p.has_step(a.0) && p.has_step(a.1)) == (q.has_step(b.0) && q.has_step(b.1)) ==> (
        validate::broken_ordering(p)(a) matches Some(x) ==> (validate::broken_ordering(q)(
            b,
        ) matches Some(y) ==> text_laws::read_alike(
            constraint_fields(p, a),
            x.1,
            constraint_fields(q, b),
            y.1,
        ))),
        validate::dangling(p, role)(a) matches Some(x) ==> (validate::dangling(q, other)(
            b,
        ) matches Some(y) ==> text_laws::read_alike(
            seq![text::quoted(a.1), role, text::quoted(a.0)],
            x.1,
            seq![text::quoted(b.1), other, text::quoted(b.0)],
            y.1,
        )),
        validate::late_producer(p, a_used)(a) matches Some(x) ==> (validate::late_producer(
            q,
            b_used,
        )(b) matches Some(y) ==> text_laws::read_alike(
            late_fields(p, a, a_used),
            x.1,
            late_fields(q, b, b_used),
            y.1,
        )),
{
    let violated = seq![
        "ordering constraint violated: "@,
        " (index "@,
        ") must precede "@,
        " (index "@,
        ")"@,
    ];
    let unknown = seq![
        "ordering constraint "@,
        " -> "@,
        " references unknown step "@,
        " (was it removed after the constraint was declared?)"@,
    ];
    if let Some(x) = validate::broken_ordering(p)(a) {
        if p.has_step(a.0) && p.has_step(a.1) {
            assert(text_laws::reads_as(violated, constraint_fields(p, a), x.1));
        } else {
            assert(text_laws::reads_as(unknown, constraint_fields(p, a), x.1));
        }
    }
    let declared = seq![
        Seq::empty(),
        " is declared as a "@,
        " of resource "@,
        " but is no longer a step in this pipeline"@,
    ];
    assert(Seq::<char>::empty() + text::quoted(a.1) =~= text::quoted(a.1));
    assert(Seq::<char>::empty() + text::quoted(b.1) =~= text::quoted(b.1));
    if let Some(x) = validate::dangling(p, role)(a) {
        assert(text_laws::reads_as(
            declared,
            seq![text::quoted(a.1), role, text::quoted(a.0)],
            x.1,
        ));
    }
    let late = seq![
        "resource "@,
        " is produced by "@,
        " (index "@,
        ") but consumed by "@,
        " (index "@,
        "), which runs earlier"@,
    ];
    if let Some(x) = validate::late_producer(p, a_used)(a) {
        assert(text_laws::reads_as(late, late_fields(p, a, a_used), x.1));
    }
}

/// The messages about two resources that nothing produces read alike but for the resource and
/// for its consumers, all of which are listed.
pub proof fn law_problems_of_resources_read_alike(
    orphans: Seq<Declaration>,
    others: Seq<Declaration>,
    a: Seq<char>,
    b: Seq<char>,
)
    ensures
        exists|a_steps: Seq<Seq<char>>, b_steps: Seq<Seq<char>>| #[trigger]
            are_consumers(orphans, a, a_steps) && #[trigger] are_consumers(others, b, b_steps)
                && text_laws::read_alike(
                seq![text::quoted(a), text::joined(a_steps, ", "@)],
                validate::unproduced(orphans)(a).1,
                seq![text::quoted(b), text::joined(b_steps, ", "@)],
                validate::unproduced(others)(b).1,
            ),
{
    let a_steps = lemma_consumers(orphans, a);
    let b_steps = lemma_consumers(others, b);
    let frame = seq![
        "resource "@,
        " is consumed by "@,
        " but no step produces it (was the producing step renamed or removed?)"@,
    ];
    assert(text_laws::reads_as(
        frame,
        seq![text::quoted(a), text::joined(a_steps, ", "@)],
        validate::unproduced(orphans)(a).1,
    ));
    assert(are_consumers(orphans, a, a_steps) && are_consumers(others, b, b_steps));
}

/// Whether a declaration is of this resource.
pub open spec fn is_of(resource: Seq<char>) -> spec_fn(Declaration) -> bool {
    |d: Declaration| d.0 == resource
}

/// Whether these are the steps that are declared for a resource, all of them and in order, each
/// between quotes.
pub open spec fn are_consumers(
    declared: Seq<Declaration>,
    resource: Seq<char>,
    steps: Seq<Seq<char>>,
) -> bool {
    exists|places: Seq<int>| #[trigger]
        seqs::picks(declared, is_of(resource), places) && places.len() == steps.len() && forall|
            k: int,
        |
            0 <= k < steps.len() ==> #[trigger] steps[k] == text::quoted(declared[places[k]].1)
}

proof fn lemma_consumers(declared: Seq<Declaration>, resource: Seq<char>) -> (steps: Seq<
    Seq<char>,
>)
    ensures
        steps == validate::quote_each(declared.filter_map(validate::steps_of(resource))),
        are_consumers(declared, resource, steps),
{
    let g = validate::steps_of(resource);
    let places = seqs::lemma_filter_map_picks(declared, g);
    assert((|d: Declaration| g(d) is Some) =~= is_of(resource));
    let steps = validate::quote_each(declared.filter_map(g));
    assert forall|k: int| 0 <= k < steps.len() implies #[trigger] steps[k] == text::quoted(
        declared[places[k]].1,
    ) by {
        assert(Some(declared.filter_map(g)[k]) == g(declared[places[k]]));
    }
    steps
}

} // verus!
