//! The pipeline's definition, and the methods that build and edit it.

use std::sync::Arc;
use vstd::prelude::*;

use crate::control::PipelineControl;
use crate::lock::Guarded;
use crate::trace::StepPhase;

verus! {

/// The callables and handles a pipeline carries without looking inside them.
///
/// A pipeline decides *which* of its handlers runs next and what follows from the result;
/// what a handler is (a boxed async closure, a plain function) is its user's choice, made
/// by implementing this trait.
pub trait Callbacks {
    /// A handler on the pipeline's own context.
    type Handler;

    /// A handler on a sub-context that the step's extractor produced.
    type SubHandler;

    /// A predicate deciding whether a step is skipped.
    type SkipCondition;

    /// Produces a step's sub-context, and possibly folds it back.
    type Extractor;

    /// A run-level finish handler.
    type FinishHandler;

    /// One conditional scope: its condition, its pipeline provider, its extractor.
    type Scope;

    /// An execution observer.
    type Observer: Clone;
}

/// The observer attachment slot of a pipeline, shared so that a conditional master handler
/// created before an observer was attached still sees a later attachment.
pub type ObserverSlot<O> = Arc<Guarded<Option<O>>>;

/// Puts what is to be attached from here on, if anything, in the place of what was attached
/// before.
pub fn replace_observer<O>(slot: &mut Option<O>, observer: Option<O>)
    ensures
        *final(slot) == observer,
{
    *slot = observer;
}

/// Whether `copy` is a clone of `held`.
pub open spec fn is_copy<O: Clone>(held: Option<O>, copy: Option<O>) -> bool {
    match (held, copy) {
        (Some(a), Some(b)) => cloned(a, b),
        (None, None) => true,
        _ => false,
    }
}

/// A clone of the attached observer, if there is one.
pub fn attached<O: Clone>(slot: &Option<O>) -> (r: Option<O>)
    ensures
        is_copy(*slot, r),
{
    slot.clone()
}

/// A step's name, optionality and skip condition.
pub struct StepDef<C> {
    pub name: String,
    pub optional: bool,
    /// If it evaluates to true at run time, the step is skipped.
    pub skip_if: Option<C>,
    /// Human-readable label for the skip condition.
    pub skip_label: Option<String>,
}

/// A handler working on the sub-context extracted for its step.
pub struct SubContextHandler<K: Callbacks> {
    pub step_name: String,
    /// The extractor in force when the handler was registered.
    pub extractor: Arc<K::Extractor>,
    pub handler: K::SubHandler,
}

/// The handler that dispatches to the first matching conditional scope of a step.
pub struct MasterHandler<K: Callbacks> {
    pub step_name: String,
    pub scopes: Vec<K::Scope>,
    /// What the step answers when no scope matches.
    pub on_no_match: PipelineControl,
    /// The slot of the pipeline that the handler was made for.
    pub observer: ObserverSlot<K::Observer>,
}

/// One handler registered for a step.
pub enum StepHandler<K: Callbacks> {
    /// Works on the pipeline's own context.
    Root(K::Handler),
    /// Works on the step's sub-context.
    Sub(SubContextHandler<K>),
    /// Dispatches to conditional scopes.
    Conditional(MasterHandler<K>),
    /// Does nothing and continues.
    Stub,
}

impl<K: Callbacks> StepHandler<K> {
    /// What the handler answers without being given the context, where it answers so: a stub
    /// continues, and leaves the context alone.
    pub fn immediate(&self) -> (r: Option<PipelineControl>)
        ensures
            r == match self {
                StepHandler::Stub => Some(PipelineControl::Continue),
                _ => None,
            },
    {
        match self {
            StepHandler::Stub => Some(PipelineControl::Continue),
            _ => None,
        }
    }
}

/// A step and everything registered against it.
pub struct StepEntry<K: Callbacks> {
    pub def: StepDef<K::SkipCondition>,
    pub before: Vec<StepHandler<K>>,
    pub on: Vec<StepHandler<K>>,
    pub after: Vec<StepHandler<K>>,
    pub extractor: Option<Arc<K::Extractor>>,
    /// Whether a handler consuming the extractor has been registered.
    pub sub_handled: bool,
    /// Whether conditional scopes were begun and not finalized.
    pub scopes_pending: bool,
}

/// An ordered list of named steps with their handlers, plus the declarations that
/// [`validate`](Self::validate) checks.
pub struct Pipeline<K: Callbacks> {
    pub steps: Vec<StepEntry<K>>,
    /// Declared ordering invariants, as (earlier step, later step).
    pub ordering_constraints: Vec<(String, String)>,
    /// Declared resource production, as (resource, producing step).
    pub produced_resources: Vec<(String, String)>,
    /// Declared resource consumption, as (resource, consuming step).
    pub consumed_resources: Vec<(String, String)>,
    /// Run-level finish handlers, invoked on every exit of a full run.
    pub finish_handlers: Vec<K::FinishHandler>,
    /// The attached execution observer, if any.
    pub observer: ObserverSlot<K::Observer>,
}

/// What a step is, as a mathematical value.
#[verifier::ext_equal]
pub struct StepView<K: Callbacks> {
    pub name: Seq<char>,
    pub optional: bool,
    pub skip_if: Option<K::SkipCondition>,
    pub skip_label: Option<Seq<char>>,
    pub before: Seq<StepHandler<K>>,
    pub on: Seq<StepHandler<K>>,
    pub after: Seq<StepHandler<K>>,
    pub extractor: Option<Arc<K::Extractor>>,
    pub sub_handled: bool,
    pub scopes_pending: bool,
}

/// What a pipeline is, as a mathematical value. Of the observers it says which slot holds the
/// attached one; what the slot holds may change at any time.
#[verifier::ext_equal]
pub struct PipelineView<K: Callbacks> {
    pub steps: Seq<StepView<K>>,
    pub ordering_constraints: Seq<(Seq<char>, Seq<char>)>,
    pub produced_resources: Seq<(Seq<char>, Seq<char>)>,
    pub consumed_resources: Seq<(Seq<char>, Seq<char>)>,
    pub finish_handlers: Seq<K::FinishHandler>,
    pub observer: ObserverSlot<K::Observer>,
}

impl<K: Callbacks> View for StepEntry<K> {
    type V = StepView<K>;

    open spec fn view(&self) -> StepView<K> {
        StepView {
            name: self.def.name@,
            optional: self.def.optional,
            skip_if: self.def.skip_if,
            skip_label: match self.def.skip_label {
                Some(label) => Some(label@),
                None => None,
            },
            before: self.before@,
            on: self.on@,
            after: self.after@,
            extractor: self.extractor,
            sub_handled: self.sub_handled,
            scopes_pending: self.scopes_pending,
        }
    }
}

/// The character views of a list of pairs of strings.
pub open spec fn pair_views(pairs: Seq<(String, String)>) -> Seq<(Seq<char>, Seq<char>)> {
    pairs.map_values(|p: (String, String)| (p.0@, p.1@))
}

impl<K: Callbacks> View for Pipeline<K> {
    type V = PipelineView<K>;

    open spec fn view(&self) -> PipelineView<K> {
        PipelineView {
            steps: self.steps@.map_values(|s: StepEntry<K>| s@),
            ordering_constraints: pair_views(self.ordering_constraints@),
            produced_resources: pair_views(self.produced_resources@),
            consumed_resources: pair_views(self.consumed_resources@),
            finish_handlers: self.finish_handlers@,
            observer: self.observer,
        }
    }
}

/// A required step of that name, with nothing registered against it.
pub open spec fn fresh_step<K: Callbacks>(name: Seq<char>) -> StepView<K> {
    StepView {
        name,
        optional: false,
        skip_if: None,
        skip_label: None,
        before: Seq::empty(),
        on: Seq::empty(),
        after: Seq::empty(),
        extractor: None,
        sub_handled: false,
        scopes_pending: false,
    }
}

impl<K: Callbacks> StepView<K> {
    /// The handlers registered for a phase.
    pub open spec fn phase(self, phase: StepPhase) -> Seq<StepHandler<K>> {
        match phase {
            StepPhase::Before => self.before,
            StepPhase::On => self.on,
            StepPhase::After => self.after,
        }
    }

    /// Whether any phase has a handler.
    pub open spec fn has_any_handlers(self) -> bool {
        self.before.len() > 0 || self.on.len() > 0 || self.after.len() > 0
    }
}

impl<K: Callbacks> PipelineView<K> {
    /// Whether `i` is the position of the step `name`.
    pub open spec fn is_at(self, i: int, name: Seq<char>) -> bool {
        0 <= i < self.steps.len() && self.steps[i].name == name
    }

    /// Whether the pipeline has a step of that name.
    pub open spec fn has_step(self, name: Seq<char>) -> bool {
        exists|i: int| self.is_at(i, name)
    }

    /// The position of a step the pipeline has.
    pub open spec fn index_of(self, name: Seq<char>) -> int {
        choose|i: int| self.is_at(i, name)
    }

    /// The pipeline's invariant: no two steps share a name.
    pub open spec fn wf(self) -> bool {
        forall|i: int, j: int|
            0 <= i < j < self.steps.len() ==> (#[trigger] self.steps[i]).name
                != (#[trigger] self.steps[j]).name
    }

    /// The same pipeline with the named step replaced by `step`.
    pub open spec fn with_step(self, name: Seq<char>, step: StepView<K>) -> Self {
        PipelineView { steps: self.steps.update(self.index_of(name), step), ..self }
    }

    /// The same pipeline without the named step; itself where it has no such step.
    pub open spec fn without_step(self, name: Seq<char>) -> Self {
        if self.has_step(name) {
            PipelineView { steps: self.steps.remove(self.index_of(name)), ..self }
        } else {
            self
        }
    }

    /// The same pipeline with a fresh step of that name at the end; itself where it already
    /// has such a step.
    pub open spec fn ensuring_step(self, name: Seq<char>) -> Self {
        if self.has_step(name) {
            self
        } else {
            PipelineView { steps: self.steps.push(fresh_step(name)), ..self }
        }
    }

    /// The named step.
    pub open spec fn step(self, name: Seq<char>) -> StepView<K> {
        self.steps[self.index_of(name)]
    }

    /// In a pipeline a name has one position.
    pub proof fn lemma_index_unique(self, i: int, name: Seq<char>)
        requires
            self.wf(),
            self.is_at(i, name),
        ensures
            self.has_step(name),
            self.index_of(name) == i,
    {
        let j = self.index_of(name);
        assert(self.is_at(j, name));
        assert(self.steps[i].name == self.steps[j].name);
    }
}

/// Whether the names are pairwise different.
pub open spec fn distinct_names(names: Seq<&str>) -> bool {
    forall|i: int, j: int|
        0 <= i < j < names.len() ==> (#[trigger] names[i])@ != (#[trigger] names[j])@
}

/// The position of the first name that occurs earlier in the list, if there is one.
pub fn first_duplicate(names: &[&str]) -> (r: Option<usize>)
    ensures
        match r {
            Some(i) => {
                &&& i < names@.len()
                &&& exists|j: int| 0 <= j < i && (#[trigger] names@[j])@ == names@[i as int]@
                &&& distinct_names(names@.take(i as int))
            },
            None => distinct_names(names@),
        },
{
    let mut i: usize = 0;
    while i < names.len()
        invariant
            i <= names.len(),
            distinct_names(names@.take(i as int)),
        decreases names.len() - i,
    {
        let wanted = names[i].to_string();
        let mut j: usize = 0;
        while j < i
            invariant
                j <= i < names.len(),
                wanted@ == names@[i as int]@,
                distinct_names(names@.take(i as int)),
                forall|k: int| 0 <= k < j ==> (#[trigger] names@[k])@ != names@[i as int]@,
            decreases i - j,
        {
            if names[j].to_string() == wanted {
                return Some(i);
            }
            j += 1;
        }
        proof {
            let longer = names@.take(i as int + 1);
            assert forall|a: int, b: int| 0 <= a < b < longer.len() implies (
            #[trigger] longer[a])@ != (#[trigger] longer[b])@ by {
                if b < i {
                    assert(names@.take(i as int)[a] == longer[a]);
                    assert(names@.take(i as int)[b] == longer[b]);
                }
            }
        }
        i += 1;
    }
    proof {
        assert(names@.take(i as int) =~= names@);
    }
    None
}

/// Two pipelines with the same steps know the same names.
proof fn lemma_same_steps<K: Callbacks>(a: PipelineView<K>, b: PipelineView<K>)
    requires
        a.steps == b.steps,
    ensures
        a.wf() == b.wf(),
        forall|name: Seq<char>| #[trigger] a.has_step(name) == b.has_step(name),
{
    assert forall|name: Seq<char>| #[trigger] a.has_step(name) == b.has_step(name) by {
        if a.has_step(name) {
            assert(b.is_at(a.index_of(name), name));
        }
        if b.has_step(name) {
            assert(a.is_at(b.index_of(name), name));
        }
    }
}

fn fresh_entry<K: Callbacks>(name: String) -> (r: StepEntry<K>)
    ensures
        r@ == fresh_step::<K>(name@),
{
    StepEntry {
        def: StepDef { name, optional: false, skip_if: None, skip_label: None },
        before: Vec::new(),
        on: Vec::new(),
        after: Vec::new(),
        extractor: None,
        sub_handled: false,
        scopes_pending: false,
    }
}

/// Replacing one step by another of the same name.
pub(crate) proof fn lemma_step_replaced<K: Callbacks>(before: Pipeline<K>, after: Pipeline<K>, i: int)
    requires
        before.wf(),
        0 <= i < before.steps@.len(),
        after.steps@ =~= before.steps@.update(i, after.steps@[i]),
        after.steps@[i]@.name == before.steps@[i]@.name,
        after.ordering_constraints == before.ordering_constraints,
        after.produced_resources == before.produced_resources,
        after.consumed_resources == before.consumed_resources,
        after.finish_handlers == before.finish_handlers,
        after.observer == before.observer,
    ensures
        after.wf(),
        after@ == before@.with_step(before.steps@[i]@.name, after.steps@[i]@),
{
    before@.lemma_index_unique(i, before.steps@[i]@.name);
    assert(after@.steps =~= before@.steps.update(i, after.steps@[i]@));
}

/// Inserting a fresh step of a new name.
proof fn lemma_step_inserted<K: Callbacks>(before: Pipeline<K>, after: Pipeline<K>, i: int)
    requires
        before.wf(),
        0 <= i <= before.steps@.len(),
        after.steps@ == before.steps@.insert(i, after.steps@[i]),
        !before@.has_step(after.steps@[i]@.name),
        after.ordering_constraints == before.ordering_constraints,
        after.produced_resources == before.produced_resources,
        after.consumed_resources == before.consumed_resources,
        after.finish_handlers == before.finish_handlers,
        after.observer == before.observer,
    ensures
        after.wf(),
        after@ == (PipelineView { steps: before@.steps.insert(i, after.steps@[i]@), ..before@ }),
{
    let entry = after.steps@[i];
    let steps = before@.steps.insert(i, entry@);
    assert(after@.steps =~= steps);
    assert forall|a: int, b: int| 0 <= a < b < steps.len() implies (#[trigger] steps[a]).name != (
    #[trigger] steps[b]).name by {
        let old_a = if a < i { a } else { a - 1 };
        let old_b = if b < i { b } else { b - 1 };
        if a == i {
            assert(before@.steps[old_b] == steps[b]);
            assert(!before@.is_at(old_b, entry@.name));
        } else if b == i {
            assert(before@.steps[old_a] == steps[a]);
            assert(!before@.is_at(old_a, entry@.name));
        } else {
            assert(before@.steps[old_a] == steps[a]);
            assert(before@.steps[old_b] == steps[b]);
        }
    }
}

impl<K: Callbacks> Pipeline<K> {
    /// Whether the pipeline's invariant holds.
    pub open spec fn wf(self) -> bool {
        self@.wf()
    }

    /// The position of the named step, if the pipeline has it.
    pub fn position(&self, step_name: &str) -> (r: Option<usize>)
        requires
            self.wf(),
        ensures
            match r {
                Some(i) => self@.is_at(i as int, step_name@) && self@.has_step(step_name@)
                    && self@.index_of(step_name@) == i,
                None => !self@.has_step(step_name@),
            },
    {
        let wanted = step_name.to_string();
        let mut i: usize = 0;
        while i < self.steps.len()
            invariant
                i <= self.steps.len(),
                wanted@ == step_name@,
                self.wf(),
                forall|j: int| 0 <= j < i ==> (#[trigger] self@.steps[j]).name != step_name@,
            decreases self.steps.len() - i,
        {
            if self.steps[i].def.name == wanted {
                proof {
                    self@.lemma_index_unique(i as int, step_name@);
                }
                return Some(i);
            }
            i += 1;
        }
        None
    }

    /// Creates a pipeline from an ordered list of step names.
    ///
    /// Every step starts out **required**, with no skip condition and no handlers.
    ///
    /// The names must be distinct; [`first_duplicate`] finds a repeated one.
    pub fn new(step_names: &[&str]) -> (r: Self)
        requires
            distinct_names(step_names@),
        ensures
            r.wf(),
            r@.steps == step_names@.map_values(|name: &str| fresh_step::<K>(name@)),
            r@.ordering_constraints.len() == 0,
            r@.produced_resources.len() == 0,
            r@.consumed_resources.len() == 0,
            r@.finish_handlers.len() == 0,
            r@.observer.origin() == None::<K::Observer>,
    {
        let mut steps: Vec<StepEntry<K>> = Vec::new();
        let mut i: usize = 0;
        while i < step_names.len()
            invariant
                i <= step_names.len(),
                steps@.len() == i,
                forall|j: int|
                    0 <= j < i ==> (#[trigger] steps@[j])@ == fresh_step::<K>(step_names@[j]@),
            decreases step_names.len() - i,
        {
            steps.push(fresh_entry(step_names[i].to_string()));
            i += 1;
        }
        let r = Pipeline {
            steps,
            ordering_constraints: Vec::new(),
            produced_resources: Vec::new(),
            consumed_resources: Vec::new(),
            finish_handlers: Vec::new(),
            observer: Arc::new(Guarded::new(None)),
        };
        proof {
            assert(r@.steps =~= step_names@.map_values(|name: &str| fresh_step::<K>(name@)));
        }
        r
    }

    /// Attaches an execution observer, replacing any attached before.
    ///
    /// The slot is shared and interior-mutable, so an observer can be attached to a pipeline
    /// already shared. A run takes the observer once, at its start.
    pub fn set_observer(&self, observer: K::Observer) -> (r: &Self)
        ensures
            r == self,
            self@.observer.ran_on(Some(observer), replace_observer::<K::Observer>, ()),
    {
        self.observer.with_arg(Some(observer), replace_observer::<K::Observer>);
        self
    }

    /// Detaches any attached observer.
    pub fn clear_observer(&self) -> (r: &Self)
        ensures
            r == self,
            self@.observer.ran_on(
                None::<K::Observer>,
                replace_observer::<K::Observer>,
                (),
            ),
    {
        self.observer.with_arg(None, replace_observer::<K::Observer>);
        self
    }

    /// The pipeline's step names, in execution order.
    pub fn step_names(&self) -> (r: Vec<String>)
        ensures
            r@.len() == self@.steps.len(),
            forall|i: int| 0 <= i < r@.len() ==> (#[trigger] r@[i])@ == self@.steps[i].name,
    {
        let mut names: Vec<String> = Vec::new();
        let mut i: usize = 0;
        while i < self.steps.len()
            invariant
                i <= self.steps.len(),
                names@.len() == i,
                forall|j: int| 0 <= j < i ==> (#[trigger] names@[j])@ == self@.steps[j].name,
            decreases self.steps.len() - i,
        {
            names.push(self.steps[i].def.name.clone());
            i += 1;
        }
        names
    }

    /// Whether the step has at least one handler registered for the given phase.
    pub fn has_handlers(&self, step_name: &str, phase: StepPhase) -> (r: bool)
        requires
            self.wf(),
            self@.has_step(step_name@),
        ensures
            r == (self@.step(step_name@).phase(phase).len() > 0),
    {
        let i = self.position(step_name).unwrap();
        match phase {
            StepPhase::Before => self.steps[i].before.len() > 0,
            StepPhase::On => self.steps[i].on.len() > 0,
            StepPhase::After => self.steps[i].after.len() > 0,
        }
    }

    /// Inserts a new required step immediately before an existing one.
    pub fn insert_before_step(&mut self, existing_step_name: &str, new_step_name: &str) -> (r:
        &mut Self)
        requires
            old(self).wf(),
            old(self)@.has_step(existing_step_name@),
            !old(self)@.has_step(new_step_name@),
        ensures
            r.wf(),
            r@ == (PipelineView {
                steps: old(self)@.steps.insert(
                    old(self)@.index_of(existing_step_name@),
                    fresh_step(new_step_name@),
                ),
                ..old(self)@
            }),
            *final(self) == *final(r),
    {
        let i = self.position(existing_step_name).unwrap();
        let ghost before = *self;
        self.steps.insert(i, fresh_entry(new_step_name.to_string()));
        proof {
            lemma_step_inserted(before, *self, i as int);
        }
        self
    }

    /// Inserts a new required step immediately after an existing one.
    pub fn insert_after_step(&mut self, existing_step_name: &str, new_step_name: &str) -> (r:
        &mut Self)
        requires
            old(self).wf(),
            old(self)@.has_step(existing_step_name@),
            !old(self)@.has_step(new_step_name@),
        ensures
            r.wf(),
            r@ == (PipelineView {
                steps: old(self)@.steps.insert(
                    old(self)@.index_of(existing_step_name@) + 1,
                    fresh_step(new_step_name@),
                ),
                ..old(self)@
            }),
            *final(self) == *final(r),
    {
        let i = self.position(existing_step_name).unwrap();
        let ghost before = *self;
        assert(i < self.steps.len());
        self.steps.insert(i + 1, fresh_entry(new_step_name.to_string()));
        proof {
            lemma_step_inserted(before, *self, i + 1);
        }
        self
    }

    /// Appends a step of that name if the pipeline does not have one.
    pub(crate) fn ensure_step(&mut self, step_name: &str) -> (i: usize)
        requires
            old(self).wf(),
        ensures
            final(self).wf(),
            final(self)@ == old(self)@.ensuring_step(step_name@),
            final(self)@.is_at(i as int, step_name@),
    {
        match self.position(step_name) {
            Some(i) => i,
            None => {
                let i = self.steps.len();
                let ghost before = *self;
                self.steps.push(fresh_entry(step_name.to_string()));
                proof {
                    assert(self.steps@ =~= before.steps@.insert(i as int, self.steps@[i as int]));
                    lemma_step_inserted(before, *self, i as int);
                    assert(self@.steps =~= before@.steps.push(fresh_step(step_name@)));
                }
                i
            },
        }
    }

    /// Removes a step and everything registered against it. Removing an unknown step is a
    /// no-op.
    ///
    /// Ordering constraints and resource declarations referencing the step are deliberately
    /// **not** removed: they dangle, and [`validate`](Self::validate) reports them.
    pub fn remove_step(&mut self, step_name: &str) -> (r: &mut Self)
        requires
            old(self).wf(),
        ensures
            r.wf(),
            r@ == old(self)@.without_step(step_name@),
            !r@.has_step(step_name@),
            *final(self) == *final(r),
    {
        if let Some(i) = self.position(step_name) {
            let ghost before = *self;
            self.steps.remove(i);
            proof {
                let steps = before@.steps.remove(i as int);
                assert(self@.steps =~= steps);
                assert forall|a: int, b: int| 0 <= a < b < steps.len() implies (
                #[trigger] steps[a]).name != (#[trigger] steps[b]).name by {
                    let old_a = if a < i { a } else { a + 1 };
                    let old_b = if b < i { b } else { b + 1 };
                    assert(before@.steps[old_a] == steps[a]);
                    assert(before@.steps[old_b] == steps[b]);
                }
                assert forall|a: int| !self@.is_at(a, step_name@) by {
                    if 0 <= a < steps.len() {
                        let old_a = if a < i { a } else { a + 1 };
                        assert(before@.steps[old_a] == steps[a]);
                        assert(before@.steps[i as int].name == step_name@);
                    }
                }
            }
        }
        self
    }

    /// Marks a step optional: it is skipped rather than failing when it has no handlers, and
    /// errors from its conditional scopes are swallowed, whether these were finalized before
    /// or after.
    pub fn optional(&mut self, step_name: &str) -> (r: &mut Self)
        requires
            old(self).wf(),
            old(self)@.has_step(step_name@),
        ensures
            r.wf(),
            r@ == old(self)@.with_step(
                step_name@,
                (StepView { optional: true, ..old(self)@.step(step_name@) }),
            ),
            *final(self) == *final(r),
    {
        let i = self.position(step_name).unwrap();
        let ghost before = *self;
        self.steps[i].def.optional = true;
        proof {
            lemma_step_replaced(before, *self, i as int);
        }
        self
    }

    /// Marks a step required (the default). Inverse of [`optional`](Self::optional).
    pub fn required(&mut self, step_name: &str) -> (r: &mut Self)
        requires
            old(self).wf(),
            old(self)@.has_step(step_name@),
        ensures
            r.wf(),
            r@ == old(self)@.with_step(
                step_name@,
                (StepView { optional: false, ..old(self)@.step(step_name@) }),
            ),
            *final(self) == *final(r),
    {
        let i = self.position(step_name).unwrap();
        let ghost before = *self;
        self.steps[i].def.optional = false;
        proof {
            lemma_step_replaced(before, *self, i as int);
        }
        self
    }

    /// Sets a predicate that, when it holds at run time, skips this step entirely. Any label
    /// set earlier is cleared.
    pub fn skip_if(&mut self, step_name: &str, cond: K::SkipCondition) -> (r: &mut Self)
        requires
            old(self).wf(),
            old(self)@.has_step(step_name@),
        ensures
            r.wf(),
            r@ == old(self)@.with_step(
                step_name@,
                (StepView {
                    skip_if: Some(cond),
                    skip_label: None,
                    ..old(self)@.step(step_name@)
                }),
            ),
            *final(self) == *final(r),
    {
        let i = self.position(step_name).unwrap();
        let ghost before = *self;
        self.steps[i].def.skip_if = Some(cond);
        self.steps[i].def.skip_label = None;
        proof {
            lemma_step_replaced(before, *self, i as int);
        }
        self
    }

    /// As [`skip_if`](Self::skip_if), with a human-readable label that plans and skip events
    /// carry.
    pub fn skip_if_labeled(&mut self, step_name: &str, label: &str, cond: K::SkipCondition) -> (r:
        &mut Self)
        requires
            old(self).wf(),
            old(self)@.has_step(step_name@),
        ensures
            r.wf(),
            r@ == old(self)@.with_step(
                step_name@,
                (StepView {
                    skip_if: Some(cond),
                    skip_label: Some(label@),
                    ..old(self)@.step(step_name@)
                }),
            ),
            *final(self) == *final(r),
    {
        let i = self.position(step_name).unwrap();
        let ghost before = *self;
        self.steps[i].def.skip_if = Some(cond);
        self.steps[i].def.skip_label = Some(label.to_string());
        proof {
            lemma_step_replaced(before, *self, i as int);
        }
        self
    }

    /// Clears any skip condition and its label.
    pub fn clear_skip_condition(&mut self, step_name: &str) -> (r: &mut Self)
        requires
            old(self).wf(),
            old(self)@.has_step(step_name@),
        ensures
            r.wf(),
            r@ == old(self)@.with_step(
                step_name@,
                (StepView { skip_if: None, skip_label: None, ..old(self)@.step(step_name@) }),
            ),
            *final(self) == *final(r),
    {
        let i = self.position(step_name).unwrap();
        let ghost before = *self;
        self.steps[i].def.skip_if = None;
        self.steps[i].def.skip_label = None;
        proof {
            lemma_step_replaced(before, *self, i as int);
        }
        self
    }

    /// Declares an ordering invariant: `before` must appear earlier in the step order than
    /// `after`. Checked by [`validate`](Self::validate), not at run time.
    pub fn must_precede(&mut self, before: &str, after: &str) -> (r: &mut Self)
        requires
            old(self).wf(),
            old(self)@.has_step(before@),
            old(self)@.has_step(after@),
            before@ != after@,
        ensures
            r.wf(),
            r@ == (PipelineView {
                ordering_constraints: old(self)@.ordering_constraints.push((before@, after@)),
                ..old(self)@
            }),
            *final(self) == *final(r),
    {
        self.ordering_constraints.push((before.to_string(), after.to_string()));
        proof {
            assert(self@.ordering_constraints =~= old(self)@.ordering_constraints.push(
                (before@, after@),
            ));
        }
        self
    }

    /// [`must_precede`](Self::must_precede) against several later steps at once.
    pub fn must_precede_all(&mut self, before: &str, afters: &[&str]) -> (r: &mut Self)
        requires
            old(self).wf(),
            old(self)@.has_step(before@),
            forall|i: int|
                0 <= i < afters@.len() ==> old(self)@.has_step((#[trigger] afters@[i])@)
                    && afters@[i]@ != before@,
        ensures
            r.wf(),
            r@ == (PipelineView {
                ordering_constraints: old(self)@.ordering_constraints + afters@.map_values(
                    |after: &str| (before@, after@),
                ),
                ..old(self)@
            }),
            *final(self) == *final(r),
    {
        let ghost start = self@;
        let ghost added = afters@.map_values(|after: &str| (before@, after@));
        let mut i: usize = 0;
        while i < afters.len()
            invariant
                i <= afters.len(),
                added == afters@.map_values(|after: &str| (before@, after@)),
                start.has_step(before@),
                forall|j: int|
                    0 <= j < afters@.len() ==> start.has_step((#[trigger] afters@[j])@)
                        && afters@[j]@ != before@,
                self.wf(),
                self@ == (PipelineView {
                    ordering_constraints: start.ordering_constraints + added.take(i as int),
                    ..start
                }),
            decreases afters.len() - i,
        {
            proof {
                assert(forall|name: Seq<char>, k: int|
                    self@.is_at(k, name) == start.is_at(k, name));
                lemma_same_steps(self@, start);
            }
            self.must_precede(before, afters[i]);
            proof {
                assert(start.ordering_constraints + added.take(i as int + 1) =~= (
                start.ordering_constraints + added.take(i as int)).push(
                    (before@, afters@[i as int]@),
                ));
            }
            i += 1;
        }
        proof {
            assert(added.take(i as int) =~= added);
        }
        self
    }

    /// Declares that a step produces a named resource: a value later steps read out of the
    /// context.
    pub fn produces(&mut self, step_name: &str, resource: &str) -> (r: &mut Self)
        requires
            old(self).wf(),
            old(self)@.has_step(step_name@),
        ensures
            r.wf(),
            r@ == (PipelineView {
                produced_resources: old(self)@.produced_resources.push((resource@, step_name@)),
                ..old(self)@
            }),
            *final(self) == *final(r),
    {
        self.produced_resources.push((resource.to_string(), step_name.to_string()));
        proof {
            assert(self@.produced_resources =~= old(self)@.produced_resources.push(
                (resource@, step_name@),
            ));
        }
        self
    }

    /// Declares the steps that read a resource, the counterpart to
    /// [`produces`](Self::produces).
    pub fn consumed_by(&mut self, resource: &str, steps: &[&str]) -> (r: &mut Self)
        requires
            old(self).wf(),
            forall|i: int| 0 <= i < steps@.len() ==> old(self)@.has_step((#[trigger] steps@[i])@),
        ensures
            r.wf(),
            r@ == (PipelineView {
                consumed_resources: old(self)@.consumed_resources + steps@.map_values(
                    |step: &str| (resource@, step@),
                ),
                ..old(self)@
            }),
            *final(self) == *final(r),
    {
        let ghost start = self@;
        let ghost added = steps@.map_values(|step: &str| (resource@, step@));
        let mut i: usize = 0;
        while i < steps.len()
            invariant
                i <= steps.len(),
                added == steps@.map_values(|step: &str| (resource@, step@)),
                self.wf(),
                self@ == (PipelineView {
                    consumed_resources: start.consumed_resources + added.take(i as int),
                    ..start
                }),
            decreases steps.len() - i,
        {
            let ghost before = self@;
            self.consumed_resources.push((resource.to_string(), steps[i].to_string()));
            proof {
                assert(self@.consumed_resources =~= before.consumed_resources.push(
                    (resource@, steps@[i as int]@),
                ));
                assert(start.consumed_resources + added.take(i as int + 1) =~= (
                start.consumed_resources + added.take(i as int)).push(
                    (resource@, steps@[i as int]@),
                ));
            }
            i += 1;
        }
        proof {
            assert(added.take(i as int) =~= added);
        }
        self
    }
}

} // verus!
