//! A registry of pipelines, keyed by the type of data they run on.

use std::any::TypeId;
use vstd::prelude::*;

use crate::error;
use crate::error::{OrkaError, OrkaResult};
use crate::lock::Guarded;
use crate::pipeline::definition::{Callbacks, Pipeline, PipelineView};
use crate::pipeline::validate;
use crate::pipeline::validate_laws;
use crate::trace::RunOutcome;

verus! {

/// `std::any::TypeId`, the identity of a type.
#[verifier::external_type_specification]
#[verifier::external_body]
pub struct ExTypeId(TypeId);

/// `==` on `std::any::TypeId`: an identifier is unique to its type, so two of them are equal
/// exactly when they are the same identifier.
#[verifier::external_body]
fn same_type(a: &TypeId, b: &TypeId) -> (r: bool)
    ensures
        r == (*a == *b),
{
    a == b
}

/// What is registered for one data type: something that can run, and the pipeline it came
/// from where it was registered as one.
pub struct Registration<R, P> {
    pub runner: R,
    pub pipeline: Option<P>,
}

/// The registrations by data type, at most one for each.
pub struct Registrations<R, P> {
    entries: Vec<(TypeId, Registration<R, P>)>,
}

/// Whether the entry at `i` is that of `key`.
spec fn is_at<V>(entries: Seq<(TypeId, V)>, i: int, key: TypeId) -> bool {
    0 <= i < entries.len() && entries[i].0 == key
}

/// No key has two entries.
spec fn unique<V>(entries: Seq<(TypeId, V)>) -> bool {
    forall|i: int, j: int|
        0 <= i < entries.len() && 0 <= j < entries.len() && (#[trigger] entries[i]).0 == (
        #[trigger] entries[j]).0 ==> i == j
}

/// The entries as a map.
spec fn table<V>(entries: Seq<(TypeId, V)>) -> Map<TypeId, V> {
    Map::new(
        |key: TypeId| exists|i: int| #[trigger] is_at(entries, i, key),
        |key: TypeId| entries[choose|i: int| #[trigger] is_at(entries, i, key)].1,
    )
}

proof fn lemma_entry<V>(entries: Seq<(TypeId, V)>, i: int, key: TypeId)
    requires
        unique(entries),
        is_at(entries, i, key),
    ensures
        table(entries).contains_key(key),
        table(entries)[key] == entries[i].1,
{
    let chosen = choose|i: int| #[trigger] is_at(entries, i, key);
    assert(is_at(entries, chosen, key));
    assert(entries[chosen].0 == entries[i].0);
}

proof fn lemma_replaced<V>(entries: Seq<(TypeId, V)>, i: int, key: TypeId, value: V)
    requires
        unique(entries),
        is_at(entries, i, key),
    ensures
        unique(entries.update(i, (key, value))),
        table(entries.update(i, (key, value))) == table(entries).insert(key, value),
{
    let after = entries.update(i, (key, value));
    assert forall|k: int, j: int|
        0 <= k < after.len() && 0 <= j < after.len() && (#[trigger] after[k]).0 == (
        #[trigger] after[j]).0 implies k == j by {
        assert(after[k].0 == entries[k].0 && after[j].0 == entries[j].0);
    }
    assert(is_at(after, i, key));
    assert forall|k: TypeId|
        #[trigger] table(after).contains_key(k) == table(entries).insert(key, value).contains_key(
            k,
        ) by {
        if table(entries).contains_key(k) {
            assert(is_at(after, choose|j: int| #[trigger] is_at(entries, j, k), k));
        }
        if table(after).contains_key(k) {
            assert(is_at(entries, choose|j: int| #[trigger] is_at(after, j, k), k));
        }
    }
    assert forall|k: TypeId| #[trigger] table(after).contains_key(k) implies table(after)[k]
        == table(entries).insert(key, value)[k] by {
        let j = choose|j: int| #[trigger] is_at(after, j, k);
        lemma_entry(after, j, k);
        assert(is_at(entries, j, k));
        lemma_entry(entries, j, k);
    }
    assert(table(after) =~= table(entries).insert(key, value));
}

proof fn lemma_appended<V>(entries: Seq<(TypeId, V)>, key: TypeId, value: V)
    requires
        unique(entries),
        forall|i: int| !is_at(entries, i, key),
    ensures
        unique(entries.push((key, value))),
        table(entries.push((key, value))) == table(entries).insert(key, value),
{
    let after = entries.push((key, value));
    let last = entries.len() as int;
    assert forall|k: int, j: int|
        0 <= k < after.len() && 0 <= j < after.len() && (#[trigger] after[k]).0 == (
        #[trigger] after[j]).0 implies k == j by {
        assert(!is_at(entries, k, key));
        assert(!is_at(entries, j, key));
        if k < last && j < last {
            assert(after[k] == entries[k] && after[j] == entries[j]);
        }
    }
    assert(is_at(after, last, key));
    assert forall|k: TypeId|
        #[trigger] table(after).contains_key(k) == table(entries).insert(key, value).contains_key(
            k,
        ) by {
        if table(entries).contains_key(k) {
            assert(is_at(after, choose|j: int| #[trigger] is_at(entries, j, k), k));
        }
        if table(after).contains_key(k) {
            let j = choose|j: int| #[trigger] is_at(after, j, k);
            if j < last {
                assert(is_at(entries, j, k));
            }
        }
    }
    assert forall|k: TypeId| #[trigger] table(after).contains_key(k) implies table(after)[k]
        == table(entries).insert(key, value)[k] by {
        let j = choose|j: int| #[trigger] is_at(after, j, k);
        lemma_entry(after, j, k);
        if j < last {
            assert(is_at(entries, j, k));
            lemma_entry(entries, j, k);
        }
    }
    assert(table(after) =~= table(entries).insert(key, value));
}

impl<R, P> View for Registrations<R, P> {
    type V = Map<TypeId, Registration<R, P>>;

    closed spec fn view(&self) -> Map<TypeId, Registration<R, P>> {
        table(self.entries@)
    }
}

impl<R, P> Registrations<R, P> {
    #[verifier::type_invariant]
    spec fn inv(self) -> bool {
        unique(self.entries@)
    }

    /// No registrations.
    pub fn new() -> (r: Self)
        ensures
            r@ == Map::<TypeId, Registration<R, P>>::empty(),
    {
        let r = Registrations { entries: Vec::new() };
        proof {
            assert(r@ =~= Map::<TypeId, Registration<R, P>>::empty());
        }
        r
    }

    fn position(&self, key: &TypeId) -> (r: Option<usize>)
        ensures
            match r {
                Some(i) => is_at(self.entries@, i as int, *key),
                None => forall|i: int| !is_at(self.entries@, i, *key),
            },
    {
        let mut i: usize = 0;
        while i < self.entries.len()
            invariant
                i <= self.entries.len(),
                forall|j: int| 0 <= j < i ==> !is_at(self.entries@, j, *key),
            decreases self.entries.len() - i,
        {
            if same_type(&self.entries[i].0, key) {
                return Some(i);
            }
            i += 1;
        }
        None
    }

    /// Registers `registration` for `key`, replacing what was registered for it before.
    pub fn insert(&mut self, key: TypeId, registration: Registration<R, P>)
        ensures
            final(self)@ == old(self)@.insert(key, registration),
    {
        proof {
            use_type_invariant(&*self);
        }
        let position = self.position(&key);
        let mut entries: Vec<(TypeId, Registration<R, P>)> = Vec::new();
        std::mem::swap(&mut entries, &mut self.entries);
        match position {
            Some(i) => {
                proof {
                    lemma_replaced(entries@, i as int, key, registration);
                }
                entries.set(i, (key, registration));
            },
            None => {
                proof {
                    lemma_appended(entries@, key, registration);
                }
                entries.push((key, registration));
            },
        }
        self.entries = entries;
    }

    /// The registration for `key`.
    pub fn get(&self, key: &TypeId) -> (r: Option<&Registration<R, P>>)
        ensures
            match r {
                Some(registration) => self@.contains_key(*key) && *registration == self@[*key],
                None => !self@.contains_key(*key),
            },
    {
        proof {
            use_type_invariant(self);
        }
        match self.position(key) {
            Some(i) => {
                proof {
                    lemma_entry(self.entries@, i as int, *key);
                }
                Some(&self.entries[i].1)
            },
            None => None,
        }
    }

    /// Registers what was made of a pipeline for its key: a runner and a handle on the pipeline.
    /// Where the pipeline was found unsound, its problem is handed back and the registrations
    /// stay as they were.
    pub fn register_checked(&mut self, of: (TypeId, OrkaResult<(R, P)>)) -> (r: OrkaResult<()>)
        ensures
            match of.1 {
                Ok(made) => r is Ok && final(self)@ == old(self)@.insert(
                    of.0,
                    (Registration { runner: made.0, pipeline: Some(made.1) }),
                ),
                Err(e) => r == Err::<(), OrkaError>(e) && final(self)@ == old(self)@,
            },
    {
        match of.1 {
            Ok((runner, pipeline)) => {
                self.insert(of.0, Registration { runner, pipeline: Some(pipeline) });
                Ok(())
            },
            Err(e) => Err(e),
        }
    }

    /// Registers a runner for its key, without a pipeline.
    pub fn register_runner(&mut self, of: (TypeId, R))
        ensures
            final(self)@ == old(self)@.insert(
                of.0,
                (Registration { runner: of.1, pipeline: None::<P> }),
            ),
    {
        self.insert(of.0, Registration { runner: of.1, pipeline: None });
    }
}

impl<R: Clone, P: Clone> Registrations<R, P> {
    /// The pipeline registered for `key`, where it was registered as one.
    pub fn pipeline(&self, key: TypeId) -> (r: Option<P>)
        ensures
            is_pipeline(self@, key, r),
    {
        match self.get(&key) {
            Some(registration) => registration.pipeline.clone(),
            None => None,
        }
    }

    /// What runs the registration for a key; the error names the data type where there is
    /// none.
    pub fn runner(&self, wanted: (TypeId, &str)) -> (r: Result<R, OrkaError>)
        ensures
            is_runner(self@, wanted.0, wanted.1@, r),
    {
        match self.get(&wanted.0) {
            Some(registration) => Ok(registration.runner.clone()),
            None => Err(unregistered(wanted.1)),
        }
    }
}

/// Whether `r` is the verdict on a definition: `Ok` where it has no problems, and otherwise
/// the error that reports them.
pub open spec fn is_validated<K: Callbacks>(
    definition: PipelineView<K>,
    r: OrkaResult<()>,
) -> bool {
    match r {
        Ok(()) => validate::problems(definition).len() == 0,
        Err(e) => {
            &&& validate::problems(definition).len() > 0
            &&& e matches OrkaError::ConfigurationError { step_name, message }
            &&& (step_name@, message@) == validate::report(validate::problems(definition))
        },
    }
}

/// Whether `checked` is what a definition is registered as: what `make` made of it, where it has
/// no problems, and otherwise the error that reports them.
pub open spec fn is_checked<K: Callbacks, M, F: FnOnce(Pipeline<K>) -> M>(
    definition: Pipeline<K>,
    make: F,
    checked: OrkaResult<M>,
) -> bool {
    match checked {
        Ok(made) => is_validated(definition@, Ok(())) && make.ensures((definition,), made),
        Err(e) => is_validated(definition@, Err(e)),
    }
}

/// What a pipeline is registered as: what `make` makes of it, provided that it validates.
pub fn check<K: Callbacks, M, F: FnOnce(Pipeline<K>) -> M>(definition: Pipeline<K>, make: F) -> (r:
    OrkaResult<M>)
    requires
        definition.wf(),
        make.requires((definition,)),
    ensures
        is_checked(definition, make, r),
{
    match definition.validate() {
        Ok(()) => Ok(make(definition)),
        Err(e) => Err(e),
    }
}

/// Whether `r` is what the registrations hold for `key`: the runner, or the error that no
/// pipeline is registered for the data type.
pub open spec fn is_runner<R: Clone, P>(
    held: Map<TypeId, Registration<R, P>>,
    key: TypeId,
    data_type: Seq<char>,
    r: Result<R, OrkaError>,
) -> bool {
    match r {
        Ok(runner) => held.contains_key(key) && cloned(held[key].runner, runner),
        Err(e) => !held.contains_key(key) && is_unregistered(e, data_type),
    }
}

/// Whether `r` is the pipeline registered for `key`, `None` where there is no registration
/// or it was made without one.
pub open spec fn is_pipeline<R, P: Clone>(
    held: Map<TypeId, Registration<R, P>>,
    key: TypeId,
    r: Option<P>,
) -> bool {
    match r {
        Some(pipeline) => held.contains_key(key) && (held[key].pipeline matches Some(registered)
            && cloned(registered, pipeline)),
        None => !held.contains_key(key) || held[key].pipeline is None,
    }
}

/// Whether `e` reports that no pipeline is registered for the data type.
pub open spec fn is_unregistered(e: OrkaError, data_type: Seq<char>) -> bool {
    e matches OrkaError::ConfigurationError { step_name, message } && step_name@
        == "Orka::run"@ && message@ == "No pipeline registered for TData type "@ + data_type
}

/// The error of a run for which no pipeline is registered.
pub fn unregistered(data_type: &str) -> (r: OrkaError)
    ensures
        is_unregistered(r, data_type@),
{
    let mut message = "No pipeline registered for TData type ".to_string();
    message.append(data_type);
    OrkaError::ConfigurationError { step_name: "Orka::run".to_string(), message }
}

/// The error of a run whose context is not one of the registered data type.
pub fn dispatch_mismatch(expected_type: &str) -> (r: OrkaError)
    ensures
        r matches OrkaError::TypeMismatch { step_name, expected_type: expected } && step_name@
            == "registry_dispatch"@ && expected@ == expected_type@,
{
    OrkaError::TypeMismatch {
        step_name: "registry_dispatch".to_string(),
        expected_type: expected_type.to_string(),
    }
}

/// The outcome of a run that the registry refused with `error`: it names the stage of the
/// refusal in place of a step, and carries the error's message.
pub fn refused_outcome(error: &OrkaError) -> (r: RunOutcome)
    requires
        error is ConfigurationError || error is TypeMismatch,
    ensures
        r matches RunOutcome::Errored { step, message } && message@ == error::error_text(
            *error,
            Seq::empty(),
        ) && match *error {
            OrkaError::ConfigurationError { step_name, .. } => step@ == step_name@,
            OrkaError::TypeMismatch { step_name, .. } => step@ == step_name@,
            _ => false,
        },
{
    let message = error.to_string();
    match error {
        OrkaError::ConfigurationError { step_name, .. } => {
            RunOutcome::Errored { step: step_name.clone(), message }
        },
        OrkaError::TypeMismatch { step_name, .. } => {
            RunOutcome::Errored { step: step_name.clone(), message }
        },
        _ => RunOutcome::Errored { step: String::new(), message },
    }
}

/// The last registration for a data type is the one in force, and registering for one data
/// type leaves every other as it was.
pub proof fn law_the_last_registration_wins<R, P>(
    held: Map<TypeId, Registration<R, P>>,
    key: TypeId,
    first: Registration<R, P>,
    second: Registration<R, P>,
    other: TypeId,
)
    requires
        other != key,
    ensures
        ({
            let after = held.insert(key, first).insert(key, second);
            &&& after == held.insert(key, second)
            &&& after.contains_key(key) && after[key] == second
            &&& after.contains_key(other) == held.contains_key(other)
            &&& held.contains_key(other) ==> after[other] == held[other]
        }),
{
    assert(held.insert(key, first).insert(key, second) =~= held.insert(key, second));
}

/// A type-keyed registry of pipelines.
///
/// `R` is what runs a registration and `P` is a handle on a registered pipeline; both are
/// handles that can be cloned out of the registry. Any handle may register at any time, so a
/// contract says what was run on the [`Registrations`] behind this registry's lock.
#[verifier::reject_recursive_types(R)]
#[verifier::reject_recursive_types(P)]
pub struct Orka<R, P> {
    registry: Guarded<Registrations<R, P>>,
}

impl<R: Clone, P: Clone> Orka<R, P> {
    /// The registrations that the registry was made with.
    pub closed spec fn origin(self) -> Map<TypeId, Registration<R, P>> {
        self.registry.origin()@
    }

    /// An empty registry.
    pub fn new() -> (r: Self)
        ensures
            r.origin() == Map::<TypeId, Registration<R, P>>::empty(),
    {
        Orka { registry: Guarded::new(Registrations::new()) }
    }

    /// The registrations, behind their lock.
    pub closed spec fn registrations(self) -> Guarded<Registrations<R, P>> {
        self.registry
    }

    /// Registers a pipeline for `key`, replacing any previous registration: what runs it and a
    /// handle on it are what `make` makes of it.
    ///
    /// The pipeline is validated first, so a setup mistake surfaces here rather than on the
    /// first run; it leaves the registrations as they were.
    pub fn register_pipeline<K: Callbacks, F: FnOnce(Pipeline<K>) -> (R, P)>(
        &self,
        key: TypeId,
        definition: Pipeline<K>,
        make: F,
    ) -> (r: OrkaResult<()>)
        requires
            definition.wf(),
            make.requires((definition,)),
        ensures
            is_validated(definition@, r),
            exists|checked: OrkaResult<(R, P)>| #[trigger]
                self.registrations().ran_on(
                    (key, checked),
                    Registrations::<R, P>::register_checked,
                    r,
                ) && is_checked(definition, make, checked),
    {
        let checked = check(definition, make);
        let ghost held = checked;
        let r = self.registry.with_arg((key, checked), Registrations::<R, P>::register_checked);
        assert(self.registrations().ran_on(
            (key, held),
            Registrations::<R, P>::register_checked,
            r,
        ));
        r
    }

    /// Registers any runner for `key`, replacing any previous registration. No validation
    /// runs; the runner is trusted as it is, and [`pipeline`](Self::pipeline) has nothing to
    /// hand back for it.
    pub fn register_runner(&self, key: TypeId, runner: R)
        ensures
            self.registrations().ran_on(
                (key, runner),
                Registrations::<R, P>::register_runner,
                (),
            ),
    {
        self.registry.with_arg((key, runner), Registrations::<R, P>::register_runner);
    }

    /// The pipeline registered for `key`, where it was registered as one.
    pub fn pipeline(&self, key: TypeId) -> (r: Option<P>)
        ensures
            self.registrations().was_read_on(key, Registrations::<R, P>::pipeline, r),
    {
        self.registry.read_arg(key, Registrations::<R, P>::pipeline)
    }

    /// What runs the registration for `key`; the error names `data_type` where there is
    /// none.
    pub fn runner(&self, key: TypeId, data_type: &str) -> (r: Result<R, OrkaError>)
        ensures
            self.registrations().was_read_on(
                (key, data_type),
                Registrations::<R, P>::runner,
                r,
            ),
    {
        self.registry.read_arg((key, data_type), Registrations::<R, P>::runner)
    }
}

impl<R: Clone, P: Clone> Default for Orka<R, P> {
    fn default() -> (r: Self)
        ensures
            r.origin() == Map::<TypeId, Registration<R, P>>::empty(),
    {
        Self::new()
    }
}

/// A registration is found under its key, in place of any earlier one, and every other key finds
/// what it found before.
pub proof fn law_a_registration_is_found_under_its_key<R, P>(
    fresh: Registrations<R, P>,
    before: Registrations<R, P>,
    key: TypeId,
    registration: Registration<R, P>,
    after: Registrations<R, P>,
    other: TypeId,
    found: Option<&Registration<R, P>>,
    was: Option<&Registration<R, P>>,
    now: Option<&Registration<R, P>>,
    nothing: Option<&Registration<R, P>>,
)
    requires
        call_ensures(Registrations::<R, P>::new, (), fresh),
        exists|held: &mut Registrations<R, P>| #[trigger]
            call_ensures(Registrations::<R, P>::insert, (held, key, registration), ()) && *held
                == before && *final(held) == after,
        other != key,
        call_ensures(Registrations::<R, P>::get, (&after, &key), found),
        call_ensures(Registrations::<R, P>::get, (&before, &other), was),
        call_ensures(Registrations::<R, P>::get, (&after, &other), now),
        call_ensures(Registrations::<R, P>::get, (&fresh, &key), nothing),
    ensures
        found == Some(&registration),
        now == was,
        nothing is None,
{
}

/// What a registration hands out: a clone of its runner, and of its pipeline where it has one. A
/// key without a registration has neither, and the error names the data type.
pub proof fn law_a_registration_hands_out_clones<R: Clone, P: Clone>(
    held: Registrations<R, P>,
    key: TypeId,
    data_type: &str,
    found: Option<&Registration<R, P>>,
    pipeline: Option<P>,
    runner: Result<R, OrkaError>,
)
    requires
        call_ensures(Registrations::<R, P>::get, (&held, &key), found),
        call_ensures(Registrations::<R, P>::pipeline, (&held, key), pipeline),
        call_ensures(Registrations::<R, P>::runner, (&held, (key, data_type)), runner),
    ensures
        found matches Some(registration) ==> {
            &&& runner is Ok
            &&& cloned(registration.runner, runner->Ok_0)
            &&& pipeline is Some <==> registration.pipeline is Some
            &&& pipeline matches Some(p) ==> cloned(registration.pipeline->Some_0, p)
        },
        found is None ==> {
            &&& pipeline is None
            &&& runner matches Err(OrkaError::ConfigurationError { step_name, message })
            &&& step_name@ == "Orka::run"@
            &&& message@ == "No pipeline registered for TData type "@ + data_type@
        },
{
}

/// A pipeline that was found sound is registered with what was made of it, in place of anything
/// before; one that was not is refused with its problem, and the registrations stay as they
/// were. A runner is registered without a pipeline. No other key is touched.
pub proof fn law_registering_replaces_or_refuses<R, P>(
    before: Registrations<R, P>,
    key: TypeId,
    checked: OrkaResult<(R, P)>,
    after: Registrations<R, P>,
    r: OrkaResult<()>,
    runner: R,
    with_runner: Registrations<R, P>,
    other: TypeId,
)
    requires
        exists|held: &mut Registrations<R, P>| #[trigger]
            call_ensures(Registrations::<R, P>::register_checked, (held, (key, checked)), r)
                && *held == before && *final(held) == after,
        exists|held: &mut Registrations<R, P>| #[trigger]
            call_ensures(Registrations::<R, P>::register_runner, (held, (key, runner)), ())
                && *held == before && *final(held) == with_runner,
        other != key,
    ensures
        checked matches Ok(made) ==> {
            &&& r is Ok
            &&& after@.contains_key(key)
            &&& after@[key] == (Registration { runner: made.0, pipeline: Some(made.1) })
        },
        checked matches Err(e) ==> r == Err::<(), OrkaError>(e) && after@ == before@,
        with_runner@.contains_key(key),
        with_runner@[key] == (Registration { runner, pipeline: None::<P> }),
        after@.contains_key(other) == before@.contains_key(other),
        with_runner@.contains_key(other) == before@.contains_key(other),
        before@.contains_key(other) ==> after@[other] == before@[other] && with_runner@[other]
            == before@[other],
{
}

/// A pipeline is registered exactly where it is set up soundly, and then as what `make` makes of
/// it. What the registry answers is what the check found.
pub proof fn law_only_sound_pipelines_are_registered<
    K: Callbacks,
    R: Clone,
    P: Clone,
    F: FnOnce(Pipeline<K>) -> (R, P),
>(
    registry: Orka<R, P>,
    key: TypeId,
    definition: Pipeline<K>,
    make: F,
    checked: OrkaResult<(R, P)>,
    r: OrkaResult<()>,
)
    requires
        definition.wf(),
        call_ensures(check::<K, (R, P), F>, (definition, make), checked),
        call_ensures(
            Orka::<R, P>::register_pipeline::<K, F>,
            (&registry, key, definition, make),
            r,
        ),
    ensures
        checked is Ok <==> validate_laws::is_sound(definition@),
        checked matches Ok(made) ==> make.ensures((definition,), made),
        r is Ok <==> validate_laws::is_sound(definition@),
        exists|handed: OrkaResult<(R, P)>| #[trigger]
            registry.registrations().ran_on(
                (key, handed),
                Registrations::<R, P>::register_checked,
                r,
            ) && (handed is Ok <==> validate_laws::is_sound(definition@)) && (handed matches Ok(
                made,
            ) ==> make.ensures((definition,), made)),
{
    validate_laws::law_validation_accepts_exactly_sound_pipelines(definition@);
    let handed = choose|handed: OrkaResult<(R, P)>| #[trigger]
        registry.registrations().ran_on(
            (key, handed),
            Registrations::<R, P>::register_checked,
            r,
        ) && is_checked(definition, make, handed);
    assert(registry.registrations().ran_on(
        (key, handed),
        Registrations::<R, P>::register_checked,
        r,
    ));
}

/// Every handle on a registry works on the one set of registrations behind its lock, which
/// starts out empty.
pub proof fn law_a_registry_works_on_its_registrations<R: Clone, P: Clone>(
    fresh: Orka<R, P>,
    registry: Orka<R, P>,
    key: TypeId,
    given: R,
    data_type: &str,
    pipeline: Option<P>,
    runner: Result<R, OrkaError>,
)
    requires
        call_ensures(Orka::<R, P>::new, (), fresh),
        call_ensures(Orka::<R, P>::register_runner, (&registry, key, given), ()),
        call_ensures(Orka::<R, P>::pipeline, (&registry, key), pipeline),
        call_ensures(Orka::<R, P>::runner, (&registry, key, data_type), runner),
    ensures
        forall|k: TypeId| !(#[trigger] fresh.origin().contains_key(k)),
        registry.registrations().ran_on(
            (key, given),
            Registrations::<R, P>::register_runner,
            (),
        ),
        registry.registrations().was_read_on(key, Registrations::<R, P>::pipeline, pipeline),
        registry.registrations().was_read_on(
            (key, data_type),
            Registrations::<R, P>::runner,
            runner,
        ),
{
}

/// What the registry refuses names the stage that refused it: the run for which nothing is
/// registered, and the dispatch to a context of another type. The outcome of such a run is an
/// error at that stage.
pub proof fn law_a_refusal_names_its_stage(
    data_type: &str,
    unknown: OrkaError,
    mismatch: OrkaError,
    refused: RunOutcome,
    dispatched: RunOutcome,
)
    requires
        call_ensures(unregistered, (data_type,), unknown),
        call_ensures(dispatch_mismatch, (data_type,), mismatch),
        call_ensures(refused_outcome, (&unknown,), refused),
        call_ensures(refused_outcome, (&mismatch,), dispatched),
    ensures
        unknown is ConfigurationError,
        mismatch is TypeMismatch,
        refused matches RunOutcome::Errored { step, .. } && step@ == "Orka::run"@,
        dispatched matches RunOutcome::Errored { step, .. } && step@ == "registry_dispatch"@,
        unknown->ConfigurationError_message@ == "No pipeline registered for TData type "@
            + data_type@,
        mismatch->expected_type@ == data_type@,
{
}

/// A default registry holds nothing.
pub proof fn law_a_default_registry_is_empty<R: Clone, P: Clone>(registry: Orka<R, P>, key: TypeId)
    requires
        call_ensures(Orka::<R, P>::default, (), registry),
    ensures
        !registry.origin().contains_key(key),
{
}

} // verus!
