//! Which observers a run reports to.

use vstd::prelude::*;

use crate::observer;
use crate::observer::CompositeObserver;
use crate::pipeline::definition;
use crate::pipeline::definition::{Callbacks, Pipeline};

verus! {

/// The observers of one run.
pub struct Observation<O> {
    /// What every event of the run goes to.
    pub observer: Option<CompositeObserver<O>>,
    /// The observer scoped to the call, to be inherited by runs started from inside it.
    pub scoped: Option<O>,
}

/// The observer scoped to a call: the one given for it, and otherwise the one that the
/// enclosing call made ambient.
pub open spec fn scoped_to_call<O>(given: Option<O>, ambient: Option<O>) -> Option<O> {
    match given {
        Some(_) => given,
        None => ambient,
    }
}

/// Whether a run with these observers reports to the attached one first and then to the one
/// scoped to the call, to each only where there is one.
pub open spec fn is_observation<O: Clone>(
    attached: Option<O>,
    given: Option<O>,
    ambient: Option<O>,
    r: Observation<O>,
) -> bool {
    &&& r.scoped == scoped_to_call(given, ambient)
    &&& exists|copy: Option<O>| #[trigger]
        definition::is_copy(r.scoped, copy) && match r.observer {
            Some(all) => all.observers@ == observer::present(attached, copy) && all.observers@.len()
                > 0,
            None => attached is None && r.scoped is None,
        }
}

/// The observers of a run, given the attached one, the one passed to the call and the one
/// that the enclosing call made ambient. An attached observer is not displaced by a scoped
/// one: both receive every event.
pub fn observe<O: Clone>(attached: Option<O>, given: Option<O>, ambient: Option<O>) -> (r:
    Observation<O>)
    ensures
        is_observation(attached, given, ambient, r),
{
    let scoped = match given {
        Some(observer) => Some(observer),
        None => ambient,
    };
    let copy = scoped.clone();
    let observer = observer::combine_observers(attached, copy);
    proof {
        assert(definition::is_copy(scoped, copy));
    }
    Observation { observer, scoped }
}

impl<K: Callbacks> Pipeline<K> {
    /// The observers of a run that starts now. The attached observer is taken once, here; a
    /// later attachment misses this run and catches the next.
    pub fn observe_prologue(
        &self,
        given: Option<K::Observer>,
        ambient: Option<K::Observer>,
    ) -> (r: Observation<K::Observer>)
        ensures
            exists|attached: Option<K::Observer>| #[trigger]
                self@.observer.was_read(definition::attached::<K::Observer>, attached)
                    && is_observation(attached, given, ambient, r),
    {
        let attached = self.observer.read(definition::attached::<K::Observer>);
        assert(self@.observer.was_read(definition::attached::<K::Observer>, attached));
        observe(attached, given, ambient)
    }
}

/// Two optional observers are combined so that both are told, the first before the second; where
/// there is none, there is nothing to tell.
pub proof fn law_both_observers_are_combined<O>(
    first: Option<O>,
    second: Option<O>,
    r: Option<CompositeObserver<O>>,
)
    requires
        call_ensures(observer::combine_observers::<O>, (first, second), r),
    ensures
        r is None <==> first is None && second is None,
        r matches Some(all) ==> {
            let told = all.observers@;
            &&& first matches Some(a) ==> told[0] == a
            &&& second matches Some(b) ==> told.last() == b
            &&& told.len() == if first is Some && second is Some {
                2int
            } else {
                1
            }
        },
{
}

/// The observer given for a call stands in for the ambient one, and neither displaces the one
/// that is attached: the attached one is told first, and then a clone of the one scoped to the
/// call.
pub proof fn law_a_scoped_observer_displaces_none<O: Clone>(
    attached: Option<O>,
    given: Option<O>,
    ambient: Option<O>,
    r: Observation<O>,
)
    requires
        call_ensures(observe::<O>, (attached, given, ambient), r),
    ensures
        given is Some ==> r.scoped == given,
        given is None ==> r.scoped == ambient,
        r.observer is None <==> attached is None && given is None && ambient is None,
        r.observer matches Some(all) ==> {
            let told = all.observers@;
            &&& attached matches Some(a) ==> told[0] == a
            &&& r.scoped matches Some(s) ==> cloned(s, told.last())
            &&& told.len() == if attached is Some && r.scoped is Some {
                2int
            } else {
                1
            }
        },
{
}

/// A run reports to the observer that is attached when it starts, and to the one scoped to the
/// call.
pub proof fn law_a_run_takes_the_attached_observer_once<K: Callbacks>(
    p: Pipeline<K>,
    given: Option<K::Observer>,
    ambient: Option<K::Observer>,
    r: Observation<K::Observer>,
)
    requires
        call_ensures(Pipeline::<K>::observe_prologue, (&p, given, ambient), r),
    ensures
        given is Some ==> r.scoped == given,
        given is None ==> r.scoped == ambient,
        exists|attached: Option<K::Observer>| #[trigger]
            p@.observer.was_read(definition::attached::<K::Observer>, attached) && {
                &&& r.observer is None <==> attached is None && r.scoped is None
                &&& r.observer matches Some(all) ==> {
                    &&& attached matches Some(a) ==> all.observers@[0] == a
                    &&& r.scoped matches Some(s) ==> cloned(s, all.observers@.last())
                }
            },
{
    let attached = choose|attached: Option<K::Observer>| #[trigger]
        p@.observer.was_read(definition::attached::<K::Observer>, attached) && is_observation(
            attached,
            given,
            ambient,
            r,
        );
    assert(p@.observer.was_read(definition::attached::<K::Observer>, attached));
}

} // verus!
