//! Bounding a single wait inside a handler, with the failure reported as a step timeout.

use std::time::Duration;
use vstd::prelude::*;

use crate::error::OrkaError;

verus! {

/// What a wait with a time budget comes to: the value it produced within the budget, and
/// otherwise an error that names the step and the budget.
pub fn timed<T>(step_name: &str, budget: Duration, finished: Option<T>) -> (r: Result<T, OrkaError>)
    ensures
        match finished {
            Some(value) => r == Ok::<T, OrkaError>(value),
            None => r matches Err(OrkaError::StepTimedOut { step_name: step, after }) && step@
                == step_name@ && after == budget,
        },
{
    match finished {
        Some(value) => Ok(value),
        None => Err(OrkaError::StepTimedOut { step_name: step_name.to_string(), after: budget }),
    }
}

/// A wait that finished in time yields its value; one that did not is reported with the step and
/// the budget that it exceeded.
pub proof fn law_only_an_unfinished_wait_times_out<T>(
    step_name: &str,
    budget: Duration,
    finished: Option<T>,
    r: Result<T, OrkaError>,
)
    requires
        call_ensures(timed::<T>, (step_name, budget, finished), r),
    ensures
        r is Ok <==> finished is Some,
        r matches Ok(value) ==> finished == Some(value),
        r matches Err(e) ==> {
            &&& e matches OrkaError::StepTimedOut { step_name: step, after }
            &&& step@ == step_name@
            &&& after == budget
        },
{
}

} // verus!
