//! Running a handler on a sub-context extracted from the pipeline's own.
//!
//! The decisions are those of [`SubRun`]: extract, check the type, invoke the handler, and
//! fold the sub-context back where the handler succeeded and the extractor asks for it.

use vstd::prelude::*;

use crate::control::PipelineControl;
use crate::error::OrkaError;
use crate::text;
use crate::text_laws;

verus! {

/// Why a handler that the framework wraps failed.
pub enum HandlerFailure<E> {
    /// The framework's part failed; to be converted into the pipeline's error type.
    Framework(OrkaError),
    /// The handler itself failed.
    Own(E),
}

/// `error`, attributed to the extractor of a step where it has a cause: an extractor's own
/// error and a plain handler error both become `ExtractorFailure` under `step_name`.
pub open spec fn extractor_failure(step_name: String, error: OrkaError) -> OrkaError {
    match error {
        OrkaError::HandlerError { source } => OrkaError::ExtractorFailure { step_name, source },
        OrkaError::ExtractorFailure { source, .. } => OrkaError::ExtractorFailure {
            step_name,
            source,
        },
        other => other,
    }
}

/// Attributes an extractor's error to a step.
pub fn as_extractor_failure(step_name: String, error: OrkaError) -> (r: OrkaError)
    ensures
        r == extractor_failure(step_name, error),
{
    match error {
        OrkaError::HandlerError { source } => OrkaError::ExtractorFailure { step_name, source },
        OrkaError::ExtractorFailure { source, .. } => OrkaError::ExtractorFailure {
            step_name,
            source,
        },
        other => other,
    }
}

/// Judges the downcast of an extracted context.
///
/// `same_type` is whether the extractor targets the type that the handler asks for, and
/// `holds_it` whether the extracted value is in fact a context of that type. `data_type` and
/// `type_id` describe the type asked for.
pub fn check_downcast(
    same_type: bool,
    holds_it: bool,
    step_name: &str,
    data_type: &str,
    type_id: &str,
) -> (r: Result<(), OrkaError>)
    ensures
        match r {
            Ok(()) => same_type && holds_it,
            Err(OrkaError::TypeMismatch { step_name: step, expected_type }) => {
                &&& !same_type
                &&& step@ == step_name@
                &&& expected_type@ == "ContextData<"@ + data_type@
                    + "> (underlying SData TypeId: "@ + type_id@ + ")"@
            },
            Err(OrkaError::Internal(message)) => {
                &&& same_type && !holds_it
                &&& message@ == "Internal type mismatch during ContextData downcast for step "@
                    + text::quoted(step_name@) + ". Expected ContextData<"@ + data_type@
                    + "> but downcast failed despite TypeId match."@
            },
            Err(_) => false,
        },
{
    if !same_type {
        let mut expected_type = "ContextData<".to_string();
        expected_type.append(data_type);
        expected_type.append("> (underlying SData TypeId: ");
        expected_type.append(type_id);
        expected_type.append(")");
        return Err(
            OrkaError::TypeMismatch { step_name: step_name.to_string(), expected_type },
        );
    }
    if !holds_it {
        let mut message =
            "Internal type mismatch during ContextData downcast for step ".to_string();
        text::push_quoted(&mut message, step_name);
        message.append(". Expected ContextData<");
        message.append(data_type);
        message.append("> but downcast failed despite TypeId match.");
        return Err(OrkaError::Internal(message));
    }
    Ok(())
}

/// The error of folding back a sub-context that is not of the extractor's type.
pub fn merge_mismatch(data_type: &str) -> (r: OrkaError)
    ensures
        r matches OrkaError::Internal(message) && message@
            == "Internal type mismatch merging sub-context back: expected ContextData<"@
            + data_type@ + ">."@,
{
    let mut message =
        "Internal type mismatch merging sub-context back: expected ContextData<".to_string();
    message.append(data_type);
    message.append(">.");
    OrkaError::Internal(message)
}

/// What running a sub-context handler asks for next.
pub enum SubAction {
    /// Run the extractor.
    Extract,
    /// Downcast what it produced.
    Downcast,
    /// Invoke the handler, and ask the extractor whether it folds back.
    Invoke,
    /// Fold the sub-context back into the root context.
    Merge,
    /// Done.
    Return,
}

/// The result of a [`SubAction`].
pub enum SubReply<E> {
    Extracted(Result<(), OrkaError>),
    Downcast(Result<(), OrkaError>),
    /// What the handler returned, and whether the extractor folds back.
    Invoked(Result<PipelineControl, E>, bool),
    Merged(Result<(), OrkaError>),
}

/// How far running a sub-context handler has come.
pub enum SubStage<E> {
    Extracting,
    Downcasting,
    Invoking,
    Merging { control: PipelineControl },
    Done(Result<PipelineControl, HandlerFailure<E>>),
}

/// A sub-context handler being run.
pub struct SubRun<E> {
    pub step_name: String,
    pub stage: SubStage<E>,
}

/// Everything that running a sub-context handler could be answered.
pub struct SubAnswers<E> {
    pub extracted: Result<(), OrkaError>,
    pub downcast: Result<(), OrkaError>,
    pub invoked: Result<PipelineControl, E>,
    pub folds_back: bool,
    pub merged: Result<(), OrkaError>,
}

/// How running a sub-context handler ends: with the extractor's failure, attributed to the
/// step; else with the downcast's; else with the handler's own; else with the fold's; and
/// otherwise with what the handler decided.
pub open spec fn sub_result<E>(step_name: String, a: SubAnswers<E>) -> Result<
    PipelineControl,
    HandlerFailure<E>,
> {
    match (a.extracted, a.downcast, a.invoked) {
        (Err(e), _, _) => Err(HandlerFailure::Framework(extractor_failure(step_name, e))),
        (Ok(()), Err(e), _) => Err(HandlerFailure::Framework(e)),
        (Ok(()), Ok(()), Err(e)) => Err(HandlerFailure::Own(e)),
        (Ok(()), Ok(()), Ok(control)) => match a.merged {
            Err(e) if a.folds_back => Err(HandlerFailure::Framework(e)),
            _ => Ok(control),
        },
    }
}

/// Whether a reply answers what is asked in this stage.
pub open spec fn sub_accepts<E>(stage: SubStage<E>, reply: SubReply<E>) -> bool {
    match stage {
        SubStage::Extracting => reply is Extracted,
        SubStage::Downcasting => reply is Downcast,
        SubStage::Invoking => reply is Invoked,
        SubStage::Merging { .. } => reply is Merged,
        SubStage::Done(_) => false,
    }
}

/// The stage after a reply.
pub open spec fn sub_next<E>(
    step_name: String,
    stage: SubStage<E>,
    reply: SubReply<E>,
) -> SubStage<E> {
    match (stage, reply) {
        (SubStage::Extracting, SubReply::Extracted(Ok(()))) => SubStage::Downcasting,
        (SubStage::Extracting, SubReply::Extracted(Err(e))) => SubStage::Done(
            Err(HandlerFailure::Framework(extractor_failure(step_name, e))),
        ),
        (SubStage::Downcasting, SubReply::Downcast(Ok(()))) => SubStage::Invoking,
        (SubStage::Downcasting, SubReply::Downcast(Err(e))) => SubStage::Done(
            Err(HandlerFailure::Framework(e)),
        ),
        (SubStage::Invoking, SubReply::Invoked(Err(e), _)) => SubStage::Done(
            Err(HandlerFailure::Own(e)),
        ),
        (SubStage::Invoking, SubReply::Invoked(Ok(control), folds_back)) => if folds_back {
            SubStage::Merging { control }
        } else {
            SubStage::Done(Ok(control))
        },
        (SubStage::Merging { control }, SubReply::Merged(Ok(()))) => SubStage::Done(Ok(control)),
        (SubStage::Merging { .. }, SubReply::Merged(Err(e))) => SubStage::Done(
            Err(HandlerFailure::Framework(e)),
        ),
        _ => stage,
    }
}

impl<E> SubRun<E> {
    /// Begins running a sub-context handler of the named step.
    pub fn new(step_name: &str) -> (r: Self)
        ensures
            r.step_name@ == step_name@,
            r.stage is Extracting,
    {
        SubRun { step_name: step_name.to_string(), stage: SubStage::Extracting }
    }

    /// What has to be done next.
    pub fn action(&self) -> (r: SubAction)
        ensures
            r == match self.stage {
                SubStage::Extracting => SubAction::Extract,
                SubStage::Downcasting => SubAction::Downcast,
                SubStage::Invoking => SubAction::Invoke,
                SubStage::Merging { .. } => SubAction::Merge,
                SubStage::Done(_) => SubAction::Return,
            },
    {
        match &self.stage {
            SubStage::Extracting => SubAction::Extract,
            SubStage::Downcasting => SubAction::Downcast,
            SubStage::Invoking => SubAction::Invoke,
            SubStage::Merging { .. } => SubAction::Merge,
            SubStage::Done(_) => SubAction::Return,
        }
    }

    /// Takes the result of the last action and moves on.
    pub fn advance(self, reply: SubReply<E>) -> (r: Self)
        requires
            sub_accepts(self.stage, reply),
        ensures
            r.step_name == self.step_name,
            r.stage == sub_next(self.step_name, self.stage, reply),
    {
        let SubRun { step_name, stage } = self;
        let stage = match (stage, reply) {
            (SubStage::Extracting, SubReply::Extracted(result)) => match result {
                Ok(()) => SubStage::Downcasting,
                Err(e) => SubStage::Done(
                    Err(HandlerFailure::Framework(as_extractor_failure(step_name.clone(), e))),
                ),
            },
            (SubStage::Downcasting, SubReply::Downcast(result)) => match result {
                Ok(()) => SubStage::Invoking,
                Err(e) => SubStage::Done(Err(HandlerFailure::Framework(e))),
            },
            (SubStage::Invoking, SubReply::Invoked(result, folds_back)) => match result {
                Err(e) => SubStage::Done(Err(HandlerFailure::Own(e))),
                Ok(control) => if folds_back {
                    SubStage::Merging { control }
                } else {
                    SubStage::Done(Ok(control))
                },
            },
            (SubStage::Merging { control }, SubReply::Merged(result)) => match result {
                Ok(()) => SubStage::Done(Ok(control)),
                Err(e) => SubStage::Done(Err(HandlerFailure::Framework(e))),
            },
            (stage, _) => stage,
        };
        SubRun { step_name, stage }
    }
}

/// The reply that `a` gives to what is asked in this stage.
pub open spec fn sub_reply_to<E>(stage: SubStage<E>, a: SubAnswers<E>) -> SubReply<E> {
    match stage {
        SubStage::Extracting => SubReply::Extracted(a.extracted),
        SubStage::Downcasting => SubReply::Downcast(a.downcast),
        SubStage::Invoking => SubReply::Invoked(a.invoked, a.folds_back),
        _ => SubReply::Merged(a.merged),
    }
}

/// The stage after at most `n` replies.
pub open spec fn sub_driven<E>(
    step_name: String,
    stage: SubStage<E>,
    a: SubAnswers<E>,
    n: nat,
) -> SubStage<E>
    decreases n,
{
    if n == 0 || stage is Done {
        stage
    } else {
        sub_driven(
            step_name,
            sub_next(step_name, stage, sub_reply_to(stage, a)),
            a,
            (n - 1) as nat,
        )
    }
}

/// Running a sub-context handler takes at most four replies and ends as [`sub_result`]
/// says.
pub proof fn law_a_sub_run_ends_with_its_result<E>(step_name: String, a: SubAnswers<E>)
    ensures
        sub_driven(step_name, SubStage::Extracting, a, 4) == SubStage::Done(
            sub_result(step_name, a),
        ),
{
    reveal_with_fuel(sub_driven, 5);
}

/// The sub-context is folded back only after its handler succeeded: a failed extraction, a
/// failed downcast or a failed handler leaves the root context alone.
pub proof fn law_only_success_is_merged<E>(step_name: String, a: SubAnswers<E>, n: nat)
    requires
        sub_driven(step_name, SubStage::Extracting, a, n) is Merging,
    ensures
        a.extracted is Ok,
        a.downcast is Ok,
        a.invoked is Ok,
        a.folds_back,
{
    reveal_with_fuel(sub_driven, 5);
    if n >= 4 {
        lemma_sub_done_stays(step_name, a, n);
    }
}

proof fn lemma_sub_done_stays<E>(step_name: String, a: SubAnswers<E>, n: nat)
    requires
        n >= 4,
    ensures
        sub_driven(step_name, SubStage::Extracting, a, n) is Done,
{
    reveal_with_fuel(sub_driven, 6);
}

/// The sub-context is folded back wherever its handler succeeded and the extractor folds back,
/// whichever control the handler returned: after the extraction, the downcast and the handler,
/// the fold is what is asked for next, and with it done the handler's control is the answer.
/// Where the extractor does not fold back, no fold is ever asked for.
pub proof fn law_every_success_is_merged<E>(
    step_name: String,
    a: SubAnswers<E>,
    control: PipelineControl,
)
    requires
        a.extracted is Ok,
        a.downcast is Ok,
        a.invoked == Ok::<PipelineControl, E>(control),
    ensures
        a.folds_back ==> sub_driven(step_name, SubStage::Extracting, a, 3) == (
        SubStage::<E>::Merging { control }),
        a.folds_back && a.merged is Ok ==> sub_driven(step_name, SubStage::Extracting, a, 4)
            == SubStage::Done(Ok::<PipelineControl, HandlerFailure<E>>(control)),
        !a.folds_back ==> sub_driven(step_name, SubStage::Extracting, a, 3) == SubStage::Done(
            Ok::<PipelineControl, HandlerFailure<E>>(control),
        ),
{
    reveal_with_fuel(sub_driven, 5);
}

/// A sub-context handler runs in this order: the extraction, the downcast, the handler. Each is
/// asked for exactly where all before it succeeded, and the first failure is the answer: the
/// handler's own as it is, the framework's as one of the framework.
pub proof fn law_the_first_failure_answers<E>(step_name: String, a: SubAnswers<E>)
    ensures
        sub_driven(step_name, SubStage::Extracting, a, 1) is Downcasting <==> a.extracted is Ok,
        sub_driven(step_name, SubStage::Extracting, a, 2) is Invoking <==> a.extracted is Ok
            && a.downcast is Ok,
        a.extracted is Err ==> {
            &&& sub_driven(step_name, SubStage::Extracting, a, 1) matches SubStage::Done(
                Err(HandlerFailure::Framework(e)),
            )
            &&& is_attributed(step_name, a.extracted->Err_0, e)
        },
        a.extracted is Ok && a.downcast is Err ==> sub_driven(
            step_name,
            SubStage::Extracting,
            a,
            2,
        ) == SubStage::Done(
            Err::<PipelineControl, HandlerFailure<E>>(
                HandlerFailure::Framework(a.downcast->Err_0),
            ),
        ),
        a.extracted is Ok && a.downcast is Ok && a.invoked is Err ==> sub_driven(
            step_name,
            SubStage::Extracting,
            a,
            3,
        ) == SubStage::Done(
            Err::<PipelineControl, HandlerFailure<E>>(HandlerFailure::Own(a.invoked->Err_0)),
        ),
        a.extracted is Ok && a.downcast is Ok && a.invoked is Ok && a.folds_back
            && a.merged is Err ==> sub_driven(step_name, SubStage::Extracting, a, 4)
            == SubStage::Done(
            Err::<PipelineControl, HandlerFailure<E>>(HandlerFailure::Framework(a.merged->Err_0)),
        ),
{
    reveal_with_fuel(sub_driven, 5);
}

/// Whether `r` is an extractor's `error` as it is reported of a step: an error that carries a
/// cause, as the extractor's own or as a plain one, becomes a failure of the extractor of that
/// step with the same cause; any other stays as it is.
pub open spec fn is_attributed(step_name: String, error: OrkaError, r: OrkaError) -> bool {
    if error is ExtractorFailure || error is HandlerError {
        &&& r matches OrkaError::ExtractorFailure { step_name: named, source }
        &&& named == step_name
        &&& error.source() == Some(source)
    } else {
        r == error
    }
}

/// Attributing an extractor's error to a step keeps its cause, names the step, and touches no
/// other error.
pub proof fn law_extractor_failures_keep_their_cause(
    step_name: String,
    error: OrkaError,
    r: OrkaError,
)
    requires
        call_ensures(as_extractor_failure, (step_name, error), r),
    ensures
        is_attributed(step_name, error, r),
        r.source() == error.source(),
{
}

/// The calls on a sub-context handler being run make the turns that the laws speak of: it
/// begins with the extraction, asks for what its stage stands for, and each answer leads to the
/// next stage.
pub proof fn law_the_calls_make_the_sub_turns<E>(
    step_name: &str,
    fresh: SubRun<E>,
    before: SubRun<E>,
    action: SubAction,
    reply: SubReply<E>,
    after: SubRun<E>,
)
    requires
        call_ensures(SubRun::<E>::new, (step_name,), fresh),
        call_ensures(SubRun::<E>::action, (&before,), action),
        call_ensures(SubRun::<E>::advance, (before, reply), after),
    ensures
        fresh.step_name@ == step_name@,
        fresh.stage is Extracting,
        action is Extract <==> before.stage is Extracting,
        action is Downcast <==> before.stage is Downcasting,
        action is Invoke <==> before.stage is Invoking,
        action is Merge <==> before.stage is Merging,
        action is Return <==> before.stage is Done,
        after.step_name == before.step_name,
        after.stage == sub_next(before.step_name, before.stage, reply),
{
}

/// What is asked for after each answer: the downcast after an extraction that succeeded, the
/// handler after a downcast that did, the fold after a handler that did, exactly where the
/// extractor folds back, and nothing more after any failure. What the handler decided is the
/// answer in the end, unless the fold fails.
pub proof fn law_each_answer_asks_for_the_next<E>(
    before: SubRun<E>,
    asked: SubAction,
    reply: SubReply<E>,
    after: SubRun<E>,
    next: SubAction,
)
    requires
        sub_accepts(before.stage, reply),
        call_ensures(SubRun::<E>::action, (&before,), asked),
        call_ensures(SubRun::<E>::advance, (before, reply), after),
        call_ensures(SubRun::<E>::action, (&after,), next),
    ensures
        match reply {
            SubReply::Extracted(Ok(())) => asked is Extract && next is Downcast,
            SubReply::Downcast(Ok(())) => asked is Downcast && next is Invoke,
            SubReply::Invoked(Ok(control), folds_back) => {
                &&& asked is Invoke
                &&& if folds_back {
                    next is Merge && after.stage == (SubStage::<E>::Merging { control })
                } else {
                    next is Return && after.stage == SubStage::Done(
                        Ok::<PipelineControl, HandlerFailure<E>>(control),
                    )
                }
            },
            SubReply::Merged(Ok(())) => {
                &&& asked is Merge
                &&& next is Return
                &&& before.stage matches SubStage::Merging { control }
                &&& after.stage == SubStage::Done(
                    Ok::<PipelineControl, HandlerFailure<E>>(control),
                )
            },
            SubReply::Invoked(Err(e), _) => asked is Invoke && next is Return && after.stage
                == SubStage::Done(
                Err::<PipelineControl, HandlerFailure<E>>(HandlerFailure::Own(e)),
            ),
            SubReply::Extracted(Err(e)) => {
                &&& asked is Extract
                &&& next is Return
                &&& after.stage matches SubStage::Done(Err(HandlerFailure::Framework(r)))
                &&& is_attributed(before.step_name, e, r)
            },
            SubReply::Downcast(Err(e)) => asked is Downcast && next is Return && after.stage
                == SubStage::Done(
                Err::<PipelineControl, HandlerFailure<E>>(HandlerFailure::Framework(e)),
            ),
            SubReply::Merged(Err(e)) => asked is Merge && next is Return && after.stage
                == SubStage::Done(
                Err::<PipelineControl, HandlerFailure<E>>(HandlerFailure::Framework(e)),
            ),
        },
{
}

/// The extracted context is handed to the handler exactly where it is of the type that the
/// handler asks for: an extractor for another type is reported as a mismatch of types at that
/// step, and one that did not keep to its type as an internal error.
pub proof fn law_a_handler_gets_the_type_it_asks_for(
    same_type: bool,
    holds_it: bool,
    step_name: &str,
    data_type: &str,
    type_id: &str,
    r: Result<(), OrkaError>,
)
    requires
        call_ensures(check_downcast, (same_type, holds_it, step_name, data_type, type_id), r),
    ensures
        r is Ok <==> same_type && holds_it,
        !same_type <==> (r matches Err(OrkaError::TypeMismatch { .. })),
        same_type && !holds_it <==> (r matches Err(OrkaError::Internal(_))),
        r matches Err(OrkaError::TypeMismatch { step_name: step, .. }) ==> step@ == step_name@,
{
}

/// A sub-context of another type than its extractor's is reported as an internal error, alike
/// but for the type.
pub proof fn law_a_merge_mismatch_names_the_type(
    a: &str,
    b: &str,
    a_error: OrkaError,
    b_error: OrkaError,
)
    requires
        call_ensures(merge_mismatch, (a,), a_error),
        call_ensures(merge_mismatch, (b,), b_error),
    ensures
        a_error matches OrkaError::Internal(a_text) && (b_error matches OrkaError::Internal(b_text)
            && text_laws::read_alike(seq![a@], a_text@, seq![b@], b_text@)),
{
    let frame = seq![
        "Internal type mismatch merging sub-context back: expected ContextData<"@,
        ">."@,
    ];
    if let OrkaError::Internal(a_text) = a_error {
        assert(text_laws::reads_as(frame, seq![a@], a_text@));
    }
    if let OrkaError::Internal(b_text) = b_error {
        assert(text_laws::reads_as(frame, seq![b@], b_text@));
    }
}

/// Two downcasts that fail in the same way read alike but for the step, the type asked for and
/// its identity.
pub proof fn law_failed_downcasts_read_alike(
    holds_it: bool,
    a_step: &str,
    a_type: &str,
    a_id: &str,
    b_step: &str,
    b_type: &str,
    b_id: &str,
    a_mismatch: Result<(), OrkaError>,
    b_mismatch: Result<(), OrkaError>,
    a_internal: Result<(), OrkaError>,
    b_internal: Result<(), OrkaError>,
)
    requires
        call_ensures(check_downcast, (false, holds_it, a_step, a_type, a_id), a_mismatch),
        call_ensures(check_downcast, (false, holds_it, b_step, b_type, b_id), b_mismatch),
        call_ensures(check_downcast, (true, false, a_step, a_type, a_id), a_internal),
        call_ensures(check_downcast, (true, false, b_step, b_type, b_id), b_internal),
    ensures
        a_mismatch matches Err(OrkaError::TypeMismatch { expected_type: a_text, .. }) && (
        b_mismatch matches Err(OrkaError::TypeMismatch { expected_type: b_text, .. })
            && text_laws::read_alike(
            seq![a_type@, a_id@],
            a_text@,
            seq![b_type@, b_id@],
            b_text@,
        )),
        a_internal matches Err(OrkaError::Internal(a_text)) && (b_internal matches Err(
            OrkaError::Internal(b_text),
        ) && text_laws::read_alike(
            seq![text::quoted(a_step@), a_type@],
            a_text@,
            seq![text::quoted(b_step@), b_type@],
            b_text@,
        )),
{
    let expected = seq!["ContextData<"@, "> (underlying SData TypeId: "@, ")"@];
    let internal = seq![
        "Internal type mismatch during ContextData downcast for step "@,
        ". Expected ContextData<"@,
        "> but downcast failed despite TypeId match."@,
    ];
    if let Err(OrkaError::TypeMismatch { expected_type: a_text, .. }) = a_mismatch {
        assert(text_laws::reads_as(expected, seq![a_type@, a_id@], a_text@));
    }
    if let Err(OrkaError::Internal(a_text)) = a_internal {
        assert(text_laws::reads_as(internal, seq![text::quoted(a_step@), a_type@], a_text@));
    }
}

} // verus!
