//! What the texts that the library builds say: numbers that read back, quotes, joined lists, and
//! messages of one kind that read alike but for their fields.

use vstd::prelude::*;

use crate::error;
use crate::error::OrkaError;
use crate::fanout;
use crate::fanout::{FanOutPolicy, FanOutResults};
use crate::pipeline::plan;
use crate::pipeline::plan::{PlannedAction, StepPlan};
use crate::test_util;
use crate::test_util::TestError;
use crate::text;
use crate::trace;
use crate::trace::{HandlerOutcome, RunOutcome, SkipReason, StepPhase, TraceEvent, TraceEventKind};

verus! {

/// The number that a row of decimal digits stands for.
pub open spec fn value_of(digits: Seq<char>) -> int
    decreases digits.len(),
{
    if digits.len() == 0 {
        0
    } else {
        value_of(digits.drop_last()) * 10 + (digits.last() as int - '0' as int)
    }
}

/// A number in decimal consists of digits, has no leading zero, and reads back as the number.
pub proof fn law_a_number_reads_back(n: nat)
    ensures
        value_of(text::decimal(n)) == n,
        text::decimal(n).len() > 0,
        forall|i: int|
            0 <= i < text::decimal(n).len() ==> '0' <= #[trigger] text::decimal(n)[i] <= '9',
        n > 0 ==> text::decimal(n)[0] != '0',
        n == 0 ==> text::decimal(n).len() == 1,
    decreases n,
{
    let digits = text::decimal(n);
    if n < 10 {
        assert(digits.drop_last() =~= Seq::empty());
        assert(value_of(digits.drop_last()) == 0);
    } else {
        law_a_number_reads_back(n / 10);
        assert(digits.drop_last() =~= text::decimal(n / 10));
        assert(digits[0] == text::decimal(n / 10)[0]);
    }
}

/// Whether a piece of text was put behind what was there before.
pub open spec fn is_appended(before: String, piece: Seq<char>, after: String) -> bool {
    &&& after@.len() == before@.len() + piece.len()
    &&& after@.take(before@.len() as int) == before@
    &&& after@.skip(before@.len() as int) == piece
}

proof fn lemma_appended(before: String, piece: Seq<char>, after: String)
    requires
        after@ == before@ + piece,
    ensures
        is_appended(before, piece, after),
{
    assert(after@.take(before@.len() as int) =~= before@);
    assert(after@.skip(before@.len() as int) =~= piece);
}

/// A number is appended in decimal, as one of 64 bits or as a count, and a text between single
/// quotes. What was there before stays.
pub proof fn law_pieces_are_appended(
    before: String,
    n: u64,
    count: usize,
    piece: &str,
    numbered: String,
    counted: String,
    quoted: String,
)
    requires
        exists|out: &mut String| #[trigger]
            call_ensures(text::push_decimal, (out, n), ()) && *out == before && *final(out)
                == numbered,
        exists|out: &mut String| #[trigger]
            call_ensures(text::push_count, (out, count), ()) && *out == before && *final(out)
                == counted,
        exists|out: &mut String| #[trigger]
            call_ensures(text::push_quoted, (out, piece), ()) && *out == before && *final(out)
                == quoted,
    ensures
        exists|digits: Seq<char>| #[trigger]
            is_appended(before, digits, numbered) && value_of(digits) == n,
        exists|digits: Seq<char>| #[trigger]
            is_appended(before, digits, counted) && value_of(digits) == count,
        is_appended(before, seq!['\''] + piece@ + seq!['\''], quoted),
{
    law_a_number_reads_back(n as nat);
    law_a_number_reads_back(count as nat);
    reveal_strlit("'");
    assert("'"@ =~= seq!['\'']);
    lemma_appended(before, text::decimal(n as nat), numbered);
    lemma_appended(before, text::decimal(count as nat), counted);
    lemma_appended(before, text::quoted(piece@), quoted);
}

proof fn lemma_joined_apart(front: Seq<Seq<char>>, back: Seq<Seq<char>>, separator: Seq<char>)
    requires
        front.len() > 0,
        back.len() > 0,
    ensures
        text::joined(front + back, separator) == text::joined(front, separator) + separator
            + text::joined(back, separator),
    decreases back.len(),
{
    let whole = front + back;
    assert(whole.drop_last() =~= front + back.drop_last());
    assert(whole.last() == back.last());
    if back.len() == 1 {
        assert(whole.drop_last() =~= front);
    } else {
        lemma_joined_apart(front, back.drop_last(), separator);
        assert(text::joined(whole, separator) =~= text::joined(front, separator) + separator
            + text::joined(back, separator));
    }
}

/// Joining a list is joining its two halves, with the separator between them, wherever it is
/// split. A single part is joined to itself, and no part to nothing.
pub proof fn law_a_list_is_joined_half_by_half(
    parts: Vec<String>,
    front: Vec<String>,
    back: Vec<String>,
    separator: &str,
    r: String,
    front_text: String,
    back_text: String,
)
    requires
        parts@ == front@ + back@,
        call_ensures(text::join, (&parts, separator), r),
        call_ensures(text::join, (&front, separator), front_text),
        call_ensures(text::join, (&back, separator), back_text),
    ensures
        front@.len() > 0 && back@.len() > 0 ==> r@ == front_text@ + separator@ + back_text@,
        parts@.len() == 1 ==> r@ == parts@[0]@,
        parts@.len() == 0 ==> r@.len() == 0,
{
    if front@.len() > 0 && back@.len() > 0 {
        assert(text::views(parts@) =~= text::views(front@) + text::views(back@));
        lemma_joined_apart(text::views(front@), text::views(back@), separator@);
    }
}

/// A frame of fixed words with the fields in its gaps.
pub open spec fn filled(frame: Seq<Seq<char>>, fields: Seq<Seq<char>>) -> Seq<char> {
    if fields.len() == 0 {
        frame[0]
    } else if fields.len() == 1 {
        frame[0] + fields[0] + frame[1]
    } else if fields.len() == 2 {
        frame[0] + fields[0] + frame[1] + fields[1] + frame[2]
    } else if fields.len() == 3 {
        frame[0] + fields[0] + frame[1] + fields[1] + frame[2] + fields[2] + frame[3]
    } else if fields.len() == 4 {
        frame[0] + fields[0] + frame[1] + fields[1] + frame[2] + fields[2] + frame[3] + fields[3]
            + frame[4]
    } else {
        frame[0] + fields[0] + frame[1] + fields[1] + frame[2] + fields[2] + frame[3] + fields[3]
            + frame[4] + fields[4] + frame[5]
    }
}

/// Whether a text is the frame with these fields in it.
pub open spec fn reads_as(frame: Seq<Seq<char>>, fields: Seq<Seq<char>>, text: Seq<char>) -> bool {
    text == filled(frame, fields)
}

/// Whether two texts have the same words around their fields.
pub open spec fn read_alike(
    fields: Seq<Seq<char>>,
    text: Seq<char>,
    other_fields: Seq<Seq<char>>,
    other_text: Seq<char>,
) -> bool {
    exists|frame: Seq<Seq<char>>| #[trigger]
        reads_as(frame, fields, text) && reads_as(frame, other_fields, other_text)
}

/// No word.
spec fn nothing() -> Seq<char> {
    Seq::empty()
}

proof fn lemma_nothing_more(text: Seq<char>)
    ensures
        text + nothing() == text,
        nothing() + text == text,
{
    assert(text + nothing() =~= text);
    assert(nothing() + text =~= text);
}

/// Whether two events are of one kind.
pub open spec fn same_event(a: TraceEventKind, b: TraceEventKind) -> bool {
    match a {
        TraceEventKind::RunStarted => b is RunStarted,
        TraceEventKind::StepStarted { .. } => b is StepStarted,
        TraceEventKind::StepSkipped { .. } => b is StepSkipped,
        TraceEventKind::HandlerFinished { .. } => b is HandlerFinished,
        TraceEventKind::StepCompleted { .. } => b is StepCompleted,
        TraceEventKind::RunCancelled { .. } => b is RunCancelled,
        TraceEventKind::ScopeMatched { .. } => b is ScopeMatched,
        TraceEventKind::ScopeNotMatched { .. } => b is ScopeNotMatched,
        TraceEventKind::FinalizerFinished { .. } => b is FinalizerFinished,
        TraceEventKind::ResourcesReleased { .. } => b is ResourcesReleased,
        TraceEventKind::RunFinished { .. } => b is RunFinished,
    }
}

/// What an event reports, field by field, as it is written.
pub open spec fn event_fields(kind: TraceEventKind) -> Seq<Seq<char>> {
    match kind {
        TraceEventKind::RunStarted => seq![],
        TraceEventKind::StepStarted { step, index } => seq![
            text::quoted(step@),
            text::decimal(index as nat),
        ],
        TraceEventKind::StepSkipped { step, index, reason } => seq![
            text::quoted(step@),
            text::decimal(index as nat),
            trace::skip_reason_text(reason),
        ],
        TraceEventKind::HandlerFinished { step, phase, handler_index, outcome } => seq![
            text::quoted(step@),
            trace::phase_text(phase),
            text::decimal(handler_index as nat),
            trace::handler_outcome_text(outcome),
        ],
        TraceEventKind::StepCompleted { step, index } => seq![
            text::quoted(step@),
            text::decimal(index as nat),
        ],
        TraceEventKind::RunCancelled { step, index } => seq![
            text::quoted(step@),
            text::decimal(index as nat),
        ],
        TraceEventKind::ScopeMatched { step, scope_index } => seq![
            text::quoted(step@),
            text::decimal(scope_index as nat),
        ],
        TraceEventKind::ScopeNotMatched { step } => seq![text::quoted(step@)],
        TraceEventKind::FinalizerFinished { handler_index, outcome } => seq![
            text::decimal(handler_index as nat),
            trace::handler_outcome_text(outcome),
        ],
        TraceEventKind::ResourcesReleased { count } => seq![text::decimal(count as nat)],
        TraceEventKind::RunFinished { outcome } => seq![trace::run_outcome_text(outcome)],
    }
}

/// The words of an event, around its fields.
spec fn event_frame(kind: TraceEventKind) -> Seq<Seq<char>> {
    match kind {
        TraceEventKind::RunStarted => seq!["run started"@],
        TraceEventKind::StepStarted { .. } => seq![
            "step "@,
            " started (index "@,
            ")"@,
        ],
        TraceEventKind::StepSkipped { .. } => seq![
            "step "@,
            " skipped (index "@,
            "): "@,
            nothing(),
        ],
        TraceEventKind::HandlerFinished { .. } => seq![
            "step "@,
            " "@,
            " handler #"@,
            ": "@,
            nothing(),
        ],
        TraceEventKind::StepCompleted { .. } => seq![
            "step "@,
            " completed (index "@,
            ")"@,
        ],
        TraceEventKind::RunCancelled { .. } => seq![
            "run cancelled before step "@,
            " (index "@,
            ")"@,
        ],
        TraceEventKind::ScopeMatched { .. } => seq![
            "step "@,
            " matched conditional scope #"@,
            nothing(),
        ],
        TraceEventKind::ScopeNotMatched { .. } => seq![
            "step "@,
            " matched no conditional scope"@,
        ],
        TraceEventKind::FinalizerFinished { .. } => seq!["finish handler #"@, ": "@, nothing()],
        TraceEventKind::ResourcesReleased { .. } => seq!["released "@, " run-scoped resource(s)"@],
        TraceEventKind::RunFinished { .. } => seq!["run finished: "@, nothing()],
    }
}

proof fn lemma_event_reads(kind: TraceEventKind)
    ensures
        reads_as(event_frame(kind), event_fields(kind), trace::event_kind_text(kind)),
{
    lemma_nothing_more(trace::event_kind_text(kind));
}

/// Two events of one kind read alike but for what they report, and with the run they belong to
/// in front.
pub proof fn law_events_of_a_kind_read_alike(
    a: TraceEvent,
    b: TraceEvent,
    a_kind: String,
    b_kind: String,
    a_text: String,
    b_text: String,
)
    requires
        same_event(a.kind, b.kind),
        call_ensures(TraceEventKind::to_string, (&a.kind,), a_kind),
        call_ensures(TraceEventKind::to_string, (&b.kind,), b_kind),
        call_ensures(TraceEvent::to_string, (&a,), a_text),
        call_ensures(TraceEvent::to_string, (&b,), b_text),
    ensures
        read_alike(event_fields(a.kind), a_kind@, event_fields(b.kind), b_kind@),
        read_alike(
            seq![text::decimal(a.run_id as nat), a_kind@],
            a_text@,
            seq![text::decimal(b.run_id as nat), b_kind@],
            b_text@,
        ),
{
    lemma_event_reads(a.kind);
    lemma_event_reads(b.kind);
    assert(event_frame(a.kind) == event_frame(b.kind));
    let frame = seq!["[run "@, "] "@, nothing()];
    assert(a_text@ =~= filled(frame, seq![text::decimal(a.run_id as nat), a_kind@]));
    assert(b_text@ =~= filled(frame, seq![text::decimal(b.run_id as nat), b_kind@]));
    assert(reads_as(frame, seq![text::decimal(a.run_id as nat), a_kind@], a_text@));
    assert(reads_as(frame, seq![text::decimal(b.run_id as nat), b_kind@], b_text@));
}

/// A label reads as it is; failures and errored runs read alike but for the message and the
/// step, and everything without a field reads as one fixed text.
pub proof fn law_outcomes_read_alike(
    label: String,
    reason: String,
    a: String,
    b: String,
    step: String,
    other_step: String,
    a_failed: String,
    b_failed: String,
    a_errored: String,
    b_errored: String,
)
    requires
        call_ensures(
            SkipReason::to_string,
            (&(SkipReason::SkipCondition { label: Some(label) }),),
            reason,
        ),
        call_ensures(HandlerOutcome::to_string, (&HandlerOutcome::Error(a),), a_failed),
        call_ensures(HandlerOutcome::to_string, (&HandlerOutcome::Error(b),), b_failed),
        call_ensures(
            RunOutcome::to_string,
            (&(RunOutcome::Errored { step, message: a }),),
            a_errored,
        ),
        call_ensures(
            RunOutcome::to_string,
            (&(RunOutcome::Errored { step: other_step, message: b }),),
            b_errored,
        ),
    ensures
        reason@ == label@,
        read_alike(seq![a@], a_failed@, seq![b@], b_failed@),
        read_alike(
            seq![text::quoted(step@), a@],
            a_errored@,
            seq![text::quoted(other_step@), b@],
            b_errored@,
        ),
{
    let failed = seq!["error: "@, nothing()];
    lemma_nothing_more(a_failed@);
    lemma_nothing_more(b_failed@);
    assert(reads_as(failed, seq![a@], a_failed@));
    let errored = seq!["errored at "@, ": "@, nothing()];
    lemma_nothing_more(a_errored@);
    lemma_nothing_more(b_errored@);
    assert(reads_as(errored, seq![text::quoted(step@), a@], a_errored@));
}

/// What has no field reads differently from everything of its type that reads otherwise.
pub proof fn law_outcomes_are_told_apart(
    before: String,
    on: String,
    after: String,
    proceeds: String,
    stop: String,
    completed: String,
    stopped: String,
    cancelled: String,
    unlabeled: String,
    optional: String,
)
    requires
        call_ensures(StepPhase::to_string, (&StepPhase::Before,), before),
        call_ensures(StepPhase::to_string, (&StepPhase::On,), on),
        call_ensures(StepPhase::to_string, (&StepPhase::After,), after),
        call_ensures(HandlerOutcome::to_string, (&HandlerOutcome::Continue,), proceeds),
        call_ensures(HandlerOutcome::to_string, (&HandlerOutcome::Stop,), stop),
        call_ensures(RunOutcome::to_string, (&RunOutcome::Completed,), completed),
        call_ensures(RunOutcome::to_string, (&RunOutcome::Stopped,), stopped),
        call_ensures(RunOutcome::to_string, (&RunOutcome::Cancelled,), cancelled),
        call_ensures(
            SkipReason::to_string,
            (&(SkipReason::SkipCondition { label: None }),),
            unlabeled,
        ),
        call_ensures(SkipReason::to_string, (&SkipReason::OptionalWithoutHandlers,), optional),
    ensures
        before@ != on@ && on@ != after@ && before@ != after@,
        proceeds@ != stop@,
        completed@ != stopped@ && stopped@ != cancelled@ && completed@ != cancelled@,
        unlabeled@ != optional@,
{
    reveal_strlit("before");
    reveal_strlit("on");
    reveal_strlit("after");
    reveal_strlit("continue");
    reveal_strlit("stop");
    reveal_strlit("completed");
    reveal_strlit("stopped");
    reveal_strlit("cancelled");
    reveal_strlit("skip_if condition");
    reveal_strlit("optional without handlers");
    assert(before@.len() == 6 && on@.len() == 2 && after@.len() == 5);
    assert(proceeds@.len() == 8 && stop@.len() == 4);
    assert(completed@.len() == 9 && stopped@.len() == 7 && cancelled@.len() == 9);
    assert(completed@[1] == 'o' && cancelled@[1] == 'a');
    assert(unlabeled@.len() == 17 && optional@.len() == 25);
}

/// Whether two errors are of one kind.
pub open spec fn same_error(a: OrkaError, b: OrkaError) -> bool {
    match a {
        OrkaError::StepNotFound { .. } => b is StepNotFound,
        OrkaError::HandlerMissing { .. } => b is HandlerMissing,
        OrkaError::ExtractorFailure { .. } => b is ExtractorFailure,
        OrkaError::PipelineProviderFailure { .. } => b is PipelineProviderFailure,
        OrkaError::TypeMismatch { .. } => b is TypeMismatch,
        OrkaError::HandlerError { .. } => b is HandlerError,
        OrkaError::ConfigurationError { .. } => b is ConfigurationError,
        OrkaError::Internal(_) => b is Internal,
        OrkaError::NoConditionalScopeMatched { .. } => b is NoConditionalScopeMatched,
        OrkaError::FanOutPolicyUnmet { .. } => b is FanOutPolicyUnmet,
        OrkaError::FanOutBranchLost { .. } => b is FanOutBranchLost,
        OrkaError::ResourceMissing { .. } => b is ResourceMissing,
        OrkaError::StepTimedOut { .. } => b is StepTimedOut,
    }
}

/// What an error's message reports, field by field, in the order of the message; `source` is the
/// text of its cause.
pub open spec fn error_fields(error: OrkaError, source: Seq<char>) -> Seq<Seq<char>> {
    match error {
        OrkaError::StepNotFound { step_name } => seq![step_name@],
        OrkaError::HandlerMissing { step_name } => seq![step_name@],
        OrkaError::ExtractorFailure { step_name, .. } => seq![
            text::quoted(step_name@),
            source,
        ],
        OrkaError::PipelineProviderFailure { step_name, .. } => seq![
            text::quoted(step_name@),
            source,
        ],
        OrkaError::TypeMismatch { step_name, expected_type } => seq![
            expected_type@,
            text::quoted(step_name@),
        ],
        OrkaError::HandlerError { .. } => seq![source],
        OrkaError::ConfigurationError { step_name, message } => seq![
            text::quoted(step_name@),
            message@,
        ],
        OrkaError::Internal(message) => seq![message@],
        OrkaError::NoConditionalScopeMatched { step_name } => seq![text::quoted(step_name@)],
        OrkaError::FanOutPolicyUnmet { policy, total, succeeded, failed, not_started } => seq![
            policy@,
            text::decimal(succeeded as nat),
            text::decimal(total as nat),
            text::decimal(failed as nat),
            text::decimal(not_started as nat),
        ],
        OrkaError::FanOutBranchLost { index } => seq![text::decimal(index as nat)],
        OrkaError::ResourceMissing { resource } => seq![text::quoted(resource@)],
        OrkaError::StepTimedOut { step_name, after } => seq![
            text::quoted(step_name@),
            error::duration_text(after),
        ],
    }
}

/// The words of an error's message, around its fields.
spec fn error_frame(error: OrkaError) -> Seq<Seq<char>> {
    match error {
        OrkaError::StepNotFound { .. } => seq!["Step not found: "@, nothing()],
        OrkaError::HandlerMissing { .. } => seq![
            "Handler missing for non-optional step: "@,
            nothing(),
        ],
        OrkaError::ExtractorFailure { .. } => seq![
            "Extractor failed for step "@,
            ". Source: "@,
            nothing(),
        ],
        OrkaError::PipelineProviderFailure { .. } => seq![
            "Pipeline provider failed for conditional scope in step "@,
            ". Source: "@,
            nothing(),
        ],
        OrkaError::TypeMismatch { .. } => seq![
            "Type mismatch during context downcast (expected "@,
            ", step: "@,
            ")"@,
        ],
        OrkaError::HandlerError { .. } => seq![
            "Error in user-provided handler or external operation. Source: "@,
            nothing(),
        ],
        OrkaError::ConfigurationError { .. } => seq![
            "Configuration error for step "@,
            ": "@,
            nothing(),
        ],
        OrkaError::Internal(_) => seq!["Internal Orka error: "@, nothing()],
        OrkaError::NoConditionalScopeMatched { .. } => seq![
            "No conditional scope's condition matched for step "@,
            nothing(),
        ],
        OrkaError::FanOutPolicyUnmet { .. } => seq![
            "Fan-out policy "@,
            " unmet: "@,
            " of "@,
            " succeeded ("@,
            " failed, "@,
            " never started)"@,
        ],
        OrkaError::FanOutBranchLost { .. } => seq![
            "Fan-out branch "@,
            " did not run to completion (its task panicked or was aborted)"@,
        ],
        OrkaError::ResourceMissing { .. } => seq![
            "Required resource "@,
            " is not present in the context (was its producing step skipped or removed?)"@,
        ],
        OrkaError::StepTimedOut { .. } => seq![
            "Step "@,
            " timed out after "@,
            nothing(),
        ],
    }
}

proof fn lemma_error_reads(error: OrkaError, source: Seq<char>)
    ensures
        reads_as(error_frame(error), error_fields(error, source), error::error_text(error, source)),
{
    lemma_nothing_more(error::error_text(error, source));
}

/// What is written of an error for debugging, field by field; `source` is the rendering of its
/// cause.
pub open spec fn debug_fields(error: OrkaError, source: Seq<char>) -> Seq<Seq<char>> {
    match error {
        OrkaError::StepNotFound { step_name } => seq![error::debug_text(step_name@)],
        OrkaError::HandlerMissing { step_name } => seq![error::debug_text(step_name@)],
        OrkaError::ExtractorFailure { step_name, .. } => seq![
            error::debug_text(step_name@),
            source,
        ],
        OrkaError::PipelineProviderFailure { step_name, .. } => seq![
            error::debug_text(step_name@),
            source,
        ],
        OrkaError::TypeMismatch { step_name, expected_type } => seq![
            error::debug_text(step_name@),
            error::debug_text(expected_type@),
        ],
        OrkaError::HandlerError { .. } => seq![source],
        OrkaError::ConfigurationError { step_name, message } => seq![
            error::debug_text(step_name@),
            error::debug_text(message@),
        ],
        OrkaError::Internal(message) => seq![error::debug_text(message@)],
        OrkaError::NoConditionalScopeMatched { step_name } => seq![error::debug_text(step_name@)],
        OrkaError::FanOutPolicyUnmet { policy, total, succeeded, failed, not_started } => seq![
            error::debug_text(policy@),
            text::decimal(total as nat),
            text::decimal(succeeded as nat),
            text::decimal(failed as nat),
            text::decimal(not_started as nat),
        ],
        OrkaError::FanOutBranchLost { index } => seq![text::decimal(index as nat)],
        OrkaError::ResourceMissing { resource } => seq![error::debug_text(resource@)],
        OrkaError::StepTimedOut { step_name, after } => seq![
            error::debug_text(step_name@),
            error::duration_text(after),
        ],
    }
}

/// What is written around the fields of an error for debugging.
spec fn debug_frame(error: OrkaError) -> Seq<Seq<char>> {
    match error {
        OrkaError::StepNotFound { .. } => seq!["StepNotFound { step_name: "@, " }"@],
        OrkaError::HandlerMissing { .. } => seq!["HandlerMissing { step_name: "@, " }"@],
        OrkaError::ExtractorFailure { .. } => seq![
            "ExtractorFailure { step_name: "@,
            ", source: "@,
            " }"@,
        ],
        OrkaError::PipelineProviderFailure { .. } => seq![
            "PipelineProviderFailure { step_name: "@,
            ", source: "@,
            " }"@,
        ],
        OrkaError::TypeMismatch { .. } => seq![
            "TypeMismatch { step_name: "@,
            ", expected_type: "@,
            " }"@,
        ],
        OrkaError::HandlerError { .. } => seq!["HandlerError { source: "@, " }"@],
        OrkaError::ConfigurationError { .. } => seq![
            "ConfigurationError { step_name: "@,
            ", message: "@,
            " }"@,
        ],
        OrkaError::Internal(_) => seq!["Internal("@, ")"@],
        OrkaError::NoConditionalScopeMatched { .. } => seq![
            "NoConditionalScopeMatched { step_name: "@,
            " }"@,
        ],
        OrkaError::FanOutPolicyUnmet { .. } => seq![
            "FanOutPolicyUnmet { policy: "@,
            ", total: "@,
            ", succeeded: "@,
            ", failed: "@,
            ", not_started: "@,
            " }"@,
        ],
        OrkaError::FanOutBranchLost { .. } => seq!["FanOutBranchLost { index: "@, " }"@],
        OrkaError::ResourceMissing { .. } => seq!["ResourceMissing { resource: "@, " }"@],
        OrkaError::StepTimedOut { .. } => seq![
            "StepTimedOut { step_name: "@,
            ", after: "@,
            " }"@,
        ],
    }
}

proof fn lemma_debug_reads(error: OrkaError, source: Seq<char>)
    ensures
        reads_as(
            debug_frame(error),
            debug_fields(error, source),
            error::error_debug_text(error, source),
        ),
{
}

/// Two errors of one kind read alike but for what they report and for their causes, in their
/// messages and for debugging.
pub proof fn law_errors_of_a_kind_read_alike(
    a: OrkaError,
    b: OrkaError,
    a_cause: &str,
    b_cause: &str,
    a_text: String,
    b_text: String,
    a_debug: String,
    b_debug: String,
)
    requires
        same_error(a, b),
        call_ensures(OrkaError::describe, (&a, a_cause), a_text),
        call_ensures(OrkaError::describe, (&b, b_cause), b_text),
        call_ensures(OrkaError::describe_debug, (&a, a_cause), a_debug),
        call_ensures(OrkaError::describe_debug, (&b, b_cause), b_debug),
    ensures
        read_alike(error_fields(a, a_cause@), a_text@, error_fields(b, b_cause@), b_text@),
        read_alike(debug_fields(a, a_cause@), a_debug@, debug_fields(b, b_cause@), b_debug@),
{
    lemma_error_reads(a, a_cause@);
    lemma_error_reads(b, b_cause@);
    lemma_debug_reads(a, a_cause@);
    lemma_debug_reads(b, b_cause@);
    assert(error_frame(a) == error_frame(b));
    assert(debug_frame(a) == debug_frame(b));
}

/// Which errors have a cause, and that an error's message is the description with the text of its
/// cause, or with none.
pub proof fn law_a_message_holds_its_cause(
    e: OrkaError,
    cause: Option<&anyhow::Error>,
    text: String,
    debug: String,
)
    requires
        call_ensures(OrkaError::cause, (&e,), cause),
        call_ensures(OrkaError::to_string, (&e,), text),
        call_ensures(OrkaError::to_debug, (&e,), debug),
    ensures
        cause is Some <==> e is ExtractorFailure || e is PipelineProviderFailure
            || e is HandlerError,
        e matches OrkaError::ExtractorFailure { source, .. } ==> cause == Some(&source),
        e matches OrkaError::PipelineProviderFailure { source, .. } ==> cause == Some(&source),
        e matches OrkaError::HandlerError { source } ==> cause == Some(&source),
        exists|source: Seq<char>|
            text@ == #[trigger] error::error_text(e, source) && match cause {
                Some(c) => error::was_displayed(*c, source) && (error::message_text(*c) matches Some(
                    message,
                ) ==> source == message),
                None => source.len() == 0,
            },
        exists|source: Seq<char>|
            debug@ == #[trigger] error::error_debug_text(e, source) && match cause {
                Some(c) => error::was_debugged(*c, source) && (error::message_text(*c) matches Some(
                    message,
                ) ==> message.is_prefix_of(source)),
                None => source.len() == 0,
            },
{
    match e.source() {
        Some(c) => {
            let source = choose|source: Seq<char>| #[trigger]
                error::displays(c, source) && text@ == error::error_text(e, source);
            assert(text@ == error::error_text(e, source));
            let rendered = choose|source: Seq<char>| #[trigger]
                error::debugs(c, source) && debug@ == error::error_debug_text(e, source);
            assert(debug@ == error::error_debug_text(e, rendered));
        },
        None => {
            assert(text@ == error::error_text(e, Seq::empty()));
            assert(debug@ == error::error_debug_text(e, Seq::empty()));
        },
    }
}

/// What a test error carries.
pub open spec fn carried(error: TestError) -> Seq<char> {
    match error {
        TestError::Orka(s) => error::debug_text(s@),
        TestError::Handler(s) => s@,
        TestError::Extractor(s) => s@,
        TestError::Provider(s) => s@,
        TestError::ScopedTask(s) => s@,
        TestError::Other(s) => s@,
    }
}

/// Whether two test errors are of one kind.
pub open spec fn same_test_error(a: TestError, b: TestError) -> bool {
    match a {
        TestError::Orka(_) => b is Orka,
        TestError::Handler(_) => b is Handler,
        TestError::Extractor(_) => b is Extractor,
        TestError::Provider(_) => b is Provider,
        TestError::ScopedTask(_) => b is ScopedTask,
        TestError::Other(_) => b is Other,
    }
}

spec fn test_error_frame(error: TestError) -> Seq<Seq<char>> {
    match error {
        TestError::Orka(_) => seq!["Orka framework error: "@, nothing()],
        TestError::Handler(_) => seq!["Test handler failed: "@, nothing()],
        TestError::Extractor(_) => seq!["Test extractor failed: "@, nothing()],
        TestError::Provider(_) => seq!["Test pipeline provider failed: "@, nothing()],
        TestError::ScopedTask(_) => seq!["Test scoped task failed: "@, nothing()],
        TestError::Other(_) => seq![nothing(), nothing()],
    }
}

/// Two test errors of one kind read alike but for what they carry.
pub proof fn law_test_errors_read_alike(a: TestError, b: TestError, a_text: String, b_text: String)
    requires
        same_test_error(a, b),
        call_ensures(TestError::to_string, (&a,), a_text),
        call_ensures(TestError::to_string, (&b,), b_text),
    ensures
        read_alike(seq![carried(a)], a_text@, seq![carried(b)], b_text@),
        a is Other ==> a_text@ == carried(a),
{
    let frame = test_error_frame(a);
    assert(test_util::test_error_text(a) =~= filled(frame, seq![carried(a)]));
    assert(test_util::test_error_text(b) =~= filled(frame, seq![carried(b)]));
    assert(reads_as(frame, seq![carried(a)], a_text@));
}

/// A plan reads as the name of its step and the action, and skips read alike but for the reason.
/// A policy with a number reads alike but for the number.
pub proof fn law_plans_and_policies_read_alike(
    a: StepPlan,
    b: StepPlan,
    a_text: String,
    b_text: String,
    a_action: String,
    b_action: String,
    n: usize,
    m: usize,
    n_text: String,
    m_text: String,
    reason: SkipReason,
    other: SkipReason,
    skip: String,
    other_skip: String,
)
    requires
        call_ensures(StepPlan::to_string, (&a,), a_text),
        call_ensures(StepPlan::to_string, (&b,), b_text),
        call_ensures(PlannedAction::to_string, (&a.action,), a_action),
        call_ensures(PlannedAction::to_string, (&b.action,), b_action),
        call_ensures(PlannedAction::to_string, (&PlannedAction::Skip(reason),), skip),
        call_ensures(PlannedAction::to_string, (&PlannedAction::Skip(other),), other_skip),
        call_ensures(FanOutPolicy::to_string, (&FanOutPolicy::RequireAtLeast(n),), n_text),
        call_ensures(FanOutPolicy::to_string, (&FanOutPolicy::RequireAtLeast(m),), m_text),
    ensures
        read_alike(seq![a.name@, a_action@], a_text@, seq![b.name@, b_action@], b_text@),
        read_alike(
            seq![trace::skip_reason_text(reason)],
            skip@,
            seq![trace::skip_reason_text(other)],
            other_skip@,
        ),
        read_alike(
            seq![text::decimal(n as nat)],
            n_text@,
            seq![text::decimal(m as nat)],
            m_text@,
        ),
{
    let planned = seq![nothing(), ": "@, nothing()];
    assert(a_text@ =~= filled(planned, seq![a.name@, a_action@]));
    assert(b_text@ =~= filled(planned, seq![b.name@, b_action@]));
    assert(reads_as(planned, seq![a.name@, a_action@], a_text@));
    let skipped = seq!["skip ("@, ")"@];
    assert(plan::action_text(PlannedAction::Skip(reason)) =~= filled(
        skipped,
        seq![trace::skip_reason_text(reason)],
    ));
    assert(plan::action_text(PlannedAction::Skip(other)) =~= filled(
        skipped,
        seq![trace::skip_reason_text(other)],
    ));
    assert(reads_as(skipped, seq![trace::skip_reason_text(reason)], skip@));
    let at_least = seq!["RequireAtLeast("@, ")"@];
    assert(fanout::policy_text(FanOutPolicy::RequireAtLeast(n)) =~= filled(
        at_least,
        seq![text::decimal(n as nat)],
    ));
    assert(fanout::policy_text(FanOutPolicy::RequireAtLeast(m)) =~= filled(
        at_least,
        seq![text::decimal(m as nat)],
    ));
    assert(reads_as(at_least, seq![text::decimal(n as nat)], n_text@));
}

/// An error of anyone else's is carried as the cause of a handler error, and a framework error
/// becomes a test error that carries what is written of it for debugging.
pub proof fn law_converted_errors_keep_what_they_carry(
    cause: anyhow::Error,
    error: OrkaError,
    handler: OrkaError,
    test: TestError,
)
    requires
        call_ensures(<OrkaError as From<anyhow::Error>>::from, (cause,), handler),
        call_ensures(<TestError as From<OrkaError>>::from, (error,), test),
    ensures
        handler == (OrkaError::HandlerError { source: cause }),
        test matches TestError::Orka(text) && error::is_debug_message(error, text@),
{
}

/// How the results of a fan-out are summed up in a word.
pub open spec fn summed_up(cancelled: bool, satisfied: bool) -> Seq<char> {
    if cancelled {
        "cancelled"@
    } else if satisfied {
        "satisfied"@
    } else {
        "unmet"@
    }
}

/// Whether a text is the first with the second behind it.
pub open spec fn is_followed(first: Seq<char>, second: Seq<char>, whole: Seq<char>) -> bool {
    whole == first + second
}

/// The summaries of two fan-outs read alike but for the counts of their branches, and then but
/// for the policy and the word that sums them up.
pub proof fn law_summaries_read_alike<C, E>(
    a: FanOutResults<C, E>,
    b: FanOutResults<C, E>,
    a_counts: (usize, usize, usize, usize, usize),
    b_counts: (usize, usize, usize, usize, usize),
    a_text: String,
    b_text: String,
)
    requires
        call_ensures(FanOutResults::<C, E>::len, (&a,), a_counts.0),
        call_ensures(FanOutResults::<C, E>::succeeded, (&a,), a_counts.1),
        call_ensures(FanOutResults::<C, E>::failed, (&a,), a_counts.2),
        call_ensures(FanOutResults::<C, E>::cancelled, (&a,), a_counts.3),
        call_ensures(FanOutResults::<C, E>::not_started, (&a,), a_counts.4),
        call_ensures(FanOutResults::<C, E>::len, (&b,), b_counts.0),
        call_ensures(FanOutResults::<C, E>::succeeded, (&b,), b_counts.1),
        call_ensures(FanOutResults::<C, E>::failed, (&b,), b_counts.2),
        call_ensures(FanOutResults::<C, E>::cancelled, (&b,), b_counts.3),
        call_ensures(FanOutResults::<C, E>::not_started, (&b,), b_counts.4),
        call_ensures(FanOutResults::<C, E>::to_string, (&a,), a_text),
        call_ensures(FanOutResults::<C, E>::to_string, (&b,), b_text),
    ensures
        exists|a_head: Seq<char>, a_tail: Seq<char>, b_head: Seq<char>, b_tail: Seq<char>|
            #[trigger] is_followed(a_head, a_tail, a_text@) && #[trigger] is_followed(
                b_head,
                b_tail,
                b_text@,
            ) && read_alike(in_digits(a_counts), a_head, in_digits(b_counts), b_head)
                && read_alike(
                seq![fanout::policy_text(a.policy), summed_up(a.cancelled, a.satisfied)],
                a_tail,
                seq![fanout::policy_text(b.policy), summed_up(b.cancelled, b.satisfied)],
                b_tail,
            ),
{
    let (a_head, a_tail) = lemma_summary(a, a_counts, a_text);
    let (b_head, b_tail) = lemma_summary(b, b_counts, b_text);
    assert(is_followed(a_head, a_tail, a_text@) && is_followed(b_head, b_tail, b_text@));
}

/// Five counts as they are written.
pub open spec fn in_digits(counts: (usize, usize, usize, usize, usize)) -> Seq<Seq<char>> {
    seq![
        text::decimal(counts.0 as nat),
        text::decimal(counts.1 as nat),
        text::decimal(counts.2 as nat),
        text::decimal(counts.3 as nat),
        text::decimal(counts.4 as nat),
    ]
}

spec fn counts_frame() -> Seq<Seq<char>> {
    seq![
        nothing(),
        " item(s): "@,
        " succeeded, "@,
        " failed, "@,
        " cancelled, "@,
        " not started"@,
    ]
}

spec fn verdict_frame() -> Seq<Seq<char>> {
    seq![" ("@, ": "@, ")"@]
}

proof fn lemma_summary<C, E>(
    results: FanOutResults<C, E>,
    counts: (usize, usize, usize, usize, usize),
    text: String,
) -> (parts: (Seq<char>, Seq<char>))
    requires
        call_ensures(FanOutResults::<C, E>::len, (&results,), counts.0),
        call_ensures(FanOutResults::<C, E>::succeeded, (&results,), counts.1),
        call_ensures(FanOutResults::<C, E>::failed, (&results,), counts.2),
        call_ensures(FanOutResults::<C, E>::cancelled, (&results,), counts.3),
        call_ensures(FanOutResults::<C, E>::not_started, (&results,), counts.4),
        call_ensures(FanOutResults::<C, E>::to_string, (&results,), text),
    ensures
        is_followed(parts.0, parts.1, text@),
        reads_as(counts_frame(), in_digits(counts), parts.0),
        reads_as(
            verdict_frame(),
            seq![
                fanout::policy_text(results.policy),
                summed_up(results.cancelled, results.satisfied),
            ],
            parts.1,
        ),
{
    let head = filled(counts_frame(), in_digits(counts));
    let verdict = seq![
        fanout::policy_text(results.policy),
        summed_up(results.cancelled, results.satisfied),
    ];
    let tail = filled(verdict_frame(), verdict);
    reveal_strlit(" not started (");
    reveal_strlit(" not started");
    reveal_strlit(" (");
    assert(" not started ("@ =~= " not started"@ + " ("@);
    lemma_nothing_more(text::decimal(counts.0 as nat));
    let policy = verdict[0];
    let word = verdict[1];
    let counted = text::decimal(counts.0 as nat) + " item(s): "@ + text::decimal(counts.1 as nat)
        + " succeeded, "@ + text::decimal(counts.2 as nat) + " failed, "@ + text::decimal(
        counts.3 as nat,
    ) + " cancelled, "@ + text::decimal(counts.4 as nat);
    assert(head == counted + " not started"@);
    assert(text@ == counted + " not started ("@ + policy + ": "@ + word + ")"@);
    assert(text@ =~= head + tail);
    (head, tail)
}

} // verus!
