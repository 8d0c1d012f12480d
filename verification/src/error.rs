//! The framework's own error type.

use std::time::Duration;
use vstd::prelude::*;

use crate::text;

verus! {

/// `anyhow::Error`, carried through as the cause of a failure and never inspected.
#[verifier::external_type_specification]
#[verifier::external_body]
pub struct ExAnyhowError(anyhow::Error);

/// What `Debug` prints for a `std::time::Duration`, such as `10ms` or `1.5s`.
pub uninterp spec fn duration_text(d: Duration) -> Seq<char>;

/// The `Debug` rendering of a `std::time::Duration`. The text depends on the duration
/// alone; it is named [`duration_text`] and not described further.
#[verifier::external_body]
fn debug_duration(d: &Duration) -> (r: String)
    ensures
        r@ == duration_text(*d),
{
    format!("{:?}", d)
}

/// The message that an `anyhow::Error` was made from by `anyhow::Error::msg`, `None` where
/// it was made in another way.
pub uninterp spec fn message_text(error: anyhow::Error) -> Option<Seq<char>>;

/// `anyhow::Error::msg`: an error that consists of a message.
#[verifier::external_body]
pub(crate) fn message_error(message: String) -> (r: anyhow::Error)
    ensures
        message_text(r) == Some(message@),
{
    anyhow::Error::msg(message)
}

/// The `Display` rendering of an `anyhow::Error`, which is that of the error it wraps: for
/// an error made from a message, the message. Of any other error nothing is claimed, since
/// the wrapped error's own formatting decides the text.
#[verifier::external_body]
fn display_source(source: &anyhow::Error) -> (r: String)
    ensures
        message_text(*source) is Some ==> Some(r@) == message_text(*source),
{
    format!("{}", source)
}

/// What `Debug` prints for a string: the string in double quotes, with what needs it escaped.
pub uninterp spec fn debug_text(s: Seq<char>) -> Seq<char>;

/// The `Debug` rendering of a string. The text depends on the string alone; it is named
/// [`debug_text`] and not described further.
#[verifier::external_body]
pub(crate) fn debug_str(s: &str) -> (r: String)
    ensures
        r@ == debug_text(s@),
{
    format!("{:?}", s)
}

/// The `Debug` rendering of an `anyhow::Error`. It begins with the `Display` rendering of the
/// error it wraps, which for an error made from a message is the message. What follows is left
/// open: the causes of the wrapped error, and a backtrace where the environment asks for one.
#[verifier::external_body]
fn debug_source(source: &anyhow::Error) -> (r: String)
    ensures
        message_text(*source) matches Some(message) ==> message.is_prefix_of(r@),
{
    format!("{:?}", source)
}

/// Whether `text` is how the cause was displayed.
pub closed spec fn was_displayed(cause: anyhow::Error, text: Seq<char>) -> bool {
    exists|r: String| #[trigger] call_ensures(display_source, (&cause,), r) && r@ == text
}

/// Whether `text` is how the cause displays itself: a message as the message, and any other
/// cause as it chooses.
pub open spec fn displays(cause: anyhow::Error, text: Seq<char>) -> bool {
    &&& was_displayed(cause, text)
    &&& message_text(cause) matches Some(message) ==> text == message
}

/// Whether `text` is how the cause was rendered for debugging.
pub closed spec fn was_debugged(cause: anyhow::Error, text: Seq<char>) -> bool {
    exists|r: String| #[trigger] call_ensures(debug_source, (&cause,), r) && r@ == text
}

/// Whether `text` is how the cause renders itself for debugging: a message begins with the
/// message.
pub open spec fn debugs(cause: anyhow::Error, text: Seq<char>) -> bool {
    &&& was_debugged(cause, text)
    &&& message_text(cause) matches Some(message) ==> message.is_prefix_of(text)
}

/// A failure of the framework itself, as opposed to one returned by a handler.
#[derive(Debug)]
pub enum OrkaError {
    /// A step was named that the pipeline does not have.
    StepNotFound { step_name: String },
    /// A required step was reached without any handler.
    HandlerMissing { step_name: String },
    /// A sub-context extractor failed.
    ExtractorFailure { step_name: String, source: anyhow::Error },
    /// A conditional scope could not obtain its pipeline.
    PipelineProviderFailure { step_name: String, source: anyhow::Error },
    /// A context held data of another type than the handler asked for.
    TypeMismatch { step_name: String, expected_type: String },
    /// An error from a handler or from code a handler called.
    HandlerError { source: anyhow::Error },
    /// The pipeline is set up wrongly.
    ConfigurationError { step_name: String, message: String },
    /// A condition the framework itself rules out.
    Internal(String),
    /// No conditional scope matched.
    NoConditionalScopeMatched { step_name: String },
    /// A fan-out finished without satisfying its policy, and no branch produced an error
    /// to propagate (for example `RequireAll` where every branch merely stopped).
    FanOutPolicyUnmet {
        policy: String,
        total: usize,
        succeeded: usize,
        failed: usize,
        not_started: usize,
    },
    /// A spawned fan-out branch never produced a result: its task panicked or was aborted.
    FanOutBranchLost { index: usize },
    /// A step read a resource that is not present in the context.
    ResourceMissing { resource: String },
    /// A step exceeded its time budget.
    StepTimedOut { step_name: String, after: Duration },
}

/// The result of a framework operation.
pub type OrkaResult<T, E = OrkaError> = std::result::Result<T, E>;

impl From<anyhow::Error> for OrkaError {
    fn from(err: anyhow::Error) -> (r: OrkaError) {
        OrkaError::HandlerError { source: err }
    }
}

impl vstd::std_specs::convert::FromSpecImpl<anyhow::Error> for OrkaError {
    open spec fn obeys_from_spec() -> bool {
        true
    }

    open spec fn from_spec(err: anyhow::Error) -> OrkaError {
        OrkaError::HandlerError { source: err }
    }
}

/// The message of `error`, where `source` is the text of its cause (used by the variants
/// that carry one).
pub open spec fn error_text(error: OrkaError, source: Seq<char>) -> Seq<char> {
    match error {
        OrkaError::StepNotFound { step_name } => "Step not found: "@ + step_name@,
        OrkaError::HandlerMissing { step_name } => "Handler missing for non-optional step: "@
            + step_name@,
        OrkaError::ExtractorFailure { step_name, .. } => "Extractor failed for step "@
            + text::quoted(step_name@) + ". Source: "@ + source,
        OrkaError::PipelineProviderFailure { step_name, .. } =>
            "Pipeline provider failed for conditional scope in step "@ + text::quoted(step_name@)
            + ". Source: "@ + source,
        OrkaError::TypeMismatch { step_name, expected_type } =>
            "Type mismatch during context downcast (expected "@ + expected_type@ + ", step: "@
            + text::quoted(step_name@) + ")"@,
        OrkaError::HandlerError { .. } =>
            "Error in user-provided handler or external operation. Source: "@ + source,
        OrkaError::ConfigurationError { step_name, message } => "Configuration error for step "@
            + text::quoted(step_name@) + ": "@ + message@,
        OrkaError::Internal(message) => "Internal Orka error: "@ + message@,
        OrkaError::NoConditionalScopeMatched { step_name } =>
            "No conditional scope's condition matched for step "@ + text::quoted(step_name@),
        OrkaError::FanOutPolicyUnmet { policy, total, succeeded, failed, not_started } =>
            "Fan-out policy "@ + policy@ + " unmet: "@ + text::decimal(succeeded as nat) + " of "@
            + text::decimal(total as nat) + " succeeded ("@ + text::decimal(failed as nat)
            + " failed, "@ + text::decimal(not_started as nat) + " never started)"@,
        OrkaError::FanOutBranchLost { index } => "Fan-out branch "@ + text::decimal(index as nat)
            + " did not run to completion (its task panicked or was aborted)"@,
        OrkaError::ResourceMissing { resource } => "Required resource "@ + text::quoted(resource@)
            + " is not present in the context (was its producing step skipped or removed?)"@,
        OrkaError::StepTimedOut { step_name, after } => "Step "@ + text::quoted(step_name@)
            + " timed out after "@ + duration_text(after),
    }
}

/// The variant and fields of `error`, as they are written for debugging, where `source` is the
/// rendering of its cause (used by the variants that carry one).
pub open spec fn error_debug_text(error: OrkaError, source: Seq<char>) -> Seq<char> {
    match error {
        OrkaError::StepNotFound { step_name } => "StepNotFound { step_name: "@
            + debug_text(step_name@) + " }"@,
        OrkaError::HandlerMissing { step_name } => "HandlerMissing { step_name: "@
            + debug_text(step_name@) + " }"@,
        OrkaError::ExtractorFailure { step_name, .. } => "ExtractorFailure { step_name: "@
            + debug_text(step_name@) + ", source: "@ + source + " }"@,
        OrkaError::PipelineProviderFailure { step_name, .. } =>
            "PipelineProviderFailure { step_name: "@ + debug_text(step_name@) + ", source: "@
            + source + " }"@,
        OrkaError::TypeMismatch { step_name, expected_type } => "TypeMismatch { step_name: "@
            + debug_text(step_name@) + ", expected_type: "@ + debug_text(expected_type@) + " }"@,
        OrkaError::HandlerError { .. } => "HandlerError { source: "@ + source + " }"@,
        OrkaError::ConfigurationError { step_name, message } =>
            "ConfigurationError { step_name: "@ + debug_text(step_name@) + ", message: "@
            + debug_text(message@) + " }"@,
        OrkaError::Internal(message) => "Internal("@ + debug_text(message@) + ")"@,
        OrkaError::NoConditionalScopeMatched { step_name } =>
            "NoConditionalScopeMatched { step_name: "@ + debug_text(step_name@) + " }"@,
        OrkaError::FanOutPolicyUnmet { policy, total, succeeded, failed, not_started } =>
            "FanOutPolicyUnmet { policy: "@ + debug_text(policy@) + ", total: "@
            + text::decimal(total as nat) + ", succeeded: "@ + text::decimal(succeeded as nat)
            + ", failed: "@ + text::decimal(failed as nat) + ", not_started: "@
            + text::decimal(not_started as nat) + " }"@,
        OrkaError::FanOutBranchLost { index } => "FanOutBranchLost { index: "@
            + text::decimal(index as nat) + " }"@,
        OrkaError::ResourceMissing { resource } => "ResourceMissing { resource: "@
            + debug_text(resource@) + " }"@,
        OrkaError::StepTimedOut { step_name, after } => "StepTimedOut { step_name: "@
            + debug_text(step_name@) + ", after: "@ + duration_text(after) + " }"@,
    }
}

/// Whether `text` is the message of `error`, whose cause is displayed in it.
pub open spec fn displays_cause(error: OrkaError, cause: anyhow::Error, text: Seq<char>) -> bool {
    exists|source: Seq<char>| #[trigger]
        displays(cause, source) && text == error_text(error, source)
}

/// Whether `text` is the message of `error`.
pub open spec fn is_message(error: OrkaError, text: Seq<char>) -> bool {
    match error.source() {
        Some(cause) => displays_cause(error, cause, text),
        None => text == error_text(error, Seq::empty()),
    }
}

/// Whether `text` is what is written of `error` for debugging, with the rendering of its cause.
pub open spec fn debugs_cause(error: OrkaError, cause: anyhow::Error, text: Seq<char>) -> bool {
    exists|source: Seq<char>| #[trigger]
        debugs(cause, source) && text == error_debug_text(error, source)
}

/// Whether `text` is what is written of `error` for debugging.
pub open spec fn is_debug_message(error: OrkaError, text: Seq<char>) -> bool {
    match error.source() {
        Some(cause) => debugs_cause(error, cause, text),
        None => text == error_debug_text(error, Seq::empty()),
    }
}

impl OrkaError {
    /// The error's message, given the text of its cause.
    pub fn describe(&self, source: &str) -> (r: String)
        ensures
            r@ == error_text(*self, source@),
    {
        match self {
            OrkaError::StepNotFound { step_name } => {
                let mut out = "Step not found: ".to_string();
                out.append(step_name.as_str());
                out
            },
            OrkaError::HandlerMissing { step_name } => {
                let mut out = "Handler missing for non-optional step: ".to_string();
                out.append(step_name.as_str());
                out
            },
            OrkaError::ExtractorFailure { step_name, .. } => {
                let mut out = "Extractor failed for step ".to_string();
                text::push_quoted(&mut out, step_name.as_str());
                out.append(". Source: ");
                out.append(source);
                out
            },
            OrkaError::PipelineProviderFailure { step_name, .. } => {
                let mut out =
                    "Pipeline provider failed for conditional scope in step ".to_string();
                text::push_quoted(&mut out, step_name.as_str());
                out.append(". Source: ");
                out.append(source);
                out
            },
            OrkaError::TypeMismatch { step_name, expected_type } => {
                let mut out = "Type mismatch during context downcast (expected ".to_string();
                out.append(expected_type.as_str());
                out.append(", step: ");
                text::push_quoted(&mut out, step_name.as_str());
                out.append(")");
                out
            },
            OrkaError::HandlerError { .. } => {
                let mut out =
                    "Error in user-provided handler or external operation. Source: ".to_string();
                out.append(source);
                out
            },
            OrkaError::ConfigurationError { step_name, message } => {
                let mut out = "Configuration error for step ".to_string();
                text::push_quoted(&mut out, step_name.as_str());
                out.append(": ");
                out.append(message.as_str());
                out
            },
            OrkaError::Internal(message) => {
                let mut out = "Internal Orka error: ".to_string();
                out.append(message.as_str());
                out
            },
            OrkaError::NoConditionalScopeMatched { step_name } => {
                let mut out = "No conditional scope's condition matched for step ".to_string();
                text::push_quoted(&mut out, step_name.as_str());
                out
            },
            OrkaError::FanOutPolicyUnmet { policy, total, succeeded, failed, not_started } => {
                let mut out = "Fan-out policy ".to_string();
                out.append(policy.as_str());
                out.append(" unmet: ");
                text::push_count(&mut out, *succeeded);
                out.append(" of ");
                text::push_count(&mut out, *total);
                out.append(" succeeded (");
                text::push_count(&mut out, *failed);
                out.append(" failed, ");
                text::push_count(&mut out, *not_started);
                out.append(" never started)");
                out
            },
            OrkaError::FanOutBranchLost { index } => {
                let mut out = "Fan-out branch ".to_string();
                text::push_count(&mut out, *index);
                out.append(" did not run to completion (its task panicked or was aborted)");
                out
            },
            OrkaError::ResourceMissing { resource } => {
                let mut out = "Required resource ".to_string();
                text::push_quoted(&mut out, resource.as_str());
                out.append(
                    " is not present in the context (was its producing step skipped or removed?)",
                );
                out
            },
            OrkaError::StepTimedOut { step_name, after } => {
                let mut out = "Step ".to_string();
                text::push_quoted(&mut out, step_name.as_str());
                out.append(" timed out after ");
                out.append(debug_duration(after).as_str());
                out
            },
        }
    }

    /// The error's variant and fields, given the rendering of its cause.
    pub fn describe_debug(&self, source: &str) -> (r: String)
        ensures
            r@ == error_debug_text(*self, source@),
    {
        match self {
            OrkaError::StepNotFound { step_name } => {
                let mut out = "StepNotFound { step_name: ".to_string();
                out.append(debug_str(step_name.as_str()).as_str());
                out.append(" }");
                out
            },
            OrkaError::HandlerMissing { step_name } => {
                let mut out = "HandlerMissing { step_name: ".to_string();
                out.append(debug_str(step_name.as_str()).as_str());
                out.append(" }");
                out
            },
            OrkaError::ExtractorFailure { step_name, .. } => {
                let mut out = "ExtractorFailure { step_name: ".to_string();
                out.append(debug_str(step_name.as_str()).as_str());
                out.append(", source: ");
                out.append(source);
                out.append(" }");
                out
            },
            OrkaError::PipelineProviderFailure { step_name, .. } => {
                let mut out = "PipelineProviderFailure { step_name: ".to_string();
                out.append(debug_str(step_name.as_str()).as_str());
                out.append(", source: ");
                out.append(source);
                out.append(" }");
                out
            },
            OrkaError::TypeMismatch { step_name, expected_type } => {
                let mut out = "TypeMismatch { step_name: ".to_string();
                out.append(debug_str(step_name.as_str()).as_str());
                out.append(", expected_type: ");
                out.append(debug_str(expected_type.as_str()).as_str());
                out.append(" }");
                out
            },
            OrkaError::HandlerError { .. } => {
                let mut out = "HandlerError { source: ".to_string();
                out.append(source);
                out.append(" }");
                out
            },
            OrkaError::ConfigurationError { step_name, message } => {
                let mut out = "ConfigurationError { step_name: ".to_string();
                out.append(debug_str(step_name.as_str()).as_str());
                out.append(", message: ");
                out.append(debug_str(message.as_str()).as_str());
                out.append(" }");
                out
            },
            OrkaError::Internal(message) => {
                let mut out = "Internal(".to_string();
                out.append(debug_str(message.as_str()).as_str());
                out.append(")");
                out
            },
            OrkaError::NoConditionalScopeMatched { step_name } => {
                let mut out = "NoConditionalScopeMatched { step_name: ".to_string();
                out.append(debug_str(step_name.as_str()).as_str());
                out.append(" }");
                out
            },
            OrkaError::FanOutPolicyUnmet { policy, total, succeeded, failed, not_started } => {
                let mut out = "FanOutPolicyUnmet { policy: ".to_string();
                out.append(debug_str(policy.as_str()).as_str());
                out.append(", total: ");
                text::push_count(&mut out, *total);
                out.append(", succeeded: ");
                text::push_count(&mut out, *succeeded);
                out.append(", failed: ");
                text::push_count(&mut out, *failed);
                out.append(", not_started: ");
                text::push_count(&mut out, *not_started);
                out.append(" }");
                out
            },
            OrkaError::FanOutBranchLost { index } => {
                let mut out = "FanOutBranchLost { index: ".to_string();
                text::push_count(&mut out, *index);
                out.append(" }");
                out
            },
            OrkaError::ResourceMissing { resource } => {
                let mut out = "ResourceMissing { resource: ".to_string();
                out.append(debug_str(resource.as_str()).as_str());
                out.append(" }");
                out
            },
            OrkaError::StepTimedOut { step_name, after } => {
                let mut out = "StepTimedOut { step_name: ".to_string();
                out.append(debug_str(step_name.as_str()).as_str());
                out.append(", after: ");
                out.append(debug_duration(after).as_str());
                out.append(" }");
                out
            },
        }
    }

    /// The error's cause, for the variants that carry one.
    pub open spec fn source(self) -> Option<anyhow::Error> {
        match self {
            OrkaError::ExtractorFailure { source, .. } => Some(source),
            OrkaError::PipelineProviderFailure { source, .. } => Some(source),
            OrkaError::HandlerError { source } => Some(source),
            _ => None,
        }
    }

    /// The error's cause, for the variants that carry one.
    pub fn cause(&self) -> (r: Option<&anyhow::Error>)
        ensures
            match r {
                Some(cause) => self.source() == Some(*cause),
                None => self.source() is None,
            },
    {
        match self {
            OrkaError::ExtractorFailure { source, .. } => Some(source),
            OrkaError::PipelineProviderFailure { source, .. } => Some(source),
            OrkaError::HandlerError { source } => Some(source),
            _ => None,
        }
    }

    /// The error's message.
    ///
    /// For the variants with a cause the message ends in the cause's own rendering: that of
    /// a message is the message, and any other cause formats itself. Every other variant's
    /// message is fixed by its fields.
    pub fn to_string(&self) -> (r: String)
        ensures
            is_message(*self, r@),
    {
        match self.cause() {
            Some(cause) => {
                let source = display_source(cause);
                assert(displays(*cause, source@));
                self.describe(source.as_str())
            },
            None => {
                let source = String::new();
                assert(source@ =~= Seq::<char>::empty());
                self.describe(source.as_str())
            },
        }
    }

    /// The error's variant and fields, as they are written for debugging. A cause is rendered
    /// by itself.
    pub fn to_debug(&self) -> (r: String)
        ensures
            is_debug_message(*self, r@),
    {
        match self.cause() {
            Some(cause) => {
                let source = debug_source(cause);
                assert(debugs(*cause, source@));
                self.describe_debug(source.as_str())
            },
            None => {
                let source = String::new();
                assert(source@ =~= Seq::<char>::empty());
                self.describe_debug(source.as_str())
            },
        }
    }
}

} // verus!
