//! Validation of pipelines, and registration of validated ones.

use orka::registry::Orka;
use orka::{Callbacks, OrkaError, Pipeline, PipelineControl};
use std::any::TypeId;

/// Validation looks at which callbacks are registered, never inside them.
struct Named;

impl Callbacks for Named {
    type Handler = &'static str;
    type SubHandler = &'static str;
    type SkipCondition = &'static str;
    type Extractor = &'static str;
    type FinishHandler = &'static str;
    type Scope = &'static str;
    type Observer = &'static str;
}

fn config_error(err: OrkaError) -> (String, String) {
    match err {
        OrkaError::ConfigurationError { step_name, message } => (step_name, message),
        other => panic!("Expected OrkaError::ConfigurationError, got {:?}", other),
    }
}

fn config_error_message(err: OrkaError) -> String {
    config_error(err).1
}

fn pipeline_of(names: &[&'static str]) -> Pipeline<Named> {
    let mut p: Pipeline<Named> = Pipeline::new(names);
    for name in names {
        p.on_root(name, name);
    }
    p
}

#[test]
fn test_validate_accepts_a_well_formed_pipeline() {
    let mut pipeline: Pipeline<Named> = Pipeline::new(&["a", "b"]);
    pipeline.optional("b").on_root("a", "A");
    assert!(pipeline.validate().is_ok());
}

#[test]
fn test_validate_flags_required_step_without_handlers() {
    let mut pipeline: Pipeline<Named> = Pipeline::new(&["has_handler", "no_handler"]);
    pipeline.on_root("has_handler", "H");
    let message = config_error_message(pipeline.validate().unwrap_err());
    assert!(message.contains("no_handler"), "message was: {}", message);
    assert!(message.contains("no before/on/after handlers"), "message was: {}", message);
}

#[test]
fn test_validate_allows_optional_step_without_handlers() {
    let mut pipeline: Pipeline<Named> = Pipeline::new(&["a", "spare"]);
    pipeline.optional("spare").on_root("a", "A");
    assert!(pipeline.validate().is_ok());
}

#[test]
fn test_validate_flags_extractor_with_no_sub_handler() {
    let mut pipeline: Pipeline<Named> = Pipeline::new(&["step"]);
    pipeline.set_extractor("step", "sub_data_container").on_root("step", "S");
    let message = config_error_message(pipeline.validate().unwrap_err());
    assert!(message.contains("extractor"), "message was: {}", message);
    assert!(message.contains("no on::<SData> handler"), "message was: {}", message);
}

#[test]
fn test_validate_accepts_extractor_with_matching_sub_handler() {
    let mut pipeline: Pipeline<Named> = Pipeline::new(&["step"]);
    pipeline.set_extractor("step", "sub_data_container").on("step", "continue");
    assert!(pipeline.validate().is_ok());
}

#[test]
fn test_validate_flags_unfinalized_conditional_scope() {
    let mut pipeline: Pipeline<Named> = Pipeline::new(&["cond"]);
    let _builder = pipeline.conditional_scopes_for_step("cond");
    let message = config_error_message(pipeline.validate().unwrap_err());
    assert!(message.contains("cond"), "message was: {}", message);
    assert!(message.contains("finalize_conditional_step"), "message was: {}", message);
}

#[test]
fn test_validate_accepts_finalized_conditional_scope() {
    let mut pipeline: Pipeline<Named> = Pipeline::new(&["cond"]);
    pipeline
        .conditional_scopes_for_step("cond")
        .if_no_scope_matches(PipelineControl::Continue)
        .finalize_conditional_step(false);
    assert!(pipeline.validate().is_ok());
}

#[test]
fn test_validate_reports_all_problems_at_once() {
    let mut pipeline: Pipeline<Named> = Pipeline::new(&["missing_handler", "extractor_step"]);
    pipeline.set_extractor("extractor_step", "sub_data_container");
    let _builder = pipeline.conditional_scopes_for_step("unfinalized");
    let message = config_error_message(pipeline.validate().unwrap_err());
    assert!(message.contains("5 problems"), "message was: {}", message);
    assert!(message.contains("missing_handler"), "message was: {}", message);
    assert!(message.contains("no on::<SData> handler"), "message was: {}", message);
    assert!(message.contains("finalize_conditional_step"), "message was: {}", message);
}

#[test]
fn test_register_pipeline_rejects_invalid_pipeline() {
    let registry: Orka<&str, &str> = Orka::new();
    let pipeline: Pipeline<Named> = Pipeline::new(&["step_with_no_handler"]);
    let key = TypeId::of::<Named>();
    let result = registry.register_pipeline(key, pipeline, |_| ("runner", "pipeline"));
    assert!(result.is_err(), "registry must validate on registration");
    let message = config_error_message(result.unwrap_err());
    assert!(message.contains("step_with_no_handler"), "message was: {}", message);
    assert_eq!(registry.pipeline(key), None);
}

#[test]
fn a_valid_pipeline_is_registered_with_its_runner() {
    let registry: Orka<&str, &str> = Orka::new();
    let pipeline = pipeline_of(&["step"]);
    let key = TypeId::of::<Named>();
    let made = |p: Pipeline<Named>| {
        assert_eq!(p.step_names(), vec!["step"]);
        ("runner", "pipeline")
    };
    assert!(registry.register_pipeline(key, pipeline, made).is_ok());
    assert_eq!(registry.runner(key, "Named").unwrap(), "runner");
    assert_eq!(registry.pipeline(key), Some("pipeline"));
}

#[test]
fn a_refused_registration_leaves_the_previous_one_in_force() {
    let registry: Orka<&str, &str> = Orka::new();
    let key = TypeId::of::<Named>();
    assert!(registry.register_pipeline(key, pipeline_of(&["a"]), |_| ("first", "p1")).is_ok());
    let broken: Pipeline<Named> = Pipeline::new(&["b"]);
    assert!(registry.register_pipeline(key, broken, |_| ("second", "p2")).is_err());
    assert_eq!(registry.runner(key, "Named").unwrap(), "first");
}

#[test]
fn test_remove_step_clears_pending_conditional() {
    let mut pipeline: Pipeline<Named> = Pipeline::new(&["a", "cond"]);
    pipeline.on_root("a", "A");
    let _builder = pipeline.conditional_scopes_for_step("cond");
    assert!(pipeline.validate().is_err());
    pipeline.remove_step("cond");
    assert!(
        pipeline.validate().is_ok(),
        "removing the step should clear its pending conditional record"
    );
}

#[test]
fn must_precede_satisfied_passes_validate() {
    let mut p: Pipeline<Named> = Pipeline::new(&["unpack", "base_labels", "start"]);
    p.on_root("unpack", "unpack")
        .on_root("base_labels", "base_labels")
        .on_root("start", "start")
        .must_precede("unpack", "base_labels")
        .must_precede("base_labels", "start");
    assert!(p.validate().is_ok());
}

#[test]
fn must_precede_violation_is_reported_with_indexes() {
    let mut p: Pipeline<Named> = Pipeline::new(&["base_labels", "unpack"]);
    p.on_root("unpack", "unpack")
        .on_root("base_labels", "base_labels")
        .must_precede("unpack", "base_labels");
    let (step, message) = config_error(p.validate().unwrap_err());
    assert!(message.contains("ordering constraint violated"), "message was: {}", message);
    assert!(
        message.contains("'unpack'") && message.contains("'base_labels'"),
        "message was: {}",
        message
    );
    assert_eq!(step, "unpack");
    assert_eq!(
        message,
        "ordering constraint violated: 'unpack' (index 1) must precede 'base_labels' (index 0)"
    );
}

#[test]
fn must_precede_catches_a_bad_insert() {
    let mut p = pipeline_of(&["unpack", "base_labels"]);
    p.must_precede("unpack", "base_labels");
    assert!(p.validate().is_ok());
    p.remove_step("base_labels");
    p.insert_before_step("unpack", "base_labels");
    p.on_root("base_labels", "base_labels");
    let message = config_error_message(p.validate().unwrap_err());
    assert!(message.contains("ordering constraint violated"), "message was: {}", message);
}

#[test]
fn must_precede_dangles_loudly_when_a_step_is_removed() {
    let mut p = pipeline_of(&["unpack", "base_labels"]);
    p.must_precede("unpack", "base_labels");
    p.remove_step("unpack");
    let message = config_error_message(p.validate().unwrap_err());
    assert!(message.contains("references unknown step 'unpack'"), "message was: {}", message);
}

#[test]
fn must_precede_all_expands_to_one_constraint_per_target() {
    let mut p = pipeline_of(&["unpack", "labels", "spec", "secrets"]);
    p.must_precede_all("unpack", &["labels", "spec", "secrets"]);
    assert!(p.validate().is_ok());

    p.remove_step("spec");
    p.insert_before_step("unpack", "spec");
    p.on_root("spec", "spec");
    let message = config_error_message(p.validate().unwrap_err());
    assert!(message.contains("'unpack'") && message.contains("'spec'"), "message was: {}", message);
    assert!(!message.contains("'labels'"), "unrelated pairs stay quiet: {}", message);
}

fn release_pipeline() -> Pipeline<Named> {
    let mut p = pipeline_of(&["unpack", "base_labels", "load_spec", "install"]);
    p.produces("unpack", "release").consumed_by("release", &["base_labels", "load_spec"]);
    p
}

#[test]
fn resource_declarations_pass_when_producer_precedes_consumers() {
    let p = release_pipeline();
    assert!(p.validate().is_ok());
}

#[test]
fn a_consumer_running_before_its_producer_is_reported_with_both_indexes() {
    let mut p = release_pipeline();
    p.remove_step("base_labels");
    p.insert_before_step("unpack", "base_labels");
    p.on_root("base_labels", "base_labels");
    let message = config_error_message(p.validate().unwrap_err());
    assert!(message.contains("resource 'release'"), "message was: {}", message);
    assert!(message.contains("produced by 'unpack'"), "message was: {}", message);
    assert!(message.contains("consumed by 'base_labels'"), "message was: {}", message);
    assert_eq!(
        message,
        "resource 'release' is produced by 'unpack' (index 1) but consumed by 'base_labels' \
         (index 0), which runs earlier"
    );
}

#[test]
fn a_consumed_resource_with_no_producer_is_reported_once_with_all_consumers() {
    let mut p = pipeline_of(&["unpack_v2", "base_labels", "load_spec"]);
    p.consumed_by("release", &["base_labels", "load_spec"]);
    let (step, message) = config_error(p.validate().unwrap_err());
    assert!(message.contains("no step produces it"), "message was: {}", message);
    assert!(
        message.contains("'base_labels'") && message.contains("'load_spec'"),
        "one message names every affected consumer: {}",
        message
    );
    assert_eq!(
        message.matches("no step produces it").count(),
        1,
        "reported once per resource, not once per consumer: {}",
        message
    );
    assert_eq!(step, "base_labels");
    assert_eq!(
        message,
        "resource 'release' is consumed by 'base_labels', 'load_spec' but no step produces it \
         (was the producing step renamed or removed?)"
    );
}

#[test]
fn removing_a_producer_step_dangles_its_declaration() {
    let mut p = release_pipeline();
    p.remove_step("unpack");
    let message = config_error_message(p.validate().unwrap_err());
    assert!(
        message.contains("declared as a producer of resource 'release'"),
        "message was: {}",
        message
    );
    assert!(message.contains("no step produces it"), "message was: {}", message);
}

#[test]
fn every_producer_must_precede_every_consumer() {
    let mut p = pipeline_of(&["unpack", "consume", "restore_cached"]);
    p.produces("unpack", "release")
        .produces("restore_cached", "release")
        .consumed_by("release", &["consume"]);
    let message = config_error_message(p.validate().unwrap_err());
    assert!(message.contains("produced by 'restore_cached'"), "message was: {}", message);
    assert!(
        !message.contains("produced by 'unpack'"),
        "the earlier producer is fine: {}",
        message
    );
}

#[test]
fn several_problems_are_listed_under_a_heading() {
    let p: Pipeline<Named> = Pipeline::new(&["a", "b"]);
    let (step, message) = config_error(p.validate().unwrap_err());
    assert_eq!(step, "<2 steps>");
    assert_eq!(
        message,
        "pipeline validation found 2 problems:\n  - required step 'a' has no before/on/after \
         handlers; register one or mark it optional\n  - required step 'b' has no before/on/after \
         handlers; register one or mark it optional"
    );
}

#[test]
fn a_dangling_consumer_is_reported_with_its_resource() {
    let mut p = release_pipeline();
    p.remove_step("base_labels");
    let (step, message) = config_error(p.validate().unwrap_err());
    assert_eq!(step, "base_labels");
    assert_eq!(
        message,
        "'base_labels' is declared as a consumer of resource 'release' but is no longer a step \
         in this pipeline"
    );
}

#[test]
fn clearing_the_sub_handler_orphans_the_extractor() {
    let mut p: Pipeline<Named> = Pipeline::new(&["step"]);
    p.set_extractor("step", "x").on("step", "sub");
    assert!(p.validate().is_ok());
    p.clear_on("step").before_root("step", "root");
    let message = config_error_message(p.validate().unwrap_err());
    assert!(message.contains("no on::<SData> handler"), "message was: {}", message);
    p.remove_extractor("step");
    assert!(p.validate().is_ok());
}

#[test]
fn a_stubbed_step_has_no_problem_of_its_own() {
    let mut p: Pipeline<Named> = Pipeline::new(&["step"]);
    p.set_extractor("step", "x");
    assert!(p.validate().is_err());
    p.stub_step("step");
    assert!(p.validate().is_ok());
}

#[test]
fn inserting_and_removing_a_step_restores_the_pipeline() {
    let mut p = pipeline_of(&["a", "b"]);
    p.insert_after_step("a", "between");
    assert_eq!(p.step_names(), vec!["a", "between", "b"]);
    p.remove_step("between");
    assert_eq!(p.step_names(), vec!["a", "b"]);
    assert!(p.validate().is_ok());
}

#[test]
fn optional_and_required_undo_each_other() {
    let mut p: Pipeline<Named> = Pipeline::new(&["a"]);
    assert!(p.validate().is_err());
    p.optional("a");
    assert!(p.validate().is_ok());
    p.required("a");
    assert!(p.validate().is_err());
}

#[test]
fn the_first_repeated_name_is_found() {
    use_names(&["a", "b", "a", "b"], Some(2));
    use_names(&["a", "b", "c"], None);
    use_names(&[], None);
}

fn use_names(names: &[&str], expected: Option<usize>) {
    assert_eq!(orka::pipeline::definition::first_duplicate(names), expected);
}
