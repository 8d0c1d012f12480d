//! Runs of whole pipelines, driven to their end by a driver that performs what a run asks
//! for on the spot.

use orka::conditional::{MasterAction, MasterReply, MasterStage, ScopeAction, ScopeReply, ScopeRun, ScopeStage};
use orka::context_data::merge_back;
use orka::pipeline::definition::{MasterHandler, StepEntry, StepHandler, SubContextHandler};
use orka::pipeline::run::{Action, Failure, Reply, Run};
use orka::registry::{refused_outcome, Orka};
use orka::runner::unattributed_outcome;
use orka::subcontext::{check_downcast, HandlerFailure, SubAction, SubReply, SubRun, SubStage};
use orka::test_util::{
    first_out_of_order, noop_pipeline, outcome_matches, steps_match, CannedResponse,
    ExecutionCounter, MockPipeline, PipelineTestExt, TestError,
};
use orka::{
    Callbacks, CancelToken, CompositeObserver, HandlerOutcome, OrkaError, Pipeline, PipelineControl,
    PipelineObserver, PipelineResult, PlannedAction, RunOutcome, SkipReason, StepPhase, StepPlan,
    TraceCollector, TraceEvent, TraceEventKind,
};
use std::any::{Any, TypeId};
use std::marker::PhantomData;
use std::rc::Rc;
use std::sync::atomic::{AtomicU64, Ordering};
use std::sync::{Arc, Mutex};

type Bag = Box<dyn Any + Send>;
type Ctx<T> = orka::ContextData<T, Bag>;
type Observer = Arc<dyn PipelineObserver>;

/// Extracts a sub-context and hands it to a handler through a callback.
trait Extract<T> {
    fn run(&self, root: &Ctx<T>) -> Result<Box<dyn Any>, OrkaError>;
    fn type_id(&self) -> std::any::TypeId;
    fn folds_back(&self) -> bool;
    fn merge(&self, root: &Ctx<T>, sub: &dyn Any) -> Result<(), OrkaError>;
}

struct Extractor<T, S> {
    extract: Box<dyn Fn(&Ctx<T>) -> Result<Ctx<S>, OrkaError>>,
    merge: Option<Box<dyn Fn(&mut T, &S)>>,
}

impl<T: 'static, S: 'static> Extract<T> for Extractor<T, S> {
    fn run(&self, root: &Ctx<T>) -> Result<Box<dyn Any>, OrkaError> {
        Ok(Box::new((self.extract)(root)?))
    }

    fn type_id(&self) -> std::any::TypeId {
        std::any::TypeId::of::<S>()
    }

    fn folds_back(&self) -> bool {
        self.merge.is_some()
    }

    fn merge(&self, root: &Ctx<T>, sub: &dyn Any) -> Result<(), OrkaError> {
        match (&self.merge, sub.downcast_ref::<Ctx<S>>()) {
            (None, _) => Ok(()),
            (Some(merge), Some(sub)) => {
                merge_back(root, sub, merge);
                Ok(())
            }
            (Some(_), None) => Err(orka::subcontext::merge_mismatch("sub-context")),
        }
    }
}

/// A handler that knows the type of sub-context it asks for.
trait OnSub {
    fn call(&self, sub: &dyn Any) -> Result<PipelineControl, TestError>;
    fn wants(&self) -> std::any::TypeId;
    fn holds(&self, sub: &dyn Any) -> bool;
}

struct SubHandler<S>(Box<dyn Fn(&Ctx<S>) -> Result<PipelineControl, TestError>>);

impl<S: 'static> OnSub for SubHandler<S> {
    fn call(&self, sub: &dyn Any) -> Result<PipelineControl, TestError> {
        (self.0)(sub.downcast_ref::<Ctx<S>>().unwrap())
    }

    fn wants(&self) -> std::any::TypeId {
        std::any::TypeId::of::<S>()
    }

    fn holds(&self, sub: &dyn Any) -> bool {
        sub.is::<Ctx<S>>()
    }
}

struct Scope<T> {
    condition: Box<dyn Fn(&Ctx<T>) -> bool>,
    execute: Box<dyn Fn(&Ctx<T>) -> Result<PipelineControl, TestError>>,
}

struct Kit<T>(PhantomData<T>);

impl<T: 'static> Callbacks for Kit<T> {
    type Handler = Box<dyn Fn(&Ctx<T>) -> Result<PipelineControl, TestError>>;
    type SubHandler = Box<dyn OnSub>;
    type SkipCondition = Box<dyn Fn(&Ctx<T>) -> bool>;
    type Extractor = Box<dyn Extract<T>>;
    type FinishHandler = Box<dyn Fn(&Ctx<T>, RunOutcome) -> Result<(), TestError>>;
    type Scope = Scope<T>;
    type Observer = Observer;
}

static RUN_IDS: AtomicU64 = AtomicU64::new(1);
static CURRENT_RUN: AtomicU64 = AtomicU64::new(0);

fn next_run_id() -> u64 {
    RUN_IDS.fetch_add(1, Ordering::SeqCst)
}

fn failure(error: TestError) -> Failure<TestError> {
    let message = error.to_string();
    Failure { error, message }
}

fn from_wrapped(wrapped: HandlerFailure<TestError>) -> TestError {
    match wrapped {
        HandlerFailure::Framework(e) => TestError::from(e),
        HandlerFailure::Own(e) => e,
    }
}

fn call_sub<T: 'static>(
    ctx: &Ctx<T>,
    sub: &SubContextHandler<Kit<T>>,
) -> Result<PipelineControl, TestError> {
    let mut run: SubRun<TestError> = SubRun::new(&sub.step_name);
    let mut extracted: Option<Box<dyn Any>> = None;
    loop {
        let reply = match run.action() {
            SubAction::Extract => SubReply::Extracted(match sub.extractor.run(ctx) {
                Ok(value) => {
                    extracted = Some(value);
                    Ok(())
                }
                Err(e) => Err(e),
            }),
            SubAction::Downcast => SubReply::Downcast(check_downcast(
                Extract::type_id(sub.extractor.as_ref().as_ref()) == sub.handler.wants(),
                sub.handler.holds(extracted.as_ref().unwrap().as_ref()),
                &sub.step_name,
                "sub-context",
                &format!("{:?}", sub.handler.wants()),
            )),
            SubAction::Invoke => SubReply::Invoked(
                sub.handler.call(extracted.as_ref().unwrap().as_ref()),
                sub.extractor.folds_back(),
            ),
            SubAction::Merge => {
                SubReply::Merged(sub.extractor.merge(ctx, extracted.as_ref().unwrap().as_ref()))
            }
            SubAction::Return => match run.stage {
                SubStage::Done(result) => return result.map_err(from_wrapped),
                _ => unreachable!(),
            },
        };
        run = run.advance(reply);
    }
}

fn report(observer: &Option<Observer>, run_id: u64, events: Vec<TraceEventKind>) {
    if let Some(observer) = observer {
        for kind in events {
            observer.on_event(&TraceEvent { run_id, kind });
        }
    }
}

fn call_master<T: 'static>(
    ctx: &Ctx<T>,
    step: &StepEntry<Kit<T>>,
    master: &MasterHandler<Kit<T>>,
) -> Result<PipelineControl, TestError> {
    let observer = master.attached_observer();
    let run_id = CURRENT_RUN.load(Ordering::SeqCst);
    let (mut run, events) = step.run_master(master);
    report(&observer, run_id, events);
    loop {
        let reply = match run.action() {
            MasterAction::EvalCondition { scope } => {
                MasterReply::Condition((master.scopes[scope].condition)(ctx))
            }
            MasterAction::Execute { scope } => {
                MasterReply::Executed((master.scopes[scope].execute)(ctx))
            }
            MasterAction::Return => match run.stage {
                MasterStage::Done(result) => return result,
                _ => unreachable!(),
            },
        };
        let (next, events) = run.advance(reply);
        run = next;
        report(&observer, run_id, events);
    }
}

/// A scope with its provider, extractor and merge.
fn scope<T: 'static, S: 'static>(
    condition: impl Fn(&Ctx<T>) -> bool + 'static,
    provide: impl Fn(&Ctx<T>) -> Result<Arc<Pipeline<Kit<S>>>, OrkaError> + 'static,
    extract: impl Fn(&Ctx<T>) -> Result<Ctx<S>, OrkaError> + 'static,
    merge: Option<Box<dyn Fn(&mut T, &S)>>,
) -> Scope<T> {
    let execute = move |ctx: &Ctx<T>| {
        let mut run: ScopeRun<TestError> = ScopeRun::new(merge.is_some());
        let mut pipeline: Option<Arc<Pipeline<Kit<S>>>> = None;
        let mut sub: Option<Ctx<S>> = None;
        loop {
            let reply = match run.action() {
                ScopeAction::Provide => ScopeReply::Provided(match provide(ctx) {
                    Ok(p) => {
                        pipeline = Some(p);
                        Ok(())
                    }
                    Err(e) => Err(e),
                }),
                ScopeAction::Extract => ScopeReply::Extracted(match extract(ctx) {
                    Ok(s) => {
                        sub = Some(s);
                        Ok(())
                    }
                    Err(e) => Err(e),
                }),
                ScopeAction::HandToken => {
                    sub.as_ref().unwrap().install_cancellation(ctx.cancellation());
                    ScopeReply::TokenHanded
                }
                ScopeAction::Run => {
                    ScopeReply::Ran(run_pipeline(pipeline.as_ref().unwrap(), sub.as_ref().unwrap()))
                }
                ScopeAction::Merge => {
                    merge_back(ctx, sub.as_ref().unwrap(), merge.as_ref().unwrap());
                    ScopeReply::Merged
                }
                ScopeAction::Return => match run.stage {
                    ScopeStage::Done(result) => return result.map_err(from_wrapped),
                    _ => unreachable!(),
                },
            };
            run = run.advance(reply);
        }
    };
    Scope { condition: Box::new(condition), execute: Box::new(execute) }
}

fn call<T: 'static>(
    ctx: &Ctx<T>,
    step: &StepEntry<Kit<T>>,
    handler: &StepHandler<Kit<T>>,
) -> Result<PipelineControl, TestError> {
    if let Some(control) = handler.immediate() {
        return Ok(control);
    }
    match handler {
        StepHandler::Root(f) => f(ctx),
        StepHandler::Sub(sub) => call_sub(ctx, sub),
        StepHandler::Conditional(master) => call_master(ctx, step, master),
        StepHandler::Stub => unreachable!("a stub answers at once"),
    }
}

fn drive<T: 'static>(
    pipeline: &Pipeline<Kit<T>>,
    mut run: Run<'_, Kit<T>, TestError>,
    opening: Vec<TraceEventKind>,
    ctx: &Ctx<T>,
    given: Option<Observer>,
) -> (Result<PipelineResult, TestError>, RunOutcome) {
    let observer: Option<Observer> = pipeline
        .observe_prologue(given, None)
        .observer
        .map(|all| -> Observer { Arc::new(all) });
    let run_id = next_run_id();
    report(&observer, run_id, opening);
    loop {
        let reply = match run.action() {
            Action::ReadToken => Reply::Token(ctx.cancellation().is_cancelled()),
            Action::EvalSkip { step } => {
                Reply::Skip(pipeline.steps[step].def.skip_if.as_ref().unwrap()(ctx))
            }
            Action::Invoke { step, phase, handler } => {
                let step = &pipeline.steps[step];
                let handlers = match phase {
                    StepPhase::Before => &step.before,
                    StepPhase::On => &step.on,
                    StepPhase::After => &step.after,
                };
                let outer = CURRENT_RUN.swap(run_id, Ordering::SeqCst);
                let result = call(ctx, step, &handlers[handler]).map_err(failure);
                CURRENT_RUN.store(outer, Ordering::SeqCst);
                Reply::Handler(result)
            }
            Action::Convert(e) => Reply::Converted(failure(TestError::from(e))),
            Action::Finish { handler, outcome } => {
                Reply::Finished(pipeline.finish_handlers[handler](ctx, outcome).map_err(failure))
            }
            Action::Release => Reply::Released(ctx.resources().release_all()),
            Action::Done => break,
        };
        if let (Some(told), Some(observer)) = (run.handler_error(&reply), &observer) {
            observer.on_handler_error(run_id, told.step, told.phase, &told.failure.message);
        }
        let events = run.advance(reply);
        report(&observer, run_id, events);
    }
    let (end, outcome) = run.into_result();
    (end.map_err(|f| f.failure.error), outcome)
}

fn run_with_outcome<T: 'static>(
    pipeline: &Pipeline<Kit<T>>,
    ctx: &Ctx<T>,
) -> (Result<PipelineResult, TestError>, RunOutcome) {
    let (run, opening) = pipeline.run();
    drive(pipeline, run, opening, ctx, None)
}

fn run_pipeline<T: 'static>(pipeline: &Pipeline<Kit<T>>, ctx: &Ctx<T>) -> Result<PipelineResult, TestError> {
    run_with_outcome(pipeline, ctx).0
}

fn run_with_cancel<T: 'static>(
    pipeline: &Pipeline<Kit<T>>,
    ctx: &Ctx<T>,
    token: CancelToken,
) -> (Result<PipelineResult, TestError>, RunOutcome) {
    ctx.install_cancellation(token);
    run_with_outcome(pipeline, ctx)
}

fn part<'p, T: 'static>(
    pipeline: &'p Pipeline<Kit<T>>,
    run: Result<Run<'p, Kit<T>, TestError>, OrkaError>,
    ctx: &Ctx<T>,
) -> Result<PipelineResult, TestError> {
    match run {
        Ok(run) => drive(pipeline, run, Vec::new(), ctx, None).0,
        Err(e) => Err(TestError::from(e)),
    }
}

fn plan<T: 'static>(pipeline: &Pipeline<Kit<T>>, ctx: &Ctx<T>) -> Vec<StepPlan> {
    pipeline.resolve_plan(ctx.cancellation().is_cancelled(), |cond| cond(ctx))
}

#[derive(Clone, Debug, Default)]
struct TestContext {
    counter: i32,
    message: String,
    steps_executed: Vec<String>,
    data_for_scoped: Option<String>,
    scoped_a_ran: bool,
    scoped_b_ran: bool,
    scoped_result: Option<String>,
}

#[derive(Clone, Debug, Default)]
struct ScopedA {
    input: String,
    processed_message: String,
}

#[derive(Clone, Debug, Default)]
struct ScopedB {
    input: String,
    alternative_message: String,
}

#[derive(Clone, Debug, Default, PartialEq)]
struct Sub {
    sub_field: String,
    processed: bool,
}

#[derive(Clone, Debug, Default, PartialEq)]
struct OtherSub {
    other_field: i32,
}

#[derive(Clone, Debug, Default)]
struct MainExtract {
    main_field: String,
    sub_data_container: Sub,
    counter: i32,
    steps_executed: Vec<String>,
}

type Handler<T> = Box<dyn Fn(&Ctx<T>) -> Result<PipelineControl, TestError>>;
type TestPipeline = Pipeline<Kit<TestContext>>;

fn handler<T>(f: impl Fn(&Ctx<T>) -> Result<PipelineControl, TestError> + 'static) -> Handler<T> {
    Box::new(f)
}

fn goes_on<T>() -> Handler<T> {
    handler(|_| Ok(PipelineControl::Continue))
}

fn stops<T>() -> Handler<T> {
    handler(|_| Ok(PipelineControl::Stop))
}

fn fails<T>(error: TestError) -> Handler<T> {
    handler(move |_| Err(error.clone()))
}

fn simple(name: &'static str, text: &'static str) -> Handler<TestContext> {
    handler(move |ctx: &Ctx<TestContext>| {
        ctx.with_mut(|c| {
            c.counter += 1;
            c.message.push_str(text);
            c.steps_executed.push(name.to_string());
        });
        Ok(PipelineControl::Continue)
    })
}

fn failing(name: &'static str, message: &'static str) -> Handler<TestContext> {
    handler(move |ctx: &Ctx<TestContext>| {
        ctx.with_mut(|c| c.steps_executed.push(name.to_string()));
        Err(TestError::Handler(message.to_string()))
    })
}

fn fresh() -> Ctx<TestContext> {
    Ctx::new(TestContext::default())
}

fn executed(ctx: &Ctx<TestContext>) -> Vec<String> {
    ctx.with_ref(|c| c.steps_executed.clone())
}

fn traced(p: &TestPipeline) -> TraceCollector {
    let trace = TraceCollector::new();
    p.set_observer(Arc::new(trace.clone()));
    trace
}

fn recording(names: &[&'static str]) -> TestPipeline {
    let mut p: TestPipeline = Pipeline::new(names);
    for name in names {
        p.on_root(name, simple(name, ""));
    }
    p
}

fn assert_completed(trace: &TraceCollector, expected: &[&str]) {
    assert!(
        steps_match(&trace.completed_steps(), expected),
        "{}",
        orka::test_util::format_events(&trace.events())
    );
}

fn assert_outcome(trace: &TraceCollector, expected: RunOutcome) {
    assert!(outcome_matches(&trace.last_outcome(), &expected), "{:?}", trace.last_outcome());
}

// --- Running steps ---

#[test]
fn test_pipeline_runs_steps_in_order() {
    let mut pipeline: TestPipeline = Pipeline::new(&["step1", "step2", "step3"]);
    pipeline
        .on_root("step1", simple("step1", " S1"))
        .on_root("step2", simple("step2", " S2"))
        .on_root("step3", simple("step3", " S3"));
    let ctx = fresh();
    assert_eq!(run_pipeline(&pipeline, &ctx).unwrap(), PipelineResult::Completed);
    ctx.with_ref(|c| {
        assert_eq!(c.counter, 3);
        assert_eq!(c.message, " S1 S2 S3");
        assert_eq!(c.steps_executed, vec!["step1", "step2", "step3"]);
    });
}

#[test]
fn test_pipeline_stops_on_pipeline_control_stop() {
    let mut pipeline: TestPipeline = Pipeline::new(&["stepA", "stopStep", "stepC"]);
    pipeline
        .on_root("stepA", simple("stepA", "A"))
        .on_root(
            "stopStep",
            handler(|ctx: &Ctx<TestContext>| {
                ctx.with_mut(|c| c.steps_executed.push("stopStep".to_string()));
                Ok(PipelineControl::Stop)
            }),
        )
        .on_root("stepC", simple("stepC", "C"));
    let ctx = fresh();
    assert_eq!(run_pipeline(&pipeline, &ctx).unwrap(), PipelineResult::Stopped);
    ctx.with_ref(|c| {
        assert_eq!(c.counter, 1);
        assert_eq!(c.message, "A");
        assert_eq!(c.steps_executed, vec!["stepA", "stopStep"]);
    });
}

#[test]
fn test_pipeline_propagates_handler_error() {
    let mut pipeline: TestPipeline = Pipeline::new(&["good_step", "bad_step", "another_step"]);
    pipeline
        .on_root("good_step", simple("good_step", "Good"))
        .on_root("bad_step", failing("bad_step", "I am a bad step!"))
        .on_root("another_step", simple("another_step", "NeverRun"));
    let ctx = fresh();
    match run_pipeline(&pipeline, &ctx).unwrap_err() {
        TestError::Handler(msg) => assert_eq!(msg, "I am a bad step!"),
        other => panic!("expected TestError::Handler, got {:?}", other),
    }
    ctx.with_ref(|c| {
        assert_eq!(c.counter, 1);
        assert_eq!(c.message, "Good");
        assert_eq!(c.steps_executed, vec!["good_step", "bad_step"]);
    });
}

#[test]
fn test_pipeline_skips_step_if_condition_met() {
    let mut pipeline: TestPipeline = Pipeline::new(&["step1", "step_to_skip", "step3"]);
    pipeline
        .skip_if("step_to_skip", Box::new(|ctx| ctx.with_ref(|c| c.counter > 0)))
        .on_root("step1", simple("step1", " S1"))
        .on_root("step_to_skip", simple("step_to_skip", " SKIPPED_THIS"))
        .on_root("step3", simple("step3", " S3"));
    let ctx = fresh();
    assert_eq!(run_pipeline(&pipeline, &ctx).unwrap(), PipelineResult::Completed);
    ctx.with_ref(|c| {
        assert_eq!(c.counter, 2);
        assert_eq!(c.message, " S1 S3");
        assert_eq!(c.steps_executed, vec!["step1", "step3"]);
    });
}

#[test]
fn test_clear_skip_condition_reinstates_step() {
    let mut pipeline: TestPipeline = Pipeline::new(&["step1", "step2"]);
    pipeline
        .skip_if("step2", Box::new(|_| true))
        .clear_skip_condition("step2")
        .on_root("step1", simple("step1", " S1"))
        .on_root("step2", simple("step2", " S2"));
    let ctx = fresh();
    run_pipeline(&pipeline, &ctx).unwrap();
    assert_eq!(executed(&ctx), vec!["step1", "step2"]);
}

#[test]
fn test_non_optional_step_missing_handler_fails() {
    let pipeline: TestPipeline = Pipeline::new(&["step_with_no_handler"]);
    match run_pipeline(&pipeline, &fresh()) {
        Err(TestError::Orka(s)) => {
            assert!(s.contains("HandlerMissing"));
            assert!(s.contains("step_with_no_handler"));
        }
        other => panic!("expected HandlerMissing, got {:?}", other),
    }
}

#[test]
fn test_optional_step_missing_handler_succeeds() {
    let mut pipeline: TestPipeline = Pipeline::new(&["optional_step_no_handler"]);
    pipeline.optional("optional_step_no_handler");
    assert_eq!(run_pipeline(&pipeline, &fresh()).unwrap(), PipelineResult::Completed);
}

#[test]
fn test_required_reverts_optional() {
    let mut pipeline: TestPipeline = Pipeline::new(&["step"]);
    pipeline.optional("step").required("step");
    assert!(run_pipeline(&pipeline, &fresh()).is_err(), "a required step with no handlers must fail");
}

#[test]
fn test_before_on_after_execution_order() {
    let mut pipeline: TestPipeline = Pipeline::new(&["main_step"]);
    pipeline
        .before_root("main_step", simple("before_main", "Before;"))
        .on_root("main_step", simple("on_main", "On;"))
        .after_root("main_step", simple("after_main", "After;"));
    let ctx = fresh();
    run_pipeline(&pipeline, &ctx).unwrap();
    ctx.with_ref(|c| {
        assert_eq!(c.counter, 3);
        assert_eq!(c.message, "Before;On;After;");
        assert_eq!(c.steps_executed, vec!["before_main", "on_main", "after_main"]);
    });
}

#[test]
fn test_insert_before_and_after_step() {
    let mut pipeline: TestPipeline = Pipeline::new(&["middle"]);
    pipeline
        .insert_before_step("middle", "first")
        .insert_after_step("middle", "last")
        .on_root("first", simple("first", "1"))
        .on_root("middle", simple("middle", "2"))
        .on_root("last", simple("last", "3"));
    let ctx = fresh();
    run_pipeline(&pipeline, &ctx).unwrap();
    assert_eq!(executed(&ctx), vec!["first", "middle", "last"]);
}

#[test]
fn test_remove_step_drops_its_handlers() {
    let mut pipeline: TestPipeline = Pipeline::new(&["keep", "drop_me"]);
    pipeline
        .on_root("keep", simple("keep", "K"))
        .on_root("drop_me", simple("drop_me", "D"))
        .remove_step("drop_me");
    let ctx = fresh();
    run_pipeline(&pipeline, &ctx).unwrap();
    assert_eq!(executed(&ctx), vec!["keep"]);
}

#[test]
fn an_empty_pipeline_completes_with_nothing_but_its_frame() {
    let pipeline: TestPipeline = Pipeline::new(&[]);
    let trace = traced(&pipeline);
    assert_eq!(run_pipeline(&pipeline, &fresh()).unwrap(), PipelineResult::Completed);
    let kinds: Vec<TraceEventKind> = trace.events().into_iter().map(|e| e.kind).collect();
    assert_eq!(
        kinds,
        vec![
            TraceEventKind::RunStarted,
            TraceEventKind::RunFinished { outcome: RunOutcome::Completed },
        ]
    );
}

// --- Sub-contexts ---

fn main_ctx(sub_field: &str) -> Ctx<MainExtract> {
    Ctx::new(MainExtract {
        main_field: "main".to_string(),
        sub_data_container: Sub { sub_field: sub_field.to_string(), processed: false },
        ..MainExtract::default()
    })
}

fn project_sub(merge: Option<Box<dyn Fn(&mut MainExtract, &Sub)>>) -> Box<dyn Extract<MainExtract>> {
    Box::new(Extractor {
        extract: Box::new(|main: &Ctx<MainExtract>| {
            Ok(main.project(|d: &MainExtract| d.sub_data_container.clone()))
        }),
        merge,
    })
}

fn on_sub<S: 'static>(f: impl Fn(&Ctx<S>) -> Result<PipelineControl, TestError> + 'static) -> Box<dyn OnSub> {
    Box::new(SubHandler(Box::new(f)))
}

fn processes() -> Box<dyn OnSub> {
    on_sub(|sub: &Ctx<Sub>| {
        sub.with_mut(|s| {
            s.sub_field = "ProcessedBySubHandler".to_string();
            s.processed = true;
        });
        Ok(PipelineControl::Continue)
    })
}

#[test]
fn test_sub_context_extraction_is_detached_by_default() {
    let mut pipeline: Pipeline<Kit<MainExtract>> = Pipeline::new(&["extract_step"]);
    pipeline
        .set_extractor("extract_step", project_sub(None))
        .on("extract_step", processes())
        .after_root(
            "extract_step",
            handler(|ctx: &Ctx<MainExtract>| {
                ctx.with_mut(|d| {
                    d.counter += 1;
                    d.steps_executed.push("after_extract_step".to_string());
                });
                Ok(PipelineControl::Continue)
            }),
        );
    let ctx = main_ctx("initial_sub");
    assert_eq!(run_pipeline(&pipeline, &ctx).unwrap(), PipelineResult::Completed);
    ctx.with_ref(|d| {
        assert_eq!(d.counter, 1);
        assert_eq!(d.steps_executed, vec!["after_extract_step"]);
        assert!(!d.sub_data_container.processed);
        assert_eq!(d.sub_data_container.sub_field, "initial_sub");
    });
}

#[test]
fn test_sub_context_with_merge_writes_back_to_root() {
    let mut pipeline: Pipeline<Kit<MainExtract>> = Pipeline::new(&["extract_step"]);
    pipeline
        .set_extractor(
            "extract_step",
            project_sub(Some(Box::new(|root, sub| root.sub_data_container = sub.clone()))),
        )
        .on("extract_step", processes());
    let ctx = main_ctx("initial_sub");
    run_pipeline(&pipeline, &ctx).unwrap();
    ctx.with_ref(|d| {
        assert!(d.sub_data_container.processed);
        assert_eq!(d.sub_data_container.sub_field, "ProcessedBySubHandler");
    });
}

#[test]
fn test_sub_context_merge_is_skipped_when_handler_fails() {
    let mut pipeline: Pipeline<Kit<MainExtract>> = Pipeline::new(&["extract_step"]);
    pipeline
        .set_extractor(
            "extract_step",
            project_sub(Some(Box::new(|root, sub| root.sub_data_container = sub.clone()))),
        )
        .on(
            "extract_step",
            on_sub(|sub: &Ctx<Sub>| {
                sub.with_mut(|s| s.processed = true);
                Err(TestError::Handler("sub-handler failed".to_string()))
            }),
        );
    let ctx = main_ctx("");
    assert!(run_pipeline(&pipeline, &ctx).is_err());
    assert!(!ctx.with_ref(|d| d.sub_data_container.processed));
}

#[test]
fn test_sub_context_extractor_fails() {
    let mut pipeline: Pipeline<Kit<MainExtract>> = Pipeline::new(&["extract_fail_step"]);
    let extractor: Extractor<MainExtract, Sub> = Extractor {
        extract: Box::new(|_| {
            Err(OrkaError::ExtractorFailure {
                step_name: "test_failing_extractor".to_string(),
                source: anyhow::Error::msg("Intentional extractor failure"),
            })
        }),
        merge: None,
    };
    pipeline
        .set_extractor("extract_fail_step", Box::new(extractor))
        .on("extract_fail_step", on_sub(|_: &Ctx<Sub>| panic!("must not be called")));
    let ctx = main_ctx("");
    match run_pipeline(&pipeline, &ctx).unwrap_err() {
        TestError::Orka(s) => {
            assert!(s.contains("ExtractorFailure"));
            assert!(s.contains("Intentional extractor failure"));
            assert!(s.contains("extract_fail_step"), "attributed to the step: {}", s);
        }
        other => panic!("expected TestError::Orka, got {:?}", other),
    }
}

#[test]
fn test_sub_context_type_mismatch() {
    let mut pipeline: Pipeline<Kit<MainExtract>> = Pipeline::new(&["type_mismatch_step"]);
    pipeline
        .set_extractor("type_mismatch_step", project_sub(None))
        .on("type_mismatch_step", on_sub(|_: &Ctx<OtherSub>| panic!("must not be called")));
    match run_pipeline(&pipeline, &main_ctx("")).unwrap_err() {
        TestError::Orka(s) => assert!(s.contains("TypeMismatch"), "{}", s),
        other => panic!("expected TestError::Orka, got {:?}", other),
    }
}

#[test]
fn test_sub_context_handler_fails() {
    let mut pipeline: Pipeline<Kit<MainExtract>> = Pipeline::new(&["sub_handler_fail_step"]);
    pipeline
        .set_extractor("sub_handler_fail_step", project_sub(None))
        .on(
            "sub_handler_fail_step",
            on_sub(|_: &Ctx<Sub>| {
                Err(TestError::Handler("Sub-handler failed intentionally".to_string()))
            }),
        )
        .after_root(
            "sub_handler_fail_step",
            handler(|ctx: &Ctx<MainExtract>| {
                ctx.with_mut(|d| d.steps_executed.push("after_sub_handler_fail".to_string()));
                panic!("must not be called")
            }),
        );
    let ctx: Ctx<MainExtract> = Ctx::new(MainExtract::default());
    assert_eq!(
        run_pipeline(&pipeline, &ctx).unwrap_err(),
        TestError::Handler("Sub-handler failed intentionally".to_string())
    );
    assert!(ctx.with_ref(|d| d.steps_executed.is_empty()));
}

#[test]
fn test_sub_context_handler_stops_pipeline() {
    let mut pipeline: Pipeline<Kit<MainExtract>> =
        Pipeline::new(&["sub_handler_stop_step", "after_stop_step"]);
    pipeline
        .set_extractor("sub_handler_stop_step", project_sub(None))
        .on("sub_handler_stop_step", on_sub(|_: &Ctx<Sub>| Ok(PipelineControl::Stop)))
        .on_root(
            "after_stop_step",
            handler(|ctx: &Ctx<MainExtract>| {
                ctx.with_mut(|d| {
                    d.counter += 1;
                    d.main_field.push_str("ShouldNotRun");
                    d.steps_executed.push("after_stop_step".to_string());
                });
                Ok(PipelineControl::Continue)
            }),
        );
    let ctx: Ctx<MainExtract> = Ctx::new(MainExtract::default());
    assert_eq!(run_pipeline(&pipeline, &ctx).unwrap(), PipelineResult::Stopped);
    assert!(ctx.with_ref(|d| d.steps_executed.is_empty()));
    assert_eq!(ctx.with_ref(|d| d.main_field.clone()), "");
}

#[test]
fn a_handler_keeps_the_extractor_it_was_registered_with() {
    let seen: Arc<Mutex<Vec<String>>> = Arc::new(Mutex::new(Vec::new()));
    let log = seen.clone();
    let mut pipeline: Pipeline<Kit<MainExtract>> = Pipeline::new(&["step"]);
    let named = |name: &'static str| -> Box<dyn Extract<MainExtract>> {
        Box::new(Extractor::<MainExtract, Sub> {
            extract: Box::new(move |_| {
                Ok(Ctx::new(Sub { sub_field: name.to_string(), processed: false }))
            }),
            merge: None,
        })
    };
    pipeline.set_extractor("step", named("first")).on(
        "step",
        on_sub(move |sub: &Ctx<Sub>| {
            log.lock().unwrap().push(sub.with_ref(|s| s.sub_field.clone()));
            Ok(PipelineControl::Continue)
        }),
    );
    pipeline.set_extractor("step", named("second"));
    run_pipeline(&pipeline, &main_ctx("")).unwrap();
    assert_eq!(*seen.lock().unwrap(), vec!["first"]);
}

// --- Finish handlers ---

type Outcomes = Arc<Mutex<Vec<RunOutcome>>>;

fn noting(seen: &Outcomes) -> Box<dyn Fn(&Ctx<TestContext>, RunOutcome) -> Result<(), TestError>> {
    let seen = seen.clone();
    Box::new(move |_, outcome| {
        seen.lock().unwrap().push(outcome);
        Ok(())
    })
}

#[test]
fn on_finish_fires_on_completed() {
    let mut p = recording(&["alpha", "beta"]);
    let counter = ExecutionCounter::new();
    let seen: Outcomes = Outcomes::default();
    let (counted, log) = (counter.clone(), seen.clone());
    p.on_finish(Box::new(move |_, outcome| {
        counted.increment();
        log.lock().unwrap().push(outcome);
        Ok(())
    }));
    assert_eq!(run_pipeline(&p, &fresh()).unwrap(), PipelineResult::Completed);
    assert_eq!(counter.get(), 1);
    assert_eq!(*seen.lock().unwrap(), vec![RunOutcome::Completed]);
}

#[test]
fn on_finish_fires_on_stopped() {
    let mut p = recording(&["alpha", "beta"]);
    p.replace_on_root("alpha", stops());
    let seen: Outcomes = Outcomes::default();
    p.on_finish(noting(&seen));
    assert_eq!(run_pipeline(&p, &fresh()).unwrap(), PipelineResult::Stopped);
    assert_eq!(*seen.lock().unwrap(), vec![RunOutcome::Stopped]);
}

#[test]
fn on_finish_fires_on_handler_error_and_preserves_original_error() {
    let mut p = recording(&["alpha", "beta"]);
    p.fail_at("beta", fails(TestError::Handler("boom".into())));
    let seen: Outcomes = Outcomes::default();
    let log = seen.clone();
    p.on_finish(Box::new(move |_, outcome| {
        log.lock().unwrap().push(outcome);
        Err(TestError::Other("finish failure".into()))
    }));
    assert_eq!(run_pipeline(&p, &fresh()).unwrap_err(), TestError::Handler("boom".into()));
    let first = seen.lock().unwrap()[0].clone();
    match first {
        RunOutcome::Errored { step, .. } => assert_eq!(step, "beta"),
        other => panic!("expected Errored outcome, got {:?}", other),
    }
}

#[test]
fn on_finish_fires_on_missing_handler_config_error() {
    let mut p: TestPipeline = Pipeline::new(&["alpha", "beta"]);
    p.on_root("alpha", goes_on());
    let counter = ExecutionCounter::new();
    let c = counter.clone();
    p.on_finish(Box::new(move |_, outcome| {
        assert!(matches!(outcome, RunOutcome::Errored { .. }));
        c.increment();
        Ok(())
    }));
    assert!(matches!(run_pipeline(&p, &fresh()).unwrap_err(), TestError::Orka(_)));
    assert_eq!(counter.get(), 1);
}

#[test]
fn finish_error_on_ok_run_becomes_the_run_error_for_completed_and_stopped() {
    for stop in [false, true] {
        let mut p = recording(&["alpha", "beta"]);
        if stop {
            p.replace_on_root("beta", stops());
        }
        p.on_finish(Box::new(|_, _| Err(TestError::Other("cleanup failed".into()))));
        assert_eq!(
            run_pipeline(&p, &fresh()).unwrap_err(),
            TestError::Other("cleanup failed".into()),
            "stop = {}",
            stop
        );
    }
}

#[test]
fn all_finish_handlers_run_in_order_even_when_one_fails() {
    let mut p = recording(&["alpha", "beta"]);
    let order: Arc<Mutex<Vec<&'static str>>> = Arc::new(Mutex::new(Vec::new()));
    for (name, error) in [
        ("first", None),
        ("second (fails)", Some("first failure")),
        ("third", Some("second failure")),
    ] {
        let order = order.clone();
        p.on_finish(Box::new(move |_, _| {
            order.lock().unwrap().push(name);
            match error {
                None => Ok(()),
                Some(e) => Err(TestError::Other(e.to_string())),
            }
        }));
    }
    assert_eq!(
        run_pipeline(&p, &fresh()).unwrap_err(),
        TestError::Other("first failure".into())
    );
    assert_eq!(*order.lock().unwrap(), vec!["first", "second (fails)", "third"]);
}

#[test]
fn finish_ring_traces_finalizers_and_final_outcome() {
    let mut p = recording(&["alpha", "beta"]);
    p.on_finish(Box::new(|_, _| Ok(())));
    p.on_finish(Box::new(|_, _| Err(TestError::Other("late failure".into()))));
    let trace = traced(&p);
    let _ = run_pipeline(&p, &fresh());
    let finalizers: Vec<TraceEventKind> = trace
        .events()
        .into_iter()
        .map(|e| e.kind)
        .filter(|k| matches!(k, TraceEventKind::FinalizerFinished { .. }))
        .collect();
    assert_eq!(
        finalizers,
        vec![
            TraceEventKind::FinalizerFinished { handler_index: 0, outcome: HandlerOutcome::Continue },
            TraceEventKind::FinalizerFinished {
                handler_index: 1,
                outcome: HandlerOutcome::Error("late failure".to_string()),
            },
        ]
    );
    assert_outcome(
        &trace,
        RunOutcome::Errored { step: "on_finish".to_string(), message: "late failure".to_string() },
    );
}

#[test]
fn cleared_finish_handlers_do_not_fire() {
    let mut p = recording(&["alpha"]);
    p.on_finish(Box::new(|_, _| Err(TestError::Other("cleanup".into()))));
    p.clear_finish_handlers();
    assert_eq!(run_pipeline(&p, &fresh()).unwrap(), PipelineResult::Completed);
}

#[test]
fn partial_runners_and_resolve_plan_never_fire_finish_handlers() {
    let mut p: TestPipeline = Pipeline::new(&["drain", "install"]);
    p.on_root(
        "drain",
        handler(|ctx: &Ctx<TestContext>| {
            ctx.with_mut(|c| c.data_for_scoped = Some("drain-id-42".into()));
            Ok(PipelineControl::Continue)
        }),
    )
    .on_root("install", goes_on());
    let restores = ExecutionCounter::new();
    let r = restores.clone();
    p.on_finish(Box::new(move |ctx, _| {
        if ctx.with_mut(|c| c.data_for_scoped.take()).is_some() {
            r.increment();
        }
        Ok(())
    }));
    let held = |ctx: &Ctx<TestContext>| ctx.with_ref(|c| c.data_for_scoped.clone());

    let ctx = fresh();
    part(&p, p.run_step("drain"), &ctx).unwrap();
    assert_eq!(held(&ctx).as_deref(), Some("drain-id-42"));
    let ctx = fresh();
    part(&p, p.run_from("drain"), &ctx).unwrap();
    assert_eq!(held(&ctx).as_deref(), Some("drain-id-42"));
    let ctx = fresh();
    part(&p, p.run_until("drain"), &ctx).unwrap();
    assert_eq!(held(&ctx).as_deref(), Some("drain-id-42"));
    let _plan = plan(&p, &fresh());
    assert_eq!(restores.get(), 0);

    let ctx = fresh();
    run_pipeline(&p, &ctx).unwrap();
    assert_eq!(held(&ctx), None);
    assert_eq!(restores.get(), 1);
}

// --- Partial runs and plans ---

#[test]
fn resolve_plan_reports_run_skip_and_missing_per_seeded_context() {
    let mut p: TestPipeline =
        noop_pipeline(&["always", "conditional", "empty_optional"], goes_on);
    p.clear_on("empty_optional");
    p.optional("empty_optional");
    p.skip_if("conditional", Box::new(|ctx| ctx.with_ref(|c| c.counter > 10)));

    let low = Ctx::new(TestContext { counter: 1, ..TestContext::default() });
    assert_eq!(
        plan(&p, &low),
        vec![
            StepPlan { name: "always".into(), action: PlannedAction::Run },
            StepPlan { name: "conditional".into(), action: PlannedAction::Run },
            StepPlan {
                name: "empty_optional".into(),
                action: PlannedAction::Skip(SkipReason::OptionalWithoutHandlers)
            },
        ]
    );

    let high = Ctx::new(TestContext { counter: 42, ..TestContext::default() });
    assert_eq!(
        plan(&p, &high)[1].action,
        PlannedAction::Skip(SkipReason::SkipCondition { label: None })
    );

    let mut broken: TestPipeline = Pipeline::new(&["nothing_here"]);
    broken.skip_if("nothing_here", Box::new(|_| false));
    assert_eq!(plan(&broken, &fresh())[0].action, PlannedAction::FailMissingHandlers);
}

#[test]
fn resolve_plan_executes_no_handlers() {
    let p = recording(&["load", "process", "notify"]);
    let ctx = fresh();
    assert_eq!(plan(&p, &ctx).len(), 3);
    assert!(executed(&ctx).is_empty());
}

#[test]
fn run_step_executes_exactly_one_step() {
    let p = recording(&["load", "process", "notify"]);
    let ctx = fresh();
    assert_eq!(part(&p, p.run_step("process"), &ctx).unwrap(), PipelineResult::Completed);
    assert_eq!(executed(&ctx), vec!["process"]);
}

#[test]
fn run_step_still_respects_skip_if() {
    let mut p = recording(&["load", "process", "notify"]);
    p.skip_if("process", Box::new(|_| true));
    let ctx = fresh();
    part(&p, p.run_step("process"), &ctx).unwrap();
    assert!(executed(&ctx).is_empty());
}

#[test]
fn run_from_and_run_until_are_inclusive_ranges() {
    let p = recording(&["load", "process", "notify"]);
    let ctx = fresh();
    part(&p, p.run_from("process"), &ctx).unwrap();
    assert_eq!(executed(&ctx), vec!["process", "notify"]);
    let ctx = fresh();
    part(&p, p.run_until("process"), &ctx).unwrap();
    assert_eq!(executed(&ctx), vec!["load", "process"]);
}

#[test]
fn partial_runners_error_on_unknown_step() {
    let p = recording(&["load", "process", "notify"]);
    let ctx = fresh();
    for result in [
        part(&p, p.run_step("nope"), &ctx),
        part(&p, p.run_from("nope"), &ctx),
        part(&p, p.run_until("nope"), &ctx),
    ] {
        let err = result.unwrap_err();
        assert!(
            matches!(&err, TestError::Orka(msg) if msg.contains("StepNotFound")),
            "got: {:?}",
            err
        );
    }
}

#[test]
fn partial_run_trace_is_step_events_only() {
    let p = recording(&["load", "process", "notify"]);
    let trace = traced(&p);
    part(&p, p.run_step("process"), &fresh()).unwrap();
    let events = trace.events();
    assert!(!events.is_empty());
    assert!(events.iter().all(|e| !matches!(
        e.kind,
        TraceEventKind::RunStarted | TraceEventKind::RunFinished { .. }
    )));
    assert_eq!(trace.run_count(), 0);
    let run_ids = trace.run_ids();
    assert_eq!(run_ids.len(), 1);
    assert_eq!(trace.for_run(run_ids[0]).completed_steps(), vec!["process"]);
    assert!(events.iter().any(|e| matches!(
        e.kind,
        TraceEventKind::StepStarted { ref step, index: 1 } if step == "process"
    )));
}

#[test]
fn skip_if_labeled_shows_its_label_in_resolve_plan() {
    let mut p: TestPipeline = noop_pipeline(&["drain", "install"], goes_on);
    p.skip_if_labeled(
        "drain",
        "drain disabled by config",
        Box::new(|ctx| ctx.with_ref(|c| c.counter == 0)),
    );
    assert_eq!(
        plan(&p, &fresh())[0].action,
        PlannedAction::Skip(SkipReason::SkipCondition {
            label: Some("drain disabled by config".to_string())
        })
    );
    p.skip_if("drain", Box::new(|_| true));
    assert_eq!(
        plan(&p, &fresh())[0].action,
        PlannedAction::Skip(SkipReason::SkipCondition { label: None })
    );
}

#[test]
fn step_plan_renders_a_readable_preview() {
    let mut p: TestPipeline =
        noop_pipeline(&["prepare", "drain", "cleanup", "install"], goes_on);
    p.skip_if_labeled("drain", "drain disabled by config", Box::new(|_| true));
    p.skip_if("cleanup", Box::new(|_| true));
    p.clear_on("install");
    let rendered: Vec<String> = plan(&p, &fresh()).iter().map(|step| step.to_string()).collect();
    assert_eq!(
        rendered,
        vec![
            "prepare: run",
            "drain: skip (drain disabled by config)",
            "cleanup: skip (skip_if condition)",
            "install: fail (required step has no handlers)",
        ]
    );
}

#[test]
fn the_plan_predicts_what_a_run_does() {
    let mut p = recording(&["a", "b", "c", "d"]);
    p.skip_if("b", Box::new(|_| true));
    p.clear_on("c").optional("c");
    let trace = traced(&p);
    let predicted = plan(&p, &fresh());
    run_pipeline(&p, &fresh()).unwrap();
    let would_run: Vec<&str> = predicted
        .iter()
        .filter(|s| s.action == PlannedAction::Run)
        .map(|s| s.name.as_str())
        .collect();
    let would_skip: Vec<&str> = predicted
        .iter()
        .filter(|s| matches!(s.action, PlannedAction::Skip(_)))
        .map(|s| s.name.as_str())
        .collect();
    assert_completed(&trace, &would_run);
    assert!(steps_match(&trace.skipped_steps(), &would_skip));
}

// --- Cancellation ---

fn cancelling(token: &CancelToken) -> Handler<TestContext> {
    let token = token.clone();
    handler(move |_| {
        token.cancel();
        Ok(PipelineControl::Continue)
    })
}

#[test]
fn a_cancelled_run_stops_before_its_next_step() {
    let mut p = recording(&["alpha", "beta", "gamma"]);
    let token = CancelToken::new();
    p.after_root("alpha", cancelling(&token));
    let ctx = fresh();
    assert_eq!(run_with_cancel(&p, &ctx, token).0.unwrap(), PipelineResult::Cancelled);
    assert_eq!(executed(&ctx), vec!["alpha"], "beta and gamma were never started");
}

#[test]
fn an_uncancelled_run_is_unaffected() {
    let p = recording(&["alpha", "beta", "gamma"]);
    let ctx = fresh();
    assert_eq!(
        run_with_cancel(&p, &ctx, CancelToken::new()).0.unwrap(),
        PipelineResult::Completed
    );
    assert_eq!(executed(&ctx), vec!["alpha", "beta", "gamma"]);
}

#[test]
fn a_handler_returning_stop_under_cancellation_reports_cancelled() {
    let mut p: TestPipeline = Pipeline::new(&["alpha"]);
    p.on_root(
        "alpha",
        handler(|ctx: &Ctx<TestContext>| {
            ctx.cancellation().cancel();
            Ok(PipelineControl::Stop)
        }),
    );
    let (result, outcome) = run_with_cancel(&p, &fresh(), CancelToken::new());
    assert_eq!(result.unwrap(), PipelineResult::Cancelled);
    assert_eq!(outcome, RunOutcome::Cancelled);
}

#[test]
fn a_plain_stop_still_reports_stopped() {
    let mut p: TestPipeline = Pipeline::new(&["alpha", "beta"]);
    p.on_root("alpha", stops());
    let (result, outcome) = run_with_cancel(&p, &fresh(), CancelToken::new());
    assert_eq!(result.unwrap(), PipelineResult::Stopped);
    assert_eq!(outcome, RunOutcome::Stopped);
}

fn is_string(entry: &Bag) -> bool {
    entry.is::<String>()
}

#[test]
fn a_cancelled_run_still_fires_on_finish_and_releases_resources() {
    let mut p = recording(&["alpha", "beta", "gamma"]);
    let token = CancelToken::new();
    p.before_root("beta", cancelling(&token));
    p.on_root(
        "alpha",
        handler(|ctx: &Ctx<TestContext>| {
            ctx.resources().put(Box::new(String::from("held")));
            ctx.with_mut(|c| c.steps_executed.push("alpha".into()));
            Ok(PipelineControl::Continue)
        }),
    );
    let finish_ran = ExecutionCounter::new();
    let seen: Outcomes = Outcomes::default();
    let (counter, log) = (finish_ran.clone(), seen.clone());
    p.on_finish(Box::new(move |ctx, outcome| {
        counter.increment();
        log.lock().unwrap().push(outcome);
        assert!(ctx.resources().with(is_string, |_| ()).is_some());
        Ok(())
    }));
    let ctx = fresh();
    let trace = traced(&p);
    assert_eq!(run_with_cancel(&p, &ctx, token).0.unwrap(), PipelineResult::Cancelled);
    assert_eq!(finish_ran.get(), 1, "the finish ring fired");
    assert_eq!(*seen.lock().unwrap(), vec![RunOutcome::Cancelled]);
    assert!(ctx.resources().is_empty(), "the bag was released after the finish ring");
    assert!(trace
        .events()
        .iter()
        .any(|e| matches!(&e.kind, TraceEventKind::ResourcesReleased { count } if *count == 1)));
}

#[test]
fn cancellation_during_the_finish_ring_does_not_interrupt_it() {
    let mut p = recording(&["alpha", "beta", "gamma"]);
    let token = CancelToken::new();
    let order: Arc<Mutex<Vec<&'static str>>> = Arc::new(Mutex::new(Vec::new()));
    for name in ["first", "second", "third"] {
        let order = order.clone();
        let token = token.clone();
        p.on_finish(Box::new(move |_, _| {
            order.lock().unwrap().push(name);
            if name == "first" {
                token.cancel();
            }
            Ok(())
        }));
    }
    assert_eq!(run_with_cancel(&p, &fresh(), token).0.unwrap(), PipelineResult::Completed);
    assert_eq!(*order.lock().unwrap(), vec!["first", "second", "third"]);
}

#[test]
fn a_cancelled_run_reports_where_it_stopped() {
    let mut p = recording(&["alpha", "beta", "gamma"]);
    let token = CancelToken::new();
    p.after_root("alpha", cancelling(&token));
    let trace = traced(&p);
    run_with_cancel(&p, &fresh(), token).0.unwrap();
    let landed = trace.events().into_iter().find_map(|e| match e.kind {
        TraceEventKind::RunCancelled { step, index } => Some((step, index)),
        _ => None,
    });
    assert_eq!(landed, Some(("beta".to_string(), 1)));
    assert_outcome(&trace, RunOutcome::Cancelled);
}

#[test]
fn resolve_plan_against_a_cancelled_context_plans_nothing() {
    let p = recording(&["alpha", "beta", "gamma"]);
    let ctx = fresh();
    ctx.cancellation().cancel();
    let planned = plan(&p, &ctx);
    assert_eq!(planned.len(), 3);
    assert!(planned.iter().all(|s| s.action == PlannedAction::Cancelled), "got {:?}", planned);
}

#[test]
fn a_cancelled_parent_cancels_its_conditional_scope() {
    let scope_steps = ExecutionCounter::new();
    let counted = scope_steps.clone();
    let mut p: TestPipeline = Pipeline::new(&["conditional_step", "after"]);
    p.conditional_scopes_for_step("conditional_step")
        .add_scope(scope(
            |_| true,
            move |_| {
                let mut sub: Pipeline<Kit<ScopedA>> = Pipeline::new(&["first", "second"]);
                let (a, b) = (counted.clone(), counted.clone());
                sub.on_root(
                    "first",
                    handler(move |ctx: &Ctx<ScopedA>| {
                        a.increment();
                        ctx.cancellation().cancel();
                        Ok(PipelineControl::Continue)
                    }),
                );
                sub.on_root(
                    "second",
                    handler(move |_| {
                        b.increment();
                        Ok(PipelineControl::Continue)
                    }),
                );
                Ok(Arc::new(sub))
            },
            |main: &Ctx<TestContext>| Ok(main.project(|_: &TestContext| ScopedA::default())),
            None,
        ))
        .finalize_conditional_step(false);
    p.on_root("after", simple("after", ""));
    let ctx = fresh();
    let (result, outcome) = run_with_cancel(&p, &ctx, CancelToken::new());
    assert_eq!(scope_steps.get(), 1, "the scope's second step never ran");
    assert_eq!(result.unwrap(), PipelineResult::Cancelled);
    assert_eq!(outcome, RunOutcome::Cancelled);
    assert!(executed(&ctx).is_empty(), "and the parent's next step never ran either");
}

// --- Overrides ---

#[test]
fn replace_per_phase_is_surgical() {
    let mut p: TestPipeline = Pipeline::new(&["work"]);
    p.before_root("work", simple("before-original", ""))
        .on_root("work", simple("on-original", ""))
        .after_root("work", simple("after-original", ""));
    p.replace_on_root("work", simple("on-replacement", ""));
    let ctx = fresh();
    run_pipeline(&p, &ctx).unwrap();
    assert_eq!(executed(&ctx), vec!["before-original", "on-replacement", "after-original"]);

    p.replace_before_root("work", simple("before-replacement", ""))
        .replace_after_root("work", simple("after-replacement", ""));
    let ctx = fresh();
    run_pipeline(&p, &ctx).unwrap();
    assert_eq!(executed(&ctx), vec!["before-replacement", "on-replacement", "after-replacement"]);
}

#[test]
fn replace_collapses_multiple_handlers_to_one() {
    let mut p: TestPipeline = Pipeline::new(&["multi"]);
    let counter = ExecutionCounter::new();
    for _ in 0..3 {
        let c = counter.clone();
        p.on_root(
            "multi",
            handler(move |_| {
                c.increment();
                Ok(PipelineControl::Continue)
            }),
        );
    }
    p.replace_on_root("multi", goes_on());
    run_pipeline(&p, &fresh()).unwrap();
    assert_eq!(counter.get(), 0, "all three originals must be gone");
    assert!(p.has_handlers("multi", StepPhase::On));
}

#[test]
fn clear_phase_methods_empty_only_their_phase() {
    let mut p: TestPipeline = Pipeline::new(&["work"]);
    p.before_root("work", goes_on()).on_root("work", goes_on()).after_root("work", goes_on());
    p.clear_before("work");
    assert!(!p.has_handlers("work", StepPhase::Before));
    assert!(p.has_handlers("work", StepPhase::On));
    assert!(p.has_handlers("work", StepPhase::After));
    p.clear_after("work");
    assert!(p.has_handlers("work", StepPhase::On));
    assert!(!p.has_handlers("work", StepPhase::After));
    p.clear_on("work");
    assert!(!p.has_handlers("work", StepPhase::On));
    assert!(p.validate().is_err());
}

#[test]
fn fail_at_forces_failure_at_the_named_step() {
    let mut p = recording(&["a", "b", "c"]);
    p.fail_at("b", fails(TestError::Handler("injected".into())));
    let ctx = fresh();
    assert_eq!(run_pipeline(&p, &ctx).unwrap_err(), TestError::Handler("injected".into()));
    assert_eq!(ctx.with_ref(|c| c.counter), 1);
}

#[test]
fn stub_step_neutralizes_a_conditional_step() {
    let mut p: TestPipeline = Pipeline::new(&["branch", "tail"]);
    p.on_root("tail", goes_on());
    p.conditional_scopes_for_step("branch")
        .add_scope(scope(
            |_| true,
            |_| {
                let mut scoped: Pipeline<Kit<ScopedA>> = Pipeline::new(&["scoped_work"]);
                scoped.fail_at("scoped_work", fails(TestError::ScopedTask("must not run".into())));
                Ok(Arc::new(scoped))
            },
            |_: &Ctx<TestContext>| Ok(Ctx::new(ScopedA::default())),
            None,
        ))
        .finalize_conditional_step(false);
    assert!(run_pipeline(&p, &fresh()).is_err());

    p.stub_step("branch");
    assert!(p.validate().is_ok());
    let trace = traced(&p);
    assert_eq!(run_pipeline(&p, &fresh()).unwrap(), PipelineResult::Completed);
    assert_completed(&trace, &["branch", "tail"]);
}

fn empty_sub() -> Box<dyn Extract<TestContext>> {
    Box::new(Extractor {
        extract: Box::new(|_: &Ctx<TestContext>| Ok(Ctx::new(Sub::default()))),
        merge: None,
    })
}

#[test]
fn clear_on_orphaning_an_extractor_fails_validate_loudly() {
    let mut p: TestPipeline = Pipeline::new(&["extract"]);
    p.set_extractor("extract", empty_sub());
    p.on("extract", processes());
    assert!(p.validate().is_ok());

    p.clear_on("extract");
    let err = p.validate().unwrap_err();
    assert!(err.to_string().contains("extractor"), "unexpected error: {}", err.to_string());

    p.remove_extractor("extract");
    p.on_root("extract", goes_on());
    assert!(p.validate().is_ok());
}

#[test]
fn stub_step_also_clears_extractor_bookkeeping() {
    let mut p: TestPipeline = Pipeline::new(&["extract"]);
    p.set_extractor("extract", empty_sub());
    p.on("extract", on_sub(|_: &Ctx<Sub>| Ok(PipelineControl::Continue)));

    p.stub_step("extract");
    assert!(p.validate().is_ok());
    run_pipeline(&p, &fresh()).unwrap();
}

struct RecordingExtractor {
    calls: ExecutionCounter,
}

impl Extract<TestContext> for RecordingExtractor {
    fn run(&self, _root: &Ctx<TestContext>) -> Result<Box<dyn Any>, OrkaError> {
        self.calls.increment();
        let sub: Ctx<Sub> =
            Ctx::new(Sub { sub_field: "from custom extractor".into(), processed: false });
        Ok(Box::new(sub))
    }

    fn type_id(&self) -> std::any::TypeId {
        std::any::TypeId::of::<Sub>()
    }

    fn folds_back(&self) -> bool {
        false
    }

    fn merge(&self, _root: &Ctx<TestContext>, _sub: &dyn Any) -> Result<(), OrkaError> {
        Ok(())
    }
}

#[test]
fn set_extractor_impl_accepts_a_custom_extractor() {
    let calls = ExecutionCounter::new();
    let mut p: TestPipeline = Pipeline::new(&["extract"]);
    let extractor: Box<dyn Extract<TestContext>> =
        Box::new(RecordingExtractor { calls: calls.clone() });
    p.set_extractor_impl("extract", Arc::new(extractor));
    let seen: Ctx<String> = Ctx::new(String::new());
    let seen_in_handler = seen.clone();
    p.on(
        "extract",
        on_sub(move |sub: &Ctx<Sub>| {
            let found = sub.with_ref(|s| s.sub_field.clone());
            seen_in_handler.with_mut(|s| *s = found);
            Ok(PipelineControl::Continue)
        }),
    );

    run_pipeline(&p, &fresh()).unwrap();
    assert_eq!(calls.get(), 1, "custom extractor was consulted");
    assert_eq!(seen.with_ref(|s| s.clone()), "from custom extractor");
}

#[test]
fn test_pipeline_run_catches_handler_missing() {
    let pipeline: TestPipeline = Pipeline::new(&["missing"]);
    match run_pipeline(&pipeline, &fresh()) {
        Err(TestError::Orka(s)) => {
            assert!(s.contains("HandlerMissing"));
            assert!(s.contains("missing"));
        }
        other => panic!("Expected TestError::Orka(HandlerMissing), got {:?}", other),
    }
}

#[test]
fn a_timed_out_step_names_itself_in_the_run_outcome() {
    let mut pipeline: TestPipeline = Pipeline::new(&["quick", "slow"]);
    pipeline.on_root("quick", simple("quick", ""));
    pipeline.on_root(
        "slow",
        handler(|_: &Ctx<TestContext>| {
            let budget = std::time::Duration::from_millis(10);
            orka::time::timed("slow", budget, None::<()>).map_err(TestError::from)?;
            Ok(PipelineControl::Continue)
        }),
    );

    let ctx = fresh();
    let (result, outcome) = run_with_outcome(&pipeline, &ctx);
    assert!(result.is_err());
    assert_eq!(ctx.with_ref(|c| c.counter), 1, "the earlier step still ran");
    match outcome {
        RunOutcome::Errored { step, message } => {
            assert_eq!(step, "slow", "the failure is attributed to the step that timed out");
            assert!(message.contains("StepTimedOut"), "message was: {}", message);
        }
        other => panic!("expected Errored, got {:?}", other),
    }
}

// --- Traces ---

#[test]
fn completed_run_emits_full_event_stream() {
    let p = recording(&["one", "two", "three"]);
    let trace = traced(&p);
    run_pipeline(&p, &fresh()).unwrap();
    assert_completed(&trace, &["one", "two", "three"]);
    assert_eq!(first_out_of_order(&trace.completed_steps(), &["one", "three"]), None);
    assert_outcome(&trace, RunOutcome::Completed);
    assert_eq!(trace.run_count(), 1);
    let events = trace.events();
    assert!(matches!(events.first().unwrap().kind, TraceEventKind::RunStarted));
    assert!(matches!(events.last().unwrap().kind, TraceEventKind::RunFinished { .. }));
    assert_eq!(trace.handler_finishes("two", StepPhase::On), vec![HandlerOutcome::Continue]);
    assert_eq!(events.len(), 2 + 3 * 3);
}

#[test]
fn stopped_and_errored_runs_report_their_outcomes() {
    let mut p = recording(&["one", "two", "three"]);
    p.replace_on_root("two", stops());
    let trace = traced(&p);
    run_pipeline(&p, &fresh()).unwrap();
    assert_outcome(&trace, RunOutcome::Stopped);
    assert_eq!(trace.handler_finishes("two", StepPhase::On), vec![HandlerOutcome::Stop]);
    assert!(!trace.step_completed("three"));

    let mut p = recording(&["one", "two", "three"]);
    p.replace_on_root("two", fails(TestError::Handler("kaput".into())));
    let trace = traced(&p);
    assert_eq!(run_pipeline(&p, &fresh()).unwrap_err(), TestError::Handler("kaput".into()));
    assert_outcome(
        &trace,
        RunOutcome::Errored {
            step: "two".to_string(),
            message: "Test handler failed: kaput".to_string(),
        },
    );
}

#[test]
fn skips_are_reported_with_their_reason() {
    let mut p = recording(&["one", "two", "three"]);
    p.skip_if("one", Box::new(|_| true));
    p.clear_on("three");
    p.optional("three");
    let trace = traced(&p);
    run_pipeline(&p, &fresh()).unwrap();
    assert!(steps_match(&trace.skipped_steps(), &["one", "three"]));
    assert_completed(&trace, &["two"]);
    let reasons: Vec<SkipReason> = trace
        .events()
        .into_iter()
        .filter_map(|e| match e.kind {
            TraceEventKind::StepSkipped { reason, .. } => Some(reason),
            _ => None,
        })
        .collect();
    assert_eq!(
        reasons,
        vec![SkipReason::SkipCondition { label: None }, SkipReason::OptionalWithoutHandlers]
    );
}

#[test]
fn tracer_attached_after_conditional_finalization_still_sees_scope_events() {
    let mut p: TestPipeline = Pipeline::new(&["branch"]);
    p.conditional_scopes_for_step("branch")
        .add_scope(scope(
            |ctx: &Ctx<TestContext>| ctx.with_ref(|c| c.counter > 0),
            |_| {
                let mut scoped: Pipeline<Kit<ScopedA>> = Pipeline::new(&["scoped_work"]);
                scoped.on_root("scoped_work", goes_on());
                Ok(Arc::new(scoped))
            },
            |_| Ok(Ctx::new(ScopedA::default())),
            None,
        ))
        .if_no_scope_matches(PipelineControl::Continue)
        .finalize_conditional_step(false);
    let trace = traced(&p);
    run_pipeline(&p, &Ctx::new(TestContext { counter: 1, ..TestContext::default() })).unwrap();
    let matched: Vec<TraceEvent> = trace
        .events()
        .into_iter()
        .filter(|e| matches!(e.kind, TraceEventKind::ScopeMatched { .. }))
        .collect();
    assert_eq!(matched.len(), 1);
    let run_id = trace.run_ids()[0];
    assert!(matched.iter().all(|e| e.run_id == run_id));

    trace.clear();
    run_pipeline(&p, &fresh()).unwrap();
    assert!(trace.events().iter().any(|e| matches!(e.kind, TraceEventKind::ScopeNotMatched { .. })));
}

#[test]
fn several_runs_disambiguate_by_run_id() {
    let p = recording(&["one", "two", "three"]);
    let trace = traced(&p);
    for _ in 0..4 {
        run_pipeline(&p, &fresh()).unwrap();
    }
    let run_ids = trace.run_ids();
    assert_eq!(run_ids.len(), 4);
    assert_eq!(trace.run_count(), 4);
    for run_id in run_ids {
        let run = trace.for_run(run_id);
        assert_eq!(run.completed_steps(), vec!["one", "two", "three"]);
        assert_eq!(run.last_outcome(), Some(RunOutcome::Completed));
    }
}

struct ErrorProbe(Arc<Mutex<Vec<(String, StepPhase, String)>>>);

impl PipelineObserver for ErrorProbe {
    fn on_event(&self, _event: &TraceEvent) {}

    fn on_handler_error(&self, _run_id: u64, step: &str, phase: StepPhase, message: &str) {
        self.0.lock().unwrap().push((step.to_string(), phase, message.to_string()));
    }
}

#[test]
fn on_handler_error_is_told_of_the_failure() {
    let mut p = recording(&["ok_step", "bad_step"]);
    p.replace_on_root("bad_step", fails(TestError::Handler("typed".into())));
    let saw = Arc::new(Mutex::new(Vec::new()));
    p.set_observer(Arc::new(ErrorProbe(saw.clone())));
    let _ = run_pipeline(&p, &fresh());
    assert_eq!(
        *saw.lock().unwrap(),
        vec![("bad_step".to_string(), StepPhase::On, "Test handler failed: typed".to_string())]
    );
}

/// Notes what it is told, of events and of errors alike.
struct Told(Arc<Mutex<Vec<String>>>);

impl PipelineObserver for Told {
    fn on_event(&self, event: &TraceEvent) {
        self.0.lock().unwrap().push(event.kind.to_string());
    }

    fn on_handler_error(&self, _run_id: u64, step: &str, _phase: StepPhase, message: &str) {
        self.0.lock().unwrap().push(format!("{}: {}", step, message));
    }
}

#[test]
fn a_failure_is_told_just_before_it_is_reported() {
    let mut p = recording(&["ok_step", "bad_step"]);
    p.replace_on_root("bad_step", fails(TestError::Handler("typed".into())));
    let told = Arc::new(Mutex::new(Vec::new()));
    p.set_observer(Arc::new(Told(told.clone())));
    assert!(run_pipeline(&p, &fresh()).is_err());
    let told = told.lock().unwrap();
    let errors: Vec<usize> =
        (0..told.len()).filter(|i| told[*i] == "bad_step: Test handler failed: typed").collect();
    assert_eq!(errors.len(), 1);
    let finished = TraceEventKind::HandlerFinished {
        step: "bad_step".to_string(),
        phase: StepPhase::On,
        handler_index: 0,
        outcome: HandlerOutcome::Error("Test handler failed: typed".to_string()),
    };
    assert_eq!(told[errors[0] + 1], finished.to_string());
}

#[test]
fn only_the_failure_of_a_handler_is_told() {
    let p = recording(&["bad_step"]);
    let (mut run, _) = p.run::<TestError>();
    assert!(run.handler_error(&Reply::Token(false)).is_none());
    run.advance(Reply::Token(false));
    assert!(matches!(run.action(), Action::Invoke { step: 0, phase: StepPhase::On, handler: 0 }));
    assert!(run.handler_error(&Reply::Handler(Ok(PipelineControl::Stop))).is_none());
    let reply = Reply::Handler(Err(failure(TestError::Handler("typed".into()))));
    let told = run.handler_error(&reply).unwrap();
    assert_eq!((told.step, told.phase), ("bad_step", StepPhase::On));
    assert_eq!(told.failure.error, TestError::Handler("typed".into()));
    assert_eq!(told.failure.message, "Test handler failed: typed");
}

#[test]
fn a_stub_alone_answers_at_once() {
    let mut p = recording(&["work"]);
    assert_eq!(p.steps[0].on[0].immediate(), None);
    p.stub_step("work");
    assert_eq!(p.steps[0].on.len(), 1);
    assert_eq!(p.steps[0].on[0].immediate(), Some(PipelineControl::Continue));
}

#[test]
fn observer_attaches_through_a_shared_arc() {
    let p = Arc::new(recording(&["one", "two", "three"]));
    let trace = TraceCollector::new();
    p.set_observer(Arc::new(trace.clone()));
    run_pipeline(&p, &fresh()).unwrap();
    assert_completed(&trace, &["one", "two", "three"]);
}

#[test]
fn clear_observer_detaches() {
    let p = recording(&["one"]);
    let trace = traced(&p);
    p.clear_observer();
    run_pipeline(&p, &fresh()).unwrap();
    assert!(trace.events().is_empty());
}

#[test]
fn labeled_skip_appears_in_trace_events_and_display() {
    let mut p = recording(&["one", "two", "three"]);
    p.skip_if_labeled("two", "fresh deploy, nothing to drain", Box::new(|_| true));
    let trace = traced(&p);
    run_pipeline(&p, &fresh()).unwrap();
    let skipped: Vec<TraceEvent> = trace
        .events()
        .into_iter()
        .filter(|e| matches!(e.kind, TraceEventKind::StepSkipped { .. }))
        .collect();
    assert_eq!(skipped.len(), 1);
    assert_eq!(
        skipped[0].kind,
        TraceEventKind::StepSkipped {
            step: "two".to_string(),
            index: 1,
            reason: SkipReason::SkipCondition {
                label: Some("fresh deploy, nothing to drain".to_string())
            },
        }
    );
    assert!(skipped[0].to_string().contains("fresh deploy, nothing to drain"));
}

#[test]
fn composite_observer_fans_out_to_all_observers() {
    let p = recording(&["one", "two", "three"]);
    let first = TraceCollector::new();
    let second = TraceCollector::new();
    let mut composite: CompositeObserver<Observer> = CompositeObserver::new();
    composite.push(Arc::new(first.clone())).push(Arc::new(second.clone()));
    p.set_observer(Arc::new(composite));
    run_pipeline(&p, &fresh()).unwrap();
    assert_eq!(first.completed_steps(), vec!["one", "two", "three"]);
    assert_eq!(second.completed_steps(), vec!["one", "two", "three"]);

    let saw = Arc::new(Mutex::new(Vec::new()));
    let observers: Vec<Observer> =
        vec![Arc::new(ErrorProbe(saw.clone())), Arc::new(ErrorProbe(saw.clone()))];
    let mut p = recording(&["one", "two"]);
    p.fail_at("two", fails(TestError::Handler("fanout".into())));
    p.set_observer(Arc::new(CompositeObserver::with(observers)));
    let _ = run_pipeline(&p, &fresh());
    assert_eq!(saw.lock().unwrap().len(), 2);
}

#[test]
fn run_with_outcome_attributes_the_failing_step() {
    let mut p = recording(&["one", "two", "three"]);
    p.fail_at("two", fails(TestError::Handler("kaput".into())));
    let (result, outcome) = run_with_outcome(&p, &fresh());
    assert_eq!(result.unwrap_err(), TestError::Handler("kaput".into()));
    match outcome {
        RunOutcome::Errored { step, message } => {
            assert_eq!(step, "two");
            assert!(message.contains("kaput"));
        }
        other => panic!("expected Errored, got {:?}", other),
    }

    let (result, outcome) = run_with_outcome(&recording(&["one"]), &fresh());
    assert!(result.is_ok());
    assert_eq!(outcome, RunOutcome::Completed);

    let mut p = recording(&["one"]);
    p.on_finish(Box::new(|_, _| Err(TestError::Other("cleanup".into()))));
    let (result, outcome) = run_with_outcome(&p, &fresh());
    assert!(result.is_err());
    assert!(matches!(outcome, RunOutcome::Errored { ref step, .. } if step == "on_finish"));
}

#[test]
fn a_scoped_observer_does_not_displace_the_attached_one() {
    let p = recording(&["one", "two", "three"]);
    let attached = traced(&p);
    let scoped = TraceCollector::new();
    let (run, opening) = p.run();
    drive(&p, run, opening, &fresh(), Some(Arc::new(scoped.clone()))).0.unwrap();
    assert_completed(&attached, &["one", "two", "three"]);
    assert_completed(&scoped, &["one", "two", "three"]);
}

#[test]
fn a_scoped_observer_collects_only_its_own_call() {
    let p = recording(&["one", "two", "three"]);
    let (mine, theirs) = (TraceCollector::new(), TraceCollector::new());
    for scoped in [&mine, &theirs] {
        let (run, opening) = p.run();
        drive(&p, run, opening, &fresh(), Some(Arc::new(scoped.clone()))).0.unwrap();
    }
    assert_eq!(mine.run_count(), 1, "each collector sees exactly one run");
    assert_eq!(theirs.run_count(), 1);
    assert_eq!(mine.run_ids().len(), 1);
    assert_ne!(mine.run_ids()[0], theirs.run_ids()[0], "and they are different runs");
}

#[test]
fn the_runs_of_a_trace_and_its_handler_finishes_add_up() {
    let mut p = recording(&["one", "two"]);
    p.on_root("one", simple("again", "")).after_root("two", failing("two", "late"));
    let trace = traced(&p);
    assert!(run_pipeline(&p, &fresh()).is_err());
    assert!(run_pipeline(&p, &fresh()).is_err());

    let events = trace.events();
    let runs: usize = trace.run_ids().iter().map(|id| trace.for_run(*id).events.len()).sum();
    assert_eq!(runs, events.len());

    let mut finishes = 0;
    for step in ["one", "two"] {
        for phase in [StepPhase::Before, StepPhase::On, StepPhase::After] {
            finishes += trace.handler_finishes(step, phase).len();
        }
    }
    assert_eq!(finishes, 8);
    assert_eq!(
        finishes,
        events.iter().filter(|e| matches!(e.kind, TraceEventKind::HandlerFinished { .. })).count()
    );
}

#[test]
fn an_ambient_observer_is_inherited_unless_one_is_given() {
    let p = recording(&["one"]);
    let (ambient, given) = (TraceCollector::new(), TraceCollector::new());
    let event = || TraceEvent { run_id: 7, kind: TraceEventKind::RunStarted };

    let inherited = p.observe_prologue(None, Some(Arc::new(ambient.clone())));
    assert!(inherited.scoped.is_some());
    inherited.observer.unwrap().on_event(&event());
    assert_eq!(ambient.events(), vec![event()]);

    let overridden =
        p.observe_prologue(Some(Arc::new(given.clone())), Some(Arc::new(ambient.clone())));
    overridden.observer.unwrap().on_event(&event());
    assert_eq!(given.run_count(), 1);
    assert_eq!(ambient.run_count(), 1);

    assert!(p.observe_prologue(None, None).observer.is_none());
}

// --- Conditional scopes ---

fn processing_a() -> Arc<Pipeline<Kit<ScopedA>>> {
    let mut p: Pipeline<Kit<ScopedA>> = Pipeline::new(&["scoped_a_task"]);
    p.on_root(
        "scoped_a_task",
        handler(|ctx: &Ctx<ScopedA>| {
            ctx.with_mut(|c| c.processed_message = format!("A processed: {}", c.input));
            Ok(PipelineControl::Continue)
        }),
    );
    Arc::new(p)
}

fn scope_a(
    condition: impl Fn(&Ctx<TestContext>) -> bool + 'static,
    merge: Option<Box<dyn Fn(&mut TestContext, &ScopedA)>>,
) -> Scope<TestContext> {
    scope(
        condition,
        |_| Ok(processing_a()),
        |main: &Ctx<TestContext>| {
            Ok(main.project(|d: &TestContext| ScopedA {
                input: d.data_for_scoped.clone().unwrap_or_default(),
                ..ScopedA::default()
            }))
        },
        merge,
    )
}

fn scope_b(
    condition: impl Fn(&Ctx<TestContext>) -> bool + 'static,
    merge: Option<Box<dyn Fn(&mut TestContext, &ScopedB)>>,
) -> Scope<TestContext> {
    scope(
        condition,
        |_| {
            let mut p: Pipeline<Kit<ScopedB>> = Pipeline::new(&["scoped_b_task"]);
            p.on_root(
                "scoped_b_task",
                handler(|ctx: &Ctx<ScopedB>| {
                    ctx.with_mut(|c| c.alternative_message = format!("B alternative: {}", c.input));
                    Ok(PipelineControl::Continue)
                }),
            );
            Ok(Arc::new(p))
        },
        |main: &Ctx<TestContext>| {
            Ok(main.project(|d: &TestContext| ScopedB {
                input: d.data_for_scoped.clone().unwrap_or_default(),
                ..ScopedB::default()
            }))
        },
        merge,
    )
}

fn failing_scope(message: &'static str) -> Scope<TestContext> {
    scope(
        |_| true,
        move |_| {
            let mut p: Pipeline<Kit<ScopedA>> = Pipeline::new(&["failing_scoped_task"]);
            p.on_root("failing_scoped_task", fails(TestError::ScopedTask(message.to_string())));
            Ok(Arc::new(p))
        },
        |_: &Ctx<TestContext>| Ok(Ctx::new(ScopedA::default())),
        Some(Box::new(|main: &mut TestContext, _: &ScopedA| main.scoped_a_ran = true)),
    )
}

fn two_merging_scopes() -> TestPipeline {
    let mut p: TestPipeline = Pipeline::new(&["conditional_step"]);
    p.conditional_scopes_for_step("conditional_step")
        .add_scope(scope_a(
            |main| main.with_ref(|c| c.message == "run_a"),
            Some(Box::new(|main, sub| {
                main.scoped_a_ran = true;
                main.scoped_result = Some(sub.processed_message.clone());
            })),
        ))
        .add_scope(scope_b(
            |main| main.with_ref(|c| c.message == "run_b"),
            Some(Box::new(|main, sub| {
                main.scoped_b_ran = true;
                main.scoped_result = Some(sub.alternative_message.clone());
            })),
        ))
        .finalize_conditional_step(false);
    p
}

fn seeded(message: &str, data: &str) -> Ctx<TestContext> {
    Ctx::new(TestContext {
        message: message.to_string(),
        data_for_scoped: Some(data.to_string()),
        ..TestContext::default()
    })
}

#[test]
fn test_conditional_scope_a_runs_when_condition_met() {
    let ctx = seeded("run_a", "data_a");
    assert_eq!(run_pipeline(&two_merging_scopes(), &ctx).unwrap(), PipelineResult::Completed);
    ctx.with_ref(|c| {
        assert!(c.scoped_a_ran);
        assert!(!c.scoped_b_ran);
        assert_eq!(c.scoped_result.as_deref(), Some("A processed: data_a"));
    });
}

#[test]
fn test_conditional_scope_b_runs_when_condition_met() {
    let ctx = seeded("run_b", "data_b");
    assert_eq!(run_pipeline(&two_merging_scopes(), &ctx).unwrap(), PipelineResult::Completed);
    ctx.with_ref(|c| {
        assert!(!c.scoped_a_ran);
        assert!(c.scoped_b_ran);
        assert_eq!(c.scoped_result.as_deref(), Some("B alternative: data_b"));
    });
}

#[test]
fn test_conditional_no_scope_matches_leaves_context_untouched() {
    let ctx = seeded("matches_nothing", "");
    assert_eq!(run_pipeline(&two_merging_scopes(), &ctx).unwrap(), PipelineResult::Completed);
    ctx.with_ref(|c| {
        assert!(!c.scoped_a_ran);
        assert!(!c.scoped_b_ran);
        assert_eq!(c.scoped_result, None);
    });
}

#[test]
fn test_conditional_no_match_behavior_continue() {
    let mut p: TestPipeline = Pipeline::new(&["pre_cond", "conditional_step", "post_cond"]);
    p.on_root("pre_cond", simple("pre_cond", "PRE;"));
    p.conditional_scopes_for_step("conditional_step")
        .add_scope(scope_a(|_| false, None))
        .add_scope(scope_b(|_| false, None))
        .if_no_scope_matches(PipelineControl::Continue)
        .finalize_conditional_step(false);
    p.on_root("post_cond", simple("post_cond", "POST;"));
    let ctx = fresh();
    assert_eq!(run_pipeline(&p, &ctx).unwrap(), PipelineResult::Completed);
    ctx.with_ref(|c| {
        assert_eq!(c.steps_executed, vec!["pre_cond", "post_cond"]);
        assert_eq!(c.message, "PRE;POST;");
    });
}

#[test]
fn test_conditional_no_match_behavior_stop() {
    let mut p: TestPipeline = Pipeline::new(&["pre_cond", "conditional_step", "post_cond"]);
    p.on_root("pre_cond", simple("pre_cond", "PRE;"));
    p.conditional_scopes_for_step("conditional_step")
        .add_scope(scope_a(|_| false, None))
        .if_no_scope_matches(PipelineControl::Stop)
        .finalize_conditional_step(false);
    p.on_root("post_cond", simple("post_cond", "POST;"));
    let ctx = fresh();
    assert_eq!(run_pipeline(&p, &ctx).unwrap(), PipelineResult::Stopped);
    ctx.with_ref(|c| {
        assert_eq!(c.steps_executed, vec!["pre_cond"]);
        assert_eq!(c.message, "PRE;");
    });
}

#[test]
fn test_conditional_scope_composes_with_existing_on_root_handler() {
    let mut p: TestPipeline = Pipeline::new(&["shared_step"]);
    p.on_root("shared_step", simple("root_handler", "ROOT;"));
    p.conditional_scopes_for_step("shared_step")
        .add_scope(scope_a(|_| true, Some(Box::new(|main, _| main.scoped_a_ran = true))))
        .finalize_conditional_step(false);
    let ctx = seeded("", "x");
    run_pipeline(&p, &ctx).unwrap();
    ctx.with_ref(|c| {
        assert_eq!(c.steps_executed, vec!["root_handler"]);
        assert_eq!(c.message, "ROOT;");
        assert!(c.scoped_a_ran);
    });
}

/// The pipeline of one conditional step, with one scope.
fn one_conditional_step(name: &str, scope: Scope<TestContext>) -> TestPipeline {
    let mut p: TestPipeline = Pipeline::new(&[name]);
    p.conditional_scopes_for_step(name).add_scope(scope).finalize_conditional_step(false);
    p
}

fn conditional(scope: Scope<TestContext>, optional: bool) -> TestPipeline {
    let mut p: TestPipeline = Pipeline::new(&["step", "after"]);
    p.on_root("after", simple("after", ""));
    p.conditional_scopes_for_step("step").add_scope(scope).finalize_conditional_step(optional);
    p
}

fn failing_extraction() -> Scope<TestContext> {
    scope(
        |_| true,
        |_| Ok(processing_a()),
        |_: &Ctx<TestContext>| {
            Err(OrkaError::ExtractorFailure {
                step_name: "test_extractor".to_string(),
                source: anyhow::Error::msg("Extractor failed intentionally"),
            })
        },
        None,
    )
}

fn failing_provider() -> Scope<TestContext> {
    scope(
        |_| true,
        |_| {
            Err::<Arc<Pipeline<Kit<ScopedA>>>, OrkaError>(OrkaError::PipelineProviderFailure {
                step_name: "failing_provider".to_string(),
                source: anyhow::Error::msg("Provider intentionally failed"),
            })
        },
        |_: &Ctx<TestContext>| Ok(Ctx::new(ScopedA::default())),
        None,
    )
}

fn framework_error(result: Result<PipelineResult, TestError>) -> String {
    match result {
        Err(TestError::Orka(s)) => s,
        other => panic!("expected a framework error, got {:?}", other),
    }
}

#[test]
fn test_conditional_extractor_failure() {
    let s = framework_error(run_pipeline(
        &one_conditional_step("conditional_step_fail_extract", failing_extraction()),
        &fresh(),
    ));
    assert!(s.contains("ExtractorFailure"));
    assert!(s.contains("Extractor failed intentionally"));
    assert!(s.contains("conditional_scope_extractor"));
}

#[test]
fn test_conditional_provider_failure() {
    let s = framework_error(run_pipeline(
        &one_conditional_step("conditional_step_fail_provide", failing_provider()),
        &fresh(),
    ));
    assert!(s.contains("PipelineProviderFailure"));
    assert!(s.contains("Provider intentionally failed"));
    assert!(s.contains("conditional_scope_provider"));
}

#[test]
fn a_failing_scope_ends_the_main_run_with_its_error() {
    let ctx = fresh();
    assert_eq!(
        run_pipeline(&conditional(failing_scope("scope down"), false), &ctx).unwrap_err(),
        TestError::ScopedTask("scope down".to_string())
    );
    assert!(executed(&ctx).is_empty());
}

#[test]
fn test_failed_scope_is_not_merged_back() {
    let ctx = fresh();
    assert!(run_pipeline(&one_conditional_step("cond", failing_scope("boom")), &ctx).is_err());
    assert!(!ctx.with_ref(|c| c.scoped_a_ran));
}

/// A scope whose pipeline fails, counting what is called of it.
fn counting_failing_scope(
    message: &'static str,
    provided: &ExecutionCounter,
    extracted: &ExecutionCounter,
    handled: &ExecutionCounter,
) -> Scope<TestContext> {
    let (provided, extracted, handled) = (provided.clone(), extracted.clone(), handled.clone());
    scope(
        |_| true,
        move |_| {
            provided.increment();
            let handled = handled.clone();
            let mut p: Pipeline<Kit<ScopedA>> = Pipeline::new(&["failing_scoped_task"]);
            p.on_root(
                "failing_scoped_task",
                handler(move |_| {
                    handled.increment();
                    Err(TestError::ScopedTask(message.to_string()))
                }),
            );
            Ok(Arc::new(p))
        },
        move |_: &Ctx<TestContext>| {
            extracted.increment();
            Ok(Ctx::new(ScopedA { input: "any_input".to_string(), ..ScopedA::default() }))
        },
        None,
    )
}

#[test]
fn test_conditional_scoped_pipeline_returns_error() {
    let provider_count = ExecutionCounter::new();
    let handler_count = ExecutionCounter::new();
    let extractor_count = ExecutionCounter::new();
    let failure_msg = "Scoped pipeline intentionally failed!";
    let p = one_conditional_step(
        "conditional_step_with_failing_scope",
        counting_failing_scope(failure_msg, &provider_count, &extractor_count, &handler_count),
    );
    match run_pipeline(&p, &fresh()).unwrap_err() {
        TestError::ScopedTask(msg) => assert_eq!(msg, failure_msg),
        other => panic!("expected TestError::ScopedTask, got {:?}", other),
    }
    assert_eq!(provider_count.get(), 1, "provider ran once");
    assert_eq!(extractor_count.get(), 1, "extractor ran once");
    assert_eq!(handler_count.get(), 1, "scoped handler ran once");
}

#[test]
fn test_optional_conditional_step_continues_on_scope_error() {
    let provider_count = ExecutionCounter::new();
    let handler_count = ExecutionCounter::new();
    let mut p: TestPipeline = Pipeline::new(&[
        "before_optional_cond",
        "optional_conditional_step",
        "after_optional_cond",
    ]);
    p.optional("optional_conditional_step")
        .on_root("before_optional_cond", simple("before_opt", "Before;"));
    p.conditional_scopes_for_step("optional_conditional_step")
        .add_scope(counting_failing_scope(
            "Scoped pipeline in optional step failed!",
            &provider_count,
            &ExecutionCounter::new(),
            &handler_count,
        ))
        .finalize_conditional_step(true);
    p.on_root("after_optional_cond", simple("after_opt", "After;"));
    let ctx = fresh();
    assert_eq!(run_pipeline(&p, &ctx).unwrap(), PipelineResult::Completed);
    ctx.with_ref(|c| {
        assert_eq!(c.steps_executed, vec!["before_opt", "after_opt"]);
        assert_eq!(c.message, "Before;After;");
        assert_eq!(c.counter, 2);
    });
    assert_eq!(provider_count.get(), 1);
    assert_eq!(handler_count.get(), 1);
}

#[test]
fn a_step_marked_optional_later_swallows_the_errors_of_its_scopes() {
    let mut p = conditional(failing_scope("boom"), false);
    assert_eq!(
        run_pipeline(&p, &fresh()).unwrap_err(),
        TestError::ScopedTask("boom".to_string())
    );
    p.optional("step");
    assert_eq!(run_pipeline(&p, &fresh()).unwrap(), PipelineResult::Completed);
    p.required("step");
    assert!(run_pipeline(&p, &fresh()).is_err());

    let mut p = conditional(failing_scope("boom"), true);
    p.required("step");
    assert!(run_pipeline(&p, &fresh()).is_err());
}

#[test]
fn test_optional_conditional_step_continues_on_provider_failure() {
    let mut p: TestPipeline = Pipeline::new(&[
        "before_opt_prov_fail",
        "opt_cond_step_prov_fail",
        "after_opt_prov_fail",
    ]);
    p.optional("opt_cond_step_prov_fail")
        .on_root("before_opt_prov_fail", simple("before_opt_pf", "BPF;"));
    p.conditional_scopes_for_step("opt_cond_step_prov_fail")
        .add_scope(failing_provider())
        .finalize_conditional_step(true);
    p.on_root("after_opt_prov_fail", simple("after_opt_pf", "APF;"));
    let ctx = fresh();
    assert_eq!(run_pipeline(&p, &ctx).unwrap(), PipelineResult::Completed);
    ctx.with_ref(|c| {
        assert_eq!(c.steps_executed, vec!["before_opt_pf", "after_opt_pf"]);
        assert_eq!(c.message, "BPF;APF;");
    });
}

fn scope_events(trace: &TraceCollector) -> Vec<TraceEventKind> {
    trace
        .events()
        .into_iter()
        .map(|e| e.kind)
        .filter(|k| {
            matches!(k, TraceEventKind::ScopeMatched { .. } | TraceEventKind::ScopeNotMatched { .. })
        })
        .collect()
}

#[test]
fn scope_selection_is_visible_in_the_trace() {
    let p = two_merging_scopes();
    let trace = traced(&p);
    run_pipeline(&p, &seeded("run_b", "d")).unwrap();
    assert_eq!(
        scope_events(&trace),
        vec![TraceEventKind::ScopeMatched { step: "conditional_step".to_string(), scope_index: 1 }]
    );

    trace.clear();
    let unmatched = TestContext { message: "nothing".to_string(), ..TestContext::default() };
    run_pipeline(&p, &Ctx::new(unmatched)).unwrap();
    assert_eq!(
        scope_events(&trace),
        vec![TraceEventKind::ScopeNotMatched { step: "conditional_step".to_string() }]
    );
}

#[test]
fn test_conditional_static_scope_runs() {
    let mut scoped: Pipeline<Kit<ScopedA>> = Pipeline::new(&["static_scoped_task"]);
    scoped.on_root(
        "static_scoped_task",
        handler(|ctx: &Ctx<ScopedA>| {
            ctx.with_mut(|c| c.processed_message = format!("STATIC A processed: {}", c.input));
            Ok(PipelineControl::Continue)
        }),
    );
    let shared = Arc::new(scoped);
    let p = one_conditional_step(
        "conditional_with_static",
        scope(
            |main: &Ctx<TestContext>| main.with_ref(|c| c.message == "use_static_a"),
            move |_| Ok(shared.clone()),
            |main: &Ctx<TestContext>| {
                Ok(main.project(|d: &TestContext| ScopedA {
                    input: d
                        .data_for_scoped
                        .clone()
                        .unwrap_or_else(|| "default_static_input".to_string()),
                    ..ScopedA::default()
                }))
            },
            Some(Box::new(|main: &mut TestContext, sub: &ScopedA| {
                main.scoped_a_ran = true;
                main.scoped_result = Some(sub.processed_message.clone());
            })),
        ),
    );
    let ctx = seeded("use_static_a", "input_for_static_a");
    assert_eq!(run_pipeline(&p, &ctx).unwrap(), PipelineResult::Completed);
    ctx.with_ref(|c| {
        assert!(c.scoped_a_ran);
        assert_eq!(c.scoped_result.as_deref(), Some("STATIC A processed: input_for_static_a"));
    });
}

#[test]
fn test_counting_factory_reports_single_invocation() {
    let provider_count = ExecutionCounter::new();
    let handler_count = ExecutionCounter::new();
    let (provided, handled) = (provider_count.clone(), handler_count.clone());
    let p = one_conditional_step(
        "cond",
        scope(
            |_| true,
            move |_| {
                provided.increment();
                let handled = handled.clone();
                let mut p: Pipeline<Kit<ScopedA>> = Pipeline::new(&["scoped_a_task"]);
                p.on_root(
                    "scoped_a_task",
                    handler(move |ctx: &Ctx<ScopedA>| {
                        handled.increment();
                        ctx.with_mut(|c| c.processed_message = format!("A processed: {}", c.input));
                        Ok(PipelineControl::Continue)
                    }),
                );
                Ok(Arc::new(p))
            },
            |_: &Ctx<TestContext>| Ok(Ctx::new(ScopedA::default())),
            None,
        ),
    );
    run_pipeline(&p, &fresh()).unwrap();
    assert_eq!(provider_count.get(), 1);
    assert_eq!(handler_count.get(), 1);
}

#[test]
fn add_scope_with_provider_accepts_a_custom_provider_impl() {
    let mut scoped: Pipeline<Kit<ScopedA>> = Pipeline::new(&["scoped_task"]);
    scoped.on_root(
        "scoped_task",
        handler(|ctx: &Ctx<ScopedA>| {
            ctx.with_mut(|c| c.processed_message = "provided".to_string());
            Ok(PipelineControl::Continue)
        }),
    );
    let scoped = Arc::new(scoped);
    let calls = ExecutionCounter::new();
    let counted = calls.clone();
    let p = one_conditional_step(
        "cond",
        scope(
            |_| true,
            move |_| {
                counted.increment();
                Ok(scoped.clone())
            },
            |_: &Ctx<TestContext>| Ok(Ctx::new(ScopedA::default())),
            Some(Box::new(|main: &mut TestContext, sub: &ScopedA| {
                main.scoped_result = Some(sub.processed_message.clone());
            })),
        ),
    );
    let ctx = fresh();
    run_pipeline(&p, &ctx).unwrap();
    assert_eq!(calls.get(), 1, "custom provider was consulted");
    assert_eq!(ctx.with_ref(|c| c.scoped_result.clone()).as_deref(), Some("provided"));
}

#[test]
fn a_stopped_scope_stops_the_main_pipeline() {
    let stopping = scope(
        |_| true,
        |_| {
            let mut p: Pipeline<Kit<ScopedA>> = Pipeline::new(&["halt"]);
            p.on_root("halt", stops());
            Ok(Arc::new(p))
        },
        |_: &Ctx<TestContext>| Ok(Ctx::new(ScopedA::default())),
        None,
    );
    let ctx = fresh();
    assert_eq!(
        run_pipeline(&conditional(stopping, false), &ctx).unwrap(),
        PipelineResult::Stopped
    );
    assert!(executed(&ctx).is_empty());
}

// --- Resources ---

struct Noisy(&'static str, Arc<Mutex<Vec<&'static str>>>);

impl Drop for Noisy {
    fn drop(&mut self) {
        self.1.lock().unwrap().push(self.0);
    }
}

#[test]
fn resources_drop_in_reverse_order_after_finish_handlers() {
    let log: Arc<Mutex<Vec<&'static str>>> = Arc::new(Mutex::new(Vec::new()));
    let (stash, finish) = (log.clone(), log.clone());
    let mut p: TestPipeline = Pipeline::new(&["acquire", "work"]);
    p.on_root(
        "acquire",
        handler(move |ctx: &Ctx<TestContext>| {
            ctx.resources()
                .put(Box::new(Noisy("lock guard", stash.clone())))
                .put(Box::new(Noisy("temp dir", stash.clone())));
            Ok(PipelineControl::Continue)
        }),
    )
    .on_root("work", goes_on());
    p.on_finish(Box::new(move |_, _| {
        finish.lock().unwrap().push("finish handler");
        Ok(())
    }));
    let ctx = fresh();
    run_pipeline(&p, &ctx).unwrap();
    assert_eq!(*log.lock().unwrap(), vec!["finish handler", "temp dir", "lock guard"]);
    assert!(ctx.resources().is_empty());
}

#[test]
fn resources_release_even_when_the_run_fails() {
    let log: Arc<Mutex<Vec<&'static str>>> = Arc::new(Mutex::new(Vec::new()));
    let stash = log.clone();
    let mut p: TestPipeline = Pipeline::new(&["acquire", "explode"]);
    p.on_root(
        "acquire",
        handler(move |ctx: &Ctx<TestContext>| {
            ctx.resources().put(Box::new(Noisy("lock guard", stash.clone())));
            Ok(PipelineControl::Continue)
        }),
    )
    .on_root("explode", goes_on());
    p.fail_at("explode", fails(TestError::Handler("boom".into())));
    let ctx = fresh();
    assert_eq!(run_pipeline(&p, &ctx).unwrap_err(), TestError::Handler("boom".into()));
    assert_eq!(*log.lock().unwrap(), vec!["lock guard"], "release is unconditional, like Drop");
    assert!(ctx.resources().is_empty());
}

#[test]
fn anything_still_held_drops_with_the_last_context_handle() {
    let log: Arc<Mutex<Vec<&'static str>>> = Arc::new(Mutex::new(Vec::new()));
    let ctx = fresh();
    ctx.resources().put(Box::new(Noisy("orphan", log.clone())));
    let second_handle = ctx.clone();
    drop(ctx);
    assert!(log.lock().unwrap().is_empty(), "another handle is still alive");
    drop(second_handle);
    assert_eq!(*log.lock().unwrap(), vec!["orphan"], "no leak without a run");
}

#[test]
fn partial_runners_leave_the_bag_alone() {
    let log: Arc<Mutex<Vec<&'static str>>> = Arc::new(Mutex::new(Vec::new()));
    let stash = log.clone();
    let mut p: TestPipeline = Pipeline::new(&["acquire", "work"]);
    p.on_root(
        "acquire",
        handler(move |ctx: &Ctx<TestContext>| {
            ctx.resources().put(Box::new(Noisy("temp dir", stash.clone())));
            Ok(PipelineControl::Continue)
        }),
    )
    .on_root("work", goes_on());
    let ctx = fresh();
    part(&p, p.run_step("acquire"), &ctx).unwrap();
    assert_eq!(ctx.resources().len(), 1);
    assert!(log.lock().unwrap().is_empty());

    run_pipeline(&p, &ctx).unwrap();
    assert_eq!(*log.lock().unwrap(), vec!["temp dir", "temp dir"]);
    assert!(ctx.resources().is_empty());
}

#[test]
fn release_is_traced_only_when_something_was_held() {
    let mut p: TestPipeline = Pipeline::new(&["work"]);
    p.on_root("work", goes_on());
    let trace = traced(&p);
    run_pipeline(&p, &fresh()).unwrap();
    assert!(!trace
        .events()
        .iter()
        .any(|e| matches!(e.kind, TraceEventKind::ResourcesReleased { .. })));

    trace.clear();
    p.replace_on_root(
        "work",
        handler(|ctx: &Ctx<TestContext>| {
            ctx.resources().put(Box::new(String::from("a"))).put(Box::new(String::from("b")));
            Ok(PipelineControl::Continue)
        }),
    );
    run_pipeline(&p, &fresh()).unwrap();
    let released: Vec<usize> = trace
        .events()
        .into_iter()
        .filter_map(|e| match e.kind {
            TraceEventKind::ResourcesReleased { count } => Some(count),
            _ => None,
        })
        .collect();
    assert_eq!(released, vec![2]);

    let kinds: Vec<String> = trace.events().iter().map(|e| e.kind.to_string()).collect();
    let release_at = kinds.iter().position(|k| k.contains("released")).unwrap();
    let finished_at = kinds.iter().position(|k| k.starts_with("run finished")).unwrap();
    assert!(release_at < finished_at);
}

#[derive(Clone, Debug, Default)]
struct BuildCtx {
    produce_spec: bool,
    app_spec: Option<String>,
    saw_spec: Option<String>,
}

fn spec_pipeline() -> Pipeline<Kit<BuildCtx>> {
    let mut p: Pipeline<Kit<BuildCtx>> = Pipeline::new(&["load_spec", "runtime_labels"]);
    p.on_root(
        "load_spec",
        handler(|ctx: &Ctx<BuildCtx>| {
            if ctx.with_ref(|c| c.produce_spec) {
                ctx.with_mut(|c| c.app_spec = Some("spec-v1".to_string()));
            }
            Ok(PipelineControl::Continue)
        }),
    )
    .on_root(
        "runtime_labels",
        handler(|ctx: &Ctx<BuildCtx>| {
            let spec = ctx.require("app spec", |c: &BuildCtx| c.app_spec.clone())?;
            ctx.with_mut(|c| c.saw_spec = Some(spec));
            Ok(PipelineControl::Continue)
        }),
    )
    .produces("load_spec", "app spec")
    .consumed_by("app spec", &["runtime_labels"]);
    p
}

#[test]
fn require_reads_a_produced_resource() {
    let p = spec_pipeline();
    assert!(p.validate().is_ok());
    let ctx: Ctx<BuildCtx> =
        Ctx::new(BuildCtx { produce_spec: true, ..BuildCtx::default() });
    run_pipeline(&p, &ctx).unwrap();
    assert_eq!(ctx.with_ref(|c| c.saw_spec.clone()), Some("spec-v1".to_string()));
}

#[test]
fn a_missing_resource_is_an_error_that_still_runs_cleanup() {
    let mut p = spec_pipeline();
    let finished = ExecutionCounter::new();
    let released: Arc<Mutex<Vec<&'static str>>> = Arc::new(Mutex::new(Vec::new()));
    let (stash, counter) = (released.clone(), finished.clone());
    p.replace_on_root(
        "load_spec",
        handler(move |ctx: &Ctx<BuildCtx>| {
            ctx.resources().put(Box::new(Noisy("marker", stash.clone())));
            Ok(PipelineControl::Continue)
        }),
    );
    p.on_finish(Box::new(move |_, outcome| {
        assert!(matches!(outcome, RunOutcome::Errored { .. }));
        counter.increment();
        Ok(())
    }));
    let (result, outcome) = run_with_outcome(&p, &Ctx::new(BuildCtx::default()));
    let message = framework_error(result);
    assert!(message.contains("ResourceMissing"), "got: {}", message);
    assert!(message.contains("app spec"), "the error names the resource: {}", message);
    assert!(matches!(outcome, RunOutcome::Errored { ref step, .. } if step == "runtime_labels"));
    assert_eq!(finished.get(), 1, "the finish ring still ran");
    assert_eq!(released.lock().unwrap().len(), 1, "and the resource bag still released");
}

struct StreamSender {
    sent: usize,
    log: Arc<Mutex<Vec<String>>>,
}

impl StreamSender {
    fn send(&mut self, chunk: &str) {
        self.sent += 1;
        self.log.lock().unwrap().push(format!("sent {}", chunk));
    }
}

impl Drop for StreamSender {
    fn drop(&mut self) {
        self.log.lock().unwrap().push(format!("dropped after {} chunk(s)", self.sent));
    }
}

#[test]
fn a_lent_resource_is_released_once_by_the_bag_after_its_work() {
    let log: Arc<Mutex<Vec<String>>> = Arc::new(Mutex::new(Vec::new()));
    let stash = log.clone();
    let mut p: Pipeline<Kit<BuildCtx>> = Pipeline::new(&["open", "upload"]);
    p.on_root(
        "open",
        handler(move |ctx: &Ctx<BuildCtx>| {
            ctx.resources().put(Box::new(StreamSender { sent: 0, log: stash.clone() }));
            Ok(PipelineControl::Continue)
        }),
    )
    .on_root(
        "upload",
        handler(|ctx: &Ctx<BuildCtx>| {
            let mut loan = ctx.resources().take_guard(|e: &Bag| e.is::<StreamSender>()).unwrap();
            let sender = loan.get_mut().downcast_mut::<StreamSender>().unwrap();
            for chunk in ["a", "b", "c"] {
                sender.send(chunk);
            }
            assert_eq!(sender.sent, 3);
            loan.give_back();
            Ok(PipelineControl::Continue)
        }),
    );
    let ctx: Ctx<BuildCtx> = Ctx::new(BuildCtx::default());
    run_pipeline(&p, &ctx).unwrap();
    assert_eq!(
        *log.lock().unwrap(),
        vec!["sent a", "sent b", "sent c", "dropped after 3 chunk(s)"]
    );
    assert!(ctx.resources().is_empty(), "the bag was drained by the run");
}

// --- Contexts ---

#[test]
fn test_context_data_is_shared_and_modified() {
    let mut pipeline: TestPipeline = Pipeline::new(&["step1_modify", "step2_read_modify"]);
    pipeline
        .on_root(
            "step1_modify",
            handler(|ctx: &Ctx<TestContext>| {
                ctx.with_mut(|c| {
                    c.counter = 10;
                    c.message = "SetByStep1".to_string();
                });
                Ok(PipelineControl::Continue)
            }),
        )
        .on_root(
            "step2_read_modify",
            handler(|ctx: &Ctx<TestContext>| {
                ctx.with_mut(|c| {
                    assert_eq!(c.counter, 10, "step2 must observe step1's write");
                    assert_eq!(c.message, "SetByStep1");
                    c.counter += 5;
                    c.message.push_str("_ThenStep2");
                });
                Ok(PipelineControl::Continue)
            }),
        );
    let ctx = fresh();
    run_pipeline(&pipeline, &ctx).unwrap();
    assert_eq!(ctx.with_ref(|c| c.counter), 15);
    assert_eq!(ctx.with_ref(|c| c.message.clone()), "SetByStep1_ThenStep2");
}

#[test]
fn test_context_data_clone_shares_data() {
    let original: Ctx<TestContext> =
        Ctx::new(TestContext { counter: 1, ..TestContext::default() });
    let cloned = original.clone();
    original.with_mut(|c| c.counter = 5);
    assert_eq!(cloned.with_ref(|c| c.counter), 5, "clone observes the original's write");
    cloned.with_mut(|c| c.counter = 10);
    assert_eq!(original.with_ref(|c| c.counter), 10, "original observes the clone's write");
}

#[test]
fn test_context_data_project_is_independent() {
    let ctx: Ctx<MainExtract> = Ctx::new(MainExtract {
        sub_data_container: Sub { sub_field: "original".to_string(), processed: false },
        ..MainExtract::default()
    });
    let projected: Ctx<Sub> = ctx.project(|d: &MainExtract| d.sub_data_container.clone());
    projected.with_mut(|s| s.processed = true);
    assert!(projected.with_ref(|s| s.processed));
    assert!(
        !ctx.with_ref(|d| d.sub_data_container.processed),
        "a projection is detached from its source"
    );
}

#[test]
fn test_handler_converts_foreign_error_with_question_mark() {
    let mut pipeline: TestPipeline = Pipeline::new(&["parse"]);
    pipeline.on_root(
        "parse",
        handler(|ctx: &Ctx<TestContext>| {
            let parsed: i32 = "not_a_number"
                .parse()
                .map_err(|e| TestError::Handler(format!("parse failed: {}", e)))?;
            ctx.with_mut(|c| c.counter = parsed);
            Ok(PipelineControl::Continue)
        }),
    );
    let ctx = fresh();
    assert!(run_pipeline(&pipeline, &ctx).is_err());
    assert_eq!(ctx.with_ref(|c| c.counter), 0);
}

#[test]
fn timed_reports_an_overrun_as_a_step_timeout() {
    let budget = std::time::Duration::from_millis(10);
    let mut pipeline: TestPipeline = Pipeline::new(&["await_artifact"]);
    pipeline.on_root(
        "await_artifact",
        handler(move |_: &Ctx<TestContext>| {
            orka::time::timed("await_artifact", budget, None::<()>).map_err(TestError::from)?;
            Ok(PipelineControl::Continue)
        }),
    );
    let (result, outcome) = run_with_outcome(&pipeline, &fresh());
    let message = framework_error(result);
    assert!(message.contains("StepTimedOut"), "got: {}", message);
    assert!(message.contains("await_artifact"), "the error names the step: {}", message);
    assert!(matches!(outcome, RunOutcome::Errored { ref step, .. } if step == "await_artifact"));
}

// --- The registry as the front door ---

type RunWithOutcome = (Result<PipelineResult, TestError>, RunOutcome);
type Runner<T> = Box<dyn Fn(&Ctx<T>) -> RunWithOutcome>;

/// A registry that runs what was registered for the type of a context.
struct Front(Orka<Rc<dyn Any>, Rc<dyn Any>>);

impl Front {
    fn new() -> Self {
        Front(Orka::new())
    }

    fn register_pipeline<T: 'static>(&self, pipeline: Pipeline<Kit<T>>) -> Result<(), OrkaError> {
        self.0.register_pipeline(TypeId::of::<T>(), pipeline, |pipeline| {
            let shared = Arc::new(pipeline);
            let registered = shared.clone();
            let runner: Runner<T> = Box::new(move |ctx| run_with_outcome(&registered, ctx));
            let (runner, handle): (Rc<dyn Any>, Rc<dyn Any>) = (Rc::new(runner), Rc::new(shared));
            (runner, handle)
        })
    }

    fn register_runner<T: 'static>(&self, run: impl Fn(&Ctx<T>) -> RunWithOutcome + 'static) {
        let runner: Runner<T> = Box::new(run);
        self.0.register_runner(TypeId::of::<T>(), Rc::new(runner));
    }

    fn pipeline<T: 'static>(&self) -> Option<Arc<Pipeline<Kit<T>>>> {
        self.0.pipeline(TypeId::of::<T>())?.downcast_ref::<Arc<Pipeline<Kit<T>>>>().cloned()
    }

    fn run_with_outcome<T: 'static>(&self, name: &str, ctx: &Ctx<T>) -> RunWithOutcome {
        match self.0.runner(TypeId::of::<T>(), name) {
            Ok(runner) => runner.downcast_ref::<Runner<T>>().unwrap()(ctx),
            Err(e) => {
                let outcome = refused_outcome(&e);
                (Err(TestError::from(e)), outcome)
            }
        }
    }

    fn run<T: 'static>(&self, name: &str, ctx: &Ctx<T>) -> Result<PipelineResult, TestError> {
        self.run_with_outcome(name, ctx).0
    }
}

type Mock = MockPipeline<Ctx<TestContext>, fn() -> TestError, Handled>;
type Handled = Box<dyn Fn(&Ctx<TestContext>) -> Result<PipelineResult, TestError>>;

fn mock(base: impl Fn(&Ctx<TestContext>) -> Result<PipelineResult, TestError> + 'static) -> Mock {
    MockPipeline::new(Box::new(base))
}

fn mocked(mock: Arc<Mock>) -> impl Fn(&Ctx<TestContext>) -> RunWithOutcome {
    move |ctx| {
        let result = match mock.begin_run(ctx.clone()) {
            Some(CannedResponse::Completed) => Ok(PipelineResult::Completed),
            Some(CannedResponse::Stopped) => Ok(PipelineResult::Stopped),
            Some(CannedResponse::Error(make)) => Err(make()),
            None => (mock.base())(ctx),
        };
        let outcome = unattributed_outcome(match &result {
            Ok(ended) => Ok(*ended),
            Err(e) => Err(e.to_string()),
        });
        (result, outcome)
    }
}

#[derive(Clone, Debug, Default, PartialEq, Eq)]
struct RegistryContextAlpha {
    val: String,
}

#[derive(Clone, Debug, Default, PartialEq, Eq)]
struct RegistryContextBeta {
    num: i32,
}

#[derive(Clone, Debug, Default)]
struct UnregisteredContext;

#[test]
fn test_register_pipeline_accepts_valid_pipeline() {
    let registry = Front::new();
    let mut pipeline: TestPipeline = Pipeline::new(&["step"]);
    pipeline.on_root("step", simple("step", "S"));
    assert!(registry.register_pipeline(pipeline).is_ok());
    let ctx = fresh();
    assert!(registry.run("TestContext", &ctx).is_ok());
    assert_eq!(executed(&ctx), vec!["step"]);
}

#[test]
fn test_registry_run_correct_pipeline() {
    let registry = Front::new();
    let mut alpha: Pipeline<Kit<RegistryContextAlpha>> = Pipeline::new(&["alpha_task"]);
    alpha.on_root(
        "alpha_task",
        handler(|ctx: &Ctx<RegistryContextAlpha>| {
            ctx.with_mut(|c| c.val = "alpha_processed".to_string());
            Ok(PipelineControl::Continue)
        }),
    );
    registry.register_pipeline(alpha).unwrap();
    let mut beta: Pipeline<Kit<RegistryContextBeta>> = Pipeline::new(&["beta_task"]);
    beta.on_root(
        "beta_task",
        handler(|ctx: &Ctx<RegistryContextBeta>| {
            ctx.with_mut(|c| c.num = 100);
            Ok(PipelineControl::Continue)
        }),
    );
    registry.register_pipeline(beta).unwrap();

    let ctx: Ctx<RegistryContextAlpha> = Ctx::new(RegistryContextAlpha::default());
    let result = registry.run("RegistryContextAlpha", &ctx);
    assert_eq!(result.unwrap(), PipelineResult::Completed);
    assert_eq!(ctx.with_ref(|c| c.val.clone()), "alpha_processed");

    let ctx: Ctx<RegistryContextBeta> = Ctx::new(RegistryContextBeta::default());
    let result = registry.run("RegistryContextBeta", &ctx);
    assert_eq!(result.unwrap(), PipelineResult::Completed);
    assert_eq!(ctx.with_ref(|c| c.num), 100);
}

#[test]
fn test_registry_pipeline_not_found() {
    let registry = Front::new();
    let ctx: Ctx<UnregisteredContext> = Ctx::new(UnregisteredContext);
    let message = framework_error(registry.run("UnregisteredContext", &ctx));
    assert!(message.contains("ConfigurationError"));
    assert!(message.contains("No pipeline registered"));
    assert!(message.contains("UnregisteredContext"));
}

#[test]
fn test_registry_pipeline_itself_errors() {
    let registry = Front::new();
    let mut alpha: Pipeline<Kit<RegistryContextAlpha>> = Pipeline::new(&["alpha_fail"]);
    alpha.on_root("alpha_fail", fails(TestError::Handler("Alpha pipeline failed".to_string())));
    registry.register_pipeline(alpha).unwrap();
    let ctx: Ctx<RegistryContextAlpha> = Ctx::new(RegistryContextAlpha::default());
    assert_eq!(
        registry.run("RegistryContextAlpha", &ctx).unwrap_err(),
        TestError::Handler("Alpha pipeline failed".to_string())
    );
}

fn appends(text: &'static str) -> Handler<RegistryContextAlpha> {
    handler(move |ctx: &Ctx<RegistryContextAlpha>| {
        ctx.with_mut(|c| c.val.push_str(text));
        Ok(PipelineControl::Continue)
    })
}

fn build_alpha_registry() -> Front {
    let registry = Front::new();
    let mut p: Pipeline<Kit<RegistryContextAlpha>> = Pipeline::new(&["prepare", "commit"]);
    p.skip_if("prepare", Box::new(|ctx| ctx.with_ref(|c| c.val == "already_prepared")))
        .on_root("prepare", appends("prepared;"))
        .on_root("commit", appends("committed;"));
    p.on_finish(Box::new(|_, _| Ok(())));
    registry.register_pipeline(p).unwrap();
    registry
}

#[test]
fn pipeline_accessor_returns_the_registered_pipeline() {
    let registry = build_alpha_registry();
    let p = registry.pipeline::<RegistryContextAlpha>().expect("registered as a pipeline");
    assert_eq!(p.step_names(), vec!["prepare", "commit"]);
    assert!(registry.pipeline::<UnregisteredContext>().is_none());
}

#[test]
fn a_runner_registration_has_no_pipeline_to_hand_back() {
    let registry = Front::new();
    registry.register_runner(|_: &Ctx<RegistryContextAlpha>| {
        (Ok(PipelineResult::Completed), RunOutcome::Completed)
    });
    assert!(registry.pipeline::<RegistryContextAlpha>().is_none());
}

#[test]
fn observe_and_dry_run_the_registered_pipeline_through_the_front_door() {
    let registry = build_alpha_registry();
    let p = registry.pipeline::<RegistryContextAlpha>().unwrap();
    let prepared: Ctx<RegistryContextAlpha> =
        Ctx::new(RegistryContextAlpha { val: "already_prepared".into() });
    let planned = plan(&p, &prepared);
    assert_eq!(planned[0].action, PlannedAction::Skip(SkipReason::SkipCondition { label: None }));
    assert_eq!(planned[1].action, PlannedAction::Run);

    let trace = TraceCollector::new();
    p.set_observer(Arc::new(trace.clone()));
    let ctx: Ctx<RegistryContextAlpha> = Ctx::new(RegistryContextAlpha::default());
    let result = registry.run("RegistryContextAlpha", &ctx);
    assert_eq!(result.unwrap(), PipelineResult::Completed);
    assert_eq!(ctx.with_ref(|c| c.val.clone()), "prepared;committed;");
    assert_eq!(trace.completed_steps(), vec!["prepare", "commit"]);
    assert_eq!(trace.last_outcome(), Some(RunOutcome::Completed));
    assert!(
        trace.events().iter().any(|e| matches!(e.kind, TraceEventKind::FinalizerFinished { .. })),
        "the finish ring must be visible through the registry"
    );

    let step_ctx: Ctx<RegistryContextAlpha> = Ctx::new(RegistryContextAlpha::default());
    part(&p, p.run_step("commit"), &step_ctx).unwrap();
    assert_eq!(step_ctx.with_ref(|c| c.val.clone()), "committed;");
}

#[test]
fn cancellation_survives_the_registry_type_erasure() {
    let registry = Front::new();
    let token = CancelToken::new();
    let canceller = token.clone();
    let mut p: Pipeline<Kit<RegistryContextAlpha>> = Pipeline::new(&["first", "second"]);
    p.on_root(
        "first",
        handler(move |ctx: &Ctx<RegistryContextAlpha>| {
            ctx.with_mut(|c| c.val = "first".to_string());
            canceller.cancel();
            Ok(PipelineControl::Continue)
        }),
    )
    .on_root(
        "second",
        handler(|ctx: &Ctx<RegistryContextAlpha>| {
            ctx.with_mut(|c| c.val = "second".to_string());
            Ok(PipelineControl::Continue)
        }),
    );
    registry.register_pipeline(p).unwrap();
    let ctx: Ctx<RegistryContextAlpha> = Ctx::new(RegistryContextAlpha::default());
    ctx.install_cancellation(token);
    let (result, outcome) = registry.run_with_outcome("RegistryContextAlpha", &ctx);
    assert_eq!(result.unwrap(), PipelineResult::Cancelled);
    assert_eq!(outcome, RunOutcome::Cancelled);
    assert_eq!(ctx.with_ref(|c| c.val.clone()), "first", "the second step never ran");
}

#[test]
fn a_registry_run_with_an_uncancelled_token_completes_normally() {
    let registry = Front::new();
    let mut p: Pipeline<Kit<RegistryContextBeta>> = Pipeline::new(&["task"]);
    p.on_root(
        "task",
        handler(|ctx: &Ctx<RegistryContextBeta>| {
            ctx.with_mut(|c| c.num = 7);
            Ok(PipelineControl::Continue)
        }),
    );
    registry.register_pipeline(p).unwrap();
    let ctx: Ctx<RegistryContextBeta> = Ctx::new(RegistryContextBeta::default());
    ctx.install_cancellation(CancelToken::new());
    let result = registry.run("RegistryContextBeta", &ctx);
    assert_eq!(result.unwrap(), PipelineResult::Completed);
    assert_eq!(ctx.with_ref(|c| c.num), 7);
}

#[test]
fn mock_pipeline_through_the_registry_front_door() {
    let registry = Front::new();
    let mock = Arc::new(mock(|_| Ok(PipelineResult::Completed)));
    registry.register_runner(mocked(mock.clone()));
    let ctx: Ctx<TestContext> = Ctx::new(TestContext {
        message: "from the handler under test".into(),
        ..TestContext::default()
    });
    assert_eq!(registry.run("TestContext", &ctx).unwrap(), PipelineResult::Completed);
    assert_eq!(mock.run_count(), 1);
    let seen = mock.contexts();
    assert_eq!(seen[0].with_ref(|c| c.message.clone()), "from the handler under test");
}

#[test]
fn mock_pipeline_fifo_queue_then_base_behavior() {
    let mut mock = mock(|_| Ok(PipelineResult::Completed));
    mock.then_stopped().then_error(|| TestError::Other("second run fails".into()));
    let mock = Arc::new(mock);
    let registry = Front::new();
    registry.register_runner(mocked(mock.clone()));
    let run = || registry.run("TestContext", &fresh());
    assert_eq!(run().unwrap(), PipelineResult::Stopped);
    assert_eq!(run().unwrap_err(), TestError::Other("second run fails".into()));
    assert_eq!(run().unwrap(), PipelineResult::Completed);
    assert_eq!(run().unwrap(), PipelineResult::Completed);
    assert_eq!(mock.run_count(), 4);
}

#[test]
fn mock_from_fn_can_inspect_and_mutate_the_context() {
    let inspecting = mock(|ctx| {
        ctx.with_mut(|c| c.counter += 100);
        if ctx.with_ref(|c| c.message == "please stop") {
            Ok(PipelineResult::Stopped)
        } else {
            Ok(PipelineResult::Completed)
        }
    });
    let registry = Front::new();
    registry.register_runner(mocked(Arc::new(inspecting)));
    let ctx: Ctx<TestContext> =
        Ctx::new(TestContext { message: "please stop".into(), ..TestContext::default() });
    assert_eq!(registry.run("TestContext", &ctx).unwrap(), PipelineResult::Stopped);
    assert_eq!(ctx.with_ref(|c| c.counter), 100);
}

#[test]
fn failing_mock_propagates_through_registry_error_conversion() {
    let registry = Front::new();
    let failing = mock(|_| Err(TestError::Handler("mock failure".into())));
    registry.register_runner(mocked(Arc::new(failing)));
    assert_eq!(
        registry.run("TestContext", &fresh()).unwrap_err(),
        TestError::Handler("mock failure".into())
    );
}

fn working() -> TestPipeline {
    let mut real: TestPipeline = Pipeline::new(&["work"]);
    real.on_root(
        "work",
        handler(|ctx: &Ctx<TestContext>| {
            ctx.with_mut(|c| c.counter += 1);
            Ok(PipelineControl::Continue)
        }),
    );
    real
}

#[test]
fn register_runner_replaces_like_register_pipeline() {
    let registry = Front::new();
    registry.register_pipeline(working()).unwrap();
    registry.register_runner(mocked(Arc::new(mock(|_| Ok(PipelineResult::Stopped)))));
    let ctx = fresh();
    assert_eq!(registry.run("TestContext", &ctx).unwrap(), PipelineResult::Stopped);
    assert_eq!(ctx.with_ref(|c| c.counter), 0, "the real pipeline must not have run");
}

#[test]
fn middleware_runner_composes_around_a_real_pipeline() {
    let real = working();
    let calls = ExecutionCounter::new();
    let counted = calls.clone();
    let registry = Front::new();
    registry.register_runner(move |ctx: &Ctx<TestContext>| {
        counted.increment();
        run_with_outcome(&real, ctx)
    });
    let ctx = fresh();
    assert_eq!(registry.run("TestContext", &ctx).unwrap(), PipelineResult::Completed);
    assert_eq!(ctx.with_ref(|c| c.counter), 1, "inner pipeline ran");
    assert_eq!(calls.get(), 1, "middleware observed the run");
}

#[test]
fn orka_run_with_outcome_attributes_the_step_through_the_registry() {
    let registry = Front::new();
    let mut p: TestPipeline = Pipeline::new(&["prepare", "install"]);
    p.on_root("prepare", goes_on())
        .on_root("install", fails(TestError::Handler("unit refused".into())));
    registry.register_pipeline(p).unwrap();
    let (result, outcome) = registry.run_with_outcome("TestContext", &fresh());
    assert!(result.is_err());
    assert!(
        matches!(outcome, RunOutcome::Errored { ref step, ref message } if step == "install" && message.contains("unit refused"))
    );
}

#[test]
fn orka_run_with_outcome_default_method_and_not_found_cases() {
    let registry = Front::new();
    let (result, outcome) = registry.run_with_outcome("TestContext", &fresh());
    assert!(result.is_err());
    assert!(matches!(outcome, RunOutcome::Errored { ref step, .. } if step == "Orka::run"));

    let failing = mock(|_| Err(TestError::Handler("mock".into())));
    registry.register_runner(mocked(Arc::new(failing)));
    let (result, outcome) = registry.run_with_outcome("TestContext", &fresh());
    assert!(result.is_err());
    assert!(matches!(outcome, RunOutcome::Errored { ref step, .. } if step.is_empty()));

    registry.register_runner(mocked(Arc::new(mock(|_| Ok(PipelineResult::Stopped)))));
    let (result, outcome) = registry.run_with_outcome("TestContext", &fresh());
    assert_eq!(result.unwrap(), PipelineResult::Stopped);
    assert_eq!(outcome, RunOutcome::Stopped);
}

#[derive(Clone, Debug, Default)]
struct Deploy {
    drain_enabled: bool,
    log: Vec<String>,
}

fn logs(name: &'static str) -> Handler<Deploy> {
    handler(move |ctx: &Ctx<Deploy>| {
        ctx.with_mut(|c| c.log.push(name.into()));
        Ok(PipelineControl::Continue)
    })
}

fn deploy_pipeline() -> Pipeline<Kit<Deploy>> {
    let mut p: Pipeline<Kit<Deploy>> = Pipeline::new(&["prepare", "drain", "install"]);
    p.on_root("prepare", logs("prepare"))
        .on_root("drain", logs("drain"))
        .on_root("install", logs("install"))
        .skip_if_labeled(
            "drain",
            "drain disabled by config",
            Box::new(|ctx| !ctx.with_ref(|c| c.drain_enabled)),
        )
        .must_precede("prepare", "install");
    p.on_finish(Box::new(|_, _| Ok(())));
    p
}

#[test]
fn prelude_covers_build_configure_run_and_inspect() {
    let pipeline = deploy_pipeline();
    assert!(pipeline.validate().is_ok());
    assert!(pipeline.has_handlers("drain", StepPhase::On));
    assert_eq!(pipeline.step_names(), vec!["prepare", "drain", "install"]);

    let ctx: Ctx<Deploy> = Ctx::new(Deploy::default());
    match &plan(&pipeline, &ctx)[1].action {
        PlannedAction::Skip(SkipReason::SkipCondition { label }) => {
            assert_eq!(label.as_deref(), Some("drain disabled by config"));
        }
        other => panic!("expected a labeled skip, got {:?}", other),
    }
    let (result, outcome) = run_with_outcome(&pipeline, &ctx);
    assert_eq!(result.unwrap(), PipelineResult::Completed);
    assert_eq!(outcome, RunOutcome::Completed);
    assert_eq!(ctx.with_ref(|c| c.log.clone()), vec!["prepare", "install"]);

    let registry = Front::new();
    let runner = deploy_pipeline();
    registry.register_runner(move |ctx: &Ctx<Deploy>| run_with_outcome(&runner, ctx));
    let ctx: Ctx<Deploy> = Ctx::new(Deploy { drain_enabled: true, ..Deploy::default() });
    assert_eq!(registry.run("Deploy", &ctx).unwrap(), PipelineResult::Completed);
    assert_eq!(ctx.with_ref(|c| c.log.clone()), vec!["prepare", "drain", "install"]);
}
