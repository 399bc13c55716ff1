use orchestrator::{
    always, state_function, state_function_value, Chain, Error, Orchestrate, Register, Registry,
    State,
};

type FloatStep = fn(State<f32>) -> Result<State<f32>, Error>;
type TextStep = fn(State<String>) -> Result<State<String>, Error>;

fn pow2(n: f32) -> f32 {
    n.powf(2.0)
}

fn pow3(n: f32) -> f32 {
    n.powf(3.0)
}

fn sqrt(n: f32) -> f32 {
    n.sqrt()
}

fn step_pow2(c: State<f32>) -> Result<State<f32>, Error> {
    state_function_value(pow2, always, c)
}

fn step_pow3(c: State<f32>) -> Result<State<f32>, Error> {
    state_function_value(pow3, always, c)
}

fn step_sqrt(c: State<f32>) -> Result<State<f32>, Error> {
    state_function_value(sqrt, always, c)
}

fn float_registry() -> Registry<FloatStep> {
    let mut registry: Registry<FloatStep> = Registry::new();
    registry.register(step_pow2, "pow2".to_string());
    registry.register(step_pow3, "pow3".to_string());
    registry.register(step_sqrt, "sqrt".to_string());
    registry
}

fn double_text(n: String) -> Option<String> {
    Some(format!("{}{}", n, n))
}

fn step_double_text(c: State<String>) -> Result<State<String>, Error> {
    state_function(double_text, always, c)
}

#[test]
fn squares_cubes_and_takes_the_root() {
    let registry = float_registry();
    let chain = vec!["pow2", "pow3", "sqrt"].create(&registry.di_ref).unwrap();
    let result = chain
        .execute(State { proceed: true, outcome: 6., stage: Vec::<bool>::new() })
        .unwrap();
    assert_eq!(result.outcome, 216_f32);
    assert!(result.proceed);
    assert_eq!(result.stage, vec![true, true, true]);
}

#[test]
fn resumes_after_the_steps_marked_complete() {
    let registry = float_registry();
    let chain = vec!["pow3", "pow3", "sqrt", "sqrt"].create(&registry.di_ref).unwrap();
    let result = chain
        .execute(State { proceed: true, outcome: 6., stage: vec![true, true, false, false] })
        .unwrap();
    assert_eq!(result.outcome, 1.5650846);
    assert_eq!(result.outcome, 6_f32.sqrt().sqrt());
    assert!(result.proceed);
    assert_eq!(result.stage, vec![true, true, true, true]);
}

#[test]
fn doubles_a_text_three_times() {
    let mut registry: Registry<TextStep> = Registry::new();
    registry.register(step_double_text, "add".to_string());
    let chain = vec!["add", "add", "add"].create(&registry.di_ref).unwrap();
    let result = chain.execute(State::new("test".to_string())).unwrap();
    assert_eq!(result.outcome, "testtesttesttesttesttesttesttest");
    assert!(result.proceed);
    assert_eq!(result.stage, vec![true, true, true]);
}

#[test]
fn fresh_state_is_running_and_unrecorded() {
    let state = State::new(6_i64);
    assert!(state.proceed);
    assert_eq!(state.outcome, 6);
    assert!(state.stage.is_empty());
}

#[test]
fn resumed_state_keeps_outcome_and_record() {
    let state = State::resume(36_i64, vec![true, false]);
    assert!(state.proceed);
    assert_eq!(state.outcome, 36);
    assert_eq!(state.stage, vec![true, false]);
}
