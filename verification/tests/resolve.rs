use orchestrator::{
    always, lookup, state_function_value, Chain, Error, ErrorKind, Register, Registry, State,
};

type IntStep = fn(State<i64>) -> Result<State<i64>, Error>;

fn add_one(c: State<i64>) -> Result<State<i64>, Error> {
    state_function_value(|n: i64| n + 1, always, c)
}

fn add_ten(c: State<i64>) -> Result<State<i64>, Error> {
    state_function_value(|n: i64| n + 10, always, c)
}

fn add_hundred(c: State<i64>) -> Result<State<i64>, Error> {
    state_function_value(|n: i64| n + 100, always, c)
}

fn int_registry() -> Registry<IntStep> {
    let mut registry: Registry<IntStep> = Registry::new();
    registry.register(add_one, "one".to_string());
    registry.register(add_ten, "ten".to_string());
    registry.register(add_hundred, "hundred".to_string());
    registry
}

fn apply_to_zero(step: &IntStep) -> i64 {
    step(State::new(0)).unwrap().outcome
}

#[test]
fn new_registry_is_empty() {
    let registry: Registry<IntStep> = Registry::new();
    assert!(registry.di_ref.is_empty());
}

#[test]
fn register_appends_in_order() {
    let registry = int_registry();
    assert_eq!(registry.di_ref.len(), 3);
    assert_eq!(registry.di_ref[0].1, "one");
    assert_eq!(registry.di_ref[1].1, "ten");
    assert_eq!(registry.di_ref[2].1, "hundred");
    assert_eq!(apply_to_zero(&registry.di_ref[1].0), 10);
}

#[test]
fn lookup_finds_each_name() {
    let registry = int_registry();
    assert_eq!(apply_to_zero(registry.lookup("one").unwrap()), 1);
    assert_eq!(apply_to_zero(registry.lookup("ten").unwrap()), 10);
    assert_eq!(apply_to_zero(registry.lookup("hundred").unwrap()), 100);
    assert_eq!(apply_to_zero(lookup(&registry.di_ref, "ten").unwrap()), 10);
}

#[test]
fn lookup_of_unknown_name_is_not_found() {
    let registry = int_registry();
    let error = registry.lookup("thousand").err().unwrap();
    assert_eq!(error.kind, ErrorKind::NotFound);
    assert_eq!(error.message, "no function found with name thousand exiting");
    let empty: Registry<IntStep> = Registry::new();
    assert_eq!(empty.lookup("one").err().unwrap().kind, ErrorKind::NotFound);
}

#[test]
fn lookup_is_exact_about_names() {
    let registry = int_registry();
    assert!(registry.lookup("One").is_err());
    assert!(registry.lookup("on").is_err());
    assert!(registry.lookup("one ").is_err());
    assert!(registry.lookup("").is_err());
}

#[test]
fn first_registration_of_a_name_wins() {
    let mut registry = int_registry();
    registry.register(add_hundred, "one".to_string());
    assert_eq!(apply_to_zero(registry.lookup("one").unwrap()), 1);
    let chain = vec!["one"].create(&registry.di_ref).unwrap();
    assert_eq!(apply_to_zero(chain[0]), 1);
}

#[test]
fn create_keeps_the_requested_order() {
    let registry = int_registry();
    let chain = vec!["hundred", "one", "ten"].create(&registry.di_ref).unwrap();
    assert_eq!(chain.len(), 3);
    assert_eq!(apply_to_zero(chain[0]), 100);
    assert_eq!(apply_to_zero(chain[1]), 1);
    assert_eq!(apply_to_zero(chain[2]), 10);
}

#[test]
fn create_allows_a_name_twice() {
    let registry = int_registry();
    let chain = vec!["ten", "ten", "one", "ten"].create(&registry.di_ref).unwrap();
    assert_eq!(chain.len(), 4);
    assert_eq!(apply_to_zero(chain[0]), 10);
    assert_eq!(apply_to_zero(chain[1]), 10);
    assert_eq!(apply_to_zero(chain[2]), 1);
    assert_eq!(apply_to_zero(chain[3]), 10);
}

#[test]
fn create_of_no_names_is_an_empty_chain() {
    let registry = int_registry();
    let chain = Vec::<&str>::new().create(&registry.di_ref).unwrap();
    assert!(chain.is_empty());
}

#[test]
fn create_fails_on_a_missing_name_in_any_position() {
    let registry = int_registry();
    for names in [
        vec!["nine", "one", "ten"],
        vec!["one", "nine", "ten"],
        vec!["one", "ten", "nine"],
        vec!["nine"],
    ] {
        let error = names.create(&registry.di_ref).err().unwrap();
        assert_eq!(error.kind, ErrorKind::NotFound);
        assert_eq!(error.message, "no function found with name nine exiting");
    }
}

#[test]
fn create_reports_the_first_missing_name() {
    let registry = int_registry();
    let error = vec!["one", "eight", "ten", "nine"].create(&registry.di_ref).err().unwrap();
    assert_eq!(error.kind, ErrorKind::NotFound);
    assert_eq!(error.message, "no function found with name eight exiting");
}

#[test]
fn error_builders_set_kind_and_text() {
    let missing = Error::not_found("pow4");
    assert_eq!(missing.kind, ErrorKind::NotFound);
    assert_eq!(missing.message, "no function found with name pow4 exiting");
    let failed = Error::step_failure("negative input".to_string());
    assert_eq!(failed.kind, ErrorKind::StepFailure);
    assert_eq!(failed.message, "negative input");
    let absent = Error::absent_outcome();
    assert_eq!(absent.kind, ErrorKind::AbsentOutcome);
    assert_eq!(absent.message, "step produced no outcome");
}
