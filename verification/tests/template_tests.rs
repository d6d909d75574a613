use rustaman::environment::Environment;
use rustaman::template::{compile, CompilationError};

fn env_with(pairs: &[(&str, &str)]) -> Environment {
    let mut e = Environment::new(1, "Dev");
    for (k, v) in pairs {
        e.set_var(k, v);
    }
    e
}

#[test]
fn identity_without_markers() {
    let e = env_with(&[("host", "http://example")]);
    let t = "GET /ping\nAccept: text/plain\n\nbody { not a marker }";
    assert_eq!(compile(t, &e).unwrap(), t);
}

#[test]
fn identity_on_empty_template() {
    let e = Environment::new(1, "Dev");
    assert_eq!(compile("", &e).unwrap(), "");
}

#[test]
fn substitutes_single_marker() {
    let e = env_with(&[("host", "http://localhost:8080")]);
    let out = compile("GET {{host}}/ping", &e).unwrap();
    assert_eq!(out, "GET http://localhost:8080/ping");
}

#[test]
fn substitutes_repeated_and_multiple_markers() {
    let e = env_with(&[("a", "1"), ("b", "2")]);
    let out = compile("{{a}}{{b}}{{a}}", &e).unwrap();
    assert_eq!(out, "121");
}

#[test]
fn marker_names_are_trimmed() {
    let e = env_with(&[("host", "h")]);
    assert_eq!(compile("GET {{ host }}/x", &e).unwrap(), "GET h/x");
}

#[test]
fn undefined_variable_is_named_with_position() {
    let e = env_with(&[("other", "x")]);
    match compile("GET {{host}}/ping", &e) {
        Err(CompilationError::UndefinedVariable { name, at }) => {
            assert_eq!(name, "host");
            assert_eq!(at, 4);
        }
        other => panic!("expected an undefined-variable error, got {:?}", other),
    }
}

#[test]
fn undefined_variable_fails_for_every_lacking_environment() {
    let empty = Environment::new(1, "Dev");
    let other = env_with(&[("unrelated", "1"), ("x2", "2")]);
    for e in [&empty, &other] {
        assert!(matches!(
            compile("{{x}}", e),
            Err(CompilationError::UndefinedVariable { .. })
        ));
    }
}

#[test]
fn unclosed_marker_is_reported_with_position() {
    let e = Environment::new(1, "Dev");
    match compile("ab{{name", &e) {
        Err(CompilationError::UnclosedMarker { at }) => assert_eq!(at, 2),
        other => panic!("expected an unclosed-marker error, got {:?}", other),
    }
}

#[test]
fn compilation_is_all_or_nothing() {
    let e = env_with(&[("a", "1")]);
    assert!(compile("{{a}} then {{missing}}", &e).is_err());
}

#[test]
fn compilation_is_deterministic() {
    let e = env_with(&[("host", "h"), ("id", "7")]);
    let t = "POST {{host}}/items/{{id}}";
    assert_eq!(compile(t, &e).unwrap(), compile(t, &e).unwrap());
}

#[test]
fn error_messages_name_the_problem() {
    let e = Environment::new(1, "Dev");
    match compile("GET {{host}}", &e) {
        Err(err) => assert_eq!(err.message(), "undefined variable `host` at offset 4"),
        Ok(_) => panic!("expected a compilation error"),
    }
    match compile("x{{y", &e) {
        Err(err) => assert_eq!(err.message(), "unclosed substitution marker at offset 1"),
        Ok(_) => panic!("expected a compilation error"),
    }
}

#[test]
fn environment_resolve_set_and_remove() {
    let mut e = Environment::new(3, "Stage");
    assert!(e.resolve("k").is_none());
    e.set_var("k", "v1");
    assert_eq!(e.resolve("k").unwrap(), "v1");
    e.set_var("k", "v2");
    assert_eq!(e.resolve("k").unwrap(), "v2");
    assert_eq!(e.len(), 1);
    e.set_var("other", "o");
    assert!(e.remove_var("k"));
    assert!(e.resolve("k").is_none());
    assert_eq!(e.resolve("other").unwrap(), "o");
    assert!(!e.remove_var("k"));
}
