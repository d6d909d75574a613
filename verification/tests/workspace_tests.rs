use rustaman::environment::Environment;
use rustaman::template::CompilationError;
use rustaman::workspace::{CompileRequestError, Workspace, WorkspaceError};

#[test]
fn created_requests_get_distinct_increasing_ids() {
    let mut w = Workspace::new("demo");
    let a = w.create_request();
    let b = w.create_request();
    let c = w.create_request();
    assert_eq!((a.id, b.id, c.id), (1, 2, 3));
    let stored: Vec<usize> = w.requests().iter().map(|r| r.id).collect();
    assert_eq!(stored, vec![1, 2, 3]);
    assert_eq!(a.name, "Untitled");
    assert_eq!(a.template, "");
}

#[test]
fn deleted_id_is_not_found_and_others_are_untouched() {
    let mut w = Workspace::new("demo");
    let a = w.create_request();
    let b = w.create_request();
    let c = w.create_request();
    w.set_request_name(a.id, "first").unwrap();
    w.set_request_name(c.id, "third").unwrap();
    assert!(w.delete_request(b.id));
    assert!(w.request(b.id).is_none());
    assert_eq!(w.request(a.id).unwrap().name, "first");
    assert_eq!(w.request(c.id).unwrap().name, "third");
}

#[test]
fn ids_are_never_reused_after_deletion() {
    let mut w = Workspace::new("demo");
    let a = w.create_request();
    assert!(w.delete_request(a.id));
    let b = w.create_request();
    assert_ne!(a.id, b.id);
    assert!(w.request(a.id).is_none());
}

#[test]
fn deleting_an_absent_id_is_a_reported_no_op() {
    let mut w = Workspace::new("demo");
    let a = w.create_request();
    assert!(!w.delete_request(a.id + 10));
    assert_eq!(w.requests().len(), 1);
}

#[test]
fn renaming_and_editing_by_id() {
    let mut w = Workspace::new("demo");
    let a = w.create_request();
    let b = w.create_request();
    w.set_request_name(a.id, "ping").unwrap();
    w.set_request_template(a.id, "GET {{host}}/ping").unwrap();
    assert_eq!(w.request(a.id).unwrap().name, "ping");
    assert_eq!(w.request(a.id).unwrap().template, "GET {{host}}/ping");
    assert_eq!(w.request(b.id).unwrap().name, "Untitled");
    assert_eq!(w.set_request_name(99, "x"), Err(WorkspaceError::NotFound));
    assert_eq!(w.set_request_template(99, "x"), Err(WorkspaceError::NotFound));
}

#[test]
fn environments_have_their_own_id_sequence() {
    let mut w = Workspace::new("demo");
    let dev = w.create_environment("Dev");
    let prod = w.create_environment("Prod");
    assert_eq!((dev.id, prod.id), (1, 2));
    assert_eq!(w.environments().len(), 2);
    assert_eq!(w.environment(dev.id).unwrap().name, "Dev");
}

#[test]
fn set_environ_replaces_variables_wholesale() {
    let mut w = Workspace::new("demo");
    let dev = w.create_environment("Dev");
    let mut edited = Environment::new(dev.id, "Dev edited");
    edited.set_var("host", "http://localhost:8080");
    w.set_environ(dev.id, &edited).unwrap();
    let stored = w.environment(dev.id).unwrap();
    assert_eq!(stored.name, "Dev edited");
    assert_eq!(stored.resolve("host").unwrap(), "http://localhost:8080");
    assert_eq!(stored.id, dev.id);
    assert_eq!(w.set_environ(99, &edited), Err(WorkspaceError::NotFound));
}

#[test]
fn compile_request_goes_through_the_workspace() {
    let mut w = Workspace::new("demo");
    let a = w.create_request();
    w.set_request_template(a.id, "GET {{host}}/ping").unwrap();
    let mut env = Environment::new(1, "Dev");
    env.set_var("host", "http://h");
    assert_eq!(w.compile_request(a.id, &env).unwrap(), "GET http://h/ping");
    assert!(matches!(
        w.compile_request(a.id + 7, &env),
        Err(CompileRequestError::NotFound)
    ));
    let empty = Environment::new(2, "Empty");
    match w.compile_request(a.id, &empty) {
        Err(CompileRequestError::Compilation(CompilationError::UndefinedVariable {
            name, ..
        })) => assert_eq!(name, "host"),
        other => panic!("expected an undefined-variable error, got {:?}", other),
    }
}
