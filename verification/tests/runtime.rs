use minimize::intrinsics::{LockState, create_lock, acquire, release, spawn, join};
use minimize::args::{MinimizeConfig, ArgError, parse_arg};

#[test]
fn locks_are_created_open_with_fresh_ids() {
    let mut locks = Vec::new();
    assert_eq!(create_lock(&mut locks), 0);
    assert_eq!(create_lock(&mut locks), 1);
    assert_eq!(locks, vec![LockState::Open, LockState::Open]);
}

#[test]
fn a_held_lock_cannot_be_taken_until_released() {
    let mut locks = Vec::new();
    let a = create_lock(&mut locks);
    let b = create_lock(&mut locks);
    assert!(acquire(&mut locks, a));
    assert_eq!(locks, vec![LockState::Locked, LockState::Open]);
    assert!(!acquire(&mut locks, a));
    assert_eq!(locks, vec![LockState::Locked, LockState::Open]);
    assert!(acquire(&mut locks, b));
    release(&mut locks, a);
    assert_eq!(locks, vec![LockState::Open, LockState::Locked]);
    assert!(acquire(&mut locks, a));
}

#[test]
fn thread_ids_start_at_one_and_join_hands_the_handle_back() {
    let mut handles: Vec<Option<&str>> = Vec::new();
    let t1 = spawn(&mut handles, "first");
    let t2 = spawn(&mut handles, "second");
    assert_eq!((t1, t2), (1, 2));
    assert_eq!(handles, vec![None, Some("first"), Some("second")]);
    assert_eq!(join(&mut handles, t2), "second");
    assert_eq!(handles, vec![None, Some("first"), None]);
    assert_eq!(join(&mut handles, t1), "first");
}

fn config() -> MinimizeConfig {
    MinimizeConfig { dump: None, check_json_roundtrip: false }
}

#[test]
fn other_arguments_are_left_alone() {
    let mut c = config();
    assert!(matches!(parse_arg(&mut c, "-Zmiri"), Ok(false)));
    assert!(matches!(parse_arg(&mut c, "--minimize"), Ok(false)));
    assert!(c.dump.is_none() && !c.check_json_roundtrip);
}

#[test]
fn dump_and_roundtrip_flags() {
    let mut c = config();
    assert!(matches!(parse_arg(&mut c, "--minimize-dump=pretty"), Ok(true)));
    assert_eq!(c.dump.as_deref(), Some("pretty"));
    assert!(!c.check_json_roundtrip);
    assert!(matches!(parse_arg(&mut c, "--minimize-check-json-roundtrip"), Ok(true)));
    assert!(c.check_json_roundtrip);
    assert_eq!(c.dump.as_deref(), Some("pretty"));
}

#[test]
fn dump_given_twice_is_an_error() {
    let mut c = config();
    assert!(matches!(parse_arg(&mut c, "--minimize-dump=json"), Ok(true)));
    let e = parse_arg(&mut c, "--minimize-dump=pretty");
    assert!(matches!(e, Err(ArgError::DumpTwice)));
    assert_eq!(c.dump.as_deref(), Some("json"));
    assert_eq!(e.err().unwrap().message(), "Argument --minimize-dump was given twice!");
}

#[test]
fn unknown_minimize_argument_is_an_error() {
    let mut c = config();
    let e = parse_arg(&mut c, "--minimize-frobnicate");
    match &e {
        Err(ArgError::Unknown(a)) => assert_eq!(a, "frobnicate"),
        _ => panic!("expected an unknown argument"),
    }
    assert_eq!(e.err().unwrap().message(), "Unknown minimize argument --minimize-frobnicate!");
    assert!(c.dump.is_none());
}

#[test]
fn empty_dump_value_is_accepted() {
    let mut c = config();
    assert!(matches!(parse_arg(&mut c, "--minimize-dump="), Ok(true)));
    assert_eq!(c.dump.as_deref(), Some(""));
}
