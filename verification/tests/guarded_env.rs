use env_guard::EnvTable;
use env_guard::Error;
use env_guard::guard_mutation;
use env_guard::listing_indicates_threaded;
use env_guard::try_remove_env_var;
use env_guard::try_set_env_var;

#[test]
fn single_threaded_set_round_trip() {
    let mut env = EnvTable::new();
    let r = try_set_env_var(&mut env, false, b"foo".to_vec(), b"bar".to_vec());
    assert_eq!(r, Ok(()));
    assert_eq!(env.get(&b"foo".to_vec()), Some(&b"bar".to_vec()));
}

#[test]
fn set_overwrites_earlier_binding() {
    let mut env = EnvTable::new();
    assert_eq!(try_set_env_var(&mut env, false, b"key".to_vec(), b"first".to_vec()), Ok(()));
    assert_eq!(try_set_env_var(&mut env, false, b"key".to_vec(), b"second".to_vec()), Ok(()));
    assert_eq!(env.get(&b"key".to_vec()), Some(&b"second".to_vec()));
}

#[test]
fn remove_absent_key_succeeds() {
    let mut env = EnvTable::new();
    let r = try_remove_env_var(&mut env, false, b"missing".to_vec());
    assert_eq!(r, Ok(()));
    assert_eq!(env.get(&b"missing".to_vec()), None);
}

#[test]
fn remove_twice_is_idempotent() {
    let mut env = EnvTable::new();
    assert_eq!(try_set_env_var(&mut env, false, b"gone".to_vec(), b"soon".to_vec()), Ok(()));
    assert_eq!(try_remove_env_var(&mut env, false, b"gone".to_vec()), Ok(()));
    assert_eq!(env.get(&b"gone".to_vec()), None);
    assert_eq!(try_remove_env_var(&mut env, false, b"gone".to_vec()), Ok(()));
    assert_eq!(env.get(&b"gone".to_vec()), None);
}

#[test]
fn threaded_set_is_refused_and_leaves_table_unchanged() {
    let mut env = EnvTable::new();
    assert_eq!(try_set_env_var(&mut env, false, b"kept".to_vec(), b"old".to_vec()), Ok(()));
    let r = try_set_env_var(&mut env, true, b"kept".to_vec(), b"new".to_vec());
    assert_eq!(r, Err(Error));
    assert_eq!(env.get(&b"kept".to_vec()), Some(&b"old".to_vec()));
}

#[test]
fn threaded_set_of_unset_key_leaves_it_unset() {
    let mut env = EnvTable::new();
    let r = try_set_env_var(&mut env, true, b"somekey".to_vec(), b"someval".to_vec());
    assert_eq!(r, Err(Error));
    assert_eq!(env.get(&b"somekey".to_vec()), None);
}

#[test]
fn threaded_remove_is_refused_and_leaves_table_unchanged() {
    let mut env = EnvTable::new();
    assert_eq!(try_set_env_var(&mut env, false, b"stay".to_vec(), b"here".to_vec()), Ok(()));
    let r = try_remove_env_var(&mut env, true, b"stay".to_vec());
    assert_eq!(r, Err(Error));
    assert_eq!(env.get(&b"stay".to_vec()), Some(&b"here".to_vec()));
}

#[test]
fn listing_with_more_than_one_entry_means_threaded() {
    assert!(!listing_indicates_threaded(Some(0)));
    assert!(!listing_indicates_threaded(Some(1)));
    assert!(listing_indicates_threaded(Some(2)));
    assert!(listing_indicates_threaded(Some(50)));
}

#[test]
fn unreadable_listing_falls_back_to_single_threaded() {
    let threaded = listing_indicates_threaded(None);
    assert!(!threaded);
    let mut env = EnvTable::new();
    assert_eq!(try_set_env_var(&mut env, threaded, b"foo".to_vec(), b"bar".to_vec()), Ok(()));
    assert_eq!(env.get(&b"foo".to_vec()), Some(&b"bar".to_vec()));
}

#[test]
fn guard_decision_refuses_exactly_when_threaded() {
    assert_eq!(guard_mutation(false), Ok(()));
    assert_eq!(guard_mutation(true), Err(Error));
}

#[test]
fn duplicated_table_mutates_independently() {
    let mut parent = EnvTable::new();
    assert_eq!(try_set_env_var(&mut parent, false, b"shared".to_vec(), b"orig".to_vec()), Ok(()));
    let mut child = parent.clone();
    assert_eq!(try_set_env_var(&mut child, false, b"foo".to_vec(), b"bar".to_vec()), Ok(()));
    assert_eq!(try_set_env_var(&mut child, false, b"shared".to_vec(), b"edit".to_vec()), Ok(()));
    assert_eq!(child.get(&b"foo".to_vec()), Some(&b"bar".to_vec()));
    assert_eq!(child.get(&b"shared".to_vec()), Some(&b"edit".to_vec()));
    assert_eq!(parent.get(&b"foo".to_vec()), None);
    assert_eq!(parent.get(&b"shared".to_vec()), Some(&b"orig".to_vec()));
}

#[test]
fn error_is_a_plain_unit_value() {
    let e = Error;
    assert_eq!(e, Error::default());
    assert_eq!(e.clone(), e);
    assert_eq!(format!("{:?}", e), "Error");
}
