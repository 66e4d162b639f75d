use std::sync::PoisonError;
use sv2_roles_logic::mutex::{run_locked, Mutex};

#[test]
fn a_closure_sees_and_changes_the_guarded_value() {
    let m = Mutex::new(5u32);
    assert_eq!(
        m.safe_lock(|v| {
            *v += 1;
            *v * 10
        })
        .unwrap(),
        60
    );
    assert_eq!(*m.to_remove().unwrap(), 6);
    assert_eq!(m.safe_lock(|v| *v).unwrap(), 6);
}

#[test]
fn a_closure_runs_only_if_the_lock_was_taken() {
    let m = Mutex::new(5u32);
    assert_eq!(run_locked(m.to_remove(), |v: &mut u32| *v + 1).unwrap(), 6);
    let guard = m.to_remove().unwrap();
    let r = run_locked(Err(PoisonError::new(guard)), |v: &mut u32| {
        *v = 9;
        *v
    });
    assert_eq!(*r.unwrap_err().into_inner(), 5);
    assert_eq!(m.safe_lock(|v| *v).unwrap(), 5);
}
