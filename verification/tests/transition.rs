use tokio_fsm::{TaskError, Transition};

#[derive(Debug, PartialEq)]
struct Running;

#[test]
fn transition_round_trip() {
    let t = Transition::to(Running);
    assert_eq!(t.into_state(), Running);
}

#[test]
fn transition_to_wraps_state() {
    match Transition::to(7u32) {
        Transition::To(s) => assert_eq!(s, 7),
    }
}

fn join_error() -> tokio::task::JoinError {
    let rt = tokio::runtime::Builder::new_current_thread().build().unwrap();
    rt.block_on(async {
        let handle = tokio::spawn(std::future::pending::<()>());
        handle.abort();
        handle.await.unwrap_err()
    })
}

#[test]
fn task_error_from_join_error_is_join() {
    let e: TaskError<String> = TaskError::from(join_error());
    assert!(matches!(e, TaskError::Join(_)));
}

#[test]
fn task_error_fsm_variant() {
    let e: TaskError<&str> = TaskError::Fsm("boom");
    assert!(matches!(e, TaskError::Fsm("boom")));
}
