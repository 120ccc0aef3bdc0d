use wasix_tasks::control_plane::{ChildrenJoin, NoChild, WasiControlPlane};
use wasix_tasks::exit::{exit_code_of, ExitCode, TaskError, ERRNO_CANCELED};
use wasix_tasks::ids::WasiThreadId;
use wasix_tasks::task::TaskStatus;
use wasix_tasks::thread::ThreadStartType;
use wasmer_types::ModuleHash;

fn hash() -> ModuleHash {
    ModuleHash::xxhash_from_bytes([3; 8])
}

#[test]
fn status_finishes_once() {
    let mut status = TaskStatus::Pending;
    assert!(!status.is_finished());
    assert_eq!(status.into_finished(), None);
    assert!(status.set_finished(Ok(ExitCode(3))));
    assert!(!status.set_finished(Ok(ExitCode(4))));
    assert_eq!(status.into_finished(), Some(Ok(ExitCode(3))));
    assert_eq!(status.into_finished(), Some(Ok(ExitCode(3))));
}

#[test]
fn try_join_sees_main_thread_result() {
    let mut plane = WasiControlPlane::new();
    let pid = plane.new_process(hash()).unwrap();
    let main = plane.new_thread(pid, ThreadStartType::MainThread).unwrap();
    assert_eq!(plane.get_process(pid).unwrap().try_join(), None);
    assert!(plane.set_thread_finished(pid, &main, Ok(ExitCode(5))));
    assert_eq!(plane.get_process(pid).unwrap().try_join(), Some(Ok(ExitCode(5))));
    assert!(!plane.set_thread_finished(pid, &main, Ok(ExitCode(6))));
    assert_eq!(plane.get_process(pid).unwrap().try_join(), Some(Ok(ExitCode(5))));
}

#[test]
fn finishing_other_thread_leaves_process_pending() {
    let mut plane = WasiControlPlane::new();
    let pid = plane.new_process(hash()).unwrap();
    plane.new_thread(pid, ThreadStartType::MainThread).unwrap();
    let other = plane.new_thread(pid, ThreadStartType::ThreadSpawn { start_ptr: 4 }).unwrap();
    assert!(plane.set_thread_finished(pid, &other, Ok(ExitCode(1))));
    let p = plane.get_process(pid).unwrap();
    assert_eq!(p.try_join(), None);
    assert_eq!(p.get_thread(&other).unwrap().status, TaskStatus::Finished(Ok(ExitCode(1))));
    assert!(!plane.set_thread_finished(pid, &WasiThreadId(77), Ok(ExitCode(1))));
}

#[test]
fn terminate_marks_all_threads_finished() {
    let mut plane = WasiControlPlane::new();
    let pid = plane.new_process(hash()).unwrap();
    let main = plane.new_thread(pid, ThreadStartType::MainThread).unwrap();
    let a = plane.new_thread(pid, ThreadStartType::ThreadSpawn { start_ptr: 4 }).unwrap();
    let b = plane.new_thread(pid, ThreadStartType::ThreadSpawn { start_ptr: 8 }).unwrap();
    plane.set_thread_finished(pid, &b, Ok(ExitCode(2)));
    plane.terminate(pid, ExitCode(9));
    let p = plane.get_process(pid).unwrap();
    assert_eq!(p.try_join(), Some(Ok(ExitCode(9))));
    assert_eq!(p.get_thread(&main).unwrap().status, TaskStatus::Finished(Ok(ExitCode(9))));
    assert_eq!(p.get_thread(&a).unwrap().status, TaskStatus::Finished(Ok(ExitCode(9))));
    assert_eq!(p.get_thread(&b).unwrap().status, TaskStatus::Finished(Ok(ExitCode(2))));
}

#[test]
fn join_any_child_without_children_fails() {
    let mut plane = WasiControlPlane::new();
    let pid = plane.new_process(hash()).unwrap();
    assert_eq!(plane.join_any_child(pid), Err(NoChild));
}

#[test]
fn join_any_child_takes_first_finished_then_next() {
    let mut plane = WasiControlPlane::new();
    let parent = plane.new_process(hash()).unwrap();
    let a = plane.new_child_process(parent, hash()).unwrap();
    let b = plane.new_child_process(parent, hash()).unwrap();
    let a_main = plane.new_thread(a, ThreadStartType::MainThread).unwrap();
    let b_main = plane.new_thread(b, ThreadStartType::MainThread).unwrap();
    assert_eq!(plane.join_any_child(parent), Ok(None));
    plane.set_thread_finished(a, &a_main, Ok(ExitCode(4)));
    assert_eq!(plane.join_any_child(parent), Ok(Some((a, ExitCode(4)))));
    assert_eq!(plane.get_process(parent).unwrap().inner.children, vec![b]);
    assert_eq!(plane.join_any_child(parent), Ok(None));
    plane.set_thread_finished(b, &b_main, Ok(ExitCode(6)));
    assert_eq!(plane.join_any_child(parent), Ok(Some((b, ExitCode(6)))));
    assert!(plane.get_process(parent).unwrap().inner.children.is_empty());
    assert_eq!(plane.join_any_child(parent), Err(NoChild));
}

#[test]
fn join_any_child_prefers_earlier_child_when_both_done() {
    let mut plane = WasiControlPlane::new();
    let parent = plane.new_process(hash()).unwrap();
    let a = plane.new_child_process(parent, hash()).unwrap();
    let b = plane.new_child_process(parent, hash()).unwrap();
    let a_main = plane.new_thread(a, ThreadStartType::MainThread).unwrap();
    let b_main = plane.new_thread(b, ThreadStartType::MainThread).unwrap();
    plane.set_thread_finished(b, &b_main, Ok(ExitCode(2)));
    assert_eq!(plane.join_any_child(parent), Ok(Some((b, ExitCode(2)))));
    plane.set_thread_finished(a, &a_main, Err(TaskError::Failed));
    assert_eq!(plane.join_any_child(parent), Ok(Some((a, ExitCode(ERRNO_CANCELED)))));
}

#[test]
fn failed_child_reports_its_exit_code() {
    assert_eq!(exit_code_of(&Err(TaskError::Exit(ExitCode(42)))), ExitCode(42));
    assert_eq!(exit_code_of(&Err(TaskError::Failed)), ExitCode(11));
    assert_eq!(exit_code_of(&Ok(ExitCode(0))), ExitCode(0));
    assert_eq!(TaskError::Failed.as_exit_code(), None);
    assert!(ExitCode(0).is_success());
    assert_eq!(ExitCode(300).raw(), 300);
}

#[test]
fn join_children_waits_for_all_and_reports_first() {
    let mut plane = WasiControlPlane::new();
    let parent = plane.new_process(hash()).unwrap();
    let a = plane.new_child_process(parent, hash()).unwrap();
    let b = plane.new_child_process(parent, hash()).unwrap();
    let a_main = plane.new_thread(a, ThreadStartType::MainThread).unwrap();
    let b_main = plane.new_thread(b, ThreadStartType::MainThread).unwrap();
    let snapshot = plane.get_process(parent).unwrap().inner.children.clone();
    assert_eq!(plane.join_children(parent, &snapshot), ChildrenJoin::Waiting);
    plane.set_thread_finished(b, &b_main, Ok(ExitCode(8)));
    assert_eq!(plane.join_children(parent, &snapshot), ChildrenJoin::Waiting);
    assert_eq!(plane.get_process(parent).unwrap().inner.children, vec![a]);
    plane.set_thread_finished(a, &a_main, Ok(ExitCode(7)));
    assert_eq!(plane.join_children(parent, &snapshot), ChildrenJoin::Finished(Ok(ExitCode(7))));
    assert!(plane.get_process(parent).unwrap().inner.children.is_empty());
}

#[test]
fn join_children_without_children_returns_nothing() {
    let mut plane = WasiControlPlane::new();
    let parent = plane.new_process(hash()).unwrap();
    assert_eq!(plane.join_children(parent, &Vec::new()), ChildrenJoin::NoChildren);
}
