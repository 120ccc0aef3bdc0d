use wasix_tasks::control_plane::WasiControlPlane;
use wasix_tasks::ids::{WasiProcessId, WasiThreadId};
use wasix_tasks::process::PROCESS_SIGNAL_TID;
use wasix_tasks::signal::{Signal, SignalDeliveryError};
use wasix_tasks::thread::ThreadStartType;
use std::time::Duration;
use wasmer_types::ModuleHash;

fn hash() -> ModuleHash {
    ModuleHash::xxhash_from_bytes([1; 8])
}

fn sig(n: u8) -> Signal {
    Signal::from_number(n).unwrap()
}

fn signals_of(plane: &WasiControlPlane, pid: WasiProcessId, tid: WasiThreadId) -> Vec<u8> {
    let p = plane.get_process(pid).unwrap();
    p.get_thread(&tid).unwrap().signals.iter().map(|s| s.number()).collect()
}

#[test]
fn signal_numbers_cover_none_through_wakeup() {
    assert!(Signal::from_number(0).is_some());
    assert_eq!(Signal::from_number(15).unwrap().number(), 15);
    assert!(Signal::from_number(32).is_some());
    assert!(Signal::from_number(33).is_none());
    assert!(Signal::from_number(255).is_none());
}

#[test]
fn childless_process_signal_reaches_every_thread() {
    let mut plane = WasiControlPlane::new();
    let pid = plane.new_process(hash()).unwrap();
    let main = plane.new_thread(pid, ThreadStartType::MainThread).unwrap();
    let other = plane.new_thread(pid, ThreadStartType::ThreadSpawn { start_ptr: 8 }).unwrap();
    plane.signal_process(pid, sig(2));
    assert_eq!(signals_of(&plane, pid, main), vec![2]);
    assert_eq!(signals_of(&plane, pid, other), vec![2]);
    assert!(plane.get_process(pid).unwrap().inner.children.is_empty());
}

#[test]
fn waiting_parent_forwards_signal_to_children_only() {
    let mut plane = WasiControlPlane::new();
    let parent = plane.new_process(hash()).unwrap();
    let parent_main = plane.new_thread(parent, ThreadStartType::MainThread).unwrap();
    let child = plane.new_child_process(parent, hash()).unwrap();
    let child_main = plane.new_thread(child, ThreadStartType::MainThread).unwrap();
    let wait = plane.begin_wait(parent);
    plane.signal_process(parent, sig(15));
    assert!(signals_of(&plane, parent, parent_main).is_empty());
    assert_eq!(signals_of(&plane, child, child_main), vec![15]);
    plane.end_wait(wait);
    assert_eq!(plane.get_process(parent).unwrap().waiting, 0);
    plane.signal_process(parent, sig(15));
    assert_eq!(signals_of(&plane, parent, parent_main), vec![15]);
    assert_eq!(signals_of(&plane, child, child_main), vec![15]);
}

#[test]
fn parent_with_children_but_no_waiter_signals_itself() {
    let mut plane = WasiControlPlane::new();
    let parent = plane.new_process(hash()).unwrap();
    let parent_main = plane.new_thread(parent, ThreadStartType::MainThread).unwrap();
    let child = plane.new_child_process(parent, hash()).unwrap();
    let child_main = plane.new_thread(child, ThreadStartType::MainThread).unwrap();
    plane.signal_process(parent, sig(9));
    assert_eq!(signals_of(&plane, parent, parent_main), vec![9]);
    assert!(signals_of(&plane, child, child_main).is_empty());
}

#[test]
fn forwarding_passes_through_waiting_grandparent_chain() {
    let mut plane = WasiControlPlane::new();
    let a = plane.new_process(hash()).unwrap();
    let b = plane.new_child_process(a, hash()).unwrap();
    let c = plane.new_child_process(b, hash()).unwrap();
    let b_main = plane.new_thread(b, ThreadStartType::MainThread).unwrap();
    let c_main = plane.new_thread(c, ThreadStartType::MainThread).unwrap();
    let _wa = plane.begin_wait(a);
    let _wb = plane.begin_wait(b);
    plane.signal_process(a, sig(1));
    assert!(signals_of(&plane, b, b_main).is_empty());
    assert_eq!(signals_of(&plane, c, c_main), vec![1]);
}

#[test]
fn signal_thread_reaches_only_that_thread() {
    let mut plane = WasiControlPlane::new();
    let pid = plane.new_process(hash()).unwrap();
    let main = plane.new_thread(pid, ThreadStartType::MainThread).unwrap();
    let other = plane.new_thread(pid, ThreadStartType::ThreadSpawn { start_ptr: 8 }).unwrap();
    plane.signal_thread(pid, &other, sig(10));
    assert!(signals_of(&plane, pid, main).is_empty());
    assert_eq!(signals_of(&plane, pid, other), vec![10]);
}

#[test]
fn reserved_thread_id_means_main_thread() {
    let mut plane = WasiControlPlane::new();
    let pid = plane.new_process(hash()).unwrap();
    let main = plane.new_thread(pid, ThreadStartType::MainThread).unwrap();
    plane.signal_thread(pid, &WasiThreadId(PROCESS_SIGNAL_TID), sig(3));
    assert_eq!(signals_of(&plane, pid, main), vec![3]);
}

#[test]
fn signal_to_missing_thread_is_dropped() {
    let mut plane = WasiControlPlane::new();
    let pid = plane.new_process(hash()).unwrap();
    let main = plane.new_thread(pid, ThreadStartType::MainThread).unwrap();
    plane.signal_thread(pid, &WasiThreadId(99), sig(3));
    assert!(signals_of(&plane, pid, main).is_empty());
}

#[test]
fn signal_by_number_rejects_unknown_numbers() {
    let mut plane = WasiControlPlane::new();
    let pid = plane.new_process(hash()).unwrap();
    let main = plane.new_thread(pid, ThreadStartType::MainThread).unwrap();
    assert_eq!(plane.signal(pid, 200), Err(SignalDeliveryError));
    assert!(signals_of(&plane, pid, main).is_empty());
    assert_eq!(plane.signal(pid, 14), Ok(()));
    assert_eq!(signals_of(&plane, pid, main), vec![14]);
}

#[test]
fn interval_install_then_remove_leaves_no_schedule() {
    let mut plane = WasiControlPlane::new();
    let pid = plane.new_process(hash()).unwrap();
    plane.signal_interval(pid, sig(14), Some(Duration::from_millis(250)), false, 1_000);
    {
        let p = plane.get_process(pid).unwrap();
        let spec = p.inner.signal_intervals.get(&14).unwrap();
        assert_eq!(spec.signal.number(), 14);
        assert_eq!(spec.interval, Duration::from_millis(250));
        assert_eq!(spec.last_signal, 1_000);
        assert!(!spec.repeat);
    }
    plane.signal_interval(pid, sig(14), None, true, 2_000);
    assert!(plane.get_process(pid).unwrap().inner.signal_intervals.get(&14).is_none());
    assert!(plane.get_process(pid).unwrap().inner.signal_intervals.is_empty());
}

#[test]
fn interval_reinstall_restamps_schedule() {
    let mut plane = WasiControlPlane::new();
    let pid = plane.new_process(hash()).unwrap();
    plane.signal_interval(pid, sig(14), Some(Duration::from_secs(1)), true, 5);
    plane.signal_interval(pid, sig(14), Some(Duration::from_secs(2)), true, 9);
    let p = plane.get_process(pid).unwrap();
    assert_eq!(p.inner.signal_intervals.len(), 1);
    let spec = p.inner.signal_intervals.get(&14).unwrap();
    assert_eq!(spec.interval, Duration::from_secs(2));
    assert_eq!(spec.last_signal, 9);
}
