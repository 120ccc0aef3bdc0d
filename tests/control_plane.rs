use wasix_tasks::control_plane::{ControlPlaneConfig, ControlPlaneError, WasiControlPlane};
use wasix_tasks::ids::{WasiProcessId, WasiThreadId};
use wasix_tasks::thread::ThreadStartType;
use wasmer_types::ModuleHash;

fn hash() -> ModuleHash {
    ModuleHash::xxhash_from_bytes([7; 8])
}

#[test]
fn config_defaults_are_off() {
    let config = ControlPlaneConfig::new();
    assert_eq!(config.max_task_count, None);
    assert!(!config.enable_asynchronous_threading);
    assert_eq!(config.enable_exponential_cpu_backoff, None);
    let config = ControlPlaneConfig::default();
    assert_eq!(config.max_task_count, None);
}

#[test]
fn new_plane_is_empty() {
    let plane = WasiControlPlane::new();
    assert_eq!(plane.active_task_count(), 0);
    assert!(plane.get_process(WasiProcessId(1)).is_none());
}

#[test]
fn process_ids_strictly_increase() {
    let mut plane = WasiControlPlane::new();
    let a = plane.new_process(hash()).unwrap();
    let b = plane.new_process(hash()).unwrap();
    let c = plane.new_process(hash()).unwrap();
    assert_eq!(a, WasiProcessId(1));
    assert_eq!(b, WasiProcessId(2));
    assert_eq!(c, WasiProcessId(3));
    assert!(a < b && b < c);
    assert_eq!(plane.get_process(b).unwrap().pid(), b);
    assert_eq!(plane.get_process(a).unwrap().module_hash, hash());
}

#[test]
fn generated_ids_share_the_process_counter() {
    let mut plane = WasiControlPlane::new();
    let a = plane.new_process(hash()).unwrap();
    let t = plane.generate_id().unwrap();
    let b = plane.new_process(hash()).unwrap();
    assert_eq!(a.raw(), 1);
    assert_eq!(t.raw(), 2);
    assert_eq!(b.raw(), 3);
    assert!(plane.get_process(t).is_none());
}

#[test]
fn admission_round_trip_restores_count() {
    let mut plane = WasiControlPlane::new();
    let before = plane.active_task_count();
    let guard = plane.register_task().unwrap();
    assert_eq!(plane.active_task_count(), before + 1);
    plane.release_task(guard);
    assert_eq!(plane.active_task_count(), before);
}

#[test]
fn main_thread_reuses_process_id() {
    let mut plane = WasiControlPlane::new();
    let pid = plane.new_process(hash()).unwrap();
    let tid = plane.new_thread(pid, ThreadStartType::MainThread).unwrap();
    assert_eq!(tid, WasiThreadId(pid.raw()));
    let p = plane.get_process(pid).unwrap();
    assert_eq!(p.active_threads(), 1);
    assert!(p.get_thread(&tid).unwrap().is_main);
    assert_eq!(plane.active_task_count(), 1);
}

#[test]
fn spawned_thread_gets_fresh_id() {
    let mut plane = WasiControlPlane::new();
    let pid = plane.new_process(hash()).unwrap();
    plane.new_thread(pid, ThreadStartType::MainThread).unwrap();
    let tid = plane.new_thread(pid, ThreadStartType::ThreadSpawn { start_ptr: 64 }).unwrap();
    assert_eq!(tid, WasiThreadId(2));
    let p = plane.get_process(pid).unwrap();
    assert_eq!(p.active_threads(), 2);
    let t = p.get_thread(&tid).unwrap();
    assert!(!t.is_main);
    assert_eq!(t.start, ThreadStartType::ThreadSpawn { start_ptr: 64 });
    assert_eq!(plane.active_task_count(), 2);
}

#[test]
fn active_threads_counts_adds_minus_removals() {
    let mut plane = WasiControlPlane::new();
    let pid = plane.new_process(hash()).unwrap();
    let mut tids = Vec::new();
    for _ in 0..5 {
        tids.push(plane.new_thread(pid, ThreadStartType::ThreadSpawn { start_ptr: 0 }).unwrap());
    }
    assert_eq!(plane.get_process(pid).unwrap().active_threads(), 5);
    for tid in &tids[..2] {
        let t = plane.remove_thread(pid, tid).unwrap();
        assert_eq!(t.tid, *tid);
        plane.release_task(t.task_count_guard);
    }
    let p = plane.get_process(pid).unwrap();
    assert_eq!(p.active_threads(), 3);
    assert_eq!(p.inner.threads.len(), 3);
    assert_eq!(plane.active_task_count(), 3);
    assert!(plane.remove_thread(pid, &tids[0]).is_none());
}

#[test]
fn thread_with_existing_id_replaces_entry() {
    let mut plane = WasiControlPlane::new();
    let pid = plane.new_process(hash()).unwrap();
    let tid = WasiThreadId(40);
    plane.new_thread_with_id(pid, ThreadStartType::ThreadSpawn { start_ptr: 1 }, tid).unwrap();
    plane.new_thread_with_id(pid, ThreadStartType::ThreadSpawn { start_ptr: 2 }, tid).unwrap();
    let p = plane.get_process(pid).unwrap();
    assert_eq!(p.active_threads(), 1);
    assert_eq!(p.get_thread(&tid).unwrap().start, ThreadStartType::ThreadSpawn { start_ptr: 2 });
    assert_eq!(plane.active_task_count(), 1);
}

#[test]
fn child_process_links_both_ways() {
    let mut plane = WasiControlPlane::new();
    let parent = plane.new_process(hash()).unwrap();
    let child = plane.new_child_process(parent, hash()).unwrap();
    assert_eq!(plane.get_process(child).unwrap().ppid(), parent);
    assert_eq!(plane.get_process(parent).unwrap().ppid(), WasiProcessId(0));
    assert_eq!(plane.get_process(parent).unwrap().inner.children, vec![child]);
}

#[test]
fn task_limit_error_carries_maximum() {
    let e = ControlPlaneError::TaskLimitReached { max: u32::MAX as usize };
    assert_eq!(e, ControlPlaneError::TaskLimitReached { max: 4294967295 });
}

#[test]
fn ids_minted_between_creations_are_never_reused() {
    let mut plane = WasiControlPlane::new();
    let first = plane.new_process(hash()).unwrap();
    let minted = plane.generate_id().unwrap();
    assert!(plane.get_process(minted).is_none());
    let tid = plane.new_thread(first, ThreadStartType::ThreadSpawn { start_ptr: 0 }).unwrap();
    let second = plane.new_process(hash()).unwrap();
    assert_eq!(minted.raw(), 2);
    assert_eq!(tid.raw(), 3);
    assert_eq!(second.raw(), 4);
    assert!(first < minted && minted.raw() < tid.raw() && tid.raw() < second.raw());
    assert!(plane.get_process(minted).is_none());
    assert!(plane.get_process(first).is_some());
}
