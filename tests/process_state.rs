use std::ops::Range;
use wasix_tasks::backoff::WasiProcessCpuBackoff;
use wasix_tasks::ids::{WasiProcessId, WasiThreadId};
use wasix_tasks::process::{
    MemorySnapshotRegion, WasiProcess, WasiProcessCheckpoint, WasiProcessWait, MAX_CPU_BACKOFF_MS,
    MAX_CPU_COOL_OFF_MS,
};
use wasmer_types::ModuleHash;

#[test]
fn process_id_conversions_round_trip() {
    let pid = WasiProcessId::from(17u32);
    assert_eq!(pid.raw(), 17);
    assert_eq!(u32::from(pid), 17);
    assert_eq!(i32::from(pid), 17);
    assert_eq!(WasiProcessId::from(-1i32).raw(), u32::MAX);
    assert_eq!(WasiThreadId::from(5u32).raw(), 5);
}

#[test]
fn fresh_process_state() {
    let p = WasiProcess::new(WasiProcessId(4), ModuleHash::sha256(b"module"));
    assert_eq!(p.pid(), WasiProcessId(4));
    assert_eq!(p.ppid(), WasiProcessId(0));
    assert_eq!(p.active_threads(), 0);
    assert_eq!(p.inner.checkpoint, WasiProcessCheckpoint::Execute);
    assert!(!p.inner.disable_journaling_after_checkpoint);
    assert_eq!(p.inner.backoff.max_cpu_backoff_time, 30_000);
    assert_eq!(p.inner.backoff.max_cpu_cool_off_time, 500);
    assert_eq!(p.try_join(), None);
    assert!(p.get_thread(&WasiThreadId(4)).is_none());
}

#[test]
fn snapshot_region_converts_from_and_to_range() {
    let region = MemorySnapshotRegion::from(16u64..4096u64);
    assert_eq!(region, MemorySnapshotRegion { start: 16, end: 4096 });
    let range: Range<u64> = region.into();
    assert_eq!(range, 16..4096);
}

#[test]
fn wait_registration_counts_up_and_down() {
    let mut p = WasiProcess::new(WasiProcessId(2), ModuleHash::xxhash_from_bytes([0; 8]));
    let w1 = WasiProcessWait::new(&mut p);
    let w2 = WasiProcessWait::new(&mut p);
    assert_eq!(p.waiting, 2);
    assert_eq!(w1.pid(), WasiProcessId(2));
    w1.release(&mut p);
    w2.release(&mut p);
    assert_eq!(p.waiting, 0);
}

#[test]
fn backoff_doubles_up_to_ceiling() {
    let mut b = WasiProcessCpuBackoff::new(30_000, 500);
    let mut last = 0;
    let mut seen = Vec::new();
    for _ in 0..10 {
        let sleep = b.backoff(0);
        assert!(sleep >= last);
        assert!(sleep <= 30_000);
        last = sleep;
        seen.push(sleep);
    }
    assert_eq!(&seen[..8], &[500, 1_000, 2_000, 4_000, 8_000, 16_000, 30_000, 30_000]);
}

#[test]
fn run_token_resets_backoff_to_floor() {
    let mut b = WasiProcessCpuBackoff::new(30_000, 500);
    b.backoff(0);
    b.backoff(0);
    b.backoff(0);
    assert_eq!(b.backoff(1), 0);
    assert_eq!(b.backoff(0), 500);
}

#[test]
fn floor_above_ceiling_is_held_at_ceiling() {
    let mut b = WasiProcessCpuBackoff::new(100, 500);
    assert_eq!(b.backoff(0), 100);
    assert_eq!(b.backoff(0), 100);
}

#[test]
fn process_backoff_follows_run_tokens() {
    let mut p = WasiProcess::new(WasiProcessId(1), ModuleHash::xxhash_from_bytes([0; 8]));
    assert_eq!(p.cpu_backoff(), MAX_CPU_COOL_OFF_MS);
    assert_eq!(p.cpu_backoff(), 2 * MAX_CPU_COOL_OFF_MS);
    p.acquire_run_token();
    assert_eq!(p.cpu_backoff(), 0);
    p.release_run_token();
    assert_eq!(p.cpu_backoff(), MAX_CPU_COOL_OFF_MS);
    assert!(MAX_CPU_BACKOFF_MS >= MAX_CPU_COOL_OFF_MS);
}
