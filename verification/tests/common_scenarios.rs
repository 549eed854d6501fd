use kernel_core::config::{
    MAX_SYSCALL_NUM, PAGE_SIZE, SYSCALL_EXIT, SYSCALL_GET_TIME, SYSCALL_MMAP, SYSCALL_MUNMAP,
    SYSCALL_SBRK, SYSCALL_TASK_INFO, SYSCALL_YIELD,
};
use kernel_core::mm::address::{PhysPageNum, VirtAddr, VirtPageNum};
use kernel_core::mm::memory_set::{MapType, MemorySet};
use kernel_core::mm::page_table::MapPermission;
use kernel_core::syscall::process::{
    sys_exit, sys_get_time, sys_mmap, sys_munmap, sys_sbrk, sys_task_info, sys_yield,
    TASK_INFO_SIZE,
};
use kernel_core::task::context::{ContextSlot, Switch, TaskContext};
use kernel_core::task::kernel::Kernel;
use kernel_core::task::manager::{add_task, fetch_task};
use kernel_core::task::processor::{
    current_task, current_task_count_syscall, current_task_info, current_task_mmap,
    current_task_munmap, current_trap_cx, current_user_token, run_tasks, schedule,
    take_current_task,
};
use kernel_core::task::task::{TaskControlBlock, TaskStatus};

const FRAME_START: usize = 0x100;
const FRAME_END: usize = 0x120;

fn new_kernel() -> Kernel {
    Kernel::new(PhysPageNum(FRAME_START), PhysPageNum(FRAME_END))
}

fn new_task(root: usize) -> TaskControlBlock {
    TaskControlBlock::new(
        MemorySet::new_bare(PhysPageNum(root)),
        PhysPageNum(root + 1),
        0x4000,
        TaskContext::resume_at(0x8000_0000 + root, 0x9000_0000),
    )
}

/// A kernel in which one task was added and dispatched at time 100.
fn kernel_with_running_task() -> (Kernel, usize) {
    let mut kernel = new_kernel();
    let id = add_task(&mut kernel, new_task(0x10));
    let handoff = run_tasks(&mut kernel, 100);
    assert_eq!(handoff, Some(Switch { from: ContextSlot::Idle, to: ContextSlot::Task(id) }));
    (kernel, id)
}

fn mapped(kernel: &Kernel, id: usize, vpn: usize) -> bool {
    kernel.task(id).get_address_space().translate(VirtPageNum(vpn)).is_some()
}

#[test]
fn scenario_mmap_overlap_munmap_twice() {
    let (mut kernel, id) = kernel_with_running_task();
    assert_eq!(sys_mmap(&mut kernel, 0x10000, 0x2000, 0x3), 0);
    assert!(mapped(&kernel, id, 0x10));
    assert!(mapped(&kernel, id, 0x11));
    assert!(!mapped(&kernel, id, 0x12));
    assert_eq!(sys_mmap(&mut kernel, 0x10000, 0x1000, 0x1), -1);
    assert_eq!(sys_munmap(&mut kernel, 0x10000, 0x2000), 0);
    assert!(!mapped(&kernel, id, 0x10));
    assert!(!mapped(&kernel, id, 0x11));
    assert_eq!(sys_munmap(&mut kernel, 0x10000, 0x2000), -1);
}

#[test]
fn scenario_fifo_after_yield_and_exit() {
    let mut kernel = new_kernel();
    let a = add_task(&mut kernel, new_task(0x10));
    let b = add_task(&mut kernel, new_task(0x20));
    let c = add_task(&mut kernel, new_task(0x30));
    assert_eq!((a, b, c), (0, 1, 2));

    assert_eq!(
        run_tasks(&mut kernel, 1),
        Some(Switch { from: ContextSlot::Idle, to: ContextSlot::Task(a) })
    );
    let (ret, handoff) = sys_yield(&mut kernel);
    assert_eq!(ret, 0);
    assert_eq!(handoff, Switch { from: ContextSlot::Task(a), to: ContextSlot::Idle });

    assert_eq!(
        run_tasks(&mut kernel, 2),
        Some(Switch { from: ContextSlot::Idle, to: ContextSlot::Task(b) })
    );
    let handoff = sys_exit(&mut kernel, 0);
    assert_eq!(handoff, Switch { from: ContextSlot::Scratch, to: ContextSlot::Idle });
    assert_eq!(kernel.task(b).get_status(), TaskStatus::Exited);

    assert_eq!(fetch_task(&mut kernel), Some(c));
    assert_eq!(fetch_task(&mut kernel), Some(a));
    assert_eq!(fetch_task(&mut kernel), None);
}

#[test]
fn mmap_then_munmap_restores_address_space_and_frames() {
    let (mut kernel, id) = kernel_with_running_task();
    assert_eq!(sys_mmap(&mut kernel, 0x40000, 0x1000, 0x1), 0);
    let free_before = kernel.free_frames();
    let areas_before = kernel.task(id).get_address_space().area_count();

    assert_eq!(sys_mmap(&mut kernel, 0x10000, 0x3000, 0x7), 0);
    assert_eq!(kernel.free_frames(), free_before - 3);
    assert_eq!(kernel.task(id).get_address_space().area_count(), areas_before + 1);
    assert_eq!(sys_munmap(&mut kernel, 0x10000, 0x3000), 0);

    assert_eq!(kernel.free_frames(), free_before);
    assert_eq!(kernel.task(id).get_address_space().area_count(), areas_before);
    for vpn in 0x10..0x13 {
        assert!(!mapped(&kernel, id, vpn));
    }
    assert!(mapped(&kernel, id, 0x40));
}

#[test]
fn mmap_rejects_permission_bits() {
    let (mut kernel, id) = kernel_with_running_task();
    let free = kernel.free_frames();
    for port in [0usize, 8, 9, 0x10, 0xff, usize::MAX] {
        assert_eq!(sys_mmap(&mut kernel, 0x10000, 0x1000, port), -1);
    }
    assert_eq!(kernel.free_frames(), free);
    assert_eq!(kernel.task(id).get_address_space().area_count(), 0);
    assert!(!mapped(&kernel, id, 0x10));
}

#[test]
fn mmap_accepts_every_valid_permission_request() {
    let (mut kernel, id) = kernel_with_running_task();
    for port in 1usize..=7 {
        assert_eq!(sys_mmap(&mut kernel, port * 0x10000, 0x1000, port), 0);
        let entry = kernel
            .task(id)
            .get_address_space()
            .translate(VirtPageNum(port * 0x10))
            .unwrap();
        assert_eq!(entry.perm.readable, port & 1 != 0);
        assert_eq!(entry.perm.writable, port & 2 != 0);
        assert_eq!(entry.perm.executable, port & 4 != 0);
        assert!(entry.perm.user);
    }
}

#[test]
fn mmap_rejects_unaligned_start() {
    let (mut kernel, id) = kernel_with_running_task();
    let free = kernel.free_frames();
    assert_eq!(sys_mmap(&mut kernel, 0x10001, 0x1000, 0x3), -1);
    assert_eq!(sys_mmap(&mut kernel, 0x10fff, 0x1000, 0x3), -1);
    assert_eq!(kernel.free_frames(), free);
    assert_eq!(kernel.task(id).get_address_space().area_count(), 0);
    assert!(!mapped(&kernel, id, 0x10));
    assert!(!mapped(&kernel, id, 0x11));
}

#[test]
fn mmap_over_mapped_page_maps_nothing() {
    let (mut kernel, id) = kernel_with_running_task();
    assert_eq!(sys_mmap(&mut kernel, 0x12000, 0x1000, 0x3), 0);
    let free = kernel.free_frames();
    assert_eq!(sys_mmap(&mut kernel, 0x10000, 0x4000, 0x3), -1);
    assert_eq!(kernel.free_frames(), free);
    assert!(!mapped(&kernel, id, 0x10));
    assert!(!mapped(&kernel, id, 0x11));
    assert!(mapped(&kernel, id, 0x12));
    assert!(!mapped(&kernel, id, 0x13));
    assert_eq!(kernel.task(id).get_address_space().area_count(), 1);
}

#[test]
fn munmap_over_unmapped_page_changes_nothing() {
    let (mut kernel, id) = kernel_with_running_task();
    assert_eq!(sys_mmap(&mut kernel, 0x10000, 0x2000, 0x3), 0);
    let free = kernel.free_frames();
    assert_eq!(sys_munmap(&mut kernel, 0x10000, 0x3000), -1);
    assert_eq!(sys_munmap(&mut kernel, 0x20000, 0x1000), -1);
    assert_eq!(kernel.free_frames(), free);
    assert!(mapped(&kernel, id, 0x10));
    assert!(mapped(&kernel, id, 0x11));
    assert_eq!(kernel.task(id).get_address_space().area_count(), 1);
}

#[test]
fn munmap_rejects_unaligned_start() {
    let (mut kernel, id) = kernel_with_running_task();
    assert_eq!(sys_mmap(&mut kernel, 0x10000, 0x2000, 0x3), 0);
    assert_eq!(sys_munmap(&mut kernel, 0x10008, 0x1000), -1);
    assert!(mapped(&kernel, id, 0x10));
}

#[test]
fn munmap_never_splits_an_area() {
    let (mut kernel, id) = kernel_with_running_task();
    assert_eq!(sys_mmap(&mut kernel, 0x10000, 0x3000, 0x3), 0);
    // The second page is mapped, but no area begins there.
    assert_eq!(sys_munmap(&mut kernel, 0x11000, 0x1000), -1);
    assert_eq!(sys_munmap(&mut kernel, 0x11000, 0x2000), -1);
    for vpn in 0x10..0x13 {
        assert!(mapped(&kernel, id, vpn));
    }
    // A shorter range from the first page removes the area as a whole.
    assert_eq!(sys_munmap(&mut kernel, 0x10000, 0x1000), 0);
    for vpn in 0x10..0x13 {
        assert!(!mapped(&kernel, id, vpn));
    }
}

#[test]
fn munmap_across_two_areas_removes_the_first_only() {
    let (mut kernel, id) = kernel_with_running_task();
    assert_eq!(sys_mmap(&mut kernel, 0x10000, 0x1000, 0x3), 0);
    assert_eq!(sys_mmap(&mut kernel, 0x11000, 0x1000, 0x3), 0);
    assert_eq!(sys_munmap(&mut kernel, 0x10000, 0x2000), 0);
    assert!(!mapped(&kernel, id, 0x10));
    assert!(mapped(&kernel, id, 0x11));
}

#[test]
fn mmap_length_is_rounded_up_to_pages() {
    let (mut kernel, id) = kernel_with_running_task();
    let free = kernel.free_frames();
    assert_eq!(sys_mmap(&mut kernel, 0x10000, 1, 0x3), 0);
    assert_eq!(kernel.free_frames(), free - 1);
    assert_eq!(sys_mmap(&mut kernel, 0x20000, PAGE_SIZE + 1, 0x3), 0);
    assert_eq!(kernel.free_frames(), free - 3);
    assert!(mapped(&kernel, id, 0x20));
    assert!(mapped(&kernel, id, 0x21));
    assert!(!mapped(&kernel, id, 0x22));
    let area = kernel.task(id).get_address_space().area(1);
    assert_eq!(area.start(), VirtPageNum(0x20));
    assert_eq!(area.end(), VirtPageNum(0x22));
    assert_eq!(area.map_type(), MapType::Framed);
}

#[test]
fn mmap_of_no_bytes_records_an_empty_area() {
    let (mut kernel, id) = kernel_with_running_task();
    let free = kernel.free_frames();
    assert_eq!(sys_mmap(&mut kernel, 0x10000, 0, 0x3), 0);
    assert_eq!(kernel.free_frames(), free);
    assert_eq!(kernel.task(id).get_address_space().area_count(), 1);
    assert!(!mapped(&kernel, id, 0x10));
    // A later area at the same page is the one that munmap removes.
    assert_eq!(sys_mmap(&mut kernel, 0x10000, 0x1000, 0x3), 0);
    assert_eq!(sys_munmap(&mut kernel, 0x10000, 0x1000), 0);
    assert!(!mapped(&kernel, id, 0x10));
    assert_eq!(kernel.task(id).get_address_space().area_count(), 1);
    assert_eq!(sys_munmap(&mut kernel, 0x10000, 0), 0);
    assert_eq!(kernel.task(id).get_address_space().area_count(), 0);
    assert_eq!(sys_munmap(&mut kernel, 0x10000, 0), -1);
}

#[test]
fn mmap_rejects_range_past_end_of_address_space() {
    let (mut kernel, id) = kernel_with_running_task();
    let start = usize::MAX - (PAGE_SIZE - 1);
    assert_eq!(start % PAGE_SIZE, 0);
    assert_eq!(sys_mmap(&mut kernel, start, PAGE_SIZE, 0x3), -1);
    assert_eq!(sys_munmap(&mut kernel, start, PAGE_SIZE), -1);
    assert_eq!(kernel.task(id).get_address_space().area_count(), 0);
}

#[test]
fn mmap_fails_when_frames_run_out() {
    let (mut kernel, id) = kernel_with_running_task();
    let free = kernel.free_frames();
    assert_eq!(free, FRAME_END - FRAME_START);
    assert_eq!(sys_mmap(&mut kernel, 0x10000, (free + 1) * PAGE_SIZE, 0x3), -1);
    assert_eq!(kernel.free_frames(), free);
    assert!(!mapped(&kernel, id, 0x10));
    assert_eq!(sys_mmap(&mut kernel, 0x10000, free * PAGE_SIZE, 0x3), 0);
    assert_eq!(kernel.free_frames(), 0);
    assert_eq!(sys_mmap(&mut kernel, 0x800000, PAGE_SIZE, 0x3), -1);
    assert_eq!(sys_munmap(&mut kernel, 0x10000, free * PAGE_SIZE), 0);
    assert_eq!(kernel.free_frames(), free);
}

#[test]
fn mapped_frames_are_distinct_and_in_range() {
    let (mut kernel, id) = kernel_with_running_task();
    assert_eq!(sys_mmap(&mut kernel, 0x10000, 0x4000, 0x3), 0);
    assert_eq!(sys_mmap(&mut kernel, 0x30000, 0x2000, 0x1), 0);
    let mut seen: Vec<usize> = Vec::new();
    for vpn in [0x10usize, 0x11, 0x12, 0x13, 0x30, 0x31] {
        let entry = kernel.task(id).get_address_space().translate(VirtPageNum(vpn)).unwrap();
        assert!(entry.ppn.0 >= FRAME_START && entry.ppn.0 < FRAME_END);
        assert!(!seen.contains(&entry.ppn.0));
        seen.push(entry.ppn.0);
    }
}

#[test]
fn direct_mmap_and_munmap_do_not_count_invocations() {
    let (mut kernel, id) = kernel_with_running_task();
    assert_eq!(current_task_mmap(&mut kernel, 0x10000, 0x1000, 0x3), 0);
    assert_eq!(current_task_mmap(&mut kernel, 0x10000, 0x1000, 0x3), -1);
    assert_eq!(current_task_munmap(&mut kernel, 0x10000, 0x1000), 0);
    assert_eq!(current_task_munmap(&mut kernel, 0x10000, 0x1000), -1);
    assert_eq!(kernel.task(id).get_syscall_times(SYSCALL_MMAP), 0);
    assert_eq!(kernel.task(id).get_syscall_times(SYSCALL_MUNMAP), 0);
}

#[test]
fn every_syscall_counts_its_own_invocation() {
    let (mut kernel, id) = kernel_with_running_task();
    assert_eq!(sys_mmap(&mut kernel, 0x10000, 0x1000, 0x3), 0);
    assert_eq!(sys_mmap(&mut kernel, 0x10000, 0x1000, 0x3), -1);
    assert_eq!(sys_mmap(&mut kernel, 0x10000, 0x1000, 0), -1);
    assert_eq!(kernel.task(id).get_syscall_times(SYSCALL_MMAP), 3);
    assert_eq!(sys_get_time(&mut kernel, 0x10000, 0, 5), 0);
    assert_eq!(sys_get_time(&mut kernel, 0x50000, 0, 5), -1);
    assert_eq!(kernel.task(id).get_syscall_times(SYSCALL_GET_TIME), 2);
    assert_eq!(sys_sbrk(&mut kernel, 0), -1);
    assert_eq!(kernel.task(id).get_syscall_times(SYSCALL_SBRK), 1);
    assert_eq!(sys_munmap(&mut kernel, 0x10000, 0x1000), 0);
    assert_eq!(kernel.task(id).get_syscall_times(SYSCALL_MUNMAP), 1);
    assert_eq!(sys_task_info(&mut kernel, 0x10000, 200), -1);
    assert_eq!(kernel.task(id).get_syscall_times(SYSCALL_TASK_INFO), 1);
    let _ = sys_yield(&mut kernel);
    assert_eq!(kernel.task(id).get_syscall_times(SYSCALL_YIELD), 1);
    assert!(run_tasks(&mut kernel, 300).is_some());
    let _ = sys_exit(&mut kernel, 0);
    assert_eq!(kernel.task(id).get_syscall_times(SYSCALL_EXIT), 1);
    // Nothing else was counted.
    let mut total: u64 = 0;
    for syscall in 0..MAX_SYSCALL_NUM {
        total += kernel.task(id).get_syscall_times(syscall) as u64;
    }
    assert_eq!(total, 3 + 2 + 1 + 1 + 1 + 1 + 1);
}

#[test]
fn count_syscall_raises_one_counter_by_one() {
    let (mut kernel, id) = kernel_with_running_task();
    current_task_count_syscall(&mut kernel, 7);
    current_task_count_syscall(&mut kernel, 7);
    current_task_count_syscall(&mut kernel, MAX_SYSCALL_NUM - 1);
    assert_eq!(kernel.task(id).get_syscall_times(7), 2);
    assert_eq!(kernel.task(id).get_syscall_times(MAX_SYSCALL_NUM - 1), 1);
    assert_eq!(kernel.task(id).get_syscall_times(8), 0);
}

#[test]
fn task_info_reports_status_counters_and_elapsed_time() {
    let (mut kernel, id) = kernel_with_running_task();
    current_task_count_syscall(&mut kernel, SYSCALL_GET_TIME);
    let info = current_task_info(&kernel, 175);
    assert_eq!(info.status, TaskStatus::Running);
    assert_eq!(info.time, 75);
    assert_eq!(info.syscall_times[SYSCALL_GET_TIME], 1);
    assert_eq!(info.syscall_times[SYSCALL_TASK_INFO], 0);
    // A reading before the first dispatch gives no elapsed time.
    assert_eq!(current_task_info(&kernel, 99).time, 0);
    assert_eq!(current_task_info(&kernel, 100).time, 0);
    assert_eq!(kernel.task(id).get_dispatch_start(), Some(100));
}

#[test]
fn sys_task_info_writes_the_snapshot_to_user_memory() {
    let (mut kernel, id) = kernel_with_running_task();
    assert_eq!(sys_mmap(&mut kernel, 0x10000, 0x1000, 0x3), 0);
    assert_eq!(sys_task_info(&mut kernel, 0x10000, 1100), 0);
    assert_eq!(sys_task_info(&mut kernel, 0x10000, 1234), 0);
    let bytes = kernel.read_user_bytes(id, 0x10000, TASK_INFO_SIZE).unwrap();
    assert_eq!(bytes.len(), 2016);
    assert_eq!(&bytes[0..4], &[2u8, 0, 0, 0]);
    let counter = |syscall: usize| {
        let at = 4 + 4 * syscall;
        u32::from_le_bytes([bytes[at], bytes[at + 1], bytes[at + 2], bytes[at + 3]])
    };
    assert_eq!(counter(SYSCALL_TASK_INFO), 2);
    assert_eq!(counter(SYSCALL_MMAP), 1);
    assert_eq!(counter(SYSCALL_GET_TIME), 0);
    assert_eq!(&bytes[2004..2008], &[0u8, 0, 0, 0]);
    let mut time = [0u8; 8];
    time.copy_from_slice(&bytes[2008..2016]);
    assert_eq!(u64::from_le_bytes(time), 1134);
}

#[test]
fn sys_task_info_across_a_page_boundary() {
    let (mut kernel, id) = kernel_with_running_task();
    assert_eq!(sys_mmap(&mut kernel, 0x10000, 0x1000, 0x3), 0);
    assert_eq!(sys_mmap(&mut kernel, 0x11000, 0x1000, 0x3), 0);
    let at = 0x10000 + PAGE_SIZE - 1000;
    assert_eq!(sys_task_info(&mut kernel, at, 160), 0);
    let bytes = kernel.read_user_bytes(id, at, TASK_INFO_SIZE).unwrap();
    assert_eq!(bytes[0], 2);
    let tail = 4 + 4 * SYSCALL_TASK_INFO;
    assert_eq!(&bytes[tail..tail + 4], &[1u8, 0, 0, 0]);
    let mut time = [0u8; 8];
    time.copy_from_slice(&bytes[2008..2016]);
    assert_eq!(u64::from_le_bytes(time), 60);
    // With the second page missing nothing is written.
    assert_eq!(sys_munmap(&mut kernel, 0x11000, 0x1000), 0);
    assert_eq!(sys_task_info(&mut kernel, at, 999), -1);
    let head = kernel.read_user_bytes(id, at, 1000).unwrap();
    assert_eq!(&head[..], &bytes[..1000]);
}

#[test]
fn sys_get_time_writes_seconds_and_microseconds() {
    let (mut kernel, id) = kernel_with_running_task();
    assert_eq!(sys_mmap(&mut kernel, 0x10000, 0x1000, 0x3), 0);
    assert_eq!(sys_get_time(&mut kernel, 0x10010, 0, 3_000_007), 0);
    let bytes = kernel.read_user_bytes(id, 0x10010, 16).unwrap();
    assert_eq!(bytes, vec![3u8, 0, 0, 0, 0, 0, 0, 0, 7, 0, 0, 0, 0, 0, 0, 0]);
    assert_eq!(sys_get_time(&mut kernel, 0x10010, 99, 0x0102_0304_0506), 0);
    let bytes = kernel.read_user_bytes(id, 0x10010, 16).unwrap();
    let us: u64 = 0x0102_0304_0506;
    let mut expected = (us / 1_000_000).to_le_bytes().to_vec();
    expected.extend_from_slice(&(us % 1_000_000).to_le_bytes());
    assert_eq!(bytes, expected);
    // Bytes next to the value are untouched.
    assert_eq!(kernel.read_user_bytes(id, 0x10000, 16).unwrap(), vec![0u8; 16]);
    assert_eq!(kernel.read_user_bytes(id, 0x10020, 16).unwrap(), vec![0u8; 16]);
}

#[test]
fn sys_get_time_across_a_page_boundary() {
    let (mut kernel, id) = kernel_with_running_task();
    // Two areas, so that the two pages lie in frames of their own.
    assert_eq!(sys_mmap(&mut kernel, 0x11000, 0x1000, 0x3), 0);
    assert_eq!(sys_mmap(&mut kernel, 0x20000, 0x1000, 0x3), 0);
    assert_eq!(sys_mmap(&mut kernel, 0x10000, 0x1000, 0x3), 0);
    let ts = 0x10000 + PAGE_SIZE - 5;
    assert_eq!(sys_get_time(&mut kernel, ts, 0, 12_000_345), 0);
    let bytes = kernel.read_user_bytes(id, ts, 16).unwrap();
    assert_eq!(bytes, vec![12u8, 0, 0, 0, 0, 0, 0, 0, 0x59, 0x01, 0, 0, 0, 0, 0, 0]);
    // The first five bytes lie at the end of the first page's frame, the
    // rest at the start of the second page's frame.
    let space = kernel.task(id).get_address_space();
    let first = space.translate(VirtPageNum(0x10)).unwrap().ppn;
    let second = space.translate(VirtPageNum(0x11)).unwrap().ppn;
    assert_ne!(first, second);
    let pieces = space.translate_bytes(ts, 16, MapPermission::user_write());
    assert_eq!(pieces.len(), 2);
    assert_eq!((pieces[0].ppn, pieces[0].start, pieces[0].end), (first, PAGE_SIZE - 5, PAGE_SIZE));
    assert_eq!((pieces[1].ppn, pieces[1].start, pieces[1].end), (second, 0, 11));
}

#[test]
fn sys_get_time_fails_without_a_writable_user_page() {
    let (mut kernel, id) = kernel_with_running_task();
    assert_eq!(sys_get_time(&mut kernel, 0x10000, 0, 1), -1);
    // Readable only.
    assert_eq!(sys_mmap(&mut kernel, 0x10000, 0x1000, 0x1), 0);
    assert_eq!(sys_get_time(&mut kernel, 0x10000, 0, 1), -1);
    // The second page of the destination is missing: nothing is written.
    assert_eq!(sys_mmap(&mut kernel, 0x20000, 0x1000, 0x3), 0);
    assert_eq!(sys_get_time(&mut kernel, 0x20ff8, 0, 0xffff_ffff_ffff), -1);
    assert_eq!(kernel.read_user_bytes(id, 0x20ff8, 8).unwrap(), vec![0u8; 8]);
    // The range runs past the end of the address space.
    assert_eq!(sys_get_time(&mut kernel, usize::MAX - 7, 0, 1), -1);
}

#[test]
fn consecutive_get_time_values_do_not_decrease() {
    let (mut kernel, id) = kernel_with_running_task();
    assert_eq!(sys_mmap(&mut kernel, 0x10000, 0x1000, 0x3), 0);
    let mut last: (u64, u64) = (0, 0);
    for now in [0usize, 1, 999_999, 1_000_000, 1_000_001, 59_999_999, 60_000_000] {
        assert_eq!(sys_get_time(&mut kernel, 0x10000, 0, now), 0);
        let bytes = kernel.read_user_bytes(id, 0x10000, 16).unwrap();
        let mut sec = [0u8; 8];
        let mut usec = [0u8; 8];
        sec.copy_from_slice(&bytes[0..8]);
        usec.copy_from_slice(&bytes[8..16]);
        let value = (u64::from_le_bytes(sec), u64::from_le_bytes(usec));
        assert!(value >= last);
        assert!(value.1 < 1_000_000);
        assert_eq!(value.0 * 1_000_000 + value.1, now as u64);
        last = value;
    }
}

fn give_heap(kernel: &mut Kernel, id: usize) {
    let base = kernel.task(id).get_base_size();
    let perm = MapPermission { readable: true, writable: true, executable: false, user: true };
    assert_eq!(kernel.insert_framed_area(id, VirtAddr(base), VirtAddr(base), perm), Ok(()));
}

#[test]
fn sbrk_moves_the_break_and_returns_the_previous_one() {
    let (mut kernel, id) = kernel_with_running_task();
    give_heap(&mut kernel, id);
    let free = kernel.free_frames();
    assert_eq!(sys_sbrk(&mut kernel, 0), 0x4000);
    assert!(!mapped(&kernel, id, 4));
    assert_eq!(sys_sbrk(&mut kernel, 0x100), 0x4000);
    assert!(mapped(&kernel, id, 4));
    assert!(!mapped(&kernel, id, 5));
    assert_eq!(kernel.free_frames(), free - 1);
    assert_eq!(sys_sbrk(&mut kernel, -0x80), 0x4100);
    assert_eq!(kernel.task(id).get_program_brk(), 0x4080);
    assert!(mapped(&kernel, id, 4));
    assert_eq!(sys_sbrk(&mut kernel, -0x81), -1);
    assert_eq!(kernel.task(id).get_program_brk(), 0x4080);
    assert_eq!(sys_sbrk(&mut kernel, 0x2000), 0x4080);
    assert_eq!(kernel.task(id).get_program_brk(), 0x6080);
    assert!(mapped(&kernel, id, 4) && mapped(&kernel, id, 5) && mapped(&kernel, id, 6));
    assert!(!mapped(&kernel, id, 7));
    assert_eq!(kernel.free_frames(), free - 3);
    assert_eq!(sys_sbrk(&mut kernel, -0x2080), 0x6080);
    assert_eq!(kernel.task(id).get_program_brk(), 0x4000);
    assert!(!mapped(&kernel, id, 4) && !mapped(&kernel, id, 5) && !mapped(&kernel, id, 6));
    assert_eq!(kernel.free_frames(), free);
    assert_eq!(sys_sbrk(&mut kernel, -1), -1);
    assert_eq!(sys_sbrk(&mut kernel, i32::MIN), -1);
    assert_eq!(kernel.task(id).get_program_brk(), 0x4000);
    assert_eq!(kernel.task(id).get_base_size(), 0x4000);
    assert_eq!(kernel.task(id).get_address_space().area_count(), 1);
}

#[test]
fn sbrk_keeps_what_the_heap_holds() {
    let (mut kernel, id) = kernel_with_running_task();
    give_heap(&mut kernel, id);
    assert_eq!(sys_sbrk(&mut kernel, 0x1000), 0x4000);
    assert_eq!(sys_get_time(&mut kernel, 0x4000, 0, 5_000_006), 0);
    let frame = kernel.task(id).get_address_space().translate(VirtPageNum(4)).unwrap().ppn;
    assert_eq!(sys_sbrk(&mut kernel, 0x3000), 0x5000);
    assert_eq!(sys_sbrk(&mut kernel, -0x2800), 0x8000);
    assert_eq!(kernel.task(id).get_address_space().translate(VirtPageNum(4)).unwrap().ppn, frame);
    let bytes = kernel.read_user_bytes(id, 0x4000, 16).unwrap();
    assert_eq!(bytes, vec![5u8, 0, 0, 0, 0, 0, 0, 0, 6, 0, 0, 0, 0, 0, 0, 0]);
    assert!(mapped(&kernel, id, 5));
    assert!(!mapped(&kernel, id, 6));
}

#[test]
fn sbrk_fails_without_a_heap_or_without_backing() {
    let (mut kernel, id) = kernel_with_running_task();
    // No area begins at the page of the base size.
    assert_eq!(sys_sbrk(&mut kernel, 0x10), -1);
    assert_eq!(sys_sbrk(&mut kernel, 0), -1);
    assert_eq!(kernel.task(id).get_program_brk(), 0x4000);
    give_heap(&mut kernel, id);
    // More pages than there are free frames.
    let free = kernel.free_frames();
    assert_eq!(sys_sbrk(&mut kernel, ((free + 1) * PAGE_SIZE) as i32), -1);
    assert_eq!(sys_sbrk(&mut kernel, i32::MAX), -1);
    assert_eq!(kernel.free_frames(), free);
    assert_eq!(kernel.task(id).get_program_brk(), 0x4000);
    assert!(!mapped(&kernel, id, 4));
    // The heap would grow into a mapped page.
    assert_eq!(sys_mmap(&mut kernel, 0x6000, 0x1000, 0x3), 0);
    assert_eq!(sys_sbrk(&mut kernel, 0x3000), -1);
    assert!(!mapped(&kernel, id, 4));
    assert!(!mapped(&kernel, id, 5));
    assert_eq!(kernel.free_frames(), free - 1);
    assert_eq!(sys_sbrk(&mut kernel, 0x2000), 0x4000);
    assert!(mapped(&kernel, id, 4));
    assert!(mapped(&kernel, id, 5));
    assert_eq!(kernel.free_frames(), free - 3);
}

#[test]
fn exit_releases_the_address_space_and_its_frames() {
    let mut kernel = new_kernel();
    let a = add_task(&mut kernel, new_task(0x10));
    let b = add_task(&mut kernel, new_task(0x20));
    assert!(run_tasks(&mut kernel, 1).is_some());
    assert_eq!(sys_mmap(&mut kernel, 0x10000, 0x3000, 0x3), 0);
    let _ = sys_yield(&mut kernel);
    assert!(run_tasks(&mut kernel, 2).is_some());
    assert_eq!(current_task(&kernel), Some(b));
    assert_eq!(sys_mmap(&mut kernel, 0x10000, 0x2000, 0x3), 0);
    assert_eq!(sys_mmap(&mut kernel, 0x30000, 0x2000, 0x3), 0);
    assert_eq!(kernel.free_frames(), FRAME_END - FRAME_START - 7);

    let handoff = sys_exit(&mut kernel, -1);
    assert_eq!(handoff, Switch { from: ContextSlot::Scratch, to: ContextSlot::Idle });
    assert_eq!(current_task(&kernel), None);
    assert_eq!(kernel.task(b).get_status(), TaskStatus::Exited);
    assert_eq!(kernel.task(b).get_address_space().area_count(), 0);
    assert!(!mapped(&kernel, b, 0x10));
    assert!(!mapped(&kernel, b, 0x30));
    assert_eq!(kernel.free_frames(), FRAME_END - FRAME_START - 3);
    // The other task keeps its pages.
    assert!(mapped(&kernel, a, 0x10));
    assert!(mapped(&kernel, a, 0x12));
    assert_eq!(kernel.ready_count(), 1);
    assert_eq!(fetch_task(&mut kernel), Some(a));
}

#[test]
fn tasks_do_not_share_frames() {
    let mut kernel = new_kernel();
    let a = add_task(&mut kernel, new_task(0x10));
    let b = add_task(&mut kernel, new_task(0x20));
    assert!(run_tasks(&mut kernel, 1).is_some());
    assert_eq!(sys_mmap(&mut kernel, 0x10000, 0x1000, 0x3), 0);
    assert_eq!(sys_get_time(&mut kernel, 0x10000, 0, 9_000_009), 0);
    let _ = sys_yield(&mut kernel);
    assert!(run_tasks(&mut kernel, 2).is_some());
    assert_eq!(sys_mmap(&mut kernel, 0x10000, 0x1000, 0x3), 0);
    assert_eq!(sys_get_time(&mut kernel, 0x10000, 0, 4_000_004), 0);
    let frame_a = kernel.task(a).get_address_space().translate(VirtPageNum(0x10)).unwrap().ppn;
    let frame_b = kernel.task(b).get_address_space().translate(VirtPageNum(0x10)).unwrap().ppn;
    assert_ne!(frame_a, frame_b);
    assert_eq!(kernel.read_user_bytes(a, 0x10000, 1).unwrap(), vec![9u8]);
    assert_eq!(kernel.read_user_bytes(b, 0x10000, 1).unwrap(), vec![4u8]);
}

#[test]
fn run_tasks_without_work_changes_nothing() {
    let mut kernel = new_kernel();
    assert_eq!(run_tasks(&mut kernel, 5), None);
    assert_eq!(current_task(&kernel), None);
    assert_eq!(kernel.task_count(), 0);
    let (mut kernel, id) = kernel_with_running_task();
    assert_eq!(run_tasks(&mut kernel, 6), None);
    assert_eq!(current_task(&kernel), Some(id));
}

#[test]
fn dispatch_marks_running_and_stamps_first_dispatch_only() {
    let mut kernel = new_kernel();
    let id = add_task(&mut kernel, new_task(0x10));
    assert_eq!(kernel.task(id).get_status(), TaskStatus::Ready);
    assert_eq!(kernel.task(id).get_dispatch_start(), None);
    assert_eq!(kernel.ready_count(), 1);
    assert!(run_tasks(&mut kernel, 40).is_some());
    assert_eq!(kernel.task(id).get_status(), TaskStatus::Running);
    assert_eq!(kernel.task(id).get_dispatch_start(), Some(40));
    assert_eq!(kernel.ready_count(), 0);
    let _ = sys_yield(&mut kernel);
    assert_eq!(kernel.task(id).get_status(), TaskStatus::Ready);
    assert_eq!(current_task(&kernel), None);
    assert_eq!(kernel.ready_count(), 1);
    assert!(run_tasks(&mut kernel, 90).is_some());
    assert_eq!(kernel.task(id).get_status(), TaskStatus::Running);
    assert_eq!(kernel.task(id).get_dispatch_start(), Some(40));
}

#[test]
fn first_dispatch_at_time_zero_is_recorded() {
    let mut kernel = new_kernel();
    let id = add_task(&mut kernel, new_task(0x10));
    assert!(run_tasks(&mut kernel, 0).is_some());
    assert_eq!(kernel.task(id).get_dispatch_start(), Some(0));
    let _ = sys_yield(&mut kernel);
    assert!(run_tasks(&mut kernel, 50).is_some());
    assert_eq!(kernel.task(id).get_dispatch_start(), Some(0));
    assert_eq!(current_task_info(&kernel, 80).time, 80);
}

#[test]
fn take_current_leaves_none() {
    let (mut kernel, id) = kernel_with_running_task();
    assert_eq!(current_task(&kernel), Some(id));
    assert_eq!(current_task(&kernel), Some(id));
    assert_eq!(take_current_task(&mut kernel), Some(id));
    assert_eq!(current_task(&kernel), None);
    assert_eq!(take_current_task(&mut kernel), None);
}

#[test]
fn current_task_accessors() {
    let (kernel, id) = kernel_with_running_task();
    assert_eq!(current_user_token(&kernel), 0x10);
    assert_eq!(current_trap_cx(&kernel), PhysPageNum(0x11));
    assert_eq!(kernel.task(id).get_user_token(), 0x10);
    assert_eq!(kernel.task(id).get_trap_cx_ppn(), PhysPageNum(0x11));
    assert_eq!(kernel.task_current(), id);
}

#[test]
fn schedule_hands_over_to_the_idle_flow() {
    assert_eq!(
        schedule(ContextSlot::Task(3)),
        Switch { from: ContextSlot::Task(3), to: ContextSlot::Idle }
    );
    assert_eq!(
        schedule(ContextSlot::Scratch),
        Switch { from: ContextSlot::Scratch, to: ContextSlot::Idle }
    );
}

#[test]
fn a_task_resumes_with_the_context_it_was_suspended_with() {
    let mut kernel = new_kernel();
    let a = add_task(&mut kernel, new_task(0x10));
    let entry = kernel.task(a).get_context();
    assert_eq!((entry.ra, entry.sp), (0x8000_0010, 0x9000_0000));

    let idle = TaskContext { ra: 1, sp: 2, s: [3; 12] };
    let handoff = run_tasks(&mut kernel, 1).unwrap();
    let resumed = kernel.switch_contexts(handoff, idle);
    assert_eq!((resumed.ra, resumed.sp, resumed.s), (entry.ra, entry.sp, entry.s));

    let in_task = TaskContext { ra: 0x44, sp: 0x55, s: [6; 12] };
    let (_, handoff) = sys_yield(&mut kernel);
    let resumed = kernel.switch_contexts(handoff, in_task);
    assert_eq!((resumed.ra, resumed.sp, resumed.s), (1, 2, [3; 12]));

    let idle_again = TaskContext { ra: 7, sp: 8, s: [9; 12] };
    let handoff = run_tasks(&mut kernel, 2).unwrap();
    let resumed = kernel.switch_contexts(handoff, idle_again);
    assert_eq!((resumed.ra, resumed.sp, resumed.s), (0x44, 0x55, [6; 12]));

    // What an exiting task saves is lost; the idle flow goes on.
    let dying = TaskContext { ra: 0xdead, sp: 0xbeef, s: [0; 12] };
    let handoff = sys_exit(&mut kernel, 0);
    let resumed = kernel.switch_contexts(handoff, dying);
    assert_eq!((resumed.ra, resumed.sp, resumed.s), (7, 8, [9; 12]));
    let kept = kernel.task(a).get_context();
    assert_eq!((kept.ra, kept.sp), (0x44, 0x55));
}

#[test]
fn handles_are_positions_in_the_order_of_arrival() {
    let mut kernel = new_kernel();
    for expected in 0..5usize {
        assert_eq!(add_task(&mut kernel, new_task(0x10 * (expected + 1))), expected);
    }
    assert_eq!(kernel.task_count(), 5);
    assert_eq!(kernel.ready_count(), 5);
    for expected in 0..5usize {
        assert_eq!(fetch_task(&mut kernel), Some(expected));
    }
    assert_eq!(fetch_task(&mut kernel), None);
}

#[test]
fn yielding_tasks_take_turns() {
    let mut kernel = new_kernel();
    let a = add_task(&mut kernel, new_task(0x10));
    let b = add_task(&mut kernel, new_task(0x20));
    let mut order: Vec<usize> = Vec::new();
    for now in 0..6usize {
        assert!(run_tasks(&mut kernel, now).is_some());
        order.push(current_task(&kernel).unwrap());
        let _ = sys_yield(&mut kernel);
    }
    assert_eq!(order, vec![a, b, a, b, a, b]);
}
