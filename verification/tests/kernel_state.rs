use kernel_core::config::MAX_SYSCALL_NUM;
use kernel_core::mm::address::{PhysPageNum, VirtAddr, VirtPageNum};
use kernel_core::mm::frame_allocator::StackFrameAllocator;
use kernel_core::mm::memory_set::{MapError, MapType, MemorySet};
use kernel_core::mm::page_table::MapPermission;
use kernel_core::syscall::process::sys_get_time;
use kernel_core::task::context::{ContextSlot, Switch, TaskContext};
use kernel_core::task::kernel::{
    change_program_brk, exit_current_and_run_next, suspend_current_and_run_next, Kernel,
};
use kernel_core::task::manager::{add_task, fetch_task, TaskManager};
use kernel_core::task::processor::{current_task, run_tasks, Processor};
use kernel_core::task::task::{TaskControlBlock, TaskStatus};

fn rw_user() -> MapPermission {
    MapPermission { readable: true, writable: true, executable: false, user: true }
}

fn plain_task(root: usize, base_size: usize) -> TaskControlBlock {
    TaskControlBlock::new(
        MemorySet::new_bare(PhysPageNum(root)),
        PhysPageNum(root + 1),
        base_size,
        TaskContext::zero_init(),
    )
}

fn running_kernel() -> (Kernel, usize) {
    let mut kernel = Kernel::new(PhysPageNum(0x100), PhysPageNum(0x110));
    let id = add_task(&mut kernel, plain_task(0x10, 0x8000));
    assert!(run_tasks(&mut kernel, 10).is_some());
    (kernel, id)
}

#[test]
fn new_kernel_is_empty() {
    let kernel = Kernel::new(PhysPageNum(0x100), PhysPageNum(0x110));
    assert_eq!(kernel.task_count(), 0);
    assert_eq!(kernel.ready_count(), 0);
    assert_eq!(kernel.free_frames(), 0x10);
    assert_eq!(current_task(&kernel), None);
}

#[test]
fn processor_starts_idle() {
    let mut processor = Processor::new();
    assert_eq!(processor.current(), None);
    assert_eq!(processor.take_current(), None);
    assert_eq!(processor.current(), None);
}

#[test]
fn task_manager_is_first_in_first_out() {
    let mut manager = TaskManager::new();
    assert_eq!(manager.len(), 0);
    assert_eq!(manager.fetch(), None);
    manager.add(5);
    manager.add(3);
    manager.add(9);
    assert_eq!(manager.len(), 3);
    assert_eq!(manager.fetch(), Some(5));
    manager.add(1);
    assert_eq!(manager.fetch(), Some(3));
    assert_eq!(manager.fetch(), Some(9));
    assert_eq!(manager.fetch(), Some(1));
    assert_eq!(manager.fetch(), None);
    assert_eq!(manager.len(), 0);
}

#[test]
fn new_control_block_is_ready_and_untouched() {
    let mut task = TaskControlBlock::new(
        MemorySet::new_bare(PhysPageNum(0x42)),
        PhysPageNum(0x43),
        0x8000,
        TaskContext::resume_at(0x1000, 0x2000),
    );
    assert_eq!(task.get_status(), TaskStatus::Ready);
    assert_eq!(task.get_user_token(), 0x42);
    assert_eq!(task.get_trap_cx_ppn(), PhysPageNum(0x43));
    assert_eq!(task.get_base_size(), 0x8000);
    assert_eq!(task.get_program_brk(), 0x8000);
    assert_eq!(task.get_dispatch_start(), None);
    assert_eq!(task.get_context().ra, 0x1000);
    assert_eq!(task.get_context().sp, 0x2000);
    assert_eq!(task.get_context().s, [0usize; 12]);
    assert_eq!(task.get_address_space().area_count(), 0);
    for syscall in 0..MAX_SYSCALL_NUM {
        assert_eq!(task.get_syscall_times(syscall), 0);
    }
    task.count_syscall(64);
    task.count_syscall(64);
    task.count_syscall(0);
    assert_eq!(task.get_syscall_times(64), 2);
    assert_eq!(task.get_syscall_times(0), 1);
    assert_eq!(task.get_syscall_times(63), 0);
}

#[test]
fn break_after_checks_both_bounds() {
    let task = plain_task(0x10, 0x8000);
    assert_eq!(task.break_after(0), Some(0x8000));
    assert_eq!(task.break_after(1), Some(0x8001));
    assert_eq!(task.break_after(-1), None);
    assert_eq!(task.break_after(i32::MAX), Some(0x8000 + i32::MAX as usize));
    assert_eq!(task.break_after(i32::MIN), None);
    let high = plain_task(0x10, isize::MAX as usize);
    assert_eq!(high.break_after(0), Some(isize::MAX as usize));
    assert_eq!(high.break_after(1), None);
}

#[test]
fn zero_context_is_all_zero() {
    let cx = TaskContext::zero_init();
    assert_eq!((cx.ra, cx.sp, cx.s), (0, 0, [0usize; 12]));
}

#[test]
fn a_task_with_identity_mapped_pages_can_be_added() {
    let mut none = StackFrameAllocator::new(PhysPageNum(0), PhysPageNum(0));
    let mut space = MemorySet::new_bare(PhysPageNum(0x10));
    assert_eq!(
        space.insert_identical_area(&mut none, VirtAddr(0x104000), VirtAddr(0x105000), rw_user()),
        Ok(())
    );
    let task =
        TaskControlBlock::new(space, PhysPageNum(0x11), 0x8000, TaskContext::zero_init());
    let mut kernel = Kernel::new(PhysPageNum(0x100), PhysPageNum(0x110));
    let id = add_task(&mut kernel, task);
    assert!(run_tasks(&mut kernel, 1).is_some());
    let entry = kernel.task(id).get_address_space().translate(VirtPageNum(0x104)).unwrap();
    assert_eq!(entry.ppn, PhysPageNum(0x104));
    assert_eq!(kernel.free_frames(), 0x10);
    // The page lies in a frame of memory, so the kernel can write to it.
    assert_eq!(sys_get_time(&mut kernel, 0x104ff0, 0, 2_000_001), 0);
    assert_eq!(
        kernel.read_user_bytes(id, 0x104ff0, 9).unwrap(),
        vec![2u8, 0, 0, 0, 0, 0, 0, 0, 1]
    );
    // One byte further the value would reach into an unmapped page.
    assert_eq!(sys_get_time(&mut kernel, 0x104ff1, 0, 2_000_001), -1);
}

#[test]
fn pages_mapped_outside_memory_cannot_be_written() {
    let (mut kernel, id) = running_kernel();
    assert_eq!(
        kernel.insert_identical_area(id, VirtAddr(0x500000), VirtAddr(0x501000), rw_user()),
        Ok(())
    );
    assert_eq!(kernel.free_frames(), 0x10);
    assert_eq!(kernel.task(id).get_address_space().area(0).map_type(), MapType::Identical);
    assert_eq!(sys_get_time(&mut kernel, 0x500000, 0, 1), -1);
    assert_eq!(kernel.read_user_bytes(id, 0x500000, 4), None);
    assert!(!kernel.write_user_bytes(id, 0x500000, &vec![1u8, 2, 3]));
    assert_eq!(
        kernel.translate_user_range(id, 0x500000, 4, MapPermission::user_write()),
        None
    );
}

#[test]
fn user_bytes_are_written_and_read_through_the_address_space() {
    let (mut kernel, id) = running_kernel();
    assert_eq!(
        kernel.insert_framed_area(id, VirtAddr(0x20000), VirtAddr(0x22000), rw_user()),
        Ok(()),
    );
    let data: Vec<u8> = (0..=255u8).collect();
    assert!(kernel.write_user_bytes(id, 0x20f80, &data));
    assert_eq!(kernel.read_user_bytes(id, 0x20f80, 256).unwrap(), data);
    assert_eq!(kernel.read_user_bytes(id, 0x20fff, 2).unwrap(), vec![127u8, 128]);
    assert_eq!(kernel.read_user_bytes(id, 0x21000, 1).unwrap(), vec![128u8]);
    assert_eq!(kernel.read_user_bytes(id, 0x20000, 0).unwrap(), Vec::<u8>::new());
    // Writing nothing succeeds everywhere that an empty range can lie.
    assert!(kernel.write_user_bytes(id, 0x90000, &Vec::new()));
    // A range that leaves the mapped pages is not touched at all.
    assert!(!kernel.write_user_bytes(id, 0x21ff0, &vec![9u8; 32]));
    assert_eq!(kernel.read_user_bytes(id, 0x21ff0, 16).unwrap(), vec![0u8; 16]);
    assert_eq!(kernel.read_user_bytes(id, 0x21ff0, 17), None);
    let pieces = kernel
        .translate_user_range(id, 0x20ffe, 4, MapPermission::user_read())
        .unwrap();
    assert_eq!(pieces.len(), 2);
    assert_eq!((pieces[0].start, pieces[0].end), (0xffe, 0x1000));
    assert_eq!((pieces[1].start, pieces[1].end), (0, 2));
}

#[test]
fn read_only_pages_can_be_read_but_not_written() {
    let (mut kernel, id) = running_kernel();
    assert_eq!(
        kernel.insert_framed_area(
            id,
            VirtAddr(0x20000),
            VirtAddr(0x21000),
            MapPermission::user_read()
        ),
        Ok(())
    );
    assert!(!kernel.write_user_bytes(id, 0x20000, &vec![1u8]));
    assert_eq!(kernel.read_user_bytes(id, 0x20000, 1).unwrap(), vec![0u8]);
    let kernel_only =
        MapPermission { readable: true, writable: true, executable: false, user: false };
    assert_eq!(
        kernel.insert_framed_area(id, VirtAddr(0x30000), VirtAddr(0x31000), kernel_only),
        Ok(()),
    );
    assert!(!kernel.write_user_bytes(id, 0x30000, &vec![1u8]));
    assert_eq!(kernel.read_user_bytes(id, 0x30000, 1), None);
}

#[test]
fn kernel_areas_of_any_task_can_be_changed() {
    let mut kernel = Kernel::new(PhysPageNum(0x100), PhysPageNum(0x110));
    let a = add_task(&mut kernel, plain_task(0x10, 0x8000));
    let b = add_task(&mut kernel, plain_task(0x20, 0x8000));
    assert_eq!(kernel.insert_framed_area(a, VirtAddr(0x1000), VirtAddr(0x3000), rw_user()), Ok(()));
    assert_eq!(kernel.insert_framed_area(b, VirtAddr(0x1000), VirtAddr(0x2000), rw_user()), Ok(()));
    assert_eq!(kernel.free_frames(), 0x10 - 3);
    assert_eq!(
        kernel.insert_framed_area(a, VirtAddr(0x2000), VirtAddr(0x4000), rw_user()),
        Err(MapError::AlreadyMapped)
    );
    assert_eq!(
        kernel.insert_framed_area(b, VirtAddr(0x8000), VirtAddr(0x20000), rw_user()),
        Err(MapError::OutOfFrames)
    );
    assert_eq!(kernel.resize_area_with_start_vpn(b, VirtPageNum(1), VirtPageNum(4)), Ok(()));
    assert_eq!(kernel.free_frames(), 0x10 - 5);
    assert_eq!(
        kernel.resize_area_with_start_vpn(b, VirtPageNum(2), VirtPageNum(4)),
        Err(MapError::NoSuchArea)
    );
    assert_eq!(kernel.remove_area_with_start_vpn(a, VirtPageNum(1)), Ok(()));
    assert_eq!(
        kernel.remove_area_with_start_vpn(a, VirtPageNum(1)),
        Err(MapError::NoSuchArea)
    );
    assert_eq!(kernel.free_frames(), 0x10 - 3);
    assert_eq!(kernel.task(a).get_address_space().area_count(), 0);
    assert_eq!(kernel.task(b).get_address_space().area_count(), 1);
    assert_eq!(kernel.task(b).get_address_space().area(0).end(), VirtPageNum(4));
    assert_eq!(fetch_task(&mut kernel), Some(a));
    assert_eq!(fetch_task(&mut kernel), Some(b));
}

#[test]
fn suspend_and_exit_hand_over_to_the_idle_flow() {
    let mut kernel = Kernel::new(PhysPageNum(0x100), PhysPageNum(0x110));
    let a = add_task(&mut kernel, plain_task(0x10, 0x8000));
    assert!(run_tasks(&mut kernel, 1).is_some());
    assert_eq!(
        suspend_current_and_run_next(&mut kernel),
        Switch { from: ContextSlot::Task(a), to: ContextSlot::Idle }
    );
    assert_eq!(kernel.task(a).get_status(), TaskStatus::Ready);
    assert_eq!(kernel.ready_count(), 1);
    assert_eq!(current_task(&kernel), None);
    assert!(run_tasks(&mut kernel, 2).is_some());
    assert_eq!(kernel.insert_framed_area(a, VirtAddr(0x1000), VirtAddr(0x3000), rw_user()), Ok(()));
    assert_eq!(
        exit_current_and_run_next(&mut kernel),
        Switch { from: ContextSlot::Scratch, to: ContextSlot::Idle }
    );
    assert_eq!(kernel.task(a).get_status(), TaskStatus::Exited);
    assert_eq!(kernel.ready_count(), 0);
    assert_eq!(kernel.free_frames(), 0x10);
    assert_eq!(run_tasks(&mut kernel, 3), None);
    // No syscall was involved.
    for syscall in 0..MAX_SYSCALL_NUM {
        assert_eq!(kernel.task(a).get_syscall_times(syscall), 0);
    }
}

#[test]
fn change_program_brk_resizes_the_heap() {
    let (mut kernel, id) = running_kernel();
    assert_eq!(change_program_brk(&mut kernel, 1), None);
    assert_eq!(
        kernel.insert_framed_area(id, VirtAddr(0x8000), VirtAddr(0x8000), rw_user()),
        Ok(()),
    );
    assert_eq!(change_program_brk(&mut kernel, 1), Some(0x8000));
    assert_eq!(kernel.task(id).get_program_brk(), 0x8001);
    assert_eq!(kernel.task(id).get_address_space().area(0).end(), VirtPageNum(9));
    assert_eq!(change_program_brk(&mut kernel, 0xfff), Some(0x8001));
    assert_eq!(kernel.task(id).get_address_space().area(0).end(), VirtPageNum(9));
    assert_eq!(change_program_brk(&mut kernel, 1), Some(0x9000));
    assert_eq!(kernel.task(id).get_address_space().area(0).end(), VirtPageNum(10));
    assert_eq!(kernel.free_frames(), 0x10 - 2);
    assert_eq!(change_program_brk(&mut kernel, -0x1002), None);
    assert_eq!(change_program_brk(&mut kernel, -0x1001), Some(0x9001));
    assert_eq!(kernel.task(id).get_program_brk(), 0x8000);
    assert_eq!(kernel.task(id).get_address_space().area(0).end(), VirtPageNum(8));
    assert_eq!(kernel.free_frames(), 0x10);
}

#[test]
fn switching_into_the_slot_that_is_saved_resumes_the_live_context() {
    let mut kernel = Kernel::new(PhysPageNum(0x100), PhysPageNum(0x110));
    let live = TaskContext { ra: 11, sp: 22, s: [33; 12] };
    let resumed =
        kernel.switch_contexts(Switch { from: ContextSlot::Idle, to: ContextSlot::Idle }, live);
    assert_eq!((resumed.ra, resumed.sp, resumed.s), (11, 22, [33; 12]));
    let other = TaskContext { ra: 1, sp: 2, s: [3; 12] };
    let resumed = kernel
        .switch_contexts(Switch { from: ContextSlot::Scratch, to: ContextSlot::Idle }, other);
    assert_eq!((resumed.ra, resumed.sp, resumed.s), (11, 22, [33; 12]));
}

#[test]
fn the_idle_flow_starts_with_a_zero_context() {
    let mut kernel = Kernel::new(PhysPageNum(0x100), PhysPageNum(0x110));
    let live = TaskContext { ra: 5, sp: 6, s: [7; 12] };
    let resumed = kernel
        .switch_contexts(Switch { from: ContextSlot::Scratch, to: ContextSlot::Idle }, live);
    assert_eq!((resumed.ra, resumed.sp, resumed.s), (0, 0, [0usize; 12]));
}
