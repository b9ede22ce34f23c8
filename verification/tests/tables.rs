use forward_os::container::{run_in_container, ContainerRegistry, ContainerState};
use forward_os::fd::{FdTable, FileDescriptor, ReadStart, WriteStart};
use forward_os::ram::{allocate_sectors_direct, RamManager};

#[test]
fn descriptors_start_at_three_and_are_reused() {
    let mut t = FdTable::new();
    assert_eq!(t.allocate_fd(10, false, 100), 3);
    assert_eq!(t.allocate_fd(11, true, 0), 4);
    let d = t.get_fd(3).unwrap();
    assert_eq!(d.cluster, 10);
    assert_eq!(d.position, 0);
    assert_eq!(d.file_size, 100);
    assert!(t.get_fd(0).is_none());
    assert!(t.get_fd(5).is_none());
    assert!(t.get_fd(300).is_none());
    assert!(t.close_fd(3));
    assert!(t.get_fd(3).is_none());
    // Closing succeeds for any number from 3 to 255, open or not.
    assert!(t.close_fd(3));
    assert!(!t.close_fd(2));
    assert!(!t.close_fd(256));
    assert_eq!(t.allocate_fd(12, false, 1), 3);
}

#[test]
fn descriptor_table_fills_up() {
    let mut t = FdTable::new();
    for k in 3..256 {
        assert_eq!(t.allocate_fd(2, false, 0), k);
    }
    assert_eq!(t.allocate_fd(2, false, 0), -1);
}

#[test]
fn lseek_whence_and_errors() {
    let mut t = FdTable::new();
    let fd = t.allocate_fd(5, false, 1000) as u32;
    assert_eq!(t.sys_lseek(fd, 100, 0), 100);
    assert_eq!(t.sys_lseek(fd, 50, 1), 150);
    assert_eq!(t.sys_lseek(fd, -10, 2), 990);
    assert_eq!(t.sys_lseek(fd, -2000, 1), -1);
    assert_eq!(t.get_fd(fd).unwrap().position, 990);
    assert_eq!(t.sys_lseek(fd, 0, 3), -1);
    assert_eq!(t.sys_lseek(99, 0, 0), -1);
}

#[test]
fn seek_then_tell_and_fstat() {
    let mut t = FdTable::new();
    let fd = t.allocate_fd(7, true, 64) as u32;
    assert_eq!(t.sys_seek(fd, 4096), 4096);
    let st = t.sys_fstat(fd).unwrap();
    assert_eq!(st.position, 4096);
    assert_eq!(st.cluster, 7);
    assert!(st.is_dir);
    assert_eq!(st.file_size, 64);
    assert_eq!(
        st.to_bytes(),
        vec![64, 0, 0, 0, 7, 0, 0, 0, 0, 0x10, 0, 0, 0, 0, 0, 0, 1, 0, 0, 0, 0, 0, 0, 0]
    );
    assert_eq!(t.sys_seek(200, 1), -1);
    assert!(t.sys_fstat(200).is_none());
    let mut d = FileDescriptor { cluster: 1, position: 2, is_dir: false, file_size: 3 };
    d.seek(77);
    assert_eq!(d.position, 77);
}

#[test]
fn read_and_write_starts() {
    let mut t = FdTable::new();
    let fd = t.allocate_fd(9, false, 10) as u32;
    assert!(matches!(t.begin_read(fd, 0, 5), ReadStart::Refused));
    assert!(matches!(t.begin_read(77, 0x1000, 5), ReadStart::Refused));
    match t.begin_read(fd, 0x1000, 100) {
        ReadStart::Read { cluster, offset, max_read } => {
            assert_eq!((cluster, offset, max_read), (9, 0, 10));
        }
        _ => panic!("read refused"),
    }
    t.finish_read(fd, 10);
    assert_eq!(t.get_fd(fd).unwrap().position, 10);
    assert!(matches!(t.begin_read(fd, 0x1000, 100), ReadStart::Nothing));
    assert!(matches!(t.begin_write(fd, 0, 4), WriteStart::Refused));
    assert!(matches!(t.begin_write(fd, 0x1000, 4), WriteStart::Write { cluster: 9, offset: 10 }));
    assert_eq!(t.finish_write(fd, 4), Some((9, 14)));
    assert_eq!(t.get_fd(fd).unwrap().file_size, 14);
    t.sys_seek(fd, 0);
    assert_eq!(t.finish_write(fd, 4), None);
    let dir = t.allocate_fd(3, true, 0) as u32;
    assert!(matches!(t.begin_write(dir, 0x1000, 4), WriteStart::Refused));
}

#[test]
fn pages_are_allocated_first_fit() {
    let mut m = RamManager::new(64 * 4096);
    assert_eq!(m.total_sectors(), 64);
    assert!(m.is_used(0));
    assert_eq!(m.allocate_sectors(1), None);
    for p in 10..20 {
        m.mark_free(p);
    }
    assert!(!m.is_used(12));
    assert!(m.is_used(64));
    assert_eq!(m.allocate_sectors(3), Some(10 * 4096));
    assert!(m.is_used(10) && m.is_used(12) && !m.is_used(13));
    assert_eq!(m.allocate_sectors(8), None);
    assert_eq!(m.allocate_sectors(7), Some(13 * 4096));
    assert_eq!(m.allocate_sectors(0), None);
}

#[test]
fn aligned_allocation_and_free() {
    let mut m = RamManager::new(64 * 4096);
    for p in 1..40 {
        m.mark_free(p);
    }
    assert_eq!(m.allocate_aligned(2, 8 * 4096), Some(8 * 4096));
    assert_eq!(m.allocate_aligned(1, 3 * 4096), Some(3 * 4096));
    m.free_range(8 * 4096, 2);
    assert!(!m.is_used(8) && !m.is_used(9));
    assert_eq!(allocate_sectors_direct(&mut m, 1), 4096);
    assert_eq!(allocate_sectors_direct(&mut m, 100), u64::MAX);
    m.mark_used(1);
    assert!(m.is_used(1));
}

#[test]
fn freed_page_can_be_allocated_again() {
    let mut m = RamManager::new(8 * 4096);
    m.mark_free(5);
    let a = m.allocate_sectors(1).unwrap();
    assert_eq!(a, 5 * 4096);
    assert_eq!(m.allocate_sectors(1), None);
    m.free_range(a, 1);
    assert_eq!(m.allocate_sectors(1), Some(a));
}

#[test]
fn unmapped_pages_come_back_at_the_same_address() {
    let mut m = RamManager::new(32 * 4096);
    for p in 4..32 {
        m.mark_free(p);
    }
    m.mark_used(6);
    let a = allocate_sectors_direct(&mut m, 3);
    assert_eq!(a, 7 * 4096);
    m.free_range(a, 3);
    assert_eq!(allocate_sectors_direct(&mut m, 3), a);
    // Page-aligned and first-fit allocations pick the same pages.
    let mut m1 = RamManager::new(32 * 4096);
    let mut m2 = RamManager::new(32 * 4096);
    for p in [3, 4, 9, 10, 11, 12] {
        m1.mark_free(p);
        m2.mark_free(p);
    }
    assert_eq!(m1.allocate_aligned(3, 4096), m2.allocate_sectors(3));
    assert_eq!(m1.allocate_aligned(3, 4096), None);
    assert_eq!(m1.allocate_aligned(usize::MAX, 4096), None);
}

#[test]
fn containers_lifecycle() {
    let mut r = ContainerRegistry::new();
    // Before init, ids are handed out but nothing is recorded.
    assert_eq!(r.create_container(0x1000, 1, "early"), 1);
    assert_eq!(r.get_container_state(1), None);
    r.init();
    let id = r.create_container(0x10_0000, 64, "test_container");
    assert_eq!(id, 1);
    let id2 = r.create_container(0x20_0000, 1, "second");
    assert_eq!(id2, 2);
    assert_eq!(r.get_container_state(id), Some(ContainerState::Running));
    assert_eq!(r.get_container_mem(id), Some(0x10_0000));
    assert!(r.is_in_container_memory(0x10_0000 + 64 * 4096 - 1));
    assert!(!r.is_in_container_memory(0x10_0000 + 64 * 4096));
    assert_eq!(r.find_container_by_addr(0x20_0FFF), Some(2));
    assert_eq!(r.find_container_by_addr(0x30_0000), None);
    let f = run_in_container(id, 42u8);
    assert!(!f.stopped(&r));
    r.stop_container(id);
    assert_eq!(r.get_container_state(id), Some(ContainerState::Stopped));
    assert_eq!(r.get_container_state(id2), Some(ContainerState::Running));
    assert!(f.stopped(&r));
    assert_eq!(f.future, 42);
    r.stop_container(99);
    assert_eq!(r.get_container_state(99), None);
}
