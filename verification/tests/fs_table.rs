use rcore_kernel::fs::{
    inode_to_clear, open_access, sys_linkat, sys_unlinkat, valid_open_flags, FdTable, OpenFile, Stat, StatMode,
};

fn file(name: &'static str, readable: bool, writable: bool) -> OpenFile<&'static str> {
    OpenFile { file: name, readable, writable }
}

#[test]
fn open_uses_lowest_free_descriptor() {
    let mut t = FdTable::new();
    assert_eq!(t.sys_open(Some(file("stdin", true, false))), 0);
    assert_eq!(t.sys_open(Some(file("stdout", false, true))), 1);
    assert_eq!(t.sys_open(Some(file("a", true, true))), 2);
    assert_eq!(t.sys_close(1), 0);
    assert_eq!(t.sys_open(Some(file("b", true, true))), 1);
    assert_eq!(t.sys_open(Some(file("c", true, true))), 3);
    assert_eq!(t.fd_table.len(), 4);
}

#[test]
fn open_of_nothing_fails() {
    let mut t: FdTable<&'static str> = FdTable::new();
    assert_eq!(t.sys_open(None), -1);
    assert_eq!(t.fd_table.len(), 0);
}

#[test]
fn write_checks_descriptor_and_permission() {
    let mut t = FdTable::new();
    t.sys_open(Some(file("stdin", true, false)));
    t.sys_open(Some(file("stdout", false, true)));
    assert_eq!(t.sys_write(0), Err(-1));
    assert_eq!(t.sys_write(1), Ok(&"stdout"));
    assert_eq!(t.sys_write(2), Err(-1));
    assert_eq!(t.sys_write(usize::MAX), Err(-1));
}

#[test]
fn read_checks_descriptor_and_permission() {
    let mut t = FdTable::new();
    t.sys_open(Some(file("stdin", true, false)));
    t.sys_open(Some(file("stdout", false, true)));
    assert_eq!(t.sys_read(0), Ok(&"stdin"));
    assert_eq!(t.sys_read(1), Err(-1));
    assert_eq!(t.sys_read(5), Err(-1));
}

#[test]
fn close_twice_fails_the_second_time() {
    let mut t = FdTable::new();
    t.sys_open(Some(file("a", true, true)));
    assert_eq!(t.sys_close(0), 0);
    assert_eq!(t.sys_close(0), -1);
    assert_eq!(t.sys_close(7), -1);
}

#[test]
fn closed_descriptor_refuses_read_write_and_fstat() {
    let mut t = FdTable::new();
    t.sys_open(Some(file("a", true, true)));
    assert_eq!(t.sys_close(0), 0);
    assert_eq!(t.sys_read(0), Err(-1));
    assert_eq!(t.sys_write(0), Err(-1));
    assert_eq!(t.sys_fstat(0), Err(-1));
}

#[test]
fn fstat_finds_open_file() {
    let mut t = FdTable::new();
    t.sys_open(Some(file("a", false, false)));
    assert_eq!(t.sys_fstat(0), Ok(&"a"));
    assert_eq!(t.sys_fstat(1), Err(-1));
}

#[test]
fn stat_reports_inode_links_and_kind() {
    let st = Stat::new(5, 2, false);
    assert_eq!(st.dev, 0);
    assert_eq!(st.ino, 5);
    assert_eq!(st.nlink, 2);
    assert_eq!(st.mode, StatMode::File);
    assert_eq!(st.pad, [0; 7]);
    assert_eq!(Stat::new(0, 1, true).mode, StatMode::Dir);
}

#[test]
fn linkat_refuses_same_name_missing_source_and_existing_target() {
    let a = String::from("a");
    let b = String::from("b");
    assert_eq!(sys_linkat(&a, &a, Some(3), false), Err(-1));
    assert_eq!(sys_linkat(&a, &b, None, false), Err(-1));
    assert_eq!(sys_linkat(&a, &b, Some(3), true), Err(-1));
    assert_eq!(sys_linkat(&a, &b, Some(3), false), Ok(3));
}

#[test]
fn open_flags_are_checked_and_give_access() {
    assert!(valid_open_flags(0));
    assert!(valid_open_flags(1 | 512 | 1024));
    assert!(!valid_open_flags(4));
    assert_eq!(open_access(0), (true, false));
    assert_eq!(open_access(1), (false, true));
    assert_eq!(open_access(2), (true, true));
    assert_eq!(open_access(512), (true, true));
}

#[test]
fn unlinkat_fails_on_missing_name_and_clears_last_link() {
    assert_eq!(sys_unlinkat(None), Err(-1));
    assert_eq!(sys_unlinkat(Some(6)), Ok(6));
    assert_eq!(inode_to_clear(6, 0), Some(6));
    assert_eq!(inode_to_clear(6, 1), None);
}
