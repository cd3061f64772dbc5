//! The file-descriptor table of a process and the checks that the file
//! system calls make on it. Reading, writing and looking files up happen
//! outside, on the file objects that the table stores.
use vstd::prelude::*;
use crate::slots::{free_slot, is_free_slot, placed};

verus! {

/// An open file: the file object, and whether it was opened for reading and
/// for writing.
pub struct OpenFile<F> {
    pub file: F,
    pub readable: bool,
    pub writable: bool,
}

/// The file-descriptor table of a process: descriptor `fd` is entry `fd`.
pub struct FdTable<F> {
    pub fd_table: Vec<Option<OpenFile<F>>>,
}

/// The kind of file that `fstat` reports.
#[derive(PartialEq, Eq, Structural, Clone, Copy, Debug)]
pub enum StatMode {
    Null,
    Dir,
    File,
}

/// The status of a file, as `fstat` reports it.
#[derive(Clone, Copy, Debug)]
pub struct Stat {
    /// The device id; always 0.
    pub dev: u64,
    /// The inode number.
    pub ino: u64,
    pub mode: StatMode,
    /// The number of hard links.
    pub nlink: u32,
    /// Unused; always zero.
    pub pad: [u64; 7],
}

impl Stat {
    /// The status of the file with inode `ino`, which has `nlink` hard links
    /// and is a directory or a regular file.
    pub fn new(ino: u64, nlink: u32, is_dir: bool) -> (st: Stat)
        ensures
            st.dev == 0,
            st.ino == ino,
            st.nlink == nlink,
            st.mode == if is_dir { StatMode::Dir } else { StatMode::File },
            forall|i: int| 0 <= i < 7 ==> st.pad@[i] == 0,
    {
        let mode = if is_dir {
            StatMode::Dir
        } else {
            StatMode::File
        };
        Stat { dev: 0, ino, mode, nlink, pad: [0, 0, 0, 0, 0, 0, 0] }
    }
}

impl<F> FdTable<F> {
    /// An empty table.
    pub fn new() -> (t: Self)
        ensures
            t.fd_table@ == Seq::<Option<OpenFile<F>>>::empty(),
    {
        FdTable { fd_table: Vec::new() }
    }

    /// Descriptor `fd` names an open file.
    pub open spec fn is_open(&self, fd: usize) -> bool {
        fd < self.fd_table@.len() && self.fd_table@[fd as int] is Some
    }

    /// The open file that descriptor `fd` names.
    pub open spec fn entry(&self, fd: usize) -> OpenFile<F> {
        self.fd_table@[fd as int]->0
    }

    /// The file that a write to `fd` goes to, or -1 when `fd` names no open
    /// file or a file not opened for writing.
    pub fn sys_write(&self, fd: usize) -> (r: Result<&F, isize>)
        ensures
            r is Ok <==> self.is_open(fd) && self.entry(fd).writable,
            r is Ok ==> *r->Ok_0 == self.entry(fd).file,
            r is Err ==> r == Err::<&F, isize>(-1isize),
    {
        if fd >= self.fd_table.len() {
            return Err(-1);
        }
        match &self.fd_table[fd] {
            Some(open) => {
                if !open.writable {
                    return Err(-1);
                }
                Ok(&open.file)
            },
            None => Err(-1),
        }
    }

    /// The file that a read from `fd` comes from, or -1 when `fd` names no
    /// open file or a file not opened for reading.
    pub fn sys_read(&self, fd: usize) -> (r: Result<&F, isize>)
        ensures
            r is Ok <==> self.is_open(fd) && self.entry(fd).readable,
            r is Ok ==> *r->Ok_0 == self.entry(fd).file,
            r is Err ==> r == Err::<&F, isize>(-1isize),
    {
        if fd >= self.fd_table.len() {
            return Err(-1);
        }
        match &self.fd_table[fd] {
            Some(open) => {
                if !open.readable {
                    return Err(-1);
                }
                Ok(&open.file)
            },
            None => Err(-1),
        }
    }

    /// Installs the file that an open produced (if any) at the lowest free
    /// descriptor, lengthening the table when every descriptor is taken,
    /// and returns that descriptor; -1 when nothing was opened.
    pub fn sys_open(&mut self, opened: Option<OpenFile<F>>) -> (r: isize)
        requires
            old(self).fd_table@.len() < isize::MAX,
        ensures
            opened is None ==> r == -1 && final(self).fd_table@ == old(self).fd_table@,
            opened is Some ==> {
                &&& r >= 0
                &&& is_free_slot(old(self).fd_table@, r as int)
                &&& final(self).fd_table@ == placed(old(self).fd_table@, r as int, opened->0)
            },
    {
        match opened {
            Some(file) => {
                let fd = free_slot(&self.fd_table);
                if fd < self.fd_table.len() {
                    self.fd_table.set(fd, Some(file));
                } else {
                    self.fd_table.push(Some(file));
                }
                fd as isize
            },
            None => -1,
        }
    }

    /// Closes descriptor `fd`: 0 when it named an open file, which it no
    /// longer does; -1, and no change, otherwise.
    pub fn sys_close(&mut self, fd: usize) -> (r: isize)
        ensures
            r == 0 <==> old(self).is_open(fd),
            r != 0 ==> r == -1 && final(self).fd_table@ == old(self).fd_table@,
            r == 0 ==> final(self).fd_table@ == old(self).fd_table@.update(fd as int, None),
    {
        if fd >= self.fd_table.len() {
            return -1;
        }
        if self.fd_table[fd].is_none() {
            return -1;
        }
        self.fd_table.set(fd, None);
        0
    }

    /// The file whose status `fstat` on `fd` reports, or -1 when `fd` names
    /// no open file.
    pub fn sys_fstat(&self, fd: usize) -> (r: Result<&F, isize>)
        ensures
            r is Ok <==> self.is_open(fd),
            r is Ok ==> *r->Ok_0 == self.entry(fd).file,
            r is Err ==> r == Err::<&F, isize>(-1isize),
    {
        if fd >= self.fd_table.len() {
            return Err(-1);
        }
        match &self.fd_table[fd] {
            Some(open) => Ok(&open.file),
            None => Err(-1),
        }
    }
}

/// The decision of `linkat` once both names have been looked up in the root
/// directory: linking a name to itself, linking a name that does not exist,
/// or linking to a name that already exists is refused with -1; otherwise the
/// result is the inode that the new name is to point to.
pub fn sys_linkat(
    old_path: &String,
    new_path: &String,
    old_inode: Option<u32>,
    new_exists: bool,
) -> (r: Result<u32, isize>)
    ensures
        r is Ok <==> old_path@ != new_path@ && old_inode is Some && !new_exists,
        r is Ok ==> r == Ok::<u32, isize>(old_inode->0),
        r is Err ==> r == Err::<u32, isize>(-1isize),
{
    if old_path.eq(new_path) {
        return Err(-1);
    }
    match old_inode {
        Some(inode) => {
            if new_exists {
                return Err(-1);
            }
            Ok(inode)
        },
        None => Err(-1),
    }
}

/// Open flag: write only.
pub const O_WRONLY: u32 = 1;
/// Open flag: read and write.
pub const O_RDWR: u32 = 2;
/// Open flag: create the file if it does not exist.
pub const O_CREATE: u32 = 512;
/// Open flag: truncate the file to length 0.
pub const O_TRUNC: u32 = 1024;

/// Every bit of `flags` is one of the open flags.
pub open spec fn open_flags_known(flags: u32) -> bool {
    flags & !(O_WRONLY | O_RDWR | O_CREATE | O_TRUNC) == 0
}

/// Whether every bit of `flags` is one of the open flags; `open` refuses any
/// other bit.
pub fn valid_open_flags(flags: u32) -> (r: bool)
    ensures
        r == open_flags_known(flags),
        r == (flags & 0xffff_f9fcu32 == 0),
{
    let r = flags & !(O_WRONLY | O_RDWR | O_CREATE | O_TRUNC) == 0;
    assert(!(1u32 | 2u32 | 512u32 | 1024u32) == 0xffff_f9fcu32) by (bit_vector);
    r
}

/// Exactly the combinations of the open flags are accepted: any set of
/// `O_WRONLY`, `O_RDWR`, `O_CREATE` and `O_TRUNC`, and no other bit.
pub proof fn lemma_open_flags_combinations(flags: u32, w: bool, rw: bool, c: bool, t: bool)
    ensures
        open_flags_known(flags) <==> flags & 0xffff_f9fcu32 == 0,
        open_flags_known(
            (if w { 1u32 } else { 0u32 }) | (if rw { 2u32 } else { 0u32 }) | (if c {
                512u32
            } else {
                0u32
            }) | (if t { 1024u32 } else { 0u32 }),
        ),
        !open_flags_known(flags | 4),
{
    assert(!(1u32 | 2u32 | 512u32 | 1024u32) == 0xffff_f9fcu32) by (bit_vector);
    let x = (if w { 1u32 } else { 0u32 }) | (if rw { 2u32 } else { 0u32 }) | (if c {
        512u32
    } else {
        0u32
    }) | (if t { 1024u32 } else { 0u32 });
    assert(x & 0xffff_f9fcu32 == 0) by (bit_vector)
        requires
            x == (if w { 1u32 } else { 0u32 }) | (if rw { 2u32 } else { 0u32 }) | (if c {
                512u32
            } else {
                0u32
            }) | (if t { 1024u32 } else { 0u32 }),
    ;
    assert((flags | 4) & 0xffff_f9fcu32 != 0) by (bit_vector);
}

/// Whether a file opened with `flags` may be read and written: no flag means
/// read only, `O_WRONLY` write only, and anything else both.
pub fn open_access(flags: u32) -> (r: (bool, bool))
    ensures
        r == if flags == 0 {
            (true, false)
        } else if flags & O_WRONLY != 0 {
            (false, true)
        } else {
            (true, true)
        },
{
    if flags == 0 {
        (true, false)
    } else if flags & O_WRONLY != 0 {
        (false, true)
    } else {
        (true, true)
    }
}

/// The decision of `unlinkat` once the name has been taken out of the root
/// directory: -1 when there was no such name, otherwise the inode whose link
/// count is to drop.
pub fn sys_unlinkat(removed: Option<u32>) -> (r: Result<u32, isize>)
    ensures
        removed is None ==> r == Err::<u32, isize>(-1isize),
        removed is Some ==> r == Ok::<u32, isize>(removed->0),
{
    match removed {
        Some(inode) => Ok(inode),
        None => Err(-1),
    }
}

/// After a name of `inode` is gone and `nlink_left` links remain, the inode
/// whose data is to be freed: `inode` when no link remains, none otherwise.
pub fn inode_to_clear(inode: u32, nlink_left: u32) -> (r: Option<u32>)
    ensures
        r == if nlink_left == 0 { Some(inode) } else { None::<u32> },
{
    if nlink_left == 0 {
        Some(inode)
    } else {
        None
    }
}

/// A closed descriptor stays closed: after `close(fd)` succeeds, `fd` names
/// no open file, so reading, writing and `fstat` on it are refused with -1.
pub proof fn lemma_closed_fd_refuses_io<F>(before: FdTable<F>, after: FdTable<F>, fd: usize)
    requires
        before.is_open(fd),
        after.fd_table@ == before.fd_table@.update(fd as int, None),
    ensures
        !after.is_open(fd),
        !(after.is_open(fd) && after.entry(fd).readable),
        !(after.is_open(fd) && after.entry(fd).writable),
{
}

/// What an open installs is what the returned descriptor then names: after
/// `open` returns `fd` for `file`, `fd` names `file` with its read and write
/// permissions, and every other descriptor names what it named before.
pub proof fn lemma_open_installs<F>(before: FdTable<F>, after: FdTable<F>, fd: int, file: OpenFile<F>)
    requires
        is_free_slot(before.fd_table@, fd),
        after.fd_table@ == placed(before.fd_table@, fd, file),
    ensures
        0 <= fd < after.fd_table@.len(),
        after.fd_table@[fd] == Some(file),
        forall|g: int| 0 <= g < before.fd_table@.len() && g != fd ==> after.fd_table@[g] == before.fd_table@[g],
{
}

} // verus!
