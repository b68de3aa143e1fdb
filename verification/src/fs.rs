//! The file-system interface the storage engine runs on, and an in-memory file.
use vstd::prelude::*;
use crate::error::{IoErrorKind, RuntimeError};

verus! {

/// The bytes of `old` with `data` written over them from `at` on (growing the file if needed).
pub open spec fn overwrite(old: Seq<u8>, at: int, data: Seq<u8>) -> Seq<u8> {
    let end = at + data.len();
    Seq::new(
        if end > old.len() { end as nat } else { old.len() },
        |i: int| if at <= i < end { data[i - at] } else if i < old.len() { old[i] } else { 0u8 },
    )
}

/// An operation that was made on an open file, with whether it succeeded.
#[derive(Debug, Clone, Copy, PartialEq, Eq, Structural)]
pub enum FileOp {
    /// A read of this many bytes
    Read(usize, bool),
    /// A query of the cursor
    Cursor(bool),
    /// A seek to this offset from the start
    Seek(u64, bool),
    /// A write of this many bytes
    Write(usize, bool),
    /// A sync to stable storage
    Sync(bool),
}

/// What can be observed of an open file: its bytes, its cursor, what stable storage holds
/// of it, the path it was opened at, and the operations made on it since.
pub trait FileView {
    /// The file's bytes.
    spec fn contents(&self) -> Seq<u8>;

    /// The file's cursor.
    spec fn cursor(&self) -> nat;

    /// The bytes that stable storage is known to hold for the file.
    spec fn durable(&self) -> Seq<u8>;

    /// The path the file was opened at.
    spec fn path(&self) -> Seq<char>;

    /// The operations made on the file since it was opened, in order.
    spec fn ops(&self) -> Seq<FileOp>;

    /// Whether the file's length can be had.
    spec fn length_known(&self) -> bool;
}

/// Reading from a file.
pub trait FileInterfaceRead: FileView {
    /// Fills `buf` with the bytes at the cursor and moves the cursor past them.
    fn fread_exact(&mut self, buf: &mut [u8]) -> (r: Result<(), RuntimeError>)
        ensures
            final(buf)@.len() == old(buf)@.len(),
            final(self).contents() == old(self).contents(),
            final(self).path() == old(self).path(),
            final(self).ops() == old(self).ops().push(FileOp::Read(old(buf)@.len() as usize, r is Ok)),
            r is Ok ==> {
                &&& old(self).cursor() + old(buf)@.len() <= old(self).contents().len()
                &&& final(self).cursor() == old(self).cursor() + old(buf)@.len()
                &&& final(buf)@ == old(self).contents().subrange(
                    old(self).cursor() as int,
                    old(self).cursor() + old(buf)@.len() as int,
                )
            },
    ;
}

/// Length, cursor and seeking.
pub trait FileInterfaceExt: FileView {
    /// The file's length.
    fn fext_length(&self) -> (r: Result<u64, RuntimeError>)
        ensures
            (r is Ok) == self.length_known(),
            r matches Ok(n) ==> n == self.contents().len(),
    ;

    /// The file's cursor.
    fn fext_cursor(&mut self) -> (r: Result<u64, RuntimeError>)
        ensures
            final(self).contents() == old(self).contents(),
            final(self).cursor() == old(self).cursor(),
            final(self).path() == old(self).path(),
            final(self).ops() == old(self).ops().push(FileOp::Cursor(r is Ok)),
            r matches Ok(c) ==> c == old(self).cursor(),
    ;

    /// Moves the cursor to `by` bytes from the start.
    fn fext_seek_ahead_from_start_by(&mut self, by: u64) -> (r: Result<(), RuntimeError>)
        ensures
            final(self).contents() == old(self).contents(),
            final(self).path() == old(self).path(),
            final(self).ops() == old(self).ops().push(FileOp::Seek(by, r is Ok)),
            r is Ok ==> final(self).cursor() == by,
    ;
}

/// Writing to a file.
pub trait FileInterfaceWrite: FileView {
    /// Writes all of `data` at the cursor and moves the cursor past it.
    fn fw_write_all(&mut self, data: &[u8]) -> (r: Result<(), RuntimeError>)
        ensures
            final(self).path() == old(self).path(),
            final(self).ops() == old(self).ops().push(FileOp::Write(data@.len() as usize, r is Ok)),
            r is Ok ==> {
                &&& final(self).contents() == overwrite(old(self).contents(), old(self).cursor() as int, data@)
                &&& final(self).cursor() == old(self).cursor() + data@.len()
            },
    ;
}

/// Flushing a file to stable storage.
pub trait FileInterfaceWriteExt: FileView {
    /// Syncs the file's data and metadata to disk; its contents and cursor do not change,
    /// and once the sync succeeds stable storage holds the contents.
    fn fwext_sync_all(&mut self) -> (r: Result<(), RuntimeError>)
        ensures
            final(self).contents() == old(self).contents(),
            final(self).cursor() == old(self).cursor(),
            final(self).path() == old(self).path(),
            final(self).ops() == old(self).ops().push(FileOp::Sync(r is Ok)),
            r is Ok ==> final(self).durable() == final(self).contents(),
    ;
}

/// An open file, with buffered views of it for reading and for writing. A view keeps the
/// file's path and the operations made on it.
pub trait FileInterface: FileView + Sized {
    type BufReader: FileInterfaceRead + FileInterfaceExt;
    type BufWriter: FileInterfaceWrite + FileInterfaceWriteExt;

    /// A buffered reader over this file, at the same cursor.
    fn upgrade_to_buffered_reader(self) -> (r: Result<Self::BufReader, RuntimeError>)
        ensures
            r matches Ok(b) ==> b.contents() == self.contents() && b.cursor() == self.cursor()
                && b.path() == self.path() && b.ops() == self.ops(),
    ;

    /// A buffered writer over this file, at the same cursor.
    fn upgrade_to_buffered_writer(self) -> (r: Result<Self::BufWriter, RuntimeError>)
        ensures
            r matches Ok(b) ==> b.contents() == self.contents() && b.cursor() == self.cursor()
                && b.path() == self.path() && b.ops() == self.ops(),
    ;

    /// The file under a buffered reader, at the same cursor.
    fn downgrade_reader(r: Self::BufReader) -> (f: Result<Self, RuntimeError>)
        ensures
            f matches Ok(x) ==> x.contents() == r.contents() && x.cursor() == r.cursor()
                && x.path() == r.path() && x.ops() == r.ops(),
    ;

    /// The file under a buffered writer, with everything written flushed to it.
    fn downgrade_writer(w: Self::BufWriter) -> (f: Result<Self, RuntimeError>)
        ensures
            f matches Ok(x) ==> x.contents() == w.contents() && x.cursor() == w.cursor()
                && x.path() == w.path() && x.ops() == w.ops(),
    ;
}

/// A file system: opens files by path.
pub trait FSInterface {
    type File: FileInterface + FileInterfaceRead + FileInterfaceExt;

    /// Opens (creating if needed) the file at `fpath` for reading and writing, with its
    /// cursor at the start and no operation made on it yet.
    fn fs_fopen_rw(fpath: &str) -> (r: Result<Self::File, RuntimeError>)
        ensures
            r matches Ok(f) ==> f.cursor() == 0 && f.path() == fpath@ && f.ops() == Seq::<FileOp>::empty(),
    ;
}

/// A file held in memory.
pub struct VirtualFile {
    data: Vec<u8>,
    pos: usize,
    at: Ghost<Seq<char>>,
    log: Ghost<Seq<FileOp>>,
}

impl VirtualFile {
    /// A file at `path` with the given bytes, its cursor at the start and no operation made
    /// on it yet.
    pub fn new(path: &str, data: Vec<u8>) -> (r: Self)
        ensures
            r.contents() == data@,
            r.cursor() == 0,
            r.length_known(),
            r.path() == path@,
            r.ops() == Seq::<FileOp>::empty(),
    {
        VirtualFile { data, pos: 0, at: Ghost(path@), log: Ghost(Seq::empty()) }
    }

    /// The file's bytes.
    pub fn bytes(&self) -> (r: &Vec<u8>)
        ensures
            r@ == self.contents(),
    {
        &self.data
    }
}

impl FileView for VirtualFile {
    closed spec fn contents(&self) -> Seq<u8> {
        self.data@
    }

    closed spec fn cursor(&self) -> nat {
        self.pos as nat
    }

    /// A file in memory has no stabler storage than its bytes.
    closed spec fn durable(&self) -> Seq<u8> {
        self.data@
    }

    closed spec fn path(&self) -> Seq<char> {
        self.at@
    }

    closed spec fn ops(&self) -> Seq<FileOp> {
        self.log@
    }

    /// A file in memory always knows its length.
    closed spec fn length_known(&self) -> bool {
        true
    }
}

impl FileInterfaceRead for VirtualFile {
    fn fread_exact(&mut self, buf: &mut [u8]) -> (r: Result<(), RuntimeError>)
        ensures
            (r is Ok) == (old(self).cursor() + old(buf)@.len() <= old(self).contents().len()),
            r is Err ==> {
                &&& r == Err::<(), RuntimeError>(RuntimeError::IoError(IoErrorKind::UnexpectedEof))
                &&& final(self).cursor() == old(self).cursor()
                &&& final(buf)@ == old(buf)@
            },
    {
        let n = buf.len();
        if self.pos > self.data.len() || self.data.len() - self.pos < n {
            self.log = Ghost(self.log@.push(FileOp::Read(n, false)));
            return Err(RuntimeError::IoError(IoErrorKind::UnexpectedEof));
        }
        let dl = self.data.len();
        let mut i: usize = 0;
        while i < n
            invariant
                n == buf@.len(),
                n == old(buf)@.len(),
                i <= n,
                self.pos + n <= self.data@.len(),
                self.data@.len() <= usize::MAX,
                self.data@ == old(self).data@,
                self.pos == old(self).pos,
                self.at == old(self).at,
                self.log == old(self).log,
                forall|j: int| 0 <= j < i ==> buf@[j] == self.data@[self.pos + j],
            decreases n - i,
        {
            buf[i] = self.data[self.pos + i];
            i = i + 1;
        }
        self.pos = self.pos + n;
        self.log = Ghost(self.log@.push(FileOp::Read(n, true)));
        assert(buf@ =~= old(self).data@.subrange(old(self).pos as int, old(self).pos + n));
        Ok(())
    }
}

impl FileInterfaceExt for VirtualFile {
    fn fext_length(&self) -> (r: Result<u64, RuntimeError>)
        ensures
            r == Ok::<u64, RuntimeError>(self.contents().len() as u64),
    {
        Ok(self.data.len() as u64)
    }

    fn fext_cursor(&mut self) -> (r: Result<u64, RuntimeError>)
        ensures
            r == Ok::<u64, RuntimeError>(old(self).cursor() as u64),
    {
        self.log = Ghost(self.log@.push(FileOp::Cursor(true)));
        Ok(self.pos as u64)
    }

    fn fext_seek_ahead_from_start_by(&mut self, by: u64) -> (r: Result<(), RuntimeError>)
        ensures
            (r is Ok) == (by <= usize::MAX),
            r is Err ==> r == Err::<(), RuntimeError>(RuntimeError::IoError(IoErrorKind::InvalidInput))
                && final(self).cursor() == old(self).cursor(),
    {
        if by > usize::MAX as u64 {
            self.log = Ghost(self.log@.push(FileOp::Seek(by, false)));
            return Err(RuntimeError::IoError(IoErrorKind::InvalidInput));
        }
        self.log = Ghost(self.log@.push(FileOp::Seek(by, true)));
        self.pos = by as usize;
        Ok(())
    }
}

impl FileInterfaceWrite for VirtualFile {
    fn fw_write_all(&mut self, data: &[u8]) -> (r: Result<(), RuntimeError>)
        ensures
            (r is Ok) == (old(self).cursor() + data@.len() <= usize::MAX),
            r is Err ==> r == Err::<(), RuntimeError>(RuntimeError::IoError(IoErrorKind::Other))
                && final(self).contents() == old(self).contents() && final(self).cursor() == old(self).cursor(),
    {
        let n = data.len();
        if self.pos > usize::MAX - n {
            self.log = Ghost(self.log@.push(FileOp::Write(n, false)));
            return Err(RuntimeError::IoError(IoErrorKind::Other));
        }
        let ghost start = self.pos as int;
        let ghost old_data = self.data@;
        while self.data.len() < self.pos
            invariant
                self.pos == old(self).pos,
                self.at == old(self).at,
                self.log == old(self).log,
                self.data@.len() <= self.pos || self.data@.len() == old_data.len(),
                forall|j: int| 0 <= j < self.data@.len() ==> #[trigger] self.data@[j] == (if j < old_data.len() { old_data[j] } else { 0u8 }),
                self.data@.len() >= old_data.len(),
            decreases self.pos - self.data@.len(),
        {
            self.data.push(0u8);
        }
        let mut i: usize = 0;
        while i < n
            invariant
                n == data@.len(),
                i <= n,
                self.pos == old(self).pos,
                self.at == old(self).at,
                self.log == old(self).log,
                start == self.pos,
                self.pos + n <= usize::MAX,
                self.data@.len() >= self.pos + i,
                self.data@.len() == if self.pos + i > old_data.len() { (self.pos + i) as nat } else { old_data.len() },
                forall|j: int|
                    0 <= j < self.data@.len() ==> #[trigger] self.data@[j] == (if start <= j < start + i {
                        data@[j - start]
                    } else if j < old_data.len() {
                        old_data[j]
                    } else {
                        0u8
                    }),
            decreases n - i,
        {
            let at = self.pos + i;
            if at < self.data.len() {
                self.data.set(at, data[i]);
            } else {
                self.data.push(data[i]);
            }
            i = i + 1;
        }
        self.pos = self.pos + n;
        self.log = Ghost(self.log@.push(FileOp::Write(n, true)));
        assert(self.data@ =~= overwrite(old_data, start, data@));
        Ok(())
    }
}

impl FileInterfaceWriteExt for VirtualFile {
    fn fwext_sync_all(&mut self) -> (r: Result<(), RuntimeError>)
        ensures
            r is Ok,
    {
        self.log = Ghost(self.log@.push(FileOp::Sync(true)));
        Ok(())
    }
}

impl FileInterface for VirtualFile {
    type BufReader = VirtualFile;
    type BufWriter = VirtualFile;

    fn upgrade_to_buffered_reader(self) -> (r: Result<VirtualFile, RuntimeError>)
        ensures
            r == Ok::<VirtualFile, RuntimeError>(self),
    {
        Ok(self)
    }

    fn upgrade_to_buffered_writer(self) -> (r: Result<VirtualFile, RuntimeError>)
        ensures
            r == Ok::<VirtualFile, RuntimeError>(self),
    {
        Ok(self)
    }

    fn downgrade_reader(r: VirtualFile) -> (f: Result<VirtualFile, RuntimeError>)
        ensures
            f == Ok::<VirtualFile, RuntimeError>(r),
    {
        Ok(r)
    }

    fn downgrade_writer(w: VirtualFile) -> (f: Result<VirtualFile, RuntimeError>)
        ensures
            f == Ok::<VirtualFile, RuntimeError>(w),
    {
        Ok(w)
    }
}

} // verus!
