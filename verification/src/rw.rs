//! Files of the storage subsystem, and a reader that tracks its position and a checksum
//! of what it reads.
use vstd::prelude::*;
use core::marker::PhantomData;
use vstd::bytes::{spec_u64_from_le_bytes, u64_from_le_bytes};
use crate::checksum::{SCrc64, crc64, crc_update, crc_init};
use crate::error::{IoErrorKind, RuntimeError};
use crate::fs::{FSInterface, FileInterface, FileInterfaceExt, FileInterfaceRead, FileInterfaceWrite, FileInterfaceWriteExt, FileOp, FileView, overwrite};

verus! {

/// A header of a storage file, read when the file is opened.
pub trait FileSpecV1 {
    type Metadata;

    /// The header that the bytes `contents` hold from `at` on, where they hold one.
    spec fn header_at(contents: Seq<u8>, at: nat) -> Self::Metadata;

    /// Reads and checks the file's header, from the cursor on; it only reads, and a header
    /// that was read is the one the file holds there and lies within the file.
    fn read_metadata<F: FileInterfaceRead + FileInterfaceExt>(f: &mut F) -> (r: Result<Self::Metadata, RuntimeError>)
        ensures
            final(f).contents() == old(f).contents(),
            final(f).path() == old(f).path(),
            r matches Ok(md) ==> md == Self::header_at(old(f).contents(), old(f).cursor()),
            r is Ok ==> old(f).cursor() <= final(f).cursor() <= final(f).contents().len(),
    ;
}

/// Files without a header: the metadata is `()`, and reading it only checks that the
/// cursor lies within the file.
pub struct Headerless;

impl FileSpecV1 for Headerless {
    type Metadata = ();

    open spec fn header_at(contents: Seq<u8>, at: nat) -> () {
        ()
    }

    fn read_metadata<F: FileInterfaceRead + FileInterfaceExt>(f: &mut F) -> (r: Result<(), RuntimeError>)
        ensures
            final(f).cursor() == old(f).cursor(),
    {
        let len = match f.fext_length() {
            Ok(n) => n,
            Err(e) => {
                return Err(e);
            },
        };
        let cur = match f.fext_cursor() {
            Ok(c) => c,
            Err(e) => {
                return Err(e);
            },
        };
        if cur <= len {
            Ok(())
        } else {
            Err(RuntimeError::IoError(IoErrorKind::InvalidInput))
        }
    }
}

/// A storage file over the file `F` of the file system `Fs`.
pub struct SDSSFileIO<Fs: FSInterface, F = <Fs as FSInterface>::File> {
    f: F,
    _fs: PhantomData<Fs>,
}

impl<Fs: FSInterface, F: FileView> SDSSFileIO<Fs, F> {
    /// The file's bytes.
    pub closed spec fn contents(&self) -> Seq<u8> {
        self.f.contents()
    }

    /// The file's cursor.
    pub closed spec fn cursor(&self) -> nat {
        self.f.cursor()
    }

    /// The bytes that stable storage is known to hold for the file.
    pub closed spec fn durable(&self) -> Seq<u8> {
        self.f.durable()
    }

    /// The path the file was opened at.
    pub closed spec fn path(&self) -> Seq<char> {
        self.f.path()
    }

    /// The operations made on the file since it was opened, in order.
    pub closed spec fn ops(&self) -> Seq<FileOp> {
        self.f.ops()
    }

    /// Whether the file's length can be had.
    pub closed spec fn length_known(&self) -> bool {
        self.f.length_known()
    }

    fn _new(f: F) -> (r: Self)
        ensures
            r.contents() == f.contents(),
            r.cursor() == f.cursor(),
            r.path() == f.path(),
            r.ops() == f.ops(),
            r.length_known() == f.length_known(),
    {
        SDSSFileIO { f, _fs: PhantomData }
    }
}

impl<Fs: FSInterface> SDSSFileIO<Fs> {
    /// Opens the file at `fpath` and reads its header with the spec `S`: the header is the
    /// one the file holds at its start.
    pub fn open<S: FileSpecV1>(fpath: &str) -> (r: Result<(Self, S::Metadata), RuntimeError>)
        ensures
            r matches Ok((x, md)) ==> {
                &&& x.path() == fpath@
                &&& md == S::header_at(x.contents(), 0)
                &&& x.cursor() <= x.contents().len()
            },
    {
        let mut f = match Fs::fs_fopen_rw(fpath) {
            Ok(f) => f,
            Err(e) => {
                return Err(e);
            },
        };
        let v = match S::read_metadata(&mut f) {
            Ok(v) => v,
            Err(e) => {
                return Err(e);
            },
        };
        Ok((Self::_new(f), v))
    }

    /// A buffered reader over this file, at the same cursor.
    pub fn into_buffered_reader(self) -> (r: Result<
        SDSSFileIO<Fs, <Fs::File as FileInterface>::BufReader>,
        RuntimeError,
    >)
        ensures
            r matches Ok(x) ==> x.contents() == self.contents() && x.cursor() == self.cursor()
                && x.path() == self.path() && x.ops() == self.ops(),
    {
        match self.f.upgrade_to_buffered_reader() {
            Ok(b) => Ok(SDSSFileIO::_new(b)),
            Err(e) => Err(e),
        }
    }

    /// A buffered writer over this file, at the same cursor.
    pub fn into_buffered_writer(self) -> (r: Result<
        SDSSFileIO<Fs, <Fs::File as FileInterface>::BufWriter>,
        RuntimeError,
    >)
        ensures
            r matches Ok(x) ==> x.contents() == self.contents() && x.cursor() == self.cursor()
                && x.path() == self.path() && x.ops() == self.ops(),
    {
        match self.f.upgrade_to_buffered_writer() {
            Ok(b) => Ok(SDSSFileIO::_new(b)),
            Err(e) => Err(e),
        }
    }
}

impl<Fs: FSInterface> SDSSFileIO<Fs, <Fs::File as FileInterface>::BufReader> {
    /// The file under this buffered reader, at the same cursor.
    pub fn downgrade_reader(self) -> (r: Result<SDSSFileIO<Fs, Fs::File>, RuntimeError>)
        ensures
            r matches Ok(x) ==> x.contents() == self.contents() && x.cursor() == self.cursor()
                && x.path() == self.path() && x.ops() == self.ops(),
    {
        match <Fs::File as FileInterface>::downgrade_reader(self.f) {
            Ok(me) => Ok(SDSSFileIO::_new(me)),
            Err(e) => Err(e),
        }
    }
}

impl<Fs: FSInterface> SDSSFileIO<Fs, <Fs::File as FileInterface>::BufWriter> {
    /// The file under this buffered writer, with what was written flushed to it.
    pub fn downgrade_writer(self) -> (r: Result<SDSSFileIO<Fs>, RuntimeError>)
        ensures
            r matches Ok(x) ==> x.contents() == self.contents() && x.cursor() == self.cursor()
                && x.path() == self.path() && x.ops() == self.ops(),
    {
        match <Fs::File as FileInterface>::downgrade_writer(self.f) {
            Ok(me) => Ok(SDSSFileIO::_new(me)),
            Err(e) => Err(e),
        }
    }
}

impl<Fs: FSInterface, F: FileInterfaceRead> SDSSFileIO<Fs, F> {
    /// Fills `buffer` with the bytes at the cursor and moves the cursor past them.
    pub fn read_buffer(&mut self, buffer: &mut [u8]) -> (r: Result<(), RuntimeError>)
        ensures
            final(buffer)@.len() == old(buffer)@.len(),
            final(self).contents() == old(self).contents(),
            final(self).path() == old(self).path(),
            final(self).ops() == old(self).ops().push(FileOp::Read(old(buffer)@.len() as usize, r is Ok)),
            r is Ok ==> {
                &&& old(self).cursor() + old(buffer)@.len() <= old(self).contents().len()
                &&& final(self).cursor() == old(self).cursor() + old(buffer)@.len()
                &&& final(buffer)@ == old(self).contents().subrange(
                    old(self).cursor() as int,
                    old(self).cursor() + old(buffer)@.len() as int,
                )
            },
    {
        self.f.fread_exact(buffer)
    }
}

impl<Fs: FSInterface, F: FileInterfaceExt> SDSSFileIO<Fs, F> {
    /// The file's cursor.
    pub fn file_cursor(&mut self) -> (r: Result<u64, RuntimeError>)
        ensures
            final(self).contents() == old(self).contents(),
            final(self).cursor() == old(self).cursor(),
            final(self).path() == old(self).path(),
            final(self).ops() == old(self).ops().push(FileOp::Cursor(r is Ok)),
            r matches Ok(c) ==> c == old(self).cursor(),
    {
        self.f.fext_cursor()
    }

    /// The file's length.
    pub fn file_length(&self) -> (r: Result<u64, RuntimeError>)
        ensures
            (r is Ok) == self.length_known(),
            r matches Ok(n) ==> n == self.contents().len(),
    {
        self.f.fext_length()
    }

    /// Moves the cursor to `by` bytes from the start.
    pub fn seek_from_start(&mut self, by: u64) -> (r: Result<(), RuntimeError>)
        ensures
            final(self).contents() == old(self).contents(),
            final(self).path() == old(self).path(),
            final(self).ops() == old(self).ops().push(FileOp::Seek(by, r is Ok)),
            r is Ok ==> final(self).cursor() == by,
    {
        self.f.fext_seek_ahead_from_start_by(by)
    }
}

/// How many bytes lie between the cursor `cur` and the end `len` of a file, as a buffer
/// length: an error where they do not fit in memory.
fn bytes_after(len: u64, cur: u64) -> (r: Result<usize, RuntimeError>)
    requires
        cur <= len,
    ensures
        len - cur <= usize::MAX ==> r == Ok::<usize, RuntimeError>((len - cur) as usize),
        len - cur > usize::MAX ==> r == Err::<usize, RuntimeError>(RuntimeError::IoError(IoErrorKind::InvalidInput)),
{
    if len - cur > usize::MAX as u64 {
        Err(RuntimeError::IoError(IoErrorKind::InvalidInput))
    } else {
        Ok((len - cur) as usize)
    }
}

/// `n` zero bytes.
fn zeroed(n: usize) -> (r: Vec<u8>)
    ensures
        r@ == Seq::new(n as nat, |i: int| 0u8),
{
    let mut buf: Vec<u8> = Vec::new();
    let mut i: usize = 0;
    while i < n
        invariant
            buf@ == Seq::new(i as nat, |j: int| 0u8),
            i <= n,
        decreases n - i,
    {
        buf.push(0u8);
        i = i + 1;
        assert(buf@ =~= Seq::new(i as nat, |j: int| 0u8));
    }
    buf
}

impl<Fs: FSInterface, F: FileInterfaceRead + FileInterfaceExt> SDSSFileIO<Fs, F> {
    /// Reads everything from the cursor to the end of the file: it asks the file for its
    /// length and its cursor, and reads the bytes between them where they fit in memory.
    pub fn read_full(&mut self) -> (r: Result<Vec<u8>, RuntimeError>)
        requires
            old(self).cursor() <= old(self).contents().len(),
        ensures
            final(self).contents() == old(self).contents(),
            final(self).path() == old(self).path(),
            !old(self).length_known() ==> r is Err && final(self).ops() == old(self).ops(),
            old(self).length_known() ==> {
                let rest = old(self).contents().len() - old(self).cursor();
                ||| r is Err && final(self).ops() == old(self).ops().push(FileOp::Cursor(false))
                ||| rest > usize::MAX && final(self).ops() == old(self).ops().push(FileOp::Cursor(true))
                    && r == Err::<Vec<u8>, RuntimeError>(RuntimeError::IoError(IoErrorKind::InvalidInput))
                ||| rest <= usize::MAX && final(self).ops() == old(self).ops().push(FileOp::Cursor(true)).push(
                    FileOp::Read(rest as usize, r is Ok),
                )
            },
            r matches Ok(v) ==> {
                &&& v@ == old(self).contents().subrange(old(self).cursor() as int, old(self).contents().len() as int)
                &&& final(self).cursor() == old(self).contents().len()
            },
    {
        let len = match self.file_length() {
            Ok(n) => n,
            Err(e) => {
                return Err(e);
            },
        };
        let cur = match self.file_cursor() {
            Ok(c) => c,
            Err(e) => {
                return Err(e);
            },
        };
        let n = match bytes_after(len, cur) {
            Ok(n) => n,
            Err(e) => {
                return Err(e);
            },
        };
        let mut buf = zeroed(n);
        match self.read_buffer(buf.as_mut_slice()) {
            Ok(()) => Ok(buf),
            Err(e) => Err(e),
        }
    }
}

impl<Fs: FSInterface, F: FileInterfaceWrite + FileInterfaceWriteExt> SDSSFileIO<Fs, F> {
    /// Writes all of `data` at the cursor, then syncs the file to disk.
    pub fn fsynced_write(&mut self, data: &[u8]) -> (r: Result<(), RuntimeError>)
        ensures
            final(self).path() == old(self).path(),
            (r is Err && final(self).ops() == old(self).ops().push(FileOp::Write(data@.len() as usize, false)))
                || final(self).ops() == old(self).ops().push(FileOp::Write(data@.len() as usize, true)).push(
                FileOp::Sync(r is Ok),
            ),
            r is Ok ==> {
                &&& final(self).contents() == overwrite(old(self).contents(), old(self).cursor() as int, data@)
                &&& final(self).cursor() == old(self).cursor() + data@.len()
                &&& final(self).durable() == final(self).contents()
            },
    {
        match self.f.fw_write_all(data) {
            Ok(()) => {},
            Err(e) => {
                return Err(e);
            },
        }
        self.f.fwext_sync_all()
    }
}

/// A writer over a buffered storage file.
pub struct TrackedWriter<Fs: FSInterface> {
    file: SDSSFileIO<Fs, <Fs::File as FileInterface>::BufWriter>,
    _cs: SCrc64,
}

impl<Fs: FSInterface> TrackedWriter<Fs> {
    /// The bytes of the file under the writer.
    pub closed spec fn contents(&self) -> Seq<u8> {
        self.file.contents()
    }

    /// The cursor of the file under the writer.
    pub closed spec fn cursor(&self) -> nat {
        self.file.cursor()
    }

    /// A writer over `f`, at its cursor.
    pub fn new(f: SDSSFileIO<Fs>) -> (r: Result<Self, RuntimeError>)
        ensures
            r matches Ok(w) ==> w.contents() == f.contents() && w.cursor() == f.cursor(),
    {
        match f.into_buffered_writer() {
            Ok(file) => Ok(TrackedWriter { file, _cs: SCrc64::new() }),
            Err(e) => Err(e),
        }
    }

    /// Flushes the writer and gives back the file under it.
    pub fn sync_into_inner(self) -> (r: Result<SDSSFileIO<Fs>, RuntimeError>)
        ensures
            r matches Ok(f) ==> f.contents() == self.contents() && f.cursor() == self.cursor(),
    {
        self.file.downgrade_writer()
    }
}

/// A reader over a buffered storage file that keeps the file's length and its own cursor
/// (so that reads need no system calls to check bounds), and a running checksum of the
/// bytes read through it.
pub struct TrackedReader<Fs: FSInterface> {
    f: SDSSFileIO<Fs, <Fs::File as FileInterface>::BufReader>,
    len: u64,
    cursor: u64,
    cs: SCrc64,
    start: Ghost<nat>,
    consumed: Ghost<nat>,
    fed: Ghost<Seq<u8>>,
}

impl<Fs: FSInterface> TrackedReader<Fs> {
    /// The bytes of the file.
    pub closed spec fn contents(&self) -> Seq<u8> {
        self.f.contents()
    }

    /// The reader's position in the file.
    pub closed spec fn pos(&self) -> nat {
        self.cursor as nat
    }

    /// The cursor of the file under the reader.
    pub closed spec fn file_pos(&self) -> nat {
        self.f.cursor()
    }

    /// The register of the running checksum.
    pub closed spec fn checksum_register(&self) -> u64 {
        self.cs.register()
    }

    /// The operations made on the file under the reader, in order.
    pub closed spec fn file_ops(&self) -> Seq<FileOp> {
        self.f.ops()
    }

    /// The position the reader started at.
    pub closed spec fn start(&self) -> nat {
        self.start@
    }

    /// How many bytes the reader's successful reads have taken, in all.
    pub closed spec fn consumed(&self) -> nat {
        self.consumed@
    }

    /// The bytes fed to the checksum since the reader was made or the checksum last reset,
    /// in order.
    pub closed spec fn fed(&self) -> Seq<u8> {
        self.fed@
    }

    /// The tracked length is the file's, the reader stands as far past its start as its
    /// successful reads took it, and the checksum's register is that of the bytes fed to it.
    pub closed spec fn inv(&self) -> bool {
        &&& self.len == self.f.contents().len()
        &&& self.cursor == self.start@ + self.consumed@
        &&& self.cs.register() == crc_update(crc_init(), self.fed@)
    }

    /// The reader's position lies within the file.
    pub open spec fn in_bounds(&self) -> bool {
        self.pos() <= self.contents().len()
    }

    /// The reader's position is the file's cursor. A new reader is synced, and every
    /// successful read keeps it so; a read of the file that fails midway may move the file's
    /// cursor and not the reader's.
    pub open spec fn synced(&self) -> bool {
        self.pos() == self.file_pos()
    }

    /// A reader over the buffered file `b` (when it could be had), whose length is `len`
    /// and whose cursor is `pos`, with a fresh checksum.
    pub fn assemble(
        len: u64,
        pos: u64,
        b: Result<SDSSFileIO<Fs, <Fs::File as FileInterface>::BufReader>, RuntimeError>,
    ) -> (r: Result<Self, RuntimeError>)
        ensures
            match b {
                Ok(x) => r matches Ok(t) && {
                    &&& t.contents() == x.contents()
                    &&& t.file_pos() == x.cursor()
                    &&& t.pos() == pos
                    &&& t.inv() == (len == x.contents().len())
                    &&& t.checksum_register() == crc_init()
                    &&& t.file_ops() == x.ops()
                    &&& t.start() == pos
                    &&& t.consumed() == 0
                    &&& t.fed() == Seq::<u8>::empty()
                },
                Err(e) => r matches Err(e2) && e2 == e,
            },
    {
        match b {
            Ok(f) => Ok(
                TrackedReader {
                    f,
                    len,
                    cursor: pos,
                    cs: SCrc64::new(),
                    start: Ghost(pos as nat),
                    consumed: Ghost(0),
                    fed: Ghost(Seq::empty()),
                },
            ),
            Err(e) => Err(e),
        }
    }

    /// A reader over `f`, from its cursor on (only the data after the cursor is read).
    pub fn new(f: SDSSFileIO<Fs>) -> (r: Result<Self, RuntimeError>)
        ensures
            r matches Ok(t) ==> {
                &&& t.inv()
                &&& t.synced()
                &&& t.contents() == f.contents()
                &&& t.pos() == f.cursor()
                &&& t.checksum_register() == crc_init()
                &&& t.start() == f.cursor()
                &&& t.file_ops() == f.ops().push(FileOp::Cursor(true))
                &&& t.consumed() == 0
                &&& t.fed() == Seq::<u8>::empty()
            },
    {
        let mut f = f;
        let len = match f.file_length() {
            Ok(n) => n,
            Err(e) => {
                return Err(e);
            },
        };
        let pos = match f.file_cursor() {
            Ok(c) => c,
            Err(e) => {
                return Err(e);
            },
        };
        Self::assemble(len, pos, f.into_buffered_reader())
    }

    /// How many bytes are left to read: the bytes after the start, less those that the
    /// successful reads since took.
    pub fn remaining(&self) -> (r: u64)
        requires
            self.inv(),
            self.in_bounds(),
        ensures
            r == self.contents().len() - self.pos(),
            r == self.contents().len() - self.start() - self.consumed(),
    {
        self.len - self.cursor
    }

    /// Whether every byte was read.
    pub fn is_eof(&self) -> (r: bool)
        requires
            self.inv(),
        ensures
            r == (self.pos() == self.contents().len()),
    {
        self.len == self.cursor
    }

    /// Whether at least `v` bytes are left.
    pub fn has_left(&self, v: u64) -> (r: bool)
        requires
            self.inv(),
            self.in_bounds(),
        ensures
            r == (self.contents().len() - self.pos() >= v),
    {
        self.remaining() >= v
    }

    /// Takes the outcome `res` of reading `n` bytes of the file: on success the reader's
    /// position moves `n` bytes on, on failure it stays and the error is handed on.
    pub fn finish_read(&mut self, res: Result<(), RuntimeError>, n: usize) -> (r: Result<(), RuntimeError>)
        requires
            old(self).pos() + n <= u64::MAX,
        ensures
            final(self).contents() == old(self).contents(),
            final(self).file_pos() == old(self).file_pos(),
            final(self).checksum_register() == old(self).checksum_register(),
            final(self).inv() == old(self).inv(),
            final(self).file_ops() == old(self).file_ops(),
            final(self).start() == old(self).start(),
            final(self).fed() == old(self).fed(),
            match res {
                Ok(()) => r is Ok && final(self).pos() == old(self).pos() + n && final(self).consumed()
                    == old(self).consumed() + n,
                Err(e) => r == Err::<(), RuntimeError>(e) && final(self).pos() == old(self).pos()
                    && final(self).consumed() == old(self).consumed(),
            },
    {
        match res {
            Ok(()) => {
                self.cursor = self.cursor + n as u64;
                self.consumed = Ghost(self.consumed@ + n as nat);
                Ok(())
            },
            Err(e) => Err(e),
        }
    }

    /// Reads `buf.len()` bytes without feeding them to the checksum.
    pub fn untracked_read(&mut self, buf: &mut [u8]) -> (r: Result<(), RuntimeError>)
        requires
            old(self).inv(),
            old(self).in_bounds(),
        ensures
            final(buf)@.len() == old(buf)@.len(),
            final(self).contents() == old(self).contents(),
            final(self).checksum_register() == old(self).checksum_register(),
            final(self).fed() == old(self).fed(),
            final(self).inv(),
            final(self).in_bounds(),
            final(self).start() == old(self).start(),
            old(self).contents().len() - old(self).pos() >= old(buf)@.len() ==> final(self).file_ops()
                == old(self).file_ops().push(FileOp::Read((old(buf)@.len()) as usize, r is Ok)),
            old(self).contents().len() - old(self).pos() < old(buf)@.len() ==> final(self).file_ops() == old(self).file_ops(),
            r is Err ==> final(self).consumed() == old(self).consumed() && final(self).fed() == old(self).fed(),
            r is Ok ==> final(self).consumed() == old(self).consumed() + old(buf)@.len(),
            old(self).contents().len() - old(self).pos() < old(buf)@.len() ==> {
                &&& r == Err::<(), RuntimeError>(RuntimeError::IoError(IoErrorKind::InvalidInput))
                &&& final(buf)@ == old(buf)@
                &&& final(self).file_pos() == old(self).file_pos()
            },
            r is Err ==> final(self).pos() == old(self).pos(),
            r is Ok ==> {
                &&& old(self).contents().len() - old(self).pos() >= old(buf)@.len()
                &&& final(self).pos() == old(self).pos() + old(buf)@.len()
                &&& final(self).file_pos() == old(self).file_pos() + old(buf)@.len()
                &&& final(self).file_pos() <= old(self).contents().len()
                &&& final(buf)@ == old(self).contents().subrange(
                    old(self).file_pos() as int,
                    final(self).file_pos() as int,
                )
                &&& (old(self).synced() ==> final(self).synced())
            },
    {
        if self.remaining() >= buf.len() as u64 {
            let res = self.f.read_buffer(buf);
            self.finish_read(res, buf.len())
        } else {
            Err(RuntimeError::IoError(IoErrorKind::InvalidInput))
        }
    }

    /// Reads `buf.len()` bytes and feeds them to the checksum.
    pub fn tracked_read(&mut self, buf: &mut [u8]) -> (r: Result<(), RuntimeError>)
        requires
            old(self).inv(),
            old(self).in_bounds(),
        ensures
            final(buf)@.len() == old(buf)@.len(),
            final(self).contents() == old(self).contents(),
            final(self).inv(),
            final(self).in_bounds(),
            final(self).start() == old(self).start(),
            old(self).contents().len() - old(self).pos() >= old(buf)@.len() ==> final(self).file_ops()
                == old(self).file_ops().push(FileOp::Read((old(buf)@.len()) as usize, r is Ok)),
            old(self).contents().len() - old(self).pos() < old(buf)@.len() ==> final(self).file_ops() == old(self).file_ops(),
            r is Err ==> final(self).consumed() == old(self).consumed() && final(self).fed() == old(self).fed(),
            r is Ok ==> final(self).consumed() == old(self).consumed() + old(buf)@.len(),
            r is Ok ==> final(self).fed() == old(self).fed() + final(buf)@,
            old(self).contents().len() - old(self).pos() < old(buf)@.len() ==> {
                &&& r == Err::<(), RuntimeError>(RuntimeError::IoError(IoErrorKind::InvalidInput))
                &&& final(buf)@ == old(buf)@
                &&& final(self).file_pos() == old(self).file_pos()
            },
            r is Err ==> final(self).pos() == old(self).pos() && final(self).checksum_register()
                == old(self).checksum_register(),
            r is Ok ==> {
                &&& old(self).contents().len() - old(self).pos() >= old(buf)@.len()
                &&& final(self).pos() == old(self).pos() + old(buf)@.len()
                &&& final(self).file_pos() == old(self).file_pos() + old(buf)@.len()
                &&& final(self).file_pos() <= old(self).contents().len()
                &&& final(buf)@ == old(self).contents().subrange(
                    old(self).file_pos() as int,
                    final(self).file_pos() as int,
                )
                &&& (old(self).synced() ==> final(self).synced())
                &&& final(self).checksum_register() == crc_update(old(self).checksum_register(), final(buf)@)
            },
    {
        match self.untracked_read(buf) {
            Ok(()) => {
                proof {
                    crate::checksum::lemma_crc_update_append(crc_init(), self.fed@, buf@);
                }
                self.cs.update(buf);
                self.fed = Ghost(self.fed@ + buf@);
                Ok(())
            },
            Err(e) => Err(e),
        }
    }

    /// Reads one byte and feeds it to the checksum.
    pub fn read_byte(&mut self) -> (r: Result<u8, RuntimeError>)
        requires
            old(self).inv(),
            old(self).in_bounds(),
        ensures
            final(self).contents() == old(self).contents(),
            final(self).inv(),
            final(self).in_bounds(),
            final(self).start() == old(self).start(),
            old(self).contents().len() - old(self).pos() >= 1 ==> final(self).file_ops()
                == old(self).file_ops().push(FileOp::Read((1) as usize, r is Ok)),
            old(self).contents().len() - old(self).pos() < 1 ==> final(self).file_ops() == old(self).file_ops(),
            r is Err ==> final(self).consumed() == old(self).consumed() && final(self).fed() == old(self).fed(),
            r is Ok ==> final(self).consumed() == old(self).consumed() + 1,
            r matches Ok(b) ==> final(self).fed() == old(self).fed().push(b),
            old(self).pos() == old(self).contents().len() ==> {
                &&& r == Err::<u8, RuntimeError>(RuntimeError::IoError(IoErrorKind::InvalidInput))
                &&& final(self).file_pos() == old(self).file_pos()
            },
            r is Err ==> final(self).pos() == old(self).pos() && final(self).checksum_register()
                == old(self).checksum_register(),
            r matches Ok(b) ==> {
                &&& old(self).pos() < old(self).contents().len()
                &&& final(self).pos() == old(self).pos() + 1
                &&& final(self).file_pos() == old(self).file_pos() + 1
                &&& final(self).file_pos() <= old(self).contents().len()
                &&& b == old(self).contents()[old(self).file_pos() as int]
                &&& (old(self).synced() ==> final(self).synced())
                &&& final(self).checksum_register() == crc_update(old(self).checksum_register(), seq![b])
            },
    {
        let mut buf = [0u8; 1];
        match self.tracked_read(&mut buf) {
            Ok(()) => {
                assert(buf@ =~= seq![buf[0]]);
                assert(buf@[0] == old(self).contents().subrange(
                    old(self).file_pos() as int,
                    old(self).file_pos() + 1int,
                )[0]);
                Ok(buf[0])
            },
            Err(e) => Err(e),
        }
    }

    /// Gives the checksum of the bytes fed since the reader was made or the checksum last
    /// reset (the CRC of their concatenation, however the reads chunked them), and starts a
    /// new one.
    pub fn __reset_checksum(&mut self) -> (r: u64)
        ensures
            r == !old(self).checksum_register(),
            old(self).inv() ==> r == crc64(old(self).fed()),
            final(self).checksum_register() == crc_init(),
            final(self).fed() == Seq::<u8>::empty(),
            final(self).contents() == old(self).contents(),
            final(self).pos() == old(self).pos(),
            final(self).file_pos() == old(self).file_pos(),
            final(self).file_ops() == old(self).file_ops(),
            final(self).start() == old(self).start(),
            final(self).consumed() == old(self).consumed(),
            old(self).inv() ==> final(self).inv(),
    {
        let mut crc = SCrc64::new();
        core::mem::swap(&mut crc, &mut self.cs);
        self.fed = Ghost(Seq::empty());
        crc.finish()
    }

    /// Gives back the file under the reader.
    pub fn into_inner_file(self) -> (r: Result<SDSSFileIO<Fs>, RuntimeError>)
        ensures
            r matches Ok(f) ==> f.contents() == self.contents() && f.cursor() == self.file_pos() && f.ops()
                == self.file_ops(),
    {
        self.f.downgrade_reader()
    }

    /// Reads a block of `N` bytes, feeding them to the checksum.
    pub fn read_block<const N: usize>(&mut self) -> (r: Result<[u8; N], RuntimeError>)
        requires
            old(self).inv(),
            old(self).in_bounds(),
        ensures
            final(self).contents() == old(self).contents(),
            final(self).inv(),
            final(self).in_bounds(),
            final(self).start() == old(self).start(),
            old(self).contents().len() - old(self).pos() >= N ==> final(self).file_ops()
                == old(self).file_ops().push(FileOp::Read((N) as usize, r is Ok)),
            old(self).contents().len() - old(self).pos() < N ==> final(self).file_ops() == old(self).file_ops(),
            r is Err ==> final(self).consumed() == old(self).consumed() && final(self).fed() == old(self).fed(),
            r is Ok ==> final(self).consumed() == old(self).consumed() + N,
            r matches Ok(b) ==> final(self).fed() == old(self).fed() + b@,
            old(self).contents().len() - old(self).pos() < N ==> {
                &&& r == Err::<[u8; N], RuntimeError>(RuntimeError::IoError(IoErrorKind::InvalidInput))
                &&& final(self).file_pos() == old(self).file_pos()
            },
            r is Err ==> final(self).pos() == old(self).pos() && final(self).checksum_register()
                == old(self).checksum_register(),
            r matches Ok(b) ==> {
                &&& old(self).contents().len() - old(self).pos() >= N
                &&& final(self).pos() == old(self).pos() + N
                &&& final(self).file_pos() == old(self).file_pos() + N
                &&& final(self).file_pos() <= old(self).contents().len()
                &&& b@ == old(self).contents().subrange(old(self).file_pos() as int, final(self).file_pos() as int)
                &&& (old(self).synced() ==> final(self).synced())
                &&& final(self).checksum_register() == crc_update(old(self).checksum_register(), b@)
            },
    {
        if !self.has_left(N as u64) {
            return Err(RuntimeError::IoError(IoErrorKind::InvalidInput));
        }
        let mut buf = [0u8; N];
        match self.tracked_read(&mut buf) {
            Ok(()) => Ok(buf),
            Err(e) => Err(e),
        }
    }

    /// Reads eight bytes as a little-endian `u64`, feeding them to the checksum.
    pub fn read_u64_le(&mut self) -> (r: Result<u64, RuntimeError>)
        requires
            old(self).inv(),
            old(self).in_bounds(),
        ensures
            final(self).contents() == old(self).contents(),
            final(self).inv(),
            final(self).in_bounds(),
            final(self).start() == old(self).start(),
            old(self).contents().len() - old(self).pos() >= 8 ==> final(self).file_ops()
                == old(self).file_ops().push(FileOp::Read((8) as usize, r is Ok)),
            old(self).contents().len() - old(self).pos() < 8 ==> final(self).file_ops() == old(self).file_ops(),
            r is Err ==> final(self).consumed() == old(self).consumed() && final(self).fed() == old(self).fed(),
            r is Ok ==> final(self).consumed() == old(self).consumed() + 8,
            r is Ok ==> final(self).fed() == old(self).fed() + old(self).contents().subrange(
                old(self).file_pos() as int,
                final(self).file_pos() as int,
            ),
            old(self).contents().len() - old(self).pos() < 8 ==> {
                &&& r == Err::<u64, RuntimeError>(RuntimeError::IoError(IoErrorKind::InvalidInput))
                &&& final(self).file_pos() == old(self).file_pos()
            },
            r is Err ==> final(self).pos() == old(self).pos() && final(self).checksum_register()
                == old(self).checksum_register(),
            r matches Ok(x) ==> {
                &&& old(self).contents().len() - old(self).pos() >= 8
                &&& final(self).pos() == old(self).pos() + 8
                &&& final(self).file_pos() == old(self).file_pos() + 8
                &&& final(self).file_pos() <= old(self).contents().len()
                &&& x == spec_u64_from_le_bytes(
                    old(self).contents().subrange(old(self).file_pos() as int, final(self).file_pos() as int),
                )
                &&& (old(self).synced() ==> final(self).synced())
                &&& final(self).checksum_register() == crc_update(
                    old(self).checksum_register(),
                    old(self).contents().subrange(old(self).file_pos() as int, final(self).file_pos() as int),
                )
            },
    {
        match self.read_block::<8>() {
            Ok(b) => Ok(u64_from_le_bytes(b.as_slice())),
            Err(e) => Err(e),
        }
    }
}

/// Checksumming consecutive reads of a file from a fresh digest is checksumming the
/// whole stretch they cover: feeding `d[s..p]` and then `d[p..q]` is feeding `d[s..q]`.
pub proof fn lemma_consecutive_tracked_reads(d: Seq<u8>, s: int, p: int, q: int)
    requires
        0 <= s <= p <= q <= d.len(),
    ensures
        crc_update(crc_update(crc_init(), d.subrange(s, p)), d.subrange(p, q)) == crc_update(
            crc_init(),
            d.subrange(s, q),
        ),
{
    crate::checksum::lemma_crc_update_append(crc_init(), d.subrange(s, p), d.subrange(p, q));
    assert(d.subrange(s, p) + d.subrange(p, q) =~= d.subrange(s, q));
}

} // verus!
