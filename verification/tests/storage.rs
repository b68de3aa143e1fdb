use skyd::checksum::{checksum, SCrc64};
use skyd::data::{Datacell, DictEntryGeneric, DictGeneric};
use skyd::error::{IoErrorKind, RuntimeError, SDSSErrorKind};
use skyd::field::{Field, FieldMap, Layer, TagSelector};
use skyd::fs::{FSInterface, VirtualFile};
use skyd::map::{FieldMapSpec, FieldMapSpecST, GenericDictEntryMD, GenericDictSpec, MapIndexSizeMD, PersistMapImpl};
use skyd::persist::PersistTypeDscr;
use skyd::rw::{Headerless, SDSSFileIO, TrackedReader};
use skyd::scanner::BufferedScanner;

/// A file system whose every file holds the bytes of its own path.
struct PathFs;

impl FSInterface for PathFs {
    type File = VirtualFile;

    fn fs_fopen_rw(fpath: &str) -> Result<VirtualFile, RuntimeError> {
        Ok(VirtualFile::new(fpath, fpath.as_bytes().to_vec()))
    }
}

fn open(contents: &str) -> TrackedReader<PathFs> {
    let (f, ()) = SDSSFileIO::<PathFs>::open::<Headerless>(contents).unwrap();
    TrackedReader::new(f).unwrap()
}

#[test]
fn crc64_xz_check_value() {
    assert_eq!(checksum(b"123456789"), 0x995D_C9BB_DF19_39FA);
    assert_eq!(checksum(b""), 0);
}

#[test]
fn crc64_incremental_equals_whole() {
    let mut c = SCrc64::new();
    c.update(b"1234");
    c.update(b"");
    c.update(b"56789");
    assert_eq!(c.finish(), checksum(b"123456789"));
}

#[test]
fn tracked_reader_reads_and_tracks() {
    let mut r = open("hello world");
    assert_eq!(r.remaining(), 11);
    assert!(!r.is_eof());
    assert!(r.has_left(11));
    assert!(!r.has_left(12));
    assert_eq!(r.read_byte().unwrap(), b'h');
    let mut buf = [0u8; 4];
    r.tracked_read(&mut buf).unwrap();
    assert_eq!(&buf, b"ello");
    assert_eq!(r.__reset_checksum(), checksum(b"hello"));
    let mut skip = [0u8; 1];
    r.untracked_read(&mut skip).unwrap();
    assert_eq!(&skip, b" ");
    let block: [u8; 5] = r.read_block().unwrap();
    assert_eq!(&block, b"world");
    assert!(r.is_eof());
    assert_eq!(r.__reset_checksum(), checksum(b"world"));
}

#[test]
fn tracked_reader_refuses_reading_past_the_end() {
    let mut r = open("abc");
    let mut buf = [0u8; 4];
    assert_eq!(r.tracked_read(&mut buf), Err(RuntimeError::IoError(IoErrorKind::InvalidInput)));
    assert_eq!(r.remaining(), 3);
    assert_eq!(r.read_u64_le(), Err(RuntimeError::IoError(IoErrorKind::InvalidInput)));
}

#[test]
fn tracked_reader_reads_u64_le() {
    let mut r = open("\u{1}\u{2}\u{0}\u{0}\u{0}\u{0}\u{0}\u{0}");
    assert_eq!(r.read_u64_le().unwrap(), 0x0201);
    assert!(r.is_eof());
    assert_eq!(r.__reset_checksum(), checksum(&[1, 2, 0, 0, 0, 0, 0, 0]));
}

#[test]
fn tracked_reader_read_full_and_seek() {
    let (mut f, ()) = SDSSFileIO::<PathFs>::open::<Headerless>("0123456789").unwrap();
    assert_eq!(f.file_length().unwrap(), 10);
    f.seek_from_start(4).unwrap();
    assert_eq!(f.file_cursor().unwrap(), 4);
    assert_eq!(f.read_full().unwrap(), b"456789".to_vec());
    let inner = TrackedReader::new(f).unwrap().into_inner_file().unwrap();
    drop(inner);
}

fn sample_dict() -> DictGeneric {
    let mut inner = DictGeneric::new();
    assert!(inner.st_insert("depth".into(), DictEntryGeneric::Data(Datacell::UnsignedInt(2))));
    let mut d = DictGeneric::new();
    assert!(d.st_insert("null".into(), DictEntryGeneric::Data(Datacell::Null)));
    assert!(d.st_insert("flag".into(), DictEntryGeneric::Data(Datacell::Bool(true))));
    assert!(d.st_insert("uint".into(), DictEntryGeneric::Data(Datacell::UnsignedInt(u64::MAX))));
    assert!(d.st_insert("sint".into(), DictEntryGeneric::Data(Datacell::SignedInt(-42))));
    assert!(d.st_insert("float".into(), DictEntryGeneric::Data(Datacell::Float(1.5f64.to_bits()))));
    assert!(d.st_insert("bin".into(), DictEntryGeneric::Data(Datacell::Bin(vec![0, 255, 7]))));
    assert!(d.st_insert("str".into(), DictEntryGeneric::Data(Datacell::Str("skyté".into()))));
    assert!(d.st_insert(
        "list".into(),
        DictEntryGeneric::Data(Datacell::List(vec![
            Datacell::UnsignedInt(1),
            Datacell::Str("two".into()),
            Datacell::List(vec![Datacell::Bool(false)]),
        ]))
    ));
    assert!(d.st_insert("nested".into(), DictEntryGeneric::Dict(inner)));
    assert!(!d.st_insert("flag".into(), DictEntryGeneric::Data(Datacell::Bool(false))));
    d
}

#[test]
fn generic_dict_round_trip() {
    let d = sample_dict();
    assert_eq!(d.st_len(), 9);
    let mut buf = Vec::new();
    PersistMapImpl::<GenericDictSpec>::default_full_enc(&mut buf, &d);
    let mut scanner = BufferedScanner::new(&buf);
    let back = PersistMapImpl::<GenericDictSpec>::default_full_dec(&mut scanner).unwrap();
    assert!(scanner.eof());
    assert_eq!(back, d);
}

#[test]
fn generic_dict_empty_round_trip() {
    let d = DictGeneric::new();
    let mut buf = Vec::new();
    PersistMapImpl::<GenericDictSpec>::default_full_enc(&mut buf, &d);
    assert_eq!(buf, 0u64.to_le_bytes().to_vec());
    let mut scanner = BufferedScanner::new(&buf);
    assert_eq!(PersistMapImpl::<GenericDictSpec>::default_full_dec(&mut scanner).unwrap(), d);
}

#[test]
fn generic_dict_truncated_is_refused() {
    let d = sample_dict();
    let mut buf = Vec::new();
    PersistMapImpl::<GenericDictSpec>::default_full_enc(&mut buf, &d);
    for cut in [0, 4, 8, 12, buf.len() / 2, buf.len() - 1] {
        let mut scanner = BufferedScanner::new(&buf[..cut]);
        assert!(PersistMapImpl::<GenericDictSpec>::default_full_dec(&mut scanner).is_err());
    }
}

#[test]
fn generic_dict_entry_metadata_round_trip() {
    let raw = GenericDictEntryMD::encode(5, PersistTypeDscr::Str.value_u8());
    assert_eq!(&raw[..8], &5u64.to_le_bytes());
    assert_eq!(raw[8], PersistTypeDscr::Str.value_u8());
    let md = GenericDictEntryMD::decode(raw);
    assert_eq!(md.klen, 5);
    assert_eq!(md.dscr, PersistTypeDscr::Str.value_u8());
}

#[test]
fn type_descriptors_round_trip() {
    for v in 0u8..=PersistTypeDscr::Dict.value_u8() {
        assert_eq!(PersistTypeDscr::from_raw(v).value_u8(), v);
    }
    assert_eq!(PersistTypeDscr::from_raw(0), PersistTypeDscr::Null);
}

fn sample_fields() -> FieldMap {
    let mut m = FieldMap::new();
    assert!(m.st_insert("username".into(), Field { layers: vec![Layer { tag: TagSelector::Str }], nullable: false }));
    assert!(m.st_insert(
        "tags".into(),
        Field { layers: vec![Layer { tag: TagSelector::List }, Layer { tag: TagSelector::Str }], nullable: true }
    ));
    assert!(m.st_insert("age".into(), Field { layers: vec![Layer { tag: TagSelector::UInt8 }], nullable: true }));
    assert!(!m.st_insert("age".into(), Field { layers: vec![], nullable: false }));
    m
}

#[test]
fn field_map_round_trip() {
    let m = sample_fields();
    assert_eq!(m.st_len(), 3);
    let mut buf = Vec::new();
    PersistMapImpl::<FieldMapSpec>::default_full_enc(&mut buf, &m);
    let mut scanner = BufferedScanner::new(&buf);
    let back = PersistMapImpl::<FieldMapSpec>::default_full_dec(&mut scanner).unwrap();
    assert!(scanner.eof());
    assert_eq!(back, m);
}

#[test]
fn field_map_st_round_trip() {
    let m = sample_fields();
    let mut buf = Vec::new();
    PersistMapImpl::<FieldMapSpecST>::default_full_enc(&mut buf, &m);
    let mut plain = Vec::new();
    PersistMapImpl::<FieldMapSpec>::default_full_enc(&mut plain, &m);
    assert_eq!(buf, plain);
    let mut scanner = BufferedScanner::new(&buf);
    assert_eq!(PersistMapImpl::<FieldMapSpecST>::default_full_dec(&mut scanner).unwrap(), m);
}

#[test]
fn field_map_truncated_is_refused() {
    let m = sample_fields();
    let mut buf = Vec::new();
    PersistMapImpl::<FieldMapSpec>::default_full_enc(&mut buf, &m);
    let mut scanner = BufferedScanner::new(&buf[..buf.len() - 1]);
    assert!(PersistMapImpl::<FieldMapSpec>::default_full_dec(&mut scanner).is_err());
    let _unused: Option<SDSSErrorKind> = None;
}

#[test]
fn tag_selector_round_trip() {
    for v in 0u64..14 {
        assert_eq!(TagSelector::from_raw(v).value_qword(), v);
    }
}

#[test]
fn writer_writes_through_to_the_file() {
    let (f, ()) = SDSSFileIO::<PathFs>::open::<Headerless>("abcdef").unwrap();
    let w = skyd::rw::TrackedWriter::new(f).unwrap();
    let mut f = w.sync_into_inner().unwrap();
    f.fsynced_write(b"XY").unwrap();
    f.seek_from_start(0).unwrap();
    assert_eq!(f.read_full().unwrap(), b"XYcdef".to_vec());
    f.seek_from_start(5).unwrap();
    f.fsynced_write(b"123").unwrap();
    assert_eq!(f.file_length().unwrap(), 8);
    f.seek_from_start(0).unwrap();
    assert_eq!(f.read_full().unwrap(), b"XYcde123".to_vec());
}

fn one_entry_dict(key: &[u8], dscr: u8, payload: &[u8]) -> Vec<u8> {
    let mut b = Vec::new();
    b.extend(1u64.to_le_bytes());
    b.extend((key.len() as u64).to_le_bytes());
    b.push(dscr);
    b.extend(key);
    b.extend(payload);
    b
}

#[test]
fn generic_dict_decodes_hand_written_bytes() {
    let mut payload = 3u64.to_le_bytes().to_vec();
    payload.extend(b"sky");
    let b = one_entry_dict(b"k", PersistTypeDscr::Str.value_u8(), &payload);
    let mut scanner = BufferedScanner::new(&b);
    let d = PersistMapImpl::<GenericDictSpec>::default_full_dec(&mut scanner).unwrap();
    let mut expected = DictGeneric::new();
    expected.st_insert("k".into(), DictEntryGeneric::Data(Datacell::Str("sky".into())));
    assert_eq!(d, expected);
}

#[test]
fn generic_dict_refuses_invalid_utf8() {
    let mut payload = 1u64.to_le_bytes().to_vec();
    payload.push(0xFF);
    let b = one_entry_dict(b"k", PersistTypeDscr::Str.value_u8(), &payload);
    let mut scanner = BufferedScanner::new(&b);
    assert_eq!(
        PersistMapImpl::<GenericDictSpec>::default_full_dec(&mut scanner),
        Err(SDSSErrorKind::InternalDecodeStructureCorruptedPayload)
    );
    let b = one_entry_dict(&[0xC3], PersistTypeDscr::Null.value_u8(), &[]);
    let mut scanner = BufferedScanner::new(&b);
    assert_eq!(
        PersistMapImpl::<GenericDictSpec>::default_full_dec(&mut scanner),
        Err(SDSSErrorKind::InternalDecodeStructureCorruptedPayload)
    );
}

#[test]
fn generic_dict_refuses_duplicate_keys_and_short_input() {
    let mut b = 2u64.to_le_bytes().to_vec();
    for _ in 0..2 {
        b.extend(1u64.to_le_bytes());
        b.push(PersistTypeDscr::Null.value_u8());
        b.extend(b"k");
    }
    let mut scanner = BufferedScanner::new(&b);
    assert_eq!(
        PersistMapImpl::<GenericDictSpec>::default_full_dec(&mut scanner),
        Err(SDSSErrorKind::InternalDecodeStructureIllegalData)
    );
    let short = [1u8, 0, 0];
    let mut scanner = BufferedScanner::new(&short);
    assert_eq!(
        PersistMapImpl::<GenericDictSpec>::default_full_dec(&mut scanner),
        Err(SDSSErrorKind::InternalDecodeStructureCorrupted)
    );
}

#[test]
fn consecutive_tracked_reads_checksum_the_whole_stretch() {
    let mut r = open("checksummed");
    let mut a = [0u8; 5];
    let mut b = [0u8; 6];
    r.tracked_read(&mut a).unwrap();
    r.tracked_read(&mut b).unwrap();
    assert_eq!(r.__reset_checksum(), checksum(b"checksummed"));
}

#[test]
fn trap_checker_accepts_encoded_and_flags_dict_in_list() {
    let d = sample_dict();
    let mut buf = Vec::new();
    PersistMapImpl::<GenericDictSpec>::default_full_enc(&mut buf, &d);
    assert!(!skyd::map::dict_would_trap(&buf));
    // one entry "l": a list of one item whose descriptor is that of a dictionary
    let mut payload = 1u64.to_le_bytes().to_vec();
    payload.push(PersistTypeDscr::Dict.value_u8());
    let b = one_entry_dict(b"l", PersistTypeDscr::List.value_u8(), &payload);
    assert!(skyd::map::dict_would_trap(&b));
    assert!(skyd::map::cell_would_trap(&payload, PersistTypeDscr::List.value_u8()));
    assert!(!skyd::map::cell_would_trap(&payload, PersistTypeDscr::Bin.value_u8()));
}

#[test]
fn size_metadata_reads_back_for_both_specs() {
    let m = sample_fields();
    let mut buf = Vec::new();
    PersistMapImpl::<FieldMapSpec>::meta_enc(&mut buf, &m);
    assert_eq!(buf, 3u64.to_le_bytes().to_vec());
    let mut s = BufferedScanner::new(&buf);
    assert_eq!(PersistMapImpl::<FieldMapSpec>::meta_dec(&mut s).unwrap().0, 3);
    assert!(s.eof());
    let d = sample_dict();
    let mut buf = Vec::new();
    PersistMapImpl::<GenericDictSpec>::meta_enc(&mut buf, &d);
    let mut s = BufferedScanner::new(&buf);
    assert_eq!(PersistMapImpl::<GenericDictSpec>::meta_dec(&mut s).unwrap().0, 9);
    assert!(s.eof());
}

#[test]
fn remaining_counts_only_successful_reads() {
    let (mut f, ()) = SDSSFileIO::<PathFs>::open::<Headerless>("0123456789").unwrap();
    f.seek_from_start(2).unwrap();
    let mut r = TrackedReader::new(f).unwrap();
    assert_eq!(r.remaining(), 8);
    let mut three = [0u8; 3];
    r.untracked_read(&mut three).unwrap();
    assert_eq!(&three, b"234");
    let mut nine = [0u8; 9];
    assert!(r.tracked_read(&mut nine).is_err());
    assert_eq!(r.read_byte().unwrap(), b'5');
    assert_eq!(r.remaining(), 10 - 2 - 4);
    let block: [u8; 4] = r.read_block().unwrap();
    assert_eq!(&block, b"6789");
    assert_eq!(r.remaining(), 0);
    assert!(r.read_byte().is_err());
    assert_eq!(r.remaining(), 0);
}

#[test]
fn checksum_since_reset_skips_untracked_reads() {
    let mut r = open("abcde");
    let mut ab = [0u8; 2];
    r.tracked_read(&mut ab).unwrap();
    let mut c = [0u8; 1];
    r.untracked_read(&mut c).unwrap();
    let mut de = [0u8; 2];
    r.tracked_read(&mut de).unwrap();
    assert_eq!(r.__reset_checksum(), checksum(b"abde"));
    assert_eq!(r.__reset_checksum(), SCrc64::new().finish());
}

#[test]
fn open_reads_the_file_at_the_given_path() {
    let (mut f, ()) = SDSSFileIO::<PathFs>::open::<Headerless>("some/path.db").unwrap();
    assert_eq!(f.read_full().unwrap(), b"some/path.db".to_vec());
    let (mut g, ()) = SDSSFileIO::<PathFs>::open::<Headerless>("other").unwrap();
    assert_eq!(g.read_full().unwrap(), b"other".to_vec());
}

#[test]
fn a_read_that_fits_reaches_the_file() {
    let mut r = open("xyz");
    let mut two = [0u8; 2];
    r.untracked_read(&mut two).unwrap();
    assert_eq!(&two, b"xy");
    let mut two_more = [7u8; 2];
    assert_eq!(r.untracked_read(&mut two_more), Err(RuntimeError::IoError(IoErrorKind::InvalidInput)));
    assert_eq!(two_more, [7u8; 2]);
    assert_eq!(r.read_byte().unwrap(), b'z');
}

#[test]
fn field_map_entries_round_trip_in_order() {
    let m = sample_fields();
    let mut buf = Vec::new();
    PersistMapImpl::<FieldMapSpec>::obj_enc(&mut buf, &m);
    let mut scanner = BufferedScanner::new(&buf);
    let back = PersistMapImpl::<FieldMapSpec>::obj_dec(&mut scanner, MapIndexSizeMD(3)).unwrap();
    assert!(scanner.eof());
    assert_eq!(back, m);
}
