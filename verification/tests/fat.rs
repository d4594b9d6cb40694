use idos::fat::dir::{is_subdir_empty, parse_short_name, Entity, RootDirectory, SubDirectory};
use idos::fat::disk::{DiskAccess, MemoryDisk};
use idos::fat::entry::DirEntry;
use idos::fat::file::File;
use idos::fat::path::{resolve_path, PathError};
use idos::fat::stamp::{decode_timestamp, encode_timestamp, FileDate, FileTime};
use idos::fat::table::AllocationTable;

fn table() -> AllocationTable {
    AllocationTable { table_offset: 512, entry_count: 40, data_offset: 2048, cluster_bytes: 512 }
}

fn disk() -> DiskAccess<MemoryDisk> {
    DiskAccess::new(MemoryDisk { bytes: vec![0u8; 2048 + 38 * 512] })
}

fn root() -> RootDirectory {
    RootDirectory::new(2, 16)
}

#[test]
fn filename_matching() {
    let mut direntry = DirEntry::new();
    direntry.set_filename(b"MYFILE  ", b"TXT");

    assert!(direntry.matches_name(
        &[b'M', b'Y', b'F', b'I', b'L', b'E', b' ', b' '],
        &[b'T', b'X', b'T'],
    ));
    assert!(direntry.matches_name(
        &[b'M', b'y', b'F', b'i', b'l', b'e', b' ', b' '],
        &[b't', b'x', b't'],
    ));

    assert!(!direntry.matches_name(
        &[b'O', b'T', b'H', b'E', b'R', b' ', b' ', b' '],
        &[b'T', b'X', b'T'],
    ));
}

#[test]
fn names_of_an_entry() {
    let mut e = DirEntry::new();
    e.set_filename(b"README  ", b"MD ");
    assert_eq!(e.get_filename(), b"README".to_vec());
    assert_eq!(e.get_ext(), b"MD".to_vec());
    assert_eq!(e.get_full_name(), b"README.MD".to_vec());
    e.set_filename(b"NOEXT   ", b"   ");
    assert_eq!(e.get_full_name(), b"NOEXT".to_vec());
}

#[test]
fn names_that_are_no_text() {
    let mut e = DirEntry::new();
    e.set_filename(&[0xff, 0xfe, b'A', b' ', b' ', b' ', b' ', b' '], b"TXT");
    assert_eq!(e.get_filename(), b"!!!!!!!!".to_vec());
}

#[test]
fn short_names_are_padded() {
    let (name, ext) = parse_short_name(b"file.c");
    assert_eq!(&name, b"FILE    ");
    assert_eq!(&ext, b"C  ");
}

#[test]
fn stamps_round_trip() {
    let ts = encode_timestamp(2020, 7, 8, 13, 50, 2);
    let (date, time) = decode_timestamp(ts);
    assert_eq!((date.get_year(), date.get_month(), date.get_day()), (2020, 7, 8));
    assert_eq!((time.get_hours(), time.get_minutes(), time.get_seconds()), (13, 50, 2));
    assert_eq!(date, FileDate::from_parts(2020, 7, 8));
    assert_eq!(time, FileTime::from_parts(13, 50, 2));
    assert_eq!(encode_timestamp(2101, 1, 1, 0, 0, 0), 3_818_448_000);
    assert_eq!(encode_timestamp(2100, 3, 1, 0, 0, 0), 3_792_009_600);
    let (date, _) = decode_timestamp(3_792_009_600);
    assert_eq!((date.get_year(), date.get_month(), date.get_day()), (2100, 3, 1));
}

#[test]
fn added_entry_is_found_and_removed() {
    let mut d = disk();
    let at = root().add_entry(b"HELLO   ", b"TXT", 0x20, 5, &mut d, 86400);
    assert!(at.is_some());
    match root().find_entry(b"hello.txt", &mut d) {
        Some(Entity::File(f)) => {
            assert_eq!(f.first_cluster(), 5);
            assert_eq!(f.get_modification_time(), 86400);
        }
        _ => panic!("not found"),
    }
    assert!(root().find_entry(b"other.txt", &mut d).is_none());
    let removed = root().remove_entry(b"HELLO   ", b"TXT", &mut d);
    assert_eq!(removed.map(|e| e.first_file_cluster()), Some(5));
    assert!(root().find_entry(b"hello.txt", &mut d).is_none());
}

#[test]
fn table_links_clusters() {
    let t = table();
    let mut d = disk();
    t.set_cluster_entry(2, 3, &mut d);
    t.set_cluster_entry(3, 0xfff, &mut d);
    assert_eq!(t.get_next_cluster(2, &mut d), Some(3));
    assert_eq!(t.get_next_cluster(3, &mut d), None);
    assert_eq!(t.allocate_cluster(&mut d), Some(4));
    assert_eq!(t.get_cluster_location(3), 2048 + 512);
}

#[test]
fn file_gives_back_what_was_written() {
    let t = table();
    let mut d = disk();
    t.set_cluster_entry(2, 0xfff, &mut d);
    let mut e = DirEntry::new();
    e.set_filename(b"DATA    ", b"BIN");
    e.set_first_cluster(2);
    let mut f = File::from_dir_entry(e, 1024);
    let data: Vec<u8> = (0..1300u32).map(|i| (i * 7 % 251) as u8).collect();
    assert_eq!(f.write(&data, 0, t, &mut d), 1300);
    assert_eq!(f.byte_size(), 1300);
    let mut back = vec![0u8; 2000];
    assert_eq!(f.read(&mut back, 0, t, &mut d), 1300);
    assert_eq!(&back[..1300], &data[..]);
    let mut part = vec![0u8; 10];
    assert_eq!(f.read(&mut part, 510, t, &mut d), 10);
    assert_eq!(&part[..], &data[510..520]);
}

#[test]
fn paths_lead_through_directories() {
    let t = table();
    let mut d = disk();
    t.set_cluster_entry(2, 0xfff, &mut d);
    root().add_entry(b"SUB     ", b"   ", 0x10, 2, &mut d, 0);
    let sub = SubDirectory::new(2);
    assert!(is_subdir_empty(2, &t, &mut d));
    sub.add_entry(b"A       ", b"TXT", 0x20, 9, &t, &mut d, 0);
    assert!(!is_subdir_empty(2, &t, &mut d));
    match resolve_path(b"SUB\\A.TXT", root(), &t, &mut d) {
        Ok((dir, leaf)) => {
            assert_eq!(dir.first_cluster(), 2);
            assert_eq!(leaf, b"A.TXT".to_vec());
            assert!(dir.find_entry(&leaf, &t, &mut d).is_some());
        }
        Err(_) => panic!("not resolved"),
    }
    assert!(matches!(resolve_path(b"NONE\\A.TXT", root(), &t, &mut d), Err(PathError::NotFound)));
    assert!(matches!(resolve_path(b"", root(), &t, &mut d), Err(PathError::InvalidArgument)));
    for path in [&b"SUB/A.TXT"[..], b"/SUB\\A.TXT", b"\\SUB/A.TXT"] {
        match resolve_path(path, root(), &t, &mut d) {
            Ok((dir, leaf)) => {
                assert_eq!(dir.first_cluster(), 2);
                assert_eq!(leaf, b"A.TXT".to_vec());
            }
            Err(_) => panic!("not resolved"),
        }
    }
}

#[test]
fn root_without_slots_is_empty() {
    let mut d = disk();
    let none = RootDirectory::new(2, 0);
    assert!(none.entries(&mut d).is_empty());
    assert!(none.add_entry(b"A       ", b"   ", 0, 2, &mut d, 0).is_none());
    assert!(none.find_entry(b"A", &mut d).is_none());
    let mut walk = none.iter(&mut d);
    assert!(walk.next(&mut d).is_none());
}
