use verter::{Config, Error, File, IoFailure};

fn reopen(file: File, config: Config) -> File {
    File::open(Some(file.into_bytes()), config).unwrap()
}

#[test]
fn hello_world() {
    let mut file = File::open(None, Config::default()).unwrap();
    let data = b"Hello, World!".to_owned();
    file.write_root(&data).unwrap();

    let file = reopen(file, Config::default());
    assert_eq!(&data, file.read_root().unwrap().as_slice());
}

#[test]
fn deletion() {
    let mut file = File::open(None, Config::default()).unwrap();
    let page = file.allocate().unwrap();
    file.write(page, b"Hey there").unwrap();
    file.delete(page).unwrap();
    let new_page = file.allocate().unwrap();
    assert_eq!(page, new_page); // Deleted page should be re-used
}

#[test]
fn truncation() {
    let mut file = File::open(None, Config::default()).unwrap();
    file.write_root(&vec![0xAE; 2000]).unwrap();
    file.write_root(&vec![0xBA; 200]).unwrap();
    let file_size = file.file_size();

    let mut file = reopen(file, Config::default());
    file.allocate().unwrap();
    let new_file_size = file.file_size();

    assert_eq!(file_size, new_file_size);
}

#[test]
fn magic_bytes() {
    let file = File::open(None, Config { magic_bytes: b"Magic1", ..Config::default() }).unwrap();
    let bytes = file.into_bytes();

    match File::open(Some(bytes), Config { magic_bytes: b"Magic2", ..Config::default() }) {
        Err(Error::InvalidFile) => {}
        Ok(_) | Err(_) => panic!("should error with invalid file"),
    }
}

#[test]
fn invalid_pointer() {
    let mut file = File::open(None, Config::default()).unwrap();

    match file.read(3) {
        Err(Error::InvalidPointer) => {}
        Ok(_) | Err(_) => panic!("should error with invalid pointer"),
    }

    match file.read(file.header_size() + 10000 * file.total_page_size()) {
        Err(Error::InvalidPointer) => {}
        Ok(_) | Err(_) => panic!("should error with invalid pointer"),
    }

    let alloc = file.allocate().unwrap();
    file.delete(alloc).unwrap();
    match file.read(alloc) {
        Err(Error::DeletedPointer) => {}
        Ok(_) | Err(_) => panic!("should error with deleted pointer"),
    }
}

#[test]
fn extension() {
    let mut file = File::open(None, Config::default()).unwrap();
    let alloc = file.allocate().unwrap();
    let mut bytes = file.into_bytes();

    for i in 0..100 {
        let size = i * 45;
        let next_size = (i + 1) * 45;

        let mut file = File::open(Some(bytes), Config::default()).unwrap();
        let old_data = file.read(alloc).unwrap();
        assert_eq!(old_data, vec![0xFA; size]);
        file.write(alloc, &vec![0xFA; next_size]).unwrap();
        bytes = file.into_bytes();
    }

    let file = File::open(Some(bytes), Config::default()).unwrap();
    assert_eq!(file.read(alloc).unwrap(), vec![0xFA; 4500]);
}

#[test]
fn default_config_values() {
    let config = Config::default();
    assert_eq!(config.magic_bytes, b"VERTER__");
    assert_eq!(config.page_size, 120);
    assert!(config.is_valid());
}

#[test]
fn config_validity() {
    assert!(!Config { magic_bytes: b"", page_size: 120 }.is_valid());
    assert!(!Config { magic_bytes: b"M", page_size: 0 }.is_valid());
    assert!(!Config { magic_bytes: b"M", page_size: usize::MAX }.is_valid());
    assert!(Config { magic_bytes: b"M", page_size: 1 }.is_valid());
}

#[test]
fn fresh_image_is_byte_exact() {
    let config = Config { magic_bytes: b"AB", page_size: 4 };
    let file = File::open(None, config).unwrap();
    assert_eq!(file.header_size(), 18);
    assert_eq!(file.total_page_size(), 12);
    assert_eq!(file.file_size(), 30);
    let expected: Vec<u8> = vec![
        b'A', b'B', // magic
        0, 0, 0, 0, 0, 0, 0, 0, // free list head: none
        18, 0, 0, 0, 0, 0, 0, 0, // root handle
        0, 0, 0, 0, 0, 0, 0, 0x40, // an empty final page
        0xFF, 0xFF, 0xFF, 0xFF,
    ];
    assert_eq!(file.as_bytes(), expected.as_slice());
    assert_eq!(file.config().page_size, 4);
}

#[test]
fn default_layout() {
    let file = File::open(None, Config::default()).unwrap();
    assert_eq!(file.header_size(), 24);
    assert_eq!(file.total_page_size(), 128);
    assert_eq!(file.file_size(), 152);
    assert_eq!(file.read_root().unwrap(), Vec::<u8>::new());
}

#[test]
fn write_is_byte_exact() {
    let config = Config { magic_bytes: b"AB", page_size: 4 };
    let mut file = File::open(None, config).unwrap();
    file.write_root(&[1, 2, 3, 4, 5, 6]).unwrap();
    let expected: Vec<u8> = vec![
        b'A', b'B', //
        0, 0, 0, 0, 0, 0, 0, 0, //
        18, 0, 0, 0, 0, 0, 0, 0, //
        30, 0, 0, 0, 0, 0, 0, 0, // next page at 30
        1, 2, 3, 4, //
        2, 0, 0, 0, 0, 0, 0, 0x40, // final page, two bytes used
        5, 6, 0xFF, 0xFF,
    ];
    assert_eq!(file.as_bytes(), expected.as_slice());
    assert_eq!(file.read_root().unwrap(), vec![1, 2, 3, 4, 5, 6]);
}

#[test]
fn shrinking_releases_the_tail() {
    let config = Config { magic_bytes: b"AB", page_size: 4 };
    let mut file = File::open(None, config).unwrap();
    file.write_root(&[1, 2, 3, 4, 5, 6, 7, 8, 9]).unwrap();
    assert_eq!(file.file_size(), 18 + 3 * 12);
    file.write_root(&[7]).unwrap();
    let expected: Vec<u8> = vec![
        b'A', b'B', //
        42, 0, 0, 0, 0, 0, 0, 0, // free list head: the last page released
        18, 0, 0, 0, 0, 0, 0, 0, //
        1, 0, 0, 0, 0, 0, 0, 0x40, // final page, one byte used
        7, 0xFF, 0xFF, 0xFF, //
        0, 0, 0, 0, 0, 0, 0, 0x80, // deleted, last of the free list
        0xFF, 0xFF, 0xFF, 0xFF, //
        30, 0, 0, 0, 0, 0, 0, 0x80, // deleted, next free page at 30
        0xFF, 0xFF, 0xFF, 0xFF,
    ];
    assert_eq!(file.as_bytes(), expected.as_slice());
    assert_eq!(file.read_root().unwrap(), vec![7]);
    // The free pages come back, the last released first.
    assert_eq!(file.allocate().unwrap(), 42);
    assert_eq!(file.allocate().unwrap(), 30);
    assert_eq!(file.allocate().unwrap(), 54);
    assert_eq!(file.file_size(), 18 + 4 * 12);
}

#[test]
fn round_trip_of_many_lengths() {
    let config = Config { magic_bytes: b"RT", page_size: 7 };
    let mut file = File::open(None, config).unwrap();
    let handle = file.allocate().unwrap();
    for len in [0usize, 1, 6, 7, 8, 13, 14, 15, 50, 3, 0, 21] {
        let data: Vec<u8> = (0..len).map(|i| (i * 3 + len) as u8).collect();
        file.write(handle, &data).unwrap();
        assert_eq!(file.read(handle).unwrap(), data);
        // the root blob is untouched
        assert_eq!(file.read_root().unwrap(), Vec::<u8>::new());
    }
}

#[test]
fn page_count_after_write() {
    let config = Config { magic_bytes: b"PC", page_size: 10 };
    let mut file = File::open(None, config).unwrap();
    // one page for the root; lengths 0..=10 need one page, 11..=20 two
    file.write_root(&[0u8; 10]).unwrap();
    assert_eq!(file.file_size(), 18 + 18);
    file.write_root(&[0u8; 11]).unwrap();
    assert_eq!(file.file_size(), 18 + 2 * 18);
    file.write_root(&[0u8; 30]).unwrap();
    assert_eq!(file.file_size(), 18 + 3 * 18);
    file.write_root(&[]).unwrap();
    assert_eq!(file.file_size(), 18 + 3 * 18);
    assert_eq!(file.read_root().unwrap(), Vec::<u8>::new());
}

#[test]
fn root_persists_across_reopen() {
    let config = Config { magic_bytes: b"ROOT", page_size: 16 };
    let mut file = File::open(None, config).unwrap();
    let data: Vec<u8> = (0..100u8).collect();
    file.write_root(&data).unwrap();
    let file = reopen(file, config);
    assert_eq!(file.read_root().unwrap(), data);
}

#[test]
fn misaligned_handles_are_refused() {
    let mut file = File::open(None, Config::default()).unwrap();
    let before = file.as_bytes().to_vec();
    for handle in [0u64, 1, 23, 25, 24 + 127, 24 + 128, u64::MAX] {
        assert_eq!(file.read(handle), Err(Error::InvalidPointer));
        assert_eq!(file.write(handle, b"x"), Err(Error::InvalidPointer));
        assert_eq!(file.delete(handle), Err(Error::InvalidPointer));
    }
    assert_eq!(file.as_bytes(), before.as_slice());
}

#[test]
fn deleted_handles_are_refused() {
    let mut file = File::open(None, Config::default()).unwrap();
    let handle = file.allocate().unwrap();
    file.write(handle, &[9u8; 300]).unwrap();
    file.delete(handle).unwrap();
    let before = file.as_bytes().to_vec();
    assert_eq!(file.read(handle), Err(Error::DeletedPointer));
    assert_eq!(file.write(handle, b"x"), Err(Error::DeletedPointer));
    assert_eq!(file.delete(handle), Err(Error::DeletedPointer));
    assert_eq!(file.as_bytes(), before.as_slice());
}

#[test]
fn magic_is_checked_on_open() {
    let config = Config::default();
    assert!(matches!(File::open(Some(Vec::new()), config), Err(Error::InvalidFile)));
    assert!(matches!(File::open(Some(b"VERTER_".to_vec()), config), Err(Error::InvalidFile)));
    assert!(matches!(File::open(Some(b"VERTER_X".to_vec()), config), Err(Error::InvalidFile)));
    assert!(File::open(Some(b"VERTER__".to_vec()), config).is_ok());
}

#[test]
fn truncated_header_is_an_io_error() {
    let mut file = File::open(Some(b"VERTER__".to_vec()), Config::default()).unwrap();
    assert_eq!(file.read_root(), Err(Error::IO(IoFailure::UnexpectedEof)));
    assert_eq!(file.write_root(b"x"), Err(Error::IO(IoFailure::UnexpectedEof)));
    assert_eq!(file.allocate(), Err(Error::IO(IoFailure::UnexpectedEof)));
}

#[test]
fn truncated_page_is_an_io_error() {
    let file = File::open(None, Config::default()).unwrap();
    let mut bytes = file.into_bytes();
    bytes.pop();
    let mut file = File::open(Some(bytes), Config::default()).unwrap();
    assert_eq!(file.read(24), Err(Error::IO(IoFailure::UnexpectedEof)));
    assert_eq!(file.write(24, b"x"), Err(Error::IO(IoFailure::UnexpectedEof)));
    assert_eq!(file.delete(24), Err(Error::IO(IoFailure::UnexpectedEof)));
}

fn small() -> (Config, Vec<u8>) {
    let config = Config { magic_bytes: b"AB", page_size: 4 };
    let mut file = File::open(None, config).unwrap();
    file.write_root(&[1, 2, 3, 4, 5, 6]).unwrap();
    (config, file.into_bytes())
}

#[test]
fn deleted_page_inside_a_chain_is_corruption() {
    let (config, mut bytes) = small();
    // retag the second page of the root chain as deleted
    bytes[30 + 7] = 0x80;
    let mut file = File::open(Some(bytes), config).unwrap();
    assert_eq!(file.read_root(), Err(Error::CorruptedFile));
    assert_eq!(file.write_root(&[0u8; 9]), Err(Error::CorruptedFile));
    assert_eq!(file.delete(18), Err(Error::CorruptedFile));
}

#[test]
fn cyclic_chain_is_corruption() {
    let (config, mut bytes) = small();
    // make the second page point back at the first
    bytes[30..38].copy_from_slice(&18u64.to_le_bytes());
    let mut file = File::open(Some(bytes), config).unwrap();
    assert_eq!(file.read_root(), Err(Error::CorruptedFile));
    assert_eq!(file.delete(18), Err(Error::CorruptedFile));
}

#[test]
fn misaligned_link_is_corruption() {
    let (config, mut bytes) = small();
    bytes[18..26].copy_from_slice(&19u64.to_le_bytes());
    let file = File::open(Some(bytes), config).unwrap();
    assert_eq!(file.read_root(), Err(Error::CorruptedFile));
}

#[test]
fn link_beyond_the_file_is_an_io_error() {
    let (config, mut bytes) = small();
    bytes[18..26].copy_from_slice(&42u64.to_le_bytes());
    let file = File::open(Some(bytes), config).unwrap();
    assert_eq!(file.read_root(), Err(Error::IO(IoFailure::UnexpectedEof)));
}

#[test]
fn oversized_final_count_is_corruption() {
    let (config, mut bytes) = small();
    bytes[30] = 5;
    let file = File::open(Some(bytes), config).unwrap();
    assert_eq!(file.read_root(), Err(Error::CorruptedFile));
}

#[test]
fn free_list_head_that_is_not_deleted_is_corruption() {
    let (config, mut bytes) = small();
    // point the free list at the live root page
    bytes[2..10].copy_from_slice(&18u64.to_le_bytes());
    let mut file = File::open(Some(bytes.clone()), config).unwrap();
    assert_eq!(file.allocate(), Err(Error::CorruptedFile));
    assert_eq!(file.as_bytes(), bytes.as_slice());
}

#[test]
fn reserved_tag_reads_as_deleted() {
    let (config, mut bytes) = small();
    bytes[18 + 7] = 0xC0;
    let file = File::open(Some(bytes), config).unwrap();
    assert_eq!(file.read(18), Err(Error::DeletedPointer));
}

#[test]
fn delete_pushes_pages_in_visit_order() {
    let config = Config { magic_bytes: b"AB", page_size: 4 };
    let mut file = File::open(None, config).unwrap();
    let handle = file.allocate().unwrap();
    assert_eq!(handle, 30);
    file.write(handle, &[1u8; 12]).unwrap();
    assert_eq!(file.file_size(), 18 + 4 * 12);
    file.delete(handle).unwrap();
    // the last page of the chain is now the head of the free list
    assert_eq!(file.allocate().unwrap(), 54);
    assert_eq!(file.allocate().unwrap(), 42);
    assert_eq!(file.allocate().unwrap(), 30);
    assert_eq!(file.allocate().unwrap(), 66);
}

#[test]
fn allocated_blob_is_empty() {
    let mut file = File::open(None, Config::default()).unwrap();
    let handle = file.allocate().unwrap();
    assert_eq!(handle, 152);
    assert_eq!(file.read(handle).unwrap(), Vec::<u8>::new());
    assert_eq!(file.file_size(), 280);
}

#[test]
fn blobs_do_not_disturb_each_other() {
    let config = Config { magic_bytes: b"AB", page_size: 5 };
    let mut file = File::open(None, config).unwrap();
    let a = file.allocate().unwrap();
    let b = file.allocate().unwrap();
    file.write(a, &[0xA1; 23]).unwrap();
    file.write(b, &[0xB2; 17]).unwrap();
    file.write_root(&[0xC3; 11]).unwrap();
    file.write(a, &[0xA4; 2]).unwrap();
    file.write(b, &[0xB5; 31]).unwrap();
    assert_eq!(file.read(a).unwrap(), vec![0xA4; 2]);
    assert_eq!(file.read(b).unwrap(), vec![0xB5; 31]);
    assert_eq!(file.read_root().unwrap(), vec![0xC3; 11]);
    file.delete(a).unwrap();
    assert_eq!(file.read(b).unwrap(), vec![0xB5; 31]);
    assert_eq!(file.read_root().unwrap(), vec![0xC3; 11]);
}

#[test]
fn deleted_last_page_is_corruption() {
    let (config, mut bytes) = small();
    bytes[30 + 7] = 0x80;
    let mut file = File::open(Some(bytes), config).unwrap();
    // the data ends in the second page, which is deleted
    assert_eq!(file.write_root(&[0u8; 6]), Err(Error::CorruptedFile));
}

#[test]
fn shorter_magic_that_is_a_prefix_is_accepted() {
    let file = File::open(None, Config { magic_bytes: b"Magic1", ..Config::default() }).unwrap();
    let bytes = file.into_bytes();
    // the file does not record how long its magic bytes are
    assert!(File::open(Some(bytes), Config { magic_bytes: b"Magic", ..Config::default() }).is_ok());
}

#[test]
fn blob_length_is_full_pages_and_the_last_count() {
    let config = Config { magic_bytes: b"AB", page_size: 4 };
    let mut file = File::open(None, config).unwrap();
    file.write_root(&[7u8; 11]).unwrap();
    // three pages: two full ones and a last page with a count of 3
    assert_eq!(file.file_size(), 18 + 3 * 12);
    let bytes = file.as_bytes();
    assert_eq!(&bytes[18 + 24..18 + 32], &[3, 0, 0, 0, 0, 0, 0, 0x40]);
    assert_eq!(file.read_root().unwrap().len(), 2 * 4 + 3);
}

#[test]
fn writing_to_a_page_inside_a_chain_rewrites_its_tail() {
    let config = Config { magic_bytes: b"AB", page_size: 4 };
    let mut file = File::open(None, config).unwrap();
    file.write_root(&[1, 2, 3, 4, 5, 6, 7, 8, 9]).unwrap();
    file.write(30, &[0xEE]).unwrap();
    assert_eq!(file.read(30).unwrap(), vec![0xEE]);
    assert_eq!(file.read_root().unwrap(), vec![1, 2, 3, 4, 0xEE]);
}

#[test]
fn pages_are_reused_before_the_file_grows() {
    let config = Config { magic_bytes: b"AB", page_size: 4 };
    let mut file = File::open(None, config).unwrap();
    let a = file.allocate().unwrap();
    file.write(a, &[1u8; 12]).unwrap();
    let size = file.file_size();
    file.delete(a).unwrap();
    // three pages are free: a blob of four pages takes them and one more
    file.write_root(&[2u8; 16]).unwrap();
    assert_eq!(file.file_size(), size);
    file.write_root(&[3u8; 20]).unwrap();
    assert_eq!(file.file_size(), size + 12);
    assert_eq!(file.read_root().unwrap(), vec![3u8; 20]);
}

#[test]
fn empty_write_keeps_one_page() {
    let mut file = File::open(None, Config::default()).unwrap();
    file.write_root(&[]).unwrap();
    assert_eq!(file.file_size(), 152);
    assert_eq!(file.read_root().unwrap(), Vec::<u8>::new());
    assert_eq!(&file.as_bytes()[24..32], &[0, 0, 0, 0, 0, 0, 0, 0x40]);
    assert!(file.as_bytes()[32..].iter().all(|b| *b == 0xFF));
}
