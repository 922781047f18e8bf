use ysos::direntry::Attributes;
use ysos::direntry::Cluster;
use ysos::direntry::DirEntry;
use ysos::direntry::FsTime;
use ysos::direntry::prase_datetime;
use ysos::fserror::FilenameError;
use ysos::fserror::FsError;

#[test]
fn test_dir_entry() {
    let data: Vec<u8> = vec![
        0x4b, 0x45, 0x52, 0x4e, 0x45, 0x4c, 0x20, 0x20, 0x45, 0x4c, 0x46, 0x20, 0x00, 0x00, 0x0f,
        0xbe, 0xd0, 0x50, 0xd0, 0x50, 0x00, 0x00, 0x0f, 0xbe, 0xd0, 0x50, 0x02, 0x00, 0xf0, 0xe4,
        0x0e, 0x00,
    ];

    let res = DirEntry::parse(&data).unwrap();

    assert_eq!(&res.filename.name, b"KERNEL  ");
    assert_eq!(&res.filename.ext, b"ELF");
    assert_eq!(res.attributes, Attributes { bits: 0x20 });
    assert_eq!(res.cluster, Cluster(2));
    assert_eq!(res.size, 0xee4f0);
    let expected_dt = FsTime { year: 2020, month: 6, day: 16, hour: 23, minute: 48, second: 30 };
    assert_eq!(res.created_time, expected_dt);
    assert_eq!(res.modified_time, expected_dt);
    assert_eq!(
        res.accessed_time,
        FsTime { year: 2020, month: 6, day: 16, hour: 0, minute: 0, second: 0 }
    );

    println!("{:#?}", res);
}

#[test]
fn datetime_unpacks_bit_fields() {
    // 2020-06-16 23:48:30 packed: year 40, month 6, day 16, hour 23, min 48, sec 15
    let packed: u32 = (40 << 25) | (6 << 21) | (16 << 16) | (23 << 11) | (48 << 5) | 15;
    let t = prase_datetime(packed);
    assert_eq!(t, FsTime { year: 2020, month: 6, day: 16, hour: 23, minute: 48, second: 30 });
}

#[test]
fn datetime_rejects_invalid_calendar_dates() {
    // month 0 is no calendar month: the decoder falls back to the epoch
    let packed_month0: u32 = (40 << 25) | (0 << 21) | (16 << 16);
    assert_eq!(
        prase_datetime(packed_month0),
        FsTime { year: 1970, month: 1, day: 1, hour: 0, minute: 0, second: 0 }
    );
    // 2021-02-29 does not exist (2021 is no leap year)
    let packed_feb29: u32 = (41 << 25) | (2 << 21) | (29 << 16);
    assert_eq!(
        prase_datetime(packed_feb29),
        FsTime { year: 1970, month: 1, day: 1, hour: 0, minute: 0, second: 0 }
    );
    // 2020-02-29 exists (2020 is a leap year)
    let packed_feb29_leap: u32 = (40 << 25) | (2 << 21) | (29 << 16);
    assert_eq!(
        prase_datetime(packed_feb29_leap),
        FsTime { year: 2020, month: 2, day: 29, hour: 0, minute: 0, second: 0 }
    );
}

#[test]
fn displayable_and_directory_flags() {
    let mut data: Vec<u8> = vec![0u8; 32];
    for (i, b) in b"SUBDIR     ".iter().enumerate() {
        data[i] = *b;
    }
    data[11] = 0x10;
    let entry = DirEntry::parse(&data).unwrap();
    assert!(entry.is_directory());
    assert!(entry.is_valid());
    assert!(entry.is_displayable());
    assert!(!entry.is_long_name());
    assert_eq!(entry.filename(), b"SUBDIR".to_vec());

    let mut hidden = data.clone();
    hidden[11] = 0x10 | 0x02;
    let entry2 = DirEntry::parse(&hidden).unwrap();
    assert!(!entry2.is_displayable());
}

#[test]
fn filename_joins_base_and_extension() {
    let mut data: Vec<u8> = vec![0u8; 32];
    for (i, b) in b"KERNEL  ELF".iter().enumerate() {
        data[i] = *b;
    }
    data[11] = 0x20;
    let entry = DirEntry::parse(&data).unwrap();
    assert_eq!(entry.filename(), b"KERNEL.ELF".to_vec());
}

#[test]
fn short_name_parse_uppercases_and_pads() {
    let f = ysos::direntry::ShortFileName::parse(&b"kernel.elf".to_vec()).unwrap();
    assert_eq!(&f.name, b"KERNEL  ");
    assert_eq!(&f.ext, b"ELF");
}

#[test]
fn short_name_parse_without_extension() {
    let f = ysos::direntry::ShortFileName::parse(&b"boot".to_vec()).unwrap();
    assert_eq!(&f.name, b"BOOT    ");
    assert_eq!(&f.ext, b"   ");
}

#[test]
fn short_name_parse_refuses_bad_names() {
    let parse = ysos::direntry::ShortFileName::parse;
    assert_eq!(parse(&Vec::new()), Err(FsError::BadFilename(FilenameError::FilenameEmpty)));
    assert_eq!(
        parse(&b"a b".to_vec()),
        Err(FsError::BadFilename(FilenameError::MisplacedPeriod))
    );
    assert_eq!(
        parse(&b"toolongname".to_vec()),
        Err(FsError::BadFilename(FilenameError::NameTooLong))
    );
    assert_eq!(
        parse(&b"over.done".to_vec()),
        Err(FsError::BadFilename(FilenameError::NameTooLong))
    );
    assert_eq!(
        parse(&b"ab*c".to_vec()),
        Err(FsError::BadFilename(FilenameError::InvalidCharacter))
    );
}

#[test]
fn filename_trims_and_joins_with_a_dot() {
    let data: Vec<u8> = vec![
        0x4b, 0x45, 0x52, 0x4e, 0x45, 0x4c, 0x20, 0x20, 0x45, 0x4c, 0x46, 0x20, 0x00, 0x00, 0x0f,
        0xbe, 0xd0, 0x50, 0xd0, 0x50, 0x00, 0x00, 0x0f, 0xbe, 0xd0, 0x50, 0x02, 0x00, 0xf0, 0xe4,
        0x0e, 0x00,
    ];
    let e = ysos::direntry::DirEntry::parse(&data).unwrap();
    assert_eq!(e.filename(), b"KERNEL.ELF".to_vec());
}

#[test]
fn filename_of_a_long_name_entry_reads_as_the_placeholder() {
    let mut data: Vec<u8> = vec![
        0x4b, 0x45, 0x52, 0x4e, 0x45, 0x4c, 0x20, 0x20, 0x45, 0x4c, 0x46, 0x20, 0x00, 0x00, 0x0f,
        0xbe, 0xd0, 0x50, 0xd0, 0x50, 0x00, 0x00, 0x0f, 0xbe, 0xd0, 0x50, 0x02, 0x00, 0xf0, 0xe4,
        0x0e, 0x00,
    ];
    data[11] = 0x0f;
    let e = ysos::direntry::DirEntry::parse(&data).unwrap();
    assert_eq!(e.filename(), b"unknown".to_vec());
    data[0] = 0xE5;
    data[11] = 0x20;
    let deleted = ysos::direntry::DirEntry::parse(&data).unwrap();
    assert_eq!(deleted.filename(), b"unknown".to_vec());
}
