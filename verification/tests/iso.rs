use doors::iso9660::{Iso9660Datetime, Iso9660DirectoryRecord, Iso9660StringA, Iso9660StringD, IsoError, PathTableEntry};
use doors::iso_volume::{Iso9660Image, Iso9660Volume, VolumeTerminator};

#[test]
fn string_classes_upper_case_and_check() {
    assert_eq!(Iso9660StringD::try_from(b"boot_1").unwrap().0, b"BOOT_1".to_vec());
    assert_eq!(Iso9660StringD::try_from(b"a.b").err(), Some(IsoError::InvalidCharacter));
    assert_eq!(Iso9660StringA::try_from(b"doors os?").unwrap().0, b"DOORS OS?".to_vec());
    assert_eq!(Iso9660StringA::try_from(b"a@b").err(), Some(IsoError::InvalidCharacter));
    assert!(Iso9660StringA::new().0.is_empty());
    assert!(Iso9660StringD::new().0.is_empty());
}

fn record() -> Iso9660DirectoryRecord {
    let mut r = Iso9660DirectoryRecord::default();
    r.location_lba = 0x12;
    r.length_bytes = 0x800;
    r.date_time_years = 124;
    r.date_time_month = 5;
    r.date_time_day = 17;
    r.flags = 2;
    r.volume_sequence_number = 1;
    r.filename_length = 6;
    r.name = Iso9660StringD(b"README".to_vec());
    r
}

#[test]
fn directory_record_image_layout() {
    let r = record();
    let img = r.image();
    assert_eq!(img.len(), 39);
    assert_eq!(img[0], 39);
    assert_eq!(&img[2..10], &[0x12, 0, 0, 0, 0, 0, 0, 0x12]);
    assert_eq!(&img[10..18], &[0, 8, 0, 0, 0, 0, 8, 0]);
    assert_eq!(&img[28..32], &[1, 0, 0, 1]);
    assert_eq!(img[32], 6);
    assert_eq!(&img[33..], b"README");
    let mut buf = [0xaau8; 64];
    let l = r.get_contents(&mut buf);
    assert_eq!(l, 39);
    assert_eq!(&buf[..39], &img[..]);
}

#[test]
fn directory_record_reads_back() {
    let r = record();
    let img = r.image();
    let back = Iso9660DirectoryRecord::try_from(&img).unwrap();
    assert_eq!(back.length, 39);
    assert_eq!(back.location_lba, 0x12);
    assert_eq!(back.length_bytes, 0x800);
    assert_eq!(back.date_time_years, 124);
    assert_eq!(back.date_time_day, 17);
    assert_eq!(back.flags, 2);
    assert_eq!(back.volume_sequence_number, 1);
    assert_eq!(back.filename_length, 6);
    assert_eq!(back.name.0, b"README".to_vec());
}

#[test]
fn directory_record_errors() {
    assert_eq!(Iso9660DirectoryRecord::try_from(&[0u8; 20]).err(), Some(IsoError::InvalidSize));
    let mut img = record().image();
    img[34] = b'.';
    assert_eq!(Iso9660DirectoryRecord::try_from(&img).err(), Some(IsoError::InvalidCharacter));
    img[34] = 0xff;
    assert_eq!(Iso9660DirectoryRecord::try_from(&img).err(), Some(IsoError::InvalidUtf8));
}

fn date() -> Iso9660Datetime {
    Iso9660Datetime { year: 2024, month: 12, day: 25, hour: 13, minute: 45, second: 30, fractions_second: 99, gmt_offset: 4 }
}

#[test]
fn datetime_image_and_read_back() {
    let d = date();
    let img = d.image();
    assert_eq!(&img[..16], b"2024122513453099");
    assert_eq!(img[16], 4);
    let back = Iso9660Datetime::try_from(&img).unwrap();
    assert_eq!(
        (back.year, back.month, back.day, back.hour, back.minute, back.second, back.fractions_second, back.gmt_offset),
        (2024, 12, 25, 13, 45, 30, 99, 4)
    );
    let mut buf = [0u8; 20];
    d.get_contents(&mut buf);
    assert_eq!(&buf[..17], &img[..]);
    assert_eq!(&buf[17..], &[0, 0, 0]);
}

#[test]
fn datetime_pads_short_numbers_with_spaces() {
    let mut d = date();
    d.month = 5;
    let img = d.image();
    assert_eq!(&img[4..6], b"5 ");
    // a space inside a number field is not a number
    assert_eq!(Iso9660Datetime::try_from(&img).err(), Some(IsoError::InvalidNumber));
}

#[test]
fn datetime_errors() {
    assert_eq!(Iso9660Datetime::try_from(&[b'0'; 16]).err(), Some(IsoError::InvalidSize));
    let mut img = date().image();
    img[0] = b'x';
    assert_eq!(Iso9660Datetime::try_from(&img).err(), Some(IsoError::InvalidNumber));
    img[0] = 0xff;
    assert_eq!(Iso9660Datetime::try_from(&img).err(), Some(IsoError::InvalidUtf8));
    let mut plus = date().image();
    plus[4] = b'+';
    plus[5] = b'7';
    assert_eq!(Iso9660Datetime::try_from(&plus).unwrap().month, 7);
    let d = Iso9660Datetime::default();
    assert_eq!((d.year, d.month, d.gmt_offset), (0, 0, 0));
}

#[test]
fn path_table_entry_header_both_orders() {
    let e = PathTableEntry {
        name_length: 4,
        extended_attribute_length: 0,
        location_lba: 0x1234,
        parent_dir: 1,
        name: Iso9660StringD(b"BOOT".to_vec()),
    };
    assert_eq!(e.length(), 12);
    assert_eq!(e.directory_entry_location(), 0x1234 * 2048);
    let mut le = [0u8; 12];
    e.write_data(&mut le, false);
    assert_eq!(&le[..8], &[4, 0, 0x34, 0x12, 0, 0, 1, 0]);
    let mut be = [0u8; 12];
    e.write_data(&mut be, true);
    assert_eq!(&be[..8], &[4, 0, 0, 0, 0x12, 0x34, 0, 1]);
    le[8..12].copy_from_slice(b"BOOT");
    be[8..12].copy_from_slice(b"BOOT");
    let a = PathTableEntry::from_le_data(&le).unwrap();
    let b = PathTableEntry::from_be_data(&be).unwrap();
    assert_eq!((a.location_lba, a.parent_dir, a.name.0.clone()), (0x1234, 1, b"BOOT".to_vec()));
    assert_eq!((b.location_lba, b.parent_dir, b.name.0.clone()), (0x1234, 1, b"BOOT".to_vec()));
    let odd = PathTableEntry { name_length: 3, extended_attribute_length: 0, location_lba: 0, parent_dir: 0, name: Iso9660StringD::new() };
    assert_eq!(odd.length(), 12);
}

#[test]
fn terminator_reads_back() {
    let mut d = [0u8; 2048];
    VolumeTerminator {}.write_descriptor(&mut d);
    assert_eq!(&d[..7], &[255, b'C', b'D', b'0', b'0', b'1', 1]);
    assert!(VolumeTerminator::try_from(&d).is_ok());
    assert!(matches!(Iso9660Volume::try_from(&d), Ok(Iso9660Volume::Terminator(_))));
}

#[test]
fn image_of_system_area_and_terminator() {
    let mut bytes = vec![0u8; 0x8000];
    let mut d = [0u8; 2048];
    VolumeTerminator {}.write_descriptor(&mut d);
    bytes.extend_from_slice(&d);
    let img = Iso9660Image::parse_bytes(&bytes).unwrap();
    assert_eq!(img.sys_area.len(), 0x8000);
    assert_eq!(img.volume_descriptors().len(), 1);
    assert_eq!(img.to_bytes(), bytes);
}

#[test]
fn image_errors() {
    assert_eq!(Iso9660Image::parse_bytes(&[0u8; 100]).err(), Some(IsoError::Truncated));
    assert_eq!(Iso9660Image::parse_bytes(&vec![0u8; 0x8000 + 100]).err(), Some(IsoError::Truncated));
    let mut bytes = vec![0u8; 0x8000 + 2048];
    bytes[0x8000] = 7;
    bytes[0x8001..0x8006].copy_from_slice(b"CD001");
    bytes[0x8006] = 1;
    assert_eq!(Iso9660Image::parse_bytes(&bytes).err(), Some(IsoError::InvalidDescriptor));
    assert!(Iso9660Image::new().volume_descriptors().is_empty());
}
