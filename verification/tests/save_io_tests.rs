use fl_convert::backup::{
    backup_extension, backup_extension_at, backup_report, check_save_contents, current_backup_extension,
    format_stamp,
};
use fl_convert::SaveError;

#[test]
fn read_rtn_contents() {
    assert_eq!(check_save_contents(b"FLS1".to_vec()), Ok(b"FLS1".to_vec()));
}

#[test]
fn read_rtn_error() {
    assert!(check_save_contents(Vec::new()).is_err());
    assert_eq!(check_save_contents(Vec::new()), Err(SaveError::UnexpectedEof));
}

#[test]
fn backup_rtn_error() {
    assert!(backup_report(false).is_err());
    assert_eq!(backup_report(false), Err("[ERROR]: Unable to create backup of save file.\r\n"));
}

#[test]
fn backup_report_ok() {
    assert_eq!(backup_report(true), Ok("[INFO]: Backup complete.\r\n"));
}

#[test]
fn backup_extension_wraps_stamp() {
    assert_eq!(backup_extension("20221003_101530"), "fl.20221003_101530.orig");
}

#[test]
fn backup_extension_at_known_instants() {
    assert_eq!(backup_extension_at(0).unwrap(), "fl.19700101_000000.orig");
    assert_eq!(backup_extension_at(-1).unwrap(), "fl.19691231_235959.orig");
    assert_eq!(backup_extension_at(1664792130).unwrap(), "fl.20221003_101530.orig");
    assert_eq!(backup_extension_at(253402300799).unwrap(), "fl.99991231_235959.orig");
    assert_eq!(backup_extension_at(253402300800).unwrap(), "fl.+100000101_000000.orig");
    assert_eq!(backup_extension_at(-62167219200).unwrap(), "fl.00000101_000000.orig");
    assert_eq!(backup_extension_at(-62198755200).unwrap(), "fl.-00010101_000000.orig");
    assert_eq!(backup_extension_at(i64::MAX), None);
}

#[test]
fn format_stamp_pads_every_field() {
    assert_eq!(format_stamp((987, 1, 2, 3, 4, 5)), "09870102_030405");
    assert_eq!(format_stamp((2024, 12, 31, 23, 59, 59)), "20241231_235959");
    assert_eq!(format_stamp((-5, 6, 7, 8, 9, 10)), "-00050607_080910");
    assert_eq!(format_stamp((262142, 12, 31, 0, 0, 0)), "+2621421231_000000");
}

#[test]
fn current_backup_extension_shape() {
    let ext = current_backup_extension().unwrap();
    assert!(ext.starts_with("fl."));
    assert!(ext.ends_with(".orig"));
    assert_eq!(ext.len(), "fl.YYYYMMDD_HHMMSS.orig".len());
    assert_eq!(ext.as_bytes()[11], b'_');
}
