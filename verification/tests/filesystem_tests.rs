use rustyls::filesystem::type_str;
use rustyls::filesystem::EntryKind;
use rustyls::filesystem::FileMode;
use rustyls::filesystem::FileSystem;
use rustyls::filesystem::Permission;

fn plain(mode_bits: [bool; 9]) -> Permission {
    Permission {
        is_file: true,
        user_read: mode_bits[0],
        user_write: mode_bits[1],
        user_execute: mode_bits[2],
        group_read: mode_bits[3],
        group_write: mode_bits[4],
        group_execute: mode_bits[5],
        other_read: mode_bits[6],
        other_write: mode_bits[7],
        other_execute: mode_bits[8],
        sticky: false,
        setgid: false,
        setuid: false,
    }
}

#[test]
fn mode_string_of_full_permissions() {
    let p = plain([true; 9]);
    assert_eq!(p.mode_string(), "rwxrwxrwx");
}

#[test]
fn mode_string_of_typical_file() {
    let p = plain([
        true, true, false, true, false, false, true, false, false,
    ]);
    assert_eq!(p.mode_string(), "rw-r--r--");
}

#[test]
fn user_execute_bit_letters() {
    let mut p = plain([false; 9]);
    assert_eq!(p.user_execute_bit(true), "-");
    p.user_execute = true;
    assert_eq!(p.user_execute_bit(true), "x");
    p.setuid = true;
    assert_eq!(p.user_execute_bit(true), "S");
    p.user_execute = false;
    assert_eq!(p.user_execute_bit(false), "S");
}

#[test]
fn group_execute_bit_letters() {
    let mut p = plain([false; 9]);
    assert_eq!(p.group_execute_bit(), "-");
    p.group_execute = true;
    assert_eq!(p.group_execute_bit(), "x");
    p.setgid = true;
    assert_eq!(p.group_execute_bit(), "s");
    p.group_execute = false;
    assert_eq!(p.group_execute_bit(), "S");
}

#[test]
fn other_execute_bit_letters() {
    let mut p = plain([false; 9]);
    assert_eq!(p.other_execute_bit(), "-");
    p.other_execute = true;
    assert_eq!(p.other_execute_bit(), "x");
    p.sticky = true;
    assert_eq!(p.other_execute_bit(), "t");
    p.other_execute = false;
    assert_eq!(p.other_execute_bit(), "T");
}

#[test]
fn file_mode_decodes_bits() {
    let mode = FileMode {
        mode: 0o754,
        is_file: true,
    };
    let p = mode.permission();
    assert!(p.user_read && p.user_write && p.user_execute);
    assert!(p.group_read && !p.group_write && p.group_execute);
    assert!(p.other_read && !p.other_write && !p.other_execute);
    assert!(!p.sticky && !p.setgid && !p.setuid);
    assert_eq!(p.mode_string(), "rwxr-xr--");
}

#[test]
fn file_mode_decodes_special_bits() {
    let mode = FileMode {
        mode: 0o7644,
        is_file: false,
    };
    let p = mode.permission();
    assert!(p.sticky && p.setgid && p.setuid);
    assert_eq!(p.mode_string(), "rwSr-Sr-T");
}

#[test]
fn type_str_letters() {
    assert_eq!(type_str(EntryKind::Directory), "d");
    assert_eq!(type_str(EntryKind::Regular), "-");
    assert_eq!(type_str(EntryKind::Other), "l");
}
