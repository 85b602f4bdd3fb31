use tapcp::path::{HELP_PATH, LISTDEV_PATH, TEMP_PATH};
use tapcp::{check_size, read_device_path, read_flash_path, write_device_path, Error};

#[test]
fn read_path_first_word() {
    assert_eq!(read_device_path("sys_scratchpad", 0, 1), "/dev/sys_scratchpad.0.1");
}

#[test]
fn read_path_hex_offset_and_zero_count() {
    assert_eq!(read_device_path("sys_scratchpad", 255, 0), "/dev/sys_scratchpad.ff.0");
}

#[test]
fn read_path_multi_digit_hex() {
    assert_eq!(read_device_path("adc", 0x1a2b, 16), "/dev/adc.1a2b.10");
}

#[test]
fn write_path_has_no_count() {
    assert_eq!(write_device_path("sys_scratchpad", 0), "/dev/sys_scratchpad.0");
    assert_eq!(write_device_path("sys_scratchpad", 4096), "/dev/sys_scratchpad.1000");
}

#[test]
fn read_path_extends_write_path() {
    let w = write_device_path("reg", 300);
    let r = read_device_path("reg", 300, 7);
    assert!(r.starts_with(&w));
    assert_eq!(&r[w.len()..], ".7");
}

#[test]
fn flash_path() {
    assert_eq!(read_flash_path(16, 255), "/flash.10.ff");
    assert_eq!(read_flash_path(0, 0), "/flash.0.0");
}

#[test]
fn largest_offset_renders_all_digits() {
    let p = read_device_path("r", usize::MAX, 0);
    assert_eq!(p, format!("/dev/r.{:x}.0", usize::MAX));
}

#[test]
fn fixed_paths() {
    assert_eq!(TEMP_PATH, "/temp");
    assert_eq!(HELP_PATH, "/help");
    assert_eq!(LISTDEV_PATH, "/listdev");
}

#[test]
fn zero_count_accepts_any_size() {
    for n in [0usize, 1, 3, 4, 100] {
        assert_eq!(check_size(0, vec![7u8; n]), Ok(vec![7u8; n]));
    }
}

#[test]
fn nonzero_count_needs_four_bytes_per_word() {
    assert_eq!(check_size(2, vec![1, 2, 3, 4, 5, 6, 7, 8]), Ok(vec![1, 2, 3, 4, 5, 6, 7, 8]));
    assert_eq!(check_size(2, vec![1, 2, 3, 4]), Err(Error::SizeMismatch { words: 2, got: 4 }));
    assert_eq!(check_size(1, vec![]), Err(Error::SizeMismatch { words: 1, got: 0 }));
    assert_eq!(check_size(1, vec![0; 5]), Err(Error::SizeMismatch { words: 1, got: 5 }));
}

#[test]
fn huge_count_never_matches() {
    assert_eq!(
        check_size(usize::MAX / 2, vec![0; 8]),
        Err(Error::SizeMismatch { words: usize::MAX / 2, got: 8 })
    );
}
