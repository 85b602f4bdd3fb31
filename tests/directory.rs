use tapcp::readings::{help_text, temperature_bits};
use tapcp::{decode_directory, decode_listing, Device, Error};

fn entry(buf: &mut Vec<u8>, name: &str, addr: u32, length: u32) {
    buf.extend_from_slice(name.as_bytes());
    buf.push(0);
    buf.extend_from_slice(&addr.to_be_bytes());
    buf.extend_from_slice(&length.to_be_bytes());
}

fn two_registers() -> Vec<u8> {
    let mut b = Vec::new();
    entry(&mut b, "reg_a", 0x10, 0x4);
    entry(&mut b, "reg_b", 0x20, 0x8);
    b
}

#[test]
fn decodes_two_registers() {
    let d = decode_directory(&two_registers()).unwrap();
    assert_eq!(d.len(), 2);
    assert_eq!(d.get("reg_a"), Some(Device { addr: 0x10, length: 0x4 }));
    assert_eq!(d.get("reg_b"), Some(Device { addr: 0x20, length: 0x8 }));
    assert_eq!(d.get("reg_c"), None);
}

#[test]
fn truncated_record_is_rejected() {
    let b = two_registers();
    for cut in 1..b.len() {
        if cut == 14 {
            continue;
        }
        assert_eq!(decode_directory(&b[..cut]).unwrap_err(), Error::Decode, "cut at {}", cut);
    }
}

#[test]
fn whole_first_entry_alone_decodes() {
    let b = two_registers();
    let d = decode_directory(&b[..14]).unwrap();
    assert_eq!(d.len(), 1);
    assert_eq!(d.get("reg_a"), Some(Device { addr: 0x10, length: 0x4 }));
}

#[test]
fn empty_buffer_is_empty_directory() {
    let d = decode_directory(&[]).unwrap();
    assert_eq!(d.len(), 0);
}

#[test]
fn unterminated_name_is_rejected() {
    assert_eq!(decode_directory(b"reg_a").unwrap_err(), Error::Decode);
}

#[test]
fn invalid_utf8_name_is_rejected() {
    let mut b = vec![0xff, 0xfe, 0];
    b.extend_from_slice(&[0, 0, 0, 1, 0, 0, 0, 2]);
    assert_eq!(decode_directory(&b).unwrap_err(), Error::Decode);
}

#[test]
fn duplicate_name_keeps_last() {
    let mut b = Vec::new();
    entry(&mut b, "r", 1, 2);
    entry(&mut b, "s", 3, 4);
    entry(&mut b, "r", 5, 6);
    let d = decode_directory(&b).unwrap();
    assert_eq!(d.len(), 2);
    assert_eq!(d.get("r"), Some(Device { addr: 5, length: 6 }));
    assert_eq!(d.get("s"), Some(Device { addr: 3, length: 4 }));
}

#[test]
fn big_endian_fields() {
    let mut b = Vec::new();
    entry(&mut b, "wide", 0xdeadbeef, 0xffffffff);
    let d = decode_directory(&b).unwrap();
    assert_eq!(d.get("wide"), Some(Device { addr: 0xdeadbeef, length: 0xffffffff }));
    let (name, dev) = d.entry(0);
    assert_eq!(name, "wide");
    assert_eq!(dev, Device { addr: 0xdeadbeef, length: 0xffffffff });
}

#[test]
fn listing_skips_header() {
    let mut b = vec![0x00, 0x1c];
    b.extend_from_slice(&two_registers());
    let d = decode_listing(&b).unwrap();
    assert_eq!(d.len(), 2);
    assert_eq!(d.get("reg_b"), Some(Device { addr: 0x20, length: 0x8 }));
    assert_eq!(decode_listing(&[0x00]).unwrap_err(), Error::Decode);
    assert_eq!(decode_listing(&[0x00, 0x00]).unwrap().len(), 0);
}

#[test]
fn temperature_is_first_word() {
    assert_eq!(temperature_bits(&[0x42, 0x28, 0x00, 0x00, 0x99]), Some(0x42280000));
    assert_eq!(f32::from_bits(temperature_bits(&[0x42, 0x28, 0, 0]).unwrap()), 42.0);
    assert_eq!(temperature_bits(&[1, 2, 3]), None);
}

#[test]
fn help_must_be_utf8() {
    assert_eq!(help_text("listdev\ntemp\n".as_bytes()), Ok("listdev\ntemp\n".to_string()));
    assert_eq!(help_text("grüße".as_bytes()), Ok("grüße".to_string()));
    assert_eq!(help_text(&[0xc3]), Err(Error::Decode));
}

#[test]
fn entries_cover_every_register_once() {
    let mut b = two_registers();
    entry(&mut b, "reg_c", 0x30, 0xc);
    entry(&mut b, "reg_a", 0x40, 0x4);
    let d = decode_directory(&b).unwrap();
    let mut seen: Vec<(String, Device)> = (0..d.len()).map(|i| d.entry(i)).collect();
    seen.sort_by(|x, y| x.0.cmp(&y.0));
    assert_eq!(
        seen,
        vec![
            ("reg_a".to_string(), Device { addr: 0x40, length: 0x4 }),
            ("reg_b".to_string(), Device { addr: 0x20, length: 0x8 }),
            ("reg_c".to_string(), Device { addr: 0x30, length: 0xc }),
        ]
    );
}
