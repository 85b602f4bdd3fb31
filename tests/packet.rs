use tapcp::netascii::decode_netascii;
use tapcp::packet::{decode_packet, encode_ack, encode_data, encode_request, Packet};
use tapcp::packet::{OP_READ, OP_WRITE};
use tapcp::Mode;

#[test]
fn read_request_framing() {
    let mut want = vec![0, 1];
    want.extend_from_slice(b"/temp\0octet\0");
    assert_eq!(encode_request(OP_READ, "/temp", Mode::Octet), want);
}

#[test]
fn write_and_netascii_request_framing() {
    let mut want = vec![0, 2];
    want.extend_from_slice(b"/dev/r.0\0octet\0");
    assert_eq!(encode_request(OP_WRITE, "/dev/r.0", Mode::Octet), want);
    let mut want = vec![0, 1];
    want.extend_from_slice(b"/help\0netascii\0");
    assert_eq!(encode_request(OP_READ, "/help", Mode::NetAscii), want);
}

#[test]
fn ack_and_data_framing() {
    assert_eq!(encode_ack(0x0102), vec![0, 4, 1, 2]);
    assert_eq!(encode_data(0xfffe, &[9, 8]), vec![0, 3, 0xff, 0xfe, 9, 8]);
    assert_eq!(encode_data(1, &[]), vec![0, 3, 0, 1]);
}

#[test]
fn decodes_data_ack_error() {
    assert_eq!(
        decode_packet(&[0, 3, 0x12, 0x34, 5, 6]),
        Packet::Data { block: 0x1234, payload: vec![5, 6] }
    );
    assert_eq!(decode_packet(&[0, 4, 0, 7]), Packet::Ack { block: 7 });
    let mut e = vec![0, 5, 0, 1];
    e.extend_from_slice(b"File not found\0");
    assert_eq!(
        decode_packet(&e),
        Packet::Error { code: 1, message: "File not found".to_string() }
    );
}

#[test]
fn decodes_malformed() {
    assert_eq!(decode_packet(&[0, 3, 0]), Packet::Malformed);
    assert_eq!(decode_packet(&[0, 4, 0, 7, 1]), Packet::Malformed);
    assert_eq!(decode_packet(&[0, 5, 0, 1, b'x']), Packet::Malformed);
    assert_eq!(decode_packet(&[0, 5, 0, 1, 0xff, 0]), Packet::Malformed);
    assert_eq!(decode_packet(&[0, 1, 0, 0]), Packet::Malformed);
    assert_eq!(decode_packet(&[0, 9, 0, 0]), Packet::Malformed);
}

#[test]
fn netascii_line_endings() {
    assert_eq!(decode_netascii(b"a\r\nb\r\0c\rd\n"), b"a\nb\rc\rd\n".to_vec());
    assert_eq!(decode_netascii(b"\r"), b"\r".to_vec());
    assert_eq!(decode_netascii(b""), Vec::<u8>::new());
}
