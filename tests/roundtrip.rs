use std::collections::HashMap;

use tapcp::{
    check_size, read_device_path, write_device_path, Action, Error, Event, Mode, ReadTransfer,
    WriteTransfer,
};

const BLOCK: usize = 4;

/// A board that keeps register memory and answers one exchange at a time.
struct Board {
    memory: HashMap<String, Vec<u8>>,
    writing: Option<(String, usize, Vec<u8>)>,
    reading: Vec<u8>,
    silent: usize,
}

fn cstr(b: &[u8]) -> (String, &[u8]) {
    let end = b.iter().position(|&c| c == 0).unwrap();
    (String::from_utf8(b[..end].to_vec()).unwrap(), &b[end + 1..])
}

fn parse_dev(path: &str) -> (String, Vec<usize>) {
    let rest = path.strip_prefix("/dev/").unwrap();
    let mut parts = rest.split('.');
    let name = parts.next().unwrap().to_string();
    let nums = parts.map(|p| usize::from_str_radix(p, 16).unwrap()).collect();
    (name, nums)
}

fn data(block: u16, payload: &[u8]) -> Vec<u8> {
    let mut v = vec![0, 3];
    v.extend_from_slice(&block.to_be_bytes());
    v.extend_from_slice(payload);
    v
}

impl Board {
    fn new() -> Board {
        Board { memory: HashMap::new(), writing: None, reading: Vec::new(), silent: 0 }
    }

    fn block_of(&self, n: u16) -> Vec<u8> {
        let start = (n as usize - 1) * BLOCK;
        let end = (start + BLOCK).min(self.reading.len());
        data(n, &self.reading[start.min(end)..end])
    }

    fn handle(&mut self, packet: &[u8]) -> Option<Vec<u8>> {
        if self.silent > 0 {
            self.silent -= 1;
            return None;
        }
        let op = u16::from_be_bytes([packet[0], packet[1]]);
        let n = u16::from_be_bytes([packet[2], packet[3]]);
        match op {
            1 => {
                let (path, _) = cstr(&packet[2..]);
                let (name, nums) = parse_dev(&path);
                let mem = self.memory.get(&name).cloned().unwrap_or_default();
                let start = nums[0] * 4;
                let end = if nums[1] == 0 { mem.len() } else { start + nums[1] * 4 };
                self.reading = mem[start..end.min(mem.len())].to_vec();
                Some(self.block_of(1))
            }
            2 => {
                let (path, _) = cstr(&packet[2..]);
                let (name, nums) = parse_dev(&path);
                self.writing = Some((name, nums[0] * 4, Vec::new()));
                Some(vec![0, 4, 0, 0])
            }
            3 => {
                let payload = &packet[4..];
                let (name, at, buf) = self.writing.as_mut().unwrap();
                buf.extend_from_slice(payload);
                if payload.len() < BLOCK {
                    let mem = self.memory.entry(name.clone()).or_default();
                    if mem.len() < *at + buf.len() {
                        mem.resize(*at + buf.len(), 0);
                    }
                    mem[*at..*at + buf.len()].copy_from_slice(buf);
                }
                Some(vec![0, 4, packet[2], packet[3]])
            }
            4 => {
                if (n as usize) * BLOCK > self.reading.len() {
                    None
                } else {
                    Some(self.block_of(n + 1))
                }
            }
            _ => None,
        }
    }
}

fn exchange(board: &mut Board, first: Vec<u8>, mut step: impl FnMut(Event) -> Action) -> Result<(), Error> {
    let mut out = first;
    loop {
        let event = match board.handle(&out) {
            Some(reply) => Event::Received(reply),
            None => Event::NoResponse,
        };
        match step(event) {
            Action::Send(p) => out = p,
            Action::Wait => {}
            Action::Done(Some(last)) => {
                board.handle(&last);
                return Ok(());
            }
            Action::Done(None) => return Ok(()),
            Action::Fail(e) => return Err(e),
        }
    }
}

fn write_device(board: &mut Board, device: &str, offset: usize, payload: &[u8]) -> Result<(), Error> {
    let path = write_device_path(device, offset);
    let mut t = WriteTransfer::new(&path, payload, BLOCK, 3);
    let first = t.first_packet();
    exchange(board, first, |e| t.step(e))
}

fn read_device(board: &mut Board, device: &str, offset: usize, n: usize) -> Result<Vec<u8>, Error> {
    let path = read_device_path(device, offset, n);
    let mut t = ReadTransfer::new(&path, Mode::Octet, BLOCK, 3);
    let first = t.first_packet();
    exchange(board, first, |e| t.step(e))?;
    check_size(n, t.output())
}

#[test]
fn test_roundtrip() {
    let mut board = Board::new();
    let device = "sys_scratchpad";
    let payload = [1, 2, 3, 4];
    // Write bytes
    write_device(&mut board, device, 0, &payload).unwrap();
    // Read back
    let bytes = read_device(&mut board, device, 0, 1).unwrap();
    assert_eq!(bytes, payload);
}

#[test]
fn roundtrip_over_several_blocks_at_offset() {
    let mut board = Board::new();
    let payload: Vec<u8> = (0..36u8).collect();
    write_device(&mut board, "buf", 3, &payload).unwrap();
    assert_eq!(read_device(&mut board, "buf", 3, 9).unwrap(), payload);
    let all = read_device(&mut board, "buf", 0, 0).unwrap();
    assert_eq!(all.len(), 12 + 36);
    assert_eq!(&all[12..], &payload[..]);
}

#[test]
fn short_read_is_size_mismatch() {
    let mut board = Board::new();
    write_device(&mut board, "r", 0, &[1, 2, 3, 4]).unwrap();
    assert_eq!(read_device(&mut board, "r", 0, 2), Err(Error::SizeMismatch { words: 2, got: 4 }));
}

#[test]
fn silent_board_times_out() {
    let mut board = Board::new();
    board.silent = usize::MAX;
    assert_eq!(read_device(&mut board, "r", 0, 1), Err(Error::Timeout));
    assert_eq!(write_device(&mut board, "r", 0, &[1]), Err(Error::Timeout));
}

#[test]
fn lost_packets_are_resent() {
    let mut board = Board::new();
    board.silent = 2;
    write_device(&mut board, "r", 0, &[5, 6, 7, 8]).unwrap();
    board.silent = 3;
    assert_eq!(read_device(&mut board, "r", 0, 1).unwrap(), vec![5, 6, 7, 8]);
}
