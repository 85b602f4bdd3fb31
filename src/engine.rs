//! The transfer engine: one read or one write exchange, driven as a state
//! machine. The caller transmits what an [`Action`] asks for, waits for the
//! board, and hands back what came (or that nothing came) as an [`Event`].
use vstd::prelude::*;
use vstd::slice::slice_subrange;
use vstd::string::*;

use crate::error::{malformed, malformed_spec, Error, ErrorSpec};
use crate::netascii::{decode_netascii, from_netascii};
use crate::packet::{
    ack_bytes, be16, classify, data_bytes, u16_at, decode_packet, encode_ack, encode_data, encode_request,
    push_bytes, request_bytes, Mode, Packet, Reply, OP_DATA, OP_READ, OP_WRITE,
};

verus! {

/// Where a transfer stands.
#[derive(Debug, Copy, Clone, PartialEq, Eq, Structural)]
pub enum Phase {
    Running,
    Done,
    Failed,
}

/// What happened while the caller waited for the board.
#[derive(Debug, Clone, PartialEq, Eq)]
pub enum Event {
    /// The attempt's timeout ran out with nothing received.
    NoResponse,
    /// A datagram arrived from the board.
    Received(Vec<u8>),
}

/// The mathematical value of an [`Event`].
pub enum EventSpec {
    NoResponse,
    Received(Seq<u8>),
}

impl View for Event {
    type V = EventSpec;

    open spec fn view(&self) -> EventSpec {
        match self {
            Event::NoResponse => EventSpec::NoResponse,
            Event::Received(b) => EventSpec::Received(b@),
        }
    }
}

/// What the caller does next.
#[derive(Debug, Clone, PartialEq, Eq)]
pub enum Action {
    /// Transmit the packet, then wait for a reply with a fresh timeout.
    Send(Vec<u8>),
    /// Keep waiting within the current attempt's timeout; nothing is resent.
    Wait,
    /// The transfer is complete; transmit the packet first, if there is one.
    Done(Option<Vec<u8>>),
    /// The transfer failed.
    Fail(Error),
}

/// The mathematical value of an [`Action`].
pub enum ActionSpec {
    Send(Seq<u8>),
    Wait,
    Done(Option<Seq<u8>>),
    Fail(ErrorSpec),
}

impl View for Action {
    type V = ActionSpec;

    open spec fn view(&self) -> ActionSpec {
        match self {
            Action::Send(b) => ActionSpec::Send(b@),
            Action::Wait => ActionSpec::Wait,
            Action::Done(Some(b)) => ActionSpec::Done(Some(b@)),
            Action::Done(None) => ActionSpec::Done(None),
            Action::Fail(e) => ActionSpec::Fail(e@),
        }
    }
}

/// The state of a transfer.
pub struct TransferState {
    pub mode: Mode,
    pub block_size: nat,
    pub max_retries: nat,
    /// Block number that the next accepted reply must carry.
    pub seq: u16,
    /// Blocks completed: accepted (read) or sent (write).
    pub blocks: nat,
    /// Resends of `last_sent` since the last progress.
    pub retries: nat,
    /// The packet that a resend repeats.
    pub last_sent: Seq<u8>,
    /// Read: the payload received so far. Write: the payload to send.
    pub data: Seq<u8>,
    /// Write: bytes of `data` carried by the data blocks sent so far.
    pub sent: nat,
    /// Write: payloads of the data blocks sent so far, in order.
    pub chunks: Seq<Seq<u8>>,
    /// Write: the block sent last was the short, final one.
    pub final_sent: bool,
    pub phase: Phase,
}

/// Block number of the `k`-th block of a transfer: numbers wrap at 65536.
pub open spec fn block_number(k: nat) -> u16 {
    (k % 65536) as u16
}

/// The block number after `n`.
pub open spec fn next_block(n: u16) -> u16 {
    ((n as int + 1) % 65536) as u16
}

fn next_block_exec(n: u16) -> (r: u16)
    ensures
        r == next_block(n),
{
    if n == 65535 {
        0
    } else {
        n + 1
    }
}

fn copy_bytes(v: &Vec<u8>) -> (r: Vec<u8>)
    ensures
        r@ == v@,
{
    let mut r = Vec::new();
    push_bytes(&mut r, v.as_slice());
    r
}

/// Nothing came within the timeout: resend while the retry budget lasts, then
/// give up.
pub open spec fn silence_next(s: TransferState) -> (TransferState, ActionSpec) {
    if s.retries < s.max_retries {
        (TransferState { retries: s.retries + 1, ..s }, ActionSpec::Send(s.last_sent))
    } else {
        (TransferState { phase: Phase::Failed, ..s }, ActionSpec::Fail(ErrorSpec::Timeout))
    }
}

/// A reply that ends the exchange with an error: the board's own error, or a
/// packet that has no place in it.
pub open spec fn reject(s: TransferState, r: Reply) -> (TransferState, ActionSpec) {
    let failed = TransferState { phase: Phase::Failed, ..s };
    match r {
        Reply::Error { code, message } => (
            failed,
            ActionSpec::Fail(ErrorSpec::Protocol { code, message }),
        ),
        _ => (failed, ActionSpec::Fail(malformed_spec())),
    }
}

/// One step of a read.
pub open spec fn read_next(s: TransferState, ev: EventSpec) -> (TransferState, ActionSpec) {
    match ev {
        EventSpec::NoResponse => silence_next(s),
        EventSpec::Received(b) => match classify(b) {
            Reply::Data { block, payload } => {
                if block != s.seq {
                    (s, ActionSpec::Wait)
                } else if payload.len() > s.block_size {
                    reject(s, Reply::Malformed)
                } else {
                    let s2 = TransferState {
                        seq: next_block(s.seq),
                        blocks: s.blocks + 1,
                        retries: 0,
                        last_sent: ack_bytes(block),
                        data: s.data + payload,
                        ..s
                    };
                    if payload.len() < s.block_size {
                        (
                            TransferState { phase: Phase::Done, ..s2 },
                            ActionSpec::Done(Some(ack_bytes(block))),
                        )
                    } else {
                        (s2, ActionSpec::Send(ack_bytes(block)))
                    }
                }
            },
            r => reject(s, r),
        },
    }
}

/// The state in which a read of `path` starts, its request sent.
pub open spec fn read_start(path: Seq<u8>, mode: Mode, block_size: nat, max_retries: nat) -> TransferState {
    TransferState {
        mode,
        block_size,
        max_retries,
        seq: 1,
        blocks: 0,
        retries: 0,
        last_sent: request_bytes(OP_READ, path, mode),
        data: seq![],
        sent: 0,
        chunks: seq![],
        final_sent: false,
        phase: Phase::Running,
    }
}

/// The invariant of a read: a positive block size, a retry count within
/// budget, and the awaited block numbered after the blocks taken.
pub open spec fn read_state_wf(s: TransferState) -> bool {
    &&& s.block_size > 0
    &&& s.retries <= s.max_retries
    &&& s.seq == block_number(s.blocks + 1)
}

/// What a finished read delivers: the payload, with line endings made local
/// in network-ASCII mode.
pub open spec fn read_output(mode: Mode, data: Seq<u8>) -> Seq<u8> {
    match mode {
        Mode::Octet => data,
        Mode::NetAscii => from_netascii(data),
    }
}

/// A read exchange in progress.
pub struct ReadTransfer {
    mode: Mode,
    block_size: usize,
    max_retries: u32,
    seq: u16,
    blocks: Ghost<nat>,
    retries: u32,
    last_sent: Vec<u8>,
    data: Vec<u8>,
    phase: Phase,
}

impl View for ReadTransfer {
    type V = TransferState;

    closed spec fn view(&self) -> TransferState {
        TransferState {
            mode: self.mode,
            block_size: self.block_size as nat,
            max_retries: self.max_retries as nat,
            seq: self.seq,
            blocks: self.blocks@,
            retries: self.retries as nat,
            last_sent: self.last_sent@,
            data: self.data@,
            sent: 0,
            chunks: seq![],
            final_sent: false,
            phase: self.phase,
        }
    }
}

impl ReadTransfer {
    pub open spec fn wf(&self) -> bool {
        read_state_wf(self@)
    }

    /// A read of `path`; its request is [`ReadTransfer::first_packet`].
    pub fn new(path: &str, mode: Mode, block_size: usize, max_retries: u32) -> (r: ReadTransfer)
        requires
            block_size > 0,
        ensures
            r.wf(),
            r@ == read_start(path.spec_bytes(), mode, block_size as nat, max_retries as nat),
    {
        ReadTransfer {
            mode,
            block_size,
            max_retries,
            seq: 1,
            blocks: Ghost(0),
            retries: 0,
            last_sent: encode_request(OP_READ, path, mode),
            data: Vec::new(),
            phase: Phase::Running,
        }
    }

    /// The packet that opens the exchange.
    pub fn first_packet(&self) -> (r: Vec<u8>)
        ensures
            r@ == self@.last_sent,
    {
        copy_bytes(&self.last_sent)
    }

    pub fn phase(&self) -> (r: Phase)
        ensures
            r == self@.phase,
    {
        self.phase
    }

    /// Takes in what happened since the last action and says what to do next.
    pub fn step(&mut self, event: Event) -> (a: Action)
        requires
            old(self).wf(),
            old(self)@.phase == Phase::Running,
        ensures
            final(self).wf(),
            (final(self)@, a@) == read_next(old(self)@, event@),
    {
        match event {
            Event::NoResponse => {
                if self.retries < self.max_retries {
                    self.retries = self.retries + 1;
                    Action::Send(copy_bytes(&self.last_sent))
                } else {
                    self.phase = Phase::Failed;
                    Action::Fail(Error::Timeout)
                }
            },
            Event::Received(bytes) => {
                match decode_packet(bytes.as_slice()) {
                    Packet::Data { block, payload } => {
                        if block != self.seq {
                            Action::Wait
                        } else if payload.len() > self.block_size {
                            self.phase = Phase::Failed;
                            Action::Fail(malformed())
                        } else {
                            let n = payload.len();
                            let mut payload = payload;
                            self.seq = next_block_exec(block);
                            self.blocks = Ghost(self.blocks@ + 1);
                            self.retries = 0;
                            self.last_sent = encode_ack(block);
                            self.data.append(&mut payload);
                            proof {
                                assert(block_number(self.blocks@ + 1) == next_block(block)) by {
                                    assert((self.blocks@ + 1) % 65536 == ((self.blocks@ % 65536)
                                        + 1) % 65536);
                                }
                            }
                            if n < self.block_size {
                                self.phase = Phase::Done;
                                Action::Done(Some(encode_ack(block)))
                            } else {
                                Action::Send(encode_ack(block))
                            }
                        }
                    },
                    Packet::Error { code, message } => {
                        self.phase = Phase::Failed;
                        Action::Fail(Error::Protocol { code, message })
                    },
                    _ => {
                        self.phase = Phase::Failed;
                        Action::Fail(malformed())
                    },
                }
            },
        }
    }

    /// The payload of a finished read.
    pub fn output(&self) -> (r: Vec<u8>)
        requires
            self@.phase == Phase::Done,
        ensures
            r@ == read_output(self@.mode, self@.data),
    {
        match self.mode {
            Mode::Octet => copy_bytes(&self.data),
            Mode::NetAscii => decode_netascii(self.data.as_slice()),
        }
    }
}

/// The payloads in order, joined.
pub open spec fn concat(cs: Seq<Seq<u8>>) -> Seq<u8>
    decreases cs.len(),
{
    if cs.len() == 0 {
        seq![]
    } else {
        cs[0] + concat(cs.drop_first())
    }
}

proof fn lemma_concat_push(cs: Seq<Seq<u8>>, c: Seq<u8>)
    ensures
        concat(cs.push(c)) == concat(cs) + c,
    decreases cs.len(),
{
    if cs.len() == 0 {
        assert(cs.push(c).drop_first() =~= Seq::<Seq<u8>>::empty());
        assert(concat(cs.push(c).drop_first()) == Seq::<u8>::empty());
        assert(cs.push(c)[0] == c);
        assert(concat(cs.push(c)) =~= c);
    } else {
        assert(cs.push(c).drop_first() =~= cs.drop_first().push(c));
        lemma_concat_push(cs.drop_first(), c);
        assert(concat(cs.push(c)) =~= concat(cs) + c);
    }
}

/// Where the next data block of a write ends: a full block further, or the
/// end of the payload when less than a block is left.
pub open spec fn chunk_end(s: TransferState) -> nat {
    if s.data.len() - s.sent < s.block_size {
        s.data.len()
    } else {
        s.sent + s.block_size
    }
}

/// One step of a write.
pub open spec fn write_next(s: TransferState, ev: EventSpec) -> (TransferState, ActionSpec) {
    match ev {
        EventSpec::NoResponse => silence_next(s),
        EventSpec::Received(b) => match classify(b) {
            Reply::Ack { block } => {
                if block != s.seq {
                    (s, ActionSpec::Wait)
                } else if s.final_sent {
                    (TransferState { phase: Phase::Done, ..s }, ActionSpec::Done(None))
                } else {
                    let chunk = s.data.subrange(s.sent as int, chunk_end(s) as int);
                    let packet = data_bytes(next_block(s.seq), chunk);
                    (
                        TransferState {
                            seq: next_block(s.seq),
                            blocks: s.blocks + 1,
                            retries: 0,
                            last_sent: packet,
                            sent: chunk_end(s),
                            chunks: s.chunks.push(chunk),
                            final_sent: chunk.len() < s.block_size,
                            ..s
                        },
                        ActionSpec::Send(packet),
                    )
                }
            },
            r => reject(s, r),
        },
    }
}

/// The state in which a write of `data` to `path` starts, its request sent.
pub open spec fn write_start(path: Seq<u8>, data: Seq<u8>, block_size: nat, max_retries: nat) -> TransferState {
    TransferState {
        mode: Mode::Octet,
        block_size,
        max_retries,
        seq: 0,
        blocks: 0,
        retries: 0,
        last_sent: request_bytes(OP_WRITE, path, Mode::Octet),
        data,
        sent: 0,
        chunks: seq![],
        final_sent: false,
        phase: Phase::Running,
    }
}

/// The invariant of a write: the blocks sent so far carry the front of the
/// payload in order, all full but a final short one, and the awaited
/// acknowledgment carries the number of the last block sent.
pub open spec fn write_state_wf(s: TransferState) -> bool {
    &&& s.block_size > 0
    &&& s.retries <= s.max_retries
    &&& s.seq == block_number(s.blocks)
    &&& s.sent <= s.data.len()
    &&& s.chunks.len() == s.blocks
    &&& concat(s.chunks) == s.data.subrange(0, s.sent as int)
    &&& forall|i: int| 0 <= i < s.chunks.len() ==> #[trigger] s.chunks[i].len() <= s.block_size
    &&& forall|i: int|
        0 <= i < s.chunks.len() - 1 ==> #[trigger] s.chunks[i].len() == s.block_size
    &&& s.final_sent <==> (s.blocks > 0 && s.chunks.last().len() < s.block_size)
    &&& s.final_sent ==> s.sent == s.data.len()
    &&& s.phase == Phase::Done ==> s.final_sent
}

/// A write exchange in progress.
pub struct WriteTransfer {
    block_size: usize,
    max_retries: u32,
    seq: u16,
    blocks: Ghost<nat>,
    chunks: Ghost<Seq<Seq<u8>>>,
    retries: u32,
    last_sent: Vec<u8>,
    data: Vec<u8>,
    sent: usize,
    final_sent: bool,
    phase: Phase,
}

impl View for WriteTransfer {
    type V = TransferState;

    closed spec fn view(&self) -> TransferState {
        TransferState {
            mode: Mode::Octet,
            block_size: self.block_size as nat,
            max_retries: self.max_retries as nat,
            seq: self.seq,
            blocks: self.blocks@,
            retries: self.retries as nat,
            last_sent: self.last_sent@,
            data: self.data@,
            sent: self.sent as nat,
            chunks: self.chunks@,
            final_sent: self.final_sent,
            phase: self.phase,
        }
    }
}

impl WriteTransfer {
    pub open spec fn wf(&self) -> bool {
        write_state_wf(self@)
    }

    /// A write of `data` to `path`; its request is [`WriteTransfer::first_packet`].
    pub fn new(path: &str, data: &[u8], block_size: usize, max_retries: u32) -> (r: WriteTransfer)
        requires
            block_size > 0,
        ensures
            r.wf(),
            r@ == write_start(path.spec_bytes(), data@, block_size as nat, max_retries as nat),
    {
        let mut d = Vec::new();
        push_bytes(&mut d, data);
        let r = WriteTransfer {
            block_size,
            max_retries,
            seq: 0,
            blocks: Ghost(0),
            chunks: Ghost(Seq::empty()),
            retries: 0,
            last_sent: encode_request(OP_WRITE, path, Mode::Octet),
            data: d,
            sent: 0,
            final_sent: false,
            phase: Phase::Running,
        };
        assert(r@.data.subrange(0, 0) =~= seq![]);
        r
    }

    /// The packet that opens the exchange.
    pub fn first_packet(&self) -> (r: Vec<u8>)
        ensures
            r@ == self@.last_sent,
    {
        copy_bytes(&self.last_sent)
    }

    pub fn phase(&self) -> (r: Phase)
        ensures
            r == self@.phase,
    {
        self.phase
    }

    /// Takes in what happened since the last action and says what to do next.
    pub fn step(&mut self, event: Event) -> (a: Action)
        requires
            old(self).wf(),
            old(self)@.phase == Phase::Running,
        ensures
            final(self).wf(),
            (final(self)@, a@) == write_next(old(self)@, event@),
    {
        match event {
            Event::NoResponse => {
                if self.retries < self.max_retries {
                    self.retries = self.retries + 1;
                    Action::Send(copy_bytes(&self.last_sent))
                } else {
                    self.phase = Phase::Failed;
                    Action::Fail(Error::Timeout)
                }
            },
            Event::Received(bytes) => {
                match decode_packet(bytes.as_slice()) {
                    Packet::Ack { block } => {
                        if block != self.seq {
                            Action::Wait
                        } else if self.final_sent {
                            self.phase = Phase::Done;
                            Action::Done(None)
                        } else {
                            let ghost s = self@;
                            let end = if self.data.len() - self.sent < self.block_size {
                                self.data.len()
                            } else {
                                self.sent + self.block_size
                            };
                            let next = next_block_exec(self.seq);
                            let chunk = slice_subrange(self.data.as_slice(), self.sent, end);
                            let ghost c = chunk@;
                            let short = chunk.len() < self.block_size;
                            let packet = encode_data(next, chunk);
                            self.last_sent = encode_data(next, chunk);
                            self.seq = next;
                            self.blocks = Ghost(self.blocks@ + 1);
                            self.chunks = Ghost(self.chunks@.push(c));
                            self.retries = 0;
                            self.sent = end;
                            self.final_sent = short;
                            proof {
                                assert(block_number(self.blocks@) == next_block(s.seq)) by {
                                    assert(self.blocks@ % 65536 == ((s.blocks % 65536) + 1)
                                        % 65536);
                                }
                                lemma_concat_push(s.chunks, c);
                                assert(s.data.subrange(0, s.sent as int) + c =~= s.data.subrange(
                                    0,
                                    end as int,
                                ));
                                assert(self.chunks@.last() == c);
                                assert forall|i: int| 0 <= i < self.chunks@.len() - 1 implies
                                    #[trigger] self.chunks@[i].len() == s.block_size by {
                                    assert(self.chunks@[i] == s.chunks[i]);
                                    if s.blocks > 0 && i == s.chunks.len() - 1 {
                                        assert(!s.final_sent);
                                    }
                                }
                                assert forall|i: int| 0 <= i < self.chunks@.len() implies
                                    #[trigger] self.chunks@[i].len() <= s.block_size by {
                                    if i < s.chunks.len() {
                                        assert(self.chunks@[i] == s.chunks[i]);
                                    }
                                }
                            }
                            Action::Send(packet)
                        }
                    },
                    Packet::Error { code, message } => {
                        self.phase = Phase::Failed;
                        Action::Fail(Error::Protocol { code, message })
                    },
                    _ => {
                        self.phase = Phase::Failed;
                        Action::Fail(malformed())
                    },
                }
            },
        }
    }
}

/// The state and the action after `n` timeouts in a row from `s`.
pub open spec fn after_silence(s: TransferState, n: nat) -> (TransferState, ActionSpec)
    decreases n,
{
    if n <= 1 {
        silence_next(s)
    } else {
        after_silence(silence_next(s).0, (n - 1) as nat)
    }
}

/// When the board stays silent, a read or a write resends its last packet
/// once for each retry left and then fails with a timeout: the
/// `max_retries - retries + 1`-th timeout in a row ends the exchange.
pub proof fn lemma_silence_ends_in_timeout(s: TransferState)
    requires
        s.retries <= s.max_retries,
    ensures
        read_next(s, EventSpec::NoResponse) == silence_next(s),
        write_next(s, EventSpec::NoResponse) == silence_next(s),
        forall|n: nat|
            1 <= n <= s.max_retries - s.retries ==> #[trigger] after_silence(s, n).1
                == ActionSpec::Send(s.last_sent) && after_silence(s, n).0.phase == s.phase,
        after_silence(s, (s.max_retries - s.retries + 1) as nat).1 == ActionSpec::Fail(
            ErrorSpec::Timeout,
        ),
        after_silence(s, (s.max_retries - s.retries + 1) as nat).0.phase == Phase::Failed,
    decreases s.max_retries - s.retries,
{
    if s.retries < s.max_retries {
        let s1 = silence_next(s).0;
        lemma_silence_ends_in_timeout(s1);
        assert forall|n: nat| 1 <= n <= s.max_retries - s.retries implies #[trigger] after_silence(
            s,
            n,
        ).1 == ActionSpec::Send(s.last_sent) && after_silence(s, n).0.phase == s.phase by {
            if n > 1 {
                assert(after_silence(s, n) == after_silence(s1, (n - 1) as nat));
            }
        }
        assert(after_silence(s, (s.max_retries - s.retries + 1) as nat) == after_silence(
            s1,
            (s1.max_retries - s1.retries + 1) as nat,
        ));
    }
}

/// Block numbers run on by one and wrap from 65535 to 0.
pub proof fn lemma_block_number_next(k: nat)
    ensures
        block_number(k + 1) == next_block(block_number(k)),
        block_number(k) == 65535 ==> block_number(k + 1) == 0,
        block_number(k) < 65535 ==> block_number(k + 1) == block_number(k) + 1,
{
}

/// `s2` follows `s` by taking the data block that `ev` brought: the next
/// block of the transfer, numbered by its place modulo 65536.
pub open spec fn accepts_next_block(s: TransferState, ev: EventSpec, s2: TransferState) -> bool {
    match ev {
        EventSpec::Received(b) => match classify(b) {
            Reply::Data { block, payload } => {
                &&& s2.blocks == s.blocks + 1
                &&& block == block_number(s2.blocks)
                &&& s2.data == s.data + payload
                &&& s2.seq == next_block(block)
            },
            _ => false,
        },
        EventSpec::NoResponse => false,
    }
}

/// A read takes data blocks in order: each step either accepts no block, or
/// accepts the next one, which carries the number of its place in the
/// transfer modulo 65536, and appends its payload.
pub proof fn lemma_read_block_order(s: TransferState, ev: EventSpec)
    requires
        read_state_wf(s),
        s.phase == Phase::Running,
    ensures
        read_state_wf(read_next(s, ev).0),
        ({
            let s2 = read_next(s, ev).0;
            (s2.blocks == s.blocks && s2.data == s.data) || accepts_next_block(s, ev, s2)
        }),
{
    lemma_block_number_next(s.blocks + 1);
}

/// A write sends data blocks in order: each step either sends no new block,
/// or sends the next one, numbered by its place in the transfer modulo 65536.
pub proof fn lemma_write_block_order(s: TransferState, ev: EventSpec)
    requires
        write_state_wf(s),
        s.phase == Phase::Running,
    ensures
        ({
            let (s2, a) = write_next(s, ev);
            (s2.blocks == s.blocks && s2.chunks == s.chunks) || (s2.blocks == s.blocks + 1
                && s2.chunks.drop_last() == s.chunks && a == ActionSpec::Send(
                data_bytes(block_number(s2.blocks), s2.chunks.last()),
            ))
        }),
{
    lemma_block_number_next(s.blocks);
    let s2 = write_next(s, ev).0;
    if s2.blocks == s.blocks + 1 {
        assert(s2.chunks.drop_last() =~= s.chunks);
    }
}

proof fn lemma_u16_round_trip(v: u16, rest: Seq<u8>)
    ensures
        u16_at(be16(v) + rest, 0) == v,
{
    let b = be16(v) + rest;
    assert(b[0] == (v / 256) as u8 && b[1] == (v % 256) as u8);
}

/// A data block reads back as the block it frames.
pub proof fn lemma_classify_data(block: u16, payload: Seq<u8>)
    ensures
        classify(data_bytes(block, payload)) == (Reply::Data { block, payload }),
{
    let b = data_bytes(block, payload);
    lemma_u16_round_trip(OP_DATA, be16(block) + payload);
    assert(b =~= be16(OP_DATA) + (be16(block) + payload));
    lemma_u16_round_trip(block, payload);
    assert(b.subrange(2, b.len() as int) =~= be16(block) + payload);
    assert(u16_at(b, 2) == u16_at(be16(block) + payload, 0));
    assert(b.subrange(4, b.len() as int) =~= payload);
}

/// The read state after the board sends the payloads `cs` in order, each
/// under the block number that the read awaits.
pub open spec fn feed(s: TransferState, cs: Seq<Seq<u8>>) -> TransferState
    decreases cs.len(),
{
    if cs.len() == 0 {
        s
    } else {
        feed(read_next(s, EventSpec::Received(data_bytes(s.seq, cs[0]))).0, cs.drop_first())
    }
}

proof fn lemma_feed(s: TransferState, cs: Seq<Seq<u8>>)
    requires
        read_state_wf(s),
        s.phase == Phase::Running,
        cs.len() >= 1,
        forall|i: int| 0 <= i < cs.len() - 1 ==> #[trigger] cs[i].len() == s.block_size,
        cs.last().len() < s.block_size,
    ensures
        feed(s, cs).phase == Phase::Done,
        feed(s, cs).data == s.data + concat(cs),
    decreases cs.len(),
{
    let ev = EventSpec::Received(data_bytes(s.seq, cs[0]));
    lemma_classify_data(s.seq, cs[0]);
    let s1 = read_next(s, ev).0;
    assert(s1.data == s.data + cs[0] && s1.block_size == s.block_size && read_state_wf(s1)) by {
        lemma_block_number_next(s.blocks + 1);
    }
    assert(feed(s, cs) == feed(s1, cs.drop_first()));
    if cs.len() == 1 {
        assert(s1.phase == Phase::Done);
        assert(cs.drop_first() =~= Seq::<Seq<u8>>::empty());
        assert(concat(cs.drop_first()) == Seq::<u8>::empty());
        assert(concat(cs) =~= cs[0]);
    } else {
        assert(cs[0].len() == s.block_size);
        assert(s1.phase == Phase::Running);
        let rest = cs.drop_first();
        assert forall|i: int| 0 <= i < rest.len() - 1 implies #[trigger] rest[i].len()
            == s1.block_size by {
            assert(rest[i] == cs[i + 1]);
        }
        lemma_feed(s1, rest);
        assert(s.data + concat(cs) =~= s1.data + concat(rest));
    }
}

/// What a completed write sent, read back, is what it wrote: its data blocks,
/// handed in order to a read with the same block size, end that read with
/// exactly the written bytes.
pub proof fn lemma_round_trip(w: TransferState, path: Seq<u8>, max_retries: nat)
    requires
        write_state_wf(w),
        w.phase == Phase::Done,
    ensures
        ({
            let r = feed(read_start(path, Mode::Octet, w.block_size, max_retries), w.chunks);
            r.phase == Phase::Done && read_output(Mode::Octet, r.data) == w.data
        }),
{
    let r0 = read_start(path, Mode::Octet, w.block_size, max_retries);
    assert(w.data.subrange(0, w.sent as int) =~= w.data);
    lemma_feed(r0, w.chunks);
    assert(r0.data + concat(w.chunks) =~= w.data);
}

} // verus!
