//! The stop-and-wait transfer engine, as a state machine driven by its caller.
use vstd::prelude::*;

use crate::parser::{copy_range, decode, ErrorCode, Packet, PacketView, RequestMode, has_nul};
use crate::Error;

verus! {

/// Largest payload of one data block.
pub const BLOCK_SIZE: usize = 512;

/// A remote endpoint: an IP address as a 128-bit number (IPv4 addresses in their
/// IPv6-mapped form) and a UDP port.
#[derive(Debug, Clone, Copy, PartialEq, Eq, Structural)]
pub struct Endpoint {
    pub ip: u128,
    pub port: u16,
}

/// Timing parameters of a transfer; durations are in nanoseconds.
#[derive(Debug, Clone, Copy, PartialEq, Eq, Structural)]
pub struct Timing {
    pub base_timeout_ns: u64,
    pub max_timeout_ns: u64,
    pub max_retries: usize,
}

impl Timing {
    /// A positive first timeout, no larger than the cap, and at least one try.
    pub open spec fn valid(self) -> bool {
        &&& 0 < self.base_timeout_ns <= self.max_timeout_ns
        &&& self.max_retries >= 1
    }
}

/// Where the engine stands.
#[derive(Debug, Clone, Copy, PartialEq, Eq, Structural)]
pub enum Phase {
    /// First transmission of the pending packet.
    Send,
    /// Retransmission after a receive timeout.
    SendAgain,
    /// Waiting for a reply.
    Recv,
    /// The transfer is over.
    Done,
}

/// What the caller is asked to do next.
#[derive(Debug)]
pub enum Action {
    /// Send these bytes to this endpoint, then ask again.
    Send { bytes: Vec<u8>, to: Endpoint },
    /// Wait up to this long for one datagram, then report it or the timeout.
    Receive { timeout_ns: u64 },
    /// The transfer succeeded.
    Finished,
}

/// The timeout that follows `t` after one more receive timeout: half again, capped.
pub open spec fn next_timeout(t: u64, max: u64) -> u64 {
    if t + t / 2 > max { max } else { (t + t / 2) as u64 }
}

/// Number of data blocks that carry a payload of `len` bytes: every full block,
/// and one shorter final block, empty when `len` is a multiple of the block size.
pub open spec fn block_count(len: nat) -> nat {
    len / 512 + 1
}

/// The payload of data block `n` (numbered from one).
pub open spec fn block(payload: Seq<u8>, n: int) -> Seq<u8> {
    let start = 512 * (n - 1);
    let end = if 512 * n <= payload.len() { 512 * n } else { payload.len() as int };
    payload.subrange(start, end)
}

/// Mathematical model of a `Transfer`.
pub struct TransferView {
    pub upload: bool,
    pub phase: Phase,
    pub server: Endpoint,
    pub pending: PacketView,
    pub retries_left: nat,
    pub timeout_ns: u64,
    pub last_block_n: int,
    /// Bytes received so far on a download; the payload on an upload.
    pub data: Seq<u8>,
    /// A download has received its last block.
    pub done: bool,
    pub timing: Timing,
}

impl TransferView {
    pub open spec fn wf(self) -> bool {
        &&& self.timing.valid()
        &&& self.retries_left <= self.timing.max_retries
        &&& self.phase != Phase::Done ==> self.retries_left >= 1
        &&& self.timing.base_timeout_ns <= self.timeout_ns <= self.timing.max_timeout_ns
        &&& -1 <= self.last_block_n <= 65535
        &&& self.pending.wf()
        &&& self.done ==> !self.upload && (self.phase == Phase::Send || self.phase == Phase::Done)
        &&& if self.upload {
            &&& block_count(self.data.len()) <= 65535
            &&& match self.pending {
                PacketView::WriteRequest { .. } => true,
                PacketView::Data { block_n, data } => 1 <= block_n <= block_count(self.data.len())
                    && data == block(self.data, block_n as int),
                _ => false,
            }
        } else {
            match self.pending {
                PacketView::ReadRequest { .. } => true,
                PacketView::Acknowledgment { .. } => true,
                _ => false,
            }
        }
    }

    /// Whether a datagram from `from` is looked at: any sender before the first
    /// reply, afterwards only the locked endpoint.
    pub open spec fn accepts(self, from: Endpoint) -> bool {
        self.last_block_n == -1 || from == self.server
    }

    /// The endpoint locked after a reply from `from`.
    pub open spec fn locked(self, from: Endpoint) -> Endpoint {
        if self.last_block_n == -1 { from } else { self.server }
    }

    /// The state after `next_action`.
    pub open spec fn after_action(self) -> TransferView {
        match self.phase {
            Phase::Send => TransferView {
                phase: if self.done { Phase::Done } else { Phase::Recv },
                retries_left: self.timing.max_retries as nat,
                timeout_ns: self.timing.base_timeout_ns,
                ..self
            },
            Phase::SendAgain => TransferView { phase: Phase::Recv, ..self },
            _ => self,
        }
    }

    /// Whether a timeout now ends the transfer.
    pub open spec fn timeout_exhausts(self) -> bool {
        self.phase == Phase::Recv && self.retries_left <= 1
    }

    /// The state after `on_timeout`.
    pub open spec fn after_timeout(self) -> TransferView {
        if self.phase != Phase::Recv {
            self
        } else if self.retries_left <= 1 {
            TransferView { phase: Phase::Done, retries_left: 0, ..self }
        } else {
            TransferView {
                phase: Phase::SendAgain,
                retries_left: (self.retries_left - 1) as nat,
                timeout_ns: next_timeout(self.timeout_ns, self.timing.max_timeout_ns),
                ..self
            }
        }
    }

    /// Progress on a reply: lock the endpoint, record the block number, reset the
    /// retry counters.
    pub open spec fn progress(self, from: Endpoint, n: u16, phase: Phase) -> TransferView {
        TransferView {
            phase,
            server: self.locked(from),
            last_block_n: n as int,
            retries_left: self.timing.max_retries as nat,
            timeout_ns: self.timing.base_timeout_ns,
            ..self
        }
    }

    /// The state after a download accepts data block `n`.
    pub open spec fn after_data(self, from: Endpoint, n: u16, d: Seq<u8>) -> TransferView {
        TransferView {
            data: self.data + d,
            done: d.len() < 512,
            pending: PacketView::Acknowledgment { block_n: n },
            ..self.progress(from, n, Phase::Send)
        }
    }

    /// Whether an upload's acknowledgment `n` repeats the last one recorded.
    pub open spec fn is_duplicate_ack(self, n: u16) -> bool {
        self.last_block_n != -1 && self.last_block_n == n as int
    }

    /// The state after an upload accepts a new acknowledgment `n`, at most the
    /// number of blocks: done after the last block, else the next block pending.
    pub open spec fn after_ack(self, from: Endpoint, n: u16) -> TransferView {
        if n as nat == block_count(self.data.len()) {
            self.progress(from, n, Phase::Done)
        } else {
            TransferView {
                pending: PacketView::Data {
                    block_n: (n + 1) as u16,
                    data: block(self.data, n + 1),
                },
                ..self.progress(from, n, Phase::Send)
            }
        }
    }
}

/// Whether `r` is the error that reports the server's error packet.
pub open spec fn is_protocol_error(r: Result<(), Error>, code: ErrorCode, msg: Seq<u8>) -> bool {
    match r {
        Err(Error::Protocol { code: c, msg: m }) => c == code && m@ == msg,
        _ => false,
    }
}

/// Whether `r` is the error that reports the packet `p` as out of place.
pub open spec fn is_unexpected(r: Result<(), Error>, p: PacketView) -> bool {
    match r {
        Err(Error::UnexpectedPacket(q)) => q@ == p,
        _ => false,
    }
}

/// What a datagram `d` (decoded) from an accepted sender does to a waiting
/// transfer `o`: the result `r` and the new state `f`. Every failure ends the
/// transfer. A download takes data blocks of at most 512 bytes; an upload takes
/// acknowledgments up to its number of blocks, and stays as it was on a repeated
/// one. An error packet is the server's error; any other packet is unexpected.
pub open spec fn reply_outcome(
    o: TransferView,
    f: TransferView,
    from: Endpoint,
    d: Result<PacketView, crate::parser::Error>,
    r: Result<(), Error>,
) -> bool {
    match d {
        Err(e) => f.phase == Phase::Done && match r {
            Err(Error::Parse(x)) => x == e,
            _ => false,
        },
        Ok(p) => match p {
            PacketView::Error { code, msg } => f.phase == Phase::Done && is_protocol_error(
                r,
                code,
                msg,
            ),
            PacketView::Data { block_n, data } => if !o.upload && data.len() <= 512 {
                r is Ok && f == o.after_data(from, block_n, data)
            } else {
                f.phase == Phase::Done && is_unexpected(r, p)
            },
            PacketView::Acknowledgment { block_n } => if o.upload && o.is_duplicate_ack(block_n) {
                r is Ok && f == o
            } else if o.upload && block_n <= block_count(o.data.len()) {
                r is Ok && f == o.after_ack(from, block_n)
            } else {
                f.phase == Phase::Done && is_unexpected(r, p)
            },
            _ => f.phase == Phase::Done && is_unexpected(r, p),
        },
    }
}

/// One read or write transfer in progress.
pub struct Transfer {
    upload: bool,
    phase: Phase,
    server: Endpoint,
    pending: Packet,
    retries_left: usize,
    timeout_ns: u64,
    last_block_n: i32,
    data: Vec<u8>,
    done: bool,
    timing: Timing,
}

impl View for Transfer {
    type V = TransferView;

    closed spec fn view(&self) -> TransferView {
        TransferView {
            upload: self.upload,
            phase: self.phase,
            server: self.server,
            pending: self.pending@,
            retries_left: self.retries_left as nat,
            timeout_ns: self.timeout_ns,
            last_block_n: self.last_block_n as int,
            data: self.data@,
            done: self.done,
            timing: self.timing,
        }
    }
}

/// Copies a name that is known to hold no NUL.
fn copy_name(name: &[u8]) -> (r: Result<Vec<u8>, Error>)
    ensures
        match r {
            Ok(v) => !has_nul(name@) && v@ == name@,
            Err(e) => has_nul(name@) && e is BadFilename,
        },
{
    let mut i: usize = 0;
    while i < name.len()
        invariant
            i <= name@.len(),
            forall|j: int| 0 <= j < i ==> name@[j] != 0,
        decreases name@.len() - i,
    {
        if name[i] == 0 {
            return Err(Error::BadFilename);
        }
        i = i + 1;
    }
    let v = copy_range(name, 0, name.len());
    assert(name@.subrange(0, name@.len() as int) =~= name@);
    Ok(v)
}

impl Transfer {
    /// Starts a download of `filename` from `server`: a read request in mode
    /// `octet` is pending. Fails with `BadFilename` exactly when the name holds a NUL.
    pub fn start_download(filename: &[u8], server: Endpoint, timing: Timing) -> (r: Result<
        Transfer,
        Error,
    >)
        requires
            timing.valid(),
        ensures
            match r {
                Ok(t) => !has_nul(filename@) && t@.wf() && t@ == (TransferView {
                    upload: false,
                    phase: Phase::Send,
                    server,
                    pending: PacketView::ReadRequest { filename: filename@, mode: RequestMode::Octet },
                    retries_left: timing.max_retries as nat,
                    timeout_ns: timing.base_timeout_ns,
                    last_block_n: -1,
                    data: Seq::empty(),
                    done: false,
                    timing,
                }),
                Err(e) => has_nul(filename@) && e is BadFilename,
            },
    {
        let filename = match copy_name(filename) {
            Ok(v) => v,
            Err(e) => return Err(e),
        };
        let t = Transfer {
            upload: false,
            phase: Phase::Send,
            server,
            pending: Packet::ReadRequest { filename, mode: RequestMode::Octet },
            retries_left: timing.max_retries,
            timeout_ns: timing.base_timeout_ns,
            last_block_n: -1,
            data: Vec::new(),
            done: false,
            timing,
        };
        assert(t@.data =~= Seq::empty());
        Ok(t)
    }

    /// Starts an upload of `payload` as `filename` to `server`: a write request in
    /// mode `octet` is pending. Fails with `BadFilename` exactly when the name holds
    /// a NUL. Block numbers are 16 bits wide, which bounds the payload.
    pub fn start_upload(filename: &[u8], payload: Vec<u8>, server: Endpoint, timing: Timing) -> (r:
        Result<Transfer, Error>)
        requires
            timing.valid(),
            block_count(payload@.len()) <= 65535,
        ensures
            match r {
                Ok(t) => !has_nul(filename@) && t@.wf() && t@ == (TransferView {
                    upload: true,
                    phase: Phase::Send,
                    server,
                    pending: PacketView::WriteRequest { filename: filename@, mode: RequestMode::Octet },
                    retries_left: timing.max_retries as nat,
                    timeout_ns: timing.base_timeout_ns,
                    last_block_n: -1,
                    data: payload@,
                    done: false,
                    timing,
                }),
                Err(e) => has_nul(filename@) && e is BadFilename,
            },
    {
        let filename = match copy_name(filename) {
            Ok(v) => v,
            Err(e) => return Err(e),
        };
        Ok(Transfer {
            upload: true,
            phase: Phase::Send,
            server,
            pending: Packet::WriteRequest { filename, mode: RequestMode::Octet },
            retries_left: timing.max_retries,
            timeout_ns: timing.base_timeout_ns,
            last_block_n: -1,
            data: payload,
            done: false,
            timing,
        })
    }

    /// The next thing to do. In `Send` the retry counters are reset and the pending
    /// packet goes out; a download that has acknowledged its last block is then
    /// done. In `SendAgain` the pending packet goes out again, counters untouched.
    pub fn next_action(&mut self) -> (r: Action)
        requires
            old(self)@.wf(),
        ensures
            final(self)@ == old(self)@.after_action(),
            final(self)@.wf(),
            match r {
                Action::Send { bytes, to } => (old(self)@.phase == Phase::Send || old(self)@.phase
                    == Phase::SendAgain) && bytes@ == old(self)@.pending.encode() && to == old(
                    self,
                )@.server,
                Action::Receive { timeout_ns } => old(self)@.phase == Phase::Recv && timeout_ns
                    == old(self)@.timeout_ns,
                Action::Finished => old(self)@.phase == Phase::Done,
            },
    {
        match self.phase {
            Phase::Send => {
                self.retries_left = self.timing.max_retries;
                self.timeout_ns = self.timing.base_timeout_ns;
                self.phase = if self.done { Phase::Done } else { Phase::Recv };
                Action::Send { bytes: self.pending.to_bytes(), to: self.server }
            },
            Phase::SendAgain => {
                self.phase = Phase::Recv;
                Action::Send { bytes: self.pending.to_bytes(), to: self.server }
            },
            Phase::Recv => Action::Receive { timeout_ns: self.timeout_ns },
            Phase::Done => Action::Finished,
        }
    }

    /// Reports that no datagram came within the timeout. While waiting, this uses
    /// up one retry: when none is left the transfer fails with `Timeout`, else the
    /// timeout grows by half, capped, and the pending packet is to be sent again.
    /// In any other phase it changes nothing.
    pub fn on_timeout(&mut self) -> (r: Result<(), Error>)
        requires
            old(self)@.wf(),
        ensures
            final(self)@ == old(self)@.after_timeout(),
            final(self)@.wf(),
            match r {
                Ok(()) => !old(self)@.timeout_exhausts(),
                Err(e) => old(self)@.timeout_exhausts() && e is Timeout,
            },
    {
        if !matches!(self.phase, Phase::Recv) {
            return Ok(());
        }
        if self.retries_left <= 1 {
            self.retries_left = 0;
            self.phase = Phase::Done;
            return Err(Error::Timeout);
        }
        self.retries_left = self.retries_left - 1;
        let t = self.timeout_ns;
        let max = self.timing.max_timeout_ns;
        self.timeout_ns = if t > max - t / 2 { max } else { t + t / 2 };
        self.phase = Phase::SendAgain;
        Ok(())
    }

    /// Where the transfer stands.
    pub fn phase(&self) -> (r: Phase)
        ensures
            r == self@.phase,
    {
        self.phase
    }

    /// The endpoint that packets go to.
    pub fn server(&self) -> (r: Endpoint)
        ensures
            r == self@.server,
    {
        self.server
    }

    /// The packet that is sent, or sent again.
    pub fn pending(&self) -> (r: &Packet)
        ensures
            r@ == self@.pending,
    {
        &self.pending
    }

    /// Tries left before a timeout fails the transfer.
    pub fn retries_left(&self) -> (r: usize)
        ensures
            r == self@.retries_left,
    {
        self.retries_left
    }

    /// The current receive timeout, in nanoseconds.
    pub fn timeout_ns(&self) -> (r: u64)
        ensures
            r == self@.timeout_ns,
    {
        self.timeout_ns
    }

    /// The last block number received, or -1 before the first reply.
    pub fn last_block_n(&self) -> (r: i32)
        ensures
            r == self@.last_block_n,
    {
        self.last_block_n
    }

    /// The bytes received so far by a download; the payload of an upload.
    pub fn into_data(self) -> (r: Vec<u8>)
        ensures
            r@ == self@.data,
    {
        self.data
    }

    /// Reports a datagram `bytes` received from `from`. Outside `Recv`, and from
    /// any sender but the locked endpoint once a reply was accepted, it changes
    /// nothing. Otherwise the outcome is `reply_outcome`.
    pub fn on_datagram(&mut self, from: Endpoint, bytes: &[u8]) -> (r: Result<(), Error>)
        requires
            old(self)@.wf(),
        ensures
            final(self)@.wf(),
            old(self)@.phase != Phase::Recv ==> r is Ok && final(self)@ == old(self)@,
            old(self)@.phase == Phase::Recv && !old(self)@.accepts(from)
                ==> r is Ok && final(self)@ == old(self)@,
            old(self)@.phase == Phase::Recv && old(self)@.accepts(from)
                ==> reply_outcome(old(self)@, final(self)@, from, decode(bytes@), r),
            // a reply that moves the transfer on resets the retry counters
            old(self)@.phase == Phase::Recv && r is Ok && final(self)@.phase != Phase::Recv
                ==> final(self)@.retries_left == final(self)@.timing.max_retries
                && final(self)@.timeout_ns == final(self)@.timing.base_timeout_ns,
            // a repeated acknowledgment neither resends nor changes the pending packet
            old(self)@.upload && old(self)@.phase == Phase::Recv && old(self)@.accepts(from)
                && (decode(bytes@) matches Ok(PacketView::Acknowledgment { block_n })
                && old(self)@.is_duplicate_ack(block_n))
                ==> r is Ok && final(self)@ == old(self)@,
    {
        if !matches!(self.phase, Phase::Recv) {
            return Ok(());
        }
        if self.last_block_n != -1 && !(from == self.server) {
            return Ok(());
        }
        let pkt = match Packet::from_bytes(bytes) {
            Ok(p) => p,
            Err(e) => {
                self.phase = Phase::Done;
                return Err(Error::Parse(e));
            },
        };
        match pkt {
            Packet::Error { code, msg } => {
                self.phase = Phase::Done;
                Err(Error::Protocol { code, msg })
            },
            Packet::Data { block_n, data } => {
                if self.upload || data.len() > BLOCK_SIZE {
                    self.phase = Phase::Done;
                    return Err(Error::UnexpectedPacket(Packet::Data { block_n, data }));
                }
                self.accept_data(from, block_n, data);
                Ok(())
            },
            Packet::Acknowledgment { block_n } => {
                if !self.upload {
                    self.phase = Phase::Done;
                    return Err(Error::UnexpectedPacket(Packet::Acknowledgment { block_n }));
                }
                self.accept_ack(from, block_n)
            },
            other => {
                self.phase = Phase::Done;
                Err(Error::UnexpectedPacket(other))
            },
        }
    }

    fn accept_data(&mut self, from: Endpoint, block_n: u16, data: Vec<u8>)
        requires
            old(self)@.wf(),
            !old(self)@.upload,
            old(self)@.phase == Phase::Recv,
            data@.len() <= 512,
        ensures
            final(self)@ == old(self)@.after_data(from, block_n, data@),
            final(self)@.wf(),
    {
        let ghost d = data@;
        let mut data = data;
        if self.last_block_n == -1 {
            self.server = from;
        }
        self.last_block_n = block_n as i32;
        self.retries_left = self.timing.max_retries;
        self.timeout_ns = self.timing.base_timeout_ns;
        self.done = data.len() < BLOCK_SIZE;
        self.data.append(&mut data);
        self.pending = Packet::Acknowledgment { block_n };
        self.phase = Phase::Send;
        assert(self@.data =~= old(self)@.data + d);
    }

    fn accept_ack(&mut self, from: Endpoint, block_n: u16) -> (r: Result<(), Error>)
        requires
            old(self)@.wf(),
            old(self)@.upload,
            old(self)@.phase == Phase::Recv,
        ensures
            final(self)@.wf(),
            if old(self)@.is_duplicate_ack(block_n) {
                r is Ok && final(self)@ == old(self)@
            } else if block_n <= block_count(old(self)@.data.len()) {
                r is Ok && final(self)@ == old(self)@.after_ack(from, block_n)
            } else {
                final(self)@.phase == Phase::Done && is_unexpected(
                    r,
                    PacketView::Acknowledgment { block_n },
                )
            },
    {
        if self.last_block_n != -1 && self.last_block_n == block_n as i32 {
            return Ok(());
        }
        let len = self.data.len();
        let count = len / BLOCK_SIZE + 1;
        if block_n as usize > count {
            self.phase = Phase::Done;
            return Err(Error::UnexpectedPacket(Packet::Acknowledgment { block_n }));
        }
        if self.last_block_n == -1 {
            self.server = from;
        }
        self.last_block_n = block_n as i32;
        self.retries_left = self.timing.max_retries;
        self.timeout_ns = self.timing.base_timeout_ns;
        if block_n as usize == count {
            self.phase = Phase::Done;
            return Ok(());
        }
        let start = BLOCK_SIZE * block_n as usize;
        let end = if BLOCK_SIZE * (block_n as usize + 1) <= len {
            BLOCK_SIZE * (block_n as usize + 1)
        } else {
            len
        };
        let chunk = copy_range(self.data.as_slice(), start, end);
        self.pending = Packet::Data { block_n: block_n + 1, data: chunk };
        self.phase = Phase::Send;
        Ok(())
    }
}


/// `b` to the power `e`.
pub open spec fn pow(b: nat, e: nat) -> nat
    decreases e,
{
    if e == 0 { 1 } else { b * pow(b, (e - 1) as nat) }
}

/// The receive timeout after `k` consecutive timeouts since a new packet was sent.
pub open spec fn backoff(timing: Timing, k: nat) -> u64
    decreases k,
{
    if k == 0 {
        timing.base_timeout_ns
    } else {
        next_timeout(backoff(timing, (k - 1) as nat), timing.max_timeout_ns)
    }
}

/// `k` rounds of a receive timeout followed by the retransmission it asks for.
pub open spec fn retry_rounds(v: TransferView, k: nat) -> TransferView
    decreases k,
{
    if k == 0 {
        v
    } else {
        retry_rounds(v, (k - 1) as nat).after_timeout().after_action()
    }
}

/// After a transfer sends a new packet, the `k`-th wait (counted from zero) lasts
/// `backoff(timing, k)`, with `max_retries - k` tries left; the timeout that
/// follows the last try fails the transfer.
pub proof fn lemma_waits_follow_backoff(v: TransferView, k: nat)
    requires
        v.wf(),
        v.phase == Phase::Send,
        !v.done,
        k < v.timing.max_retries,
    ensures
        retry_rounds(v.after_action(), k).phase == Phase::Recv,
        retry_rounds(v.after_action(), k).timeout_ns == backoff(v.timing, k),
        retry_rounds(v.after_action(), k).retries_left == v.timing.max_retries - k,
        retry_rounds(v.after_action(), k).timing == v.timing,
        k == v.timing.max_retries - 1 ==> retry_rounds(v.after_action(), k).timeout_exhausts(),
    decreases k,
{
    if k > 0 {
        let j = (k - 1) as nat;
        lemma_waits_follow_backoff(v, j);
        let w = retry_rounds(v.after_action(), j);
        assert(w.retries_left >= 2);
        assert(w.after_timeout().timeout_ns == next_timeout(backoff(v.timing, j), v.timing.max_timeout_ns));
        assert(retry_rounds(v.after_action(), k) == w.after_timeout().after_action());
    }
}

/// Where the first timeout is divisible by `2^k`, the `k`-th wait is exactly the
/// first timeout times `1.5^k`, capped by the largest timeout.
pub proof fn lemma_backoff_closed_form(timing: Timing, k: nat)
    requires
        timing.valid(),
        timing.base_timeout_ns as nat % pow(2, k) == 0,
    ensures
        backoff(timing, k) == (if (timing.base_timeout_ns as nat) * pow(3, k) / pow(2, k)
            <= timing.max_timeout_ns {
            (timing.base_timeout_ns as nat) * pow(3, k) / pow(2, k)
        } else {
            timing.max_timeout_ns as nat
        }),
    decreases k,
{
    let base = timing.base_timeout_ns as nat;
    let max = timing.max_timeout_ns as nat;
    lemma_pow_positive(2, k);
    let c = base / pow(2, k);
    assert(base == c * pow(2, k)) by (nonlinear_arith)
        requires base % pow(2, k) == 0, pow(2, k) > 0, c == base / pow(2, k);
    if k > 0 {
        let j = (k - 1) as nat;
        lemma_pow_positive(2, j);
        lemma_pow_positive(3, j);
        let p2 = pow(2, j);
        let p3 = pow(3, j);
        assert(pow(2, k) == 2 * p2);
        assert(pow(3, k) == 3 * p3);
        assert(base == (2 * c) * p2) by (nonlinear_arith)
            requires base == c * (2 * p2);
        assert(base % p2 == 0) by (nonlinear_arith)
            requires base == (2 * c) * p2, p2 > 0;
        lemma_backoff_closed_form(timing, j);
        let cp = c * p3;
        let prev = base * p3 / p2;
        assert(prev == 2 * cp) by (nonlinear_arith)
            requires base == (2 * c) * p2, p2 > 0, prev == base * p3 / p2, cp == c * p3;
        let cur = base * pow(3, k) / pow(2, k);
        assert(cur == 3 * cp) by (nonlinear_arith)
            requires base == c * (2 * p2), p2 > 0, cur == base * (3 * p3) / (2 * p2), cp == c * p3;
        assert(backoff(timing, k) == next_timeout(backoff(timing, j), timing.max_timeout_ns));
        if prev <= max {
            assert(backoff(timing, j) == prev);
            assert(prev / 2 == cp);
        } else {
            assert(backoff(timing, j) == max);
            assert(cur > max);
        }
    } else {
        assert(pow(3, 0) == 1 && pow(2, 0) == 1);
        assert(base * 1 / 1 == base);
    }
}

proof fn lemma_pow_positive(b: nat, e: nat)
    requires
        b > 0,
    ensures
        pow(b, e) > 0,
    decreases e,
{
    if e > 0 {
        lemma_pow_positive(b, (e - 1) as nat);
        assert(b * pow(b, (e - 1) as nat) > 0) by (nonlinear_arith)
            requires b > 0, pow(b, (e - 1) as nat) > 0;
    }
}

/// A payload of `len` bytes goes out in `ceil(len / 512)` data blocks when `len` is
/// positive and not a multiple of 512, and in `len / 512 + 1` otherwise. Every
/// block before the last is full; the last one is shorter than 512 bytes, empty
/// when `len` is a multiple of 512.
pub proof fn lemma_block_partition(payload: Seq<u8>)
    ensures
        block_count(payload.len()) == (if payload.len() % 512 != 0 && payload.len() > 0 {
            (payload.len() + 511) / 512
        } else {
            payload.len() / 512 + 1
        }),
        forall|n: int| 1 <= n < block_count(payload.len()) ==> #[trigger] block(payload, n).len() == 512,
        block(payload, block_count(payload.len()) as int).len() == payload.len() % 512,
        block(payload, block_count(payload.len()) as int).len() < 512,
{
}

} // verus!
