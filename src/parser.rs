use vstd::prelude::*;
use vstd::slice::slice_subrange;

verus! {

/// Error codes carried by an `Error` packet.
#[derive(Debug, Clone, Copy, PartialEq, Eq, Structural)]
pub enum ErrorCode {
    Unspec,
    NoFile,
    Access,
    Write,
    Op,
    BadId,
    Exist,
    BadUser,
    BadOpt,
}

/// Ways in which a datagram fails to decode.
#[derive(Debug, Clone, Copy, PartialEq, Eq, Structural)]
pub enum Error {
    Incomplete(usize),
    BadOpcode(u16),
    BadString,
    BadErrorCode(u16),
}

impl ErrorCode {
    /// The wire value of the code.
    pub open spec fn spec_value(self) -> u16 {
        match self {
            ErrorCode::Unspec => 0,
            ErrorCode::NoFile => 1,
            ErrorCode::Access => 2,
            ErrorCode::Write => 3,
            ErrorCode::Op => 4,
            ErrorCode::BadId => 5,
            ErrorCode::Exist => 6,
            ErrorCode::BadUser => 7,
            ErrorCode::BadOpt => 8,
        }
    }

    /// The code whose wire value is `v`, if any.
    pub open spec fn spec_from_u16(v: u16) -> Option<ErrorCode> {
        if v == 0 { Some(ErrorCode::Unspec) }
        else if v == 1 { Some(ErrorCode::NoFile) }
        else if v == 2 { Some(ErrorCode::Access) }
        else if v == 3 { Some(ErrorCode::Write) }
        else if v == 4 { Some(ErrorCode::Op) }
        else if v == 5 { Some(ErrorCode::BadId) }
        else if v == 6 { Some(ErrorCode::Exist) }
        else if v == 7 { Some(ErrorCode::BadUser) }
        else if v == 8 { Some(ErrorCode::BadOpt) }
        else { None }
    }

    /// The wire value of the code.
    pub fn value(self) -> (r: u16)
        ensures
            r == self.spec_value(),
    {
        match self {
            ErrorCode::Unspec => 0,
            ErrorCode::NoFile => 1,
            ErrorCode::Access => 2,
            ErrorCode::Write => 3,
            ErrorCode::Op => 4,
            ErrorCode::BadId => 5,
            ErrorCode::Exist => 6,
            ErrorCode::BadUser => 7,
            ErrorCode::BadOpt => 8,
        }
    }

    /// The meaning of the code, in words.
    pub open spec fn spec_message(self) -> &'static str {
        match self {
            ErrorCode::Unspec => "Not defined, see error message",
            ErrorCode::NoFile => "File not found",
            ErrorCode::Access => "Access violation",
            ErrorCode::Write => "Disk full or allocation exceeded",
            ErrorCode::Op => "Illegal TFTP operation",
            ErrorCode::BadId => "Unknown transfer ID",
            ErrorCode::Exist => "File already exists",
            ErrorCode::BadUser => "No such user",
            ErrorCode::BadOpt => "Bad option",
        }
    }

    /// The meaning of the code, in words.
    pub fn message(self) -> (r: &'static str)
        ensures
            r == self.spec_message(),
    {
        match self {
            ErrorCode::Unspec => "Not defined, see error message",
            ErrorCode::NoFile => "File not found",
            ErrorCode::Access => "Access violation",
            ErrorCode::Write => "Disk full or allocation exceeded",
            ErrorCode::Op => "Illegal TFTP operation",
            ErrorCode::BadId => "Unknown transfer ID",
            ErrorCode::Exist => "File already exists",
            ErrorCode::BadUser => "No such user",
            ErrorCode::BadOpt => "Bad option",
        }
    }

    /// The code with wire value `v`; any value above 8 is `BadErrorCode(v)`.
    pub fn from_u16(v: u16) -> (r: Result<ErrorCode, Error>)
        ensures
            v <= 8 ==> r == Ok::<ErrorCode, Error>(Self::spec_from_u16(v).unwrap()),
            v <= 8 ==> r.unwrap().spec_value() == v,
            v > 8 ==> r == Err::<ErrorCode, Error>(Error::BadErrorCode(v)),
    {
        match v {
            0 => Ok(ErrorCode::Unspec),
            1 => Ok(ErrorCode::NoFile),
            2 => Ok(ErrorCode::Access),
            3 => Ok(ErrorCode::Write),
            4 => Ok(ErrorCode::Op),
            5 => Ok(ErrorCode::BadId),
            6 => Ok(ErrorCode::Exist),
            7 => Ok(ErrorCode::BadUser),
            8 => Ok(ErrorCode::BadOpt),
            _ => Err(Error::BadErrorCode(v)),
        }
    }
}


/// Transfer modes named in a request.
#[derive(Debug, Clone, Copy, PartialEq, Eq, Structural)]
pub enum RequestMode {
    Octet,
    NetAscii,
    Mail,
}

/// ASCII lower case of one byte.
pub open spec fn ascii_lower(b: u8) -> u8 {
    if 65 <= b <= 90 { (b + 32) as u8 } else { b }
}

/// ASCII lower case of every byte of `s`.
pub open spec fn ascii_lower_seq(s: Seq<u8>) -> Seq<u8> {
    s.map_values(|b: u8| ascii_lower(b))
}

/// Whether `s` holds a zero byte.
pub open spec fn has_nul(s: Seq<u8>) -> bool {
    exists|i: int| 0 <= i < s.len() && s[i] == 0
}

/// Index of the first zero byte of `s` at or after `i`, or `s.len()` if none.
pub open spec fn nul_from(s: Seq<u8>, i: int) -> int
    decreases s.len() - i,
{
    if i < 0 || i >= s.len() {
        s.len() as int
    } else if s[i] == 0 {
        i
    } else {
        nul_from(s, i + 1)
    }
}

/// Big-endian value of two bytes.
pub open spec fn be16(hi: u8, lo: u8) -> u16 {
    (hi as int * 256 + lo as int) as u16
}

/// Big-endian bytes of a 16-bit value.
pub open spec fn be_bytes(v: u16) -> Seq<u8> {
    seq![(v / 256) as u8, (v % 256) as u8]
}

impl RequestMode {
    /// The mode's name on the wire, in lower case and without terminator.
    pub open spec fn spec_name(self) -> Seq<u8> {
        match self {
            RequestMode::Octet => seq![111u8, 99, 116, 101, 116],
            RequestMode::NetAscii => seq![110u8, 101, 116, 97, 115, 99, 105, 105],
            RequestMode::Mail => seq![109u8, 97, 105, 108],
        }
    }

    /// The mode named by `s`, compared without regard to ASCII case.
    pub open spec fn spec_from_name(s: Seq<u8>) -> Option<RequestMode> {
        let l = ascii_lower_seq(s);
        if l == RequestMode::Octet.spec_name() {
            Some(RequestMode::Octet)
        } else if l == RequestMode::NetAscii.spec_name() {
            Some(RequestMode::NetAscii)
        } else if l == RequestMode::Mail.spec_name() {
            Some(RequestMode::Mail)
        } else {
            None
        }
    }

    /// The mode's name on the wire, without terminator.
    pub fn name(self) -> (r: Vec<u8>)
        ensures
            r@ == self.spec_name(),
    {
        let r = match self {
            RequestMode::Octet => vec![111u8, 99, 116, 101, 116],
            RequestMode::NetAscii => vec![110u8, 101, 116, 97, 115, 99, 105, 105],
            RequestMode::Mail => vec![109u8, 97, 105, 108],
        };
        assert(r@ =~= self.spec_name());
        r
    }

    /// Parses a mode name, ignoring ASCII case; anything else is `BadString`.
    pub fn from_name(s: &[u8]) -> (r: Result<RequestMode, Error>)
        ensures
            r == match Self::spec_from_name(s@) {
                Some(m) => Ok::<RequestMode, Error>(m),
                None => Err::<RequestMode, Error>(Error::BadString),
            },
    {
        let mut lower: Vec<u8> = Vec::new();
        let mut i: usize = 0;
        while i < s.len()
            invariant
                i <= s@.len(),
                lower@ =~= ascii_lower_seq(s@.subrange(0, i as int)),
            decreases s@.len() - i,
        {
            let b = s[i];
            let l: u8 = if 65 <= b && b <= 90 { b + 32 } else { b };
            lower.push(l);
            i = i + 1;
            assert(ascii_lower_seq(s@.subrange(0, i as int)) =~= ascii_lower_seq(
                s@.subrange(0, i - 1 as int),
            ).push(l));
        }
        assert(s@.subrange(0, s@.len() as int) =~= s@);
        let candidates = [RequestMode::Octet, RequestMode::NetAscii, RequestMode::Mail];
        let mut k: usize = 0;
        while k < 3
            invariant
                k <= 3,
                lower@ == ascii_lower_seq(s@),
                candidates@ == seq![RequestMode::Octet, RequestMode::NetAscii, RequestMode::Mail],
                forall|j: int| 0 <= j < k ==> lower@ != (#[trigger] candidates@[j]).spec_name(),
            decreases 3 - k,
        {
            let m = candidates[k];
            if bytes_equal(&lower, &m.name()) {
                return Ok(m);
            }
            k = k + 1;
        }
        Err(Error::BadString)
    }
}

/// Whether two byte vectors hold the same bytes.
fn bytes_equal(a: &Vec<u8>, b: &Vec<u8>) -> (r: bool)
    ensures
        r == (a@ == b@),
{
    if a.len() != b.len() {
        return false;
    }
    let mut i: usize = 0;
    while i < a.len()
        invariant
            i <= a@.len(),
            a@.len() == b@.len(),
            forall|j: int| 0 <= j < i ==> a@[j] == b@[j],
        decreases a@.len() - i,
    {
        if a[i] != b[i] {
            return false;
        }
        i = i + 1;
    }
    assert(a@ =~= b@);
    true
}


/// A protocol message. Names and messages are held without their NUL terminator.
#[derive(Debug, PartialEq, Eq)]
pub enum Packet {
    ReadRequest { filename: Vec<u8>, mode: RequestMode },
    WriteRequest { filename: Vec<u8>, mode: RequestMode },
    Data { block_n: u16, data: Vec<u8> },
    Acknowledgment { block_n: u16 },
    Error { code: ErrorCode, msg: Vec<u8> },
}

/// Mathematical model of a `Packet`.
pub enum PacketView {
    ReadRequest { filename: Seq<u8>, mode: RequestMode },
    WriteRequest { filename: Seq<u8>, mode: RequestMode },
    Data { block_n: u16, data: Seq<u8> },
    Acknowledgment { block_n: u16 },
    Error { code: ErrorCode, msg: Seq<u8> },
}

impl View for Packet {
    type V = PacketView;

    open spec fn view(&self) -> PacketView {
        match self {
            Packet::ReadRequest { filename, mode } => PacketView::ReadRequest {
                filename: filename@,
                mode: *mode,
            },
            Packet::WriteRequest { filename, mode } => PacketView::WriteRequest {
                filename: filename@,
                mode: *mode,
            },
            Packet::Data { block_n, data } => PacketView::Data { block_n: *block_n, data: data@ },
            Packet::Acknowledgment { block_n } => PacketView::Acknowledgment { block_n: *block_n },
            Packet::Error { code, msg } => PacketView::Error { code: *code, msg: msg@ },
        }
    }
}

impl PacketView {
    /// A packet that can stand on the wire: its strings hold no NUL byte.
    pub open spec fn wf(self) -> bool {
        match self {
            PacketView::ReadRequest { filename, .. } => !has_nul(filename),
            PacketView::WriteRequest { filename, .. } => !has_nul(filename),
            PacketView::Error { msg, .. } => !has_nul(msg),
            _ => true,
        }
    }

    /// The bytes of the packet on the wire.
    pub open spec fn encode(self) -> Seq<u8> {
        match self {
            PacketView::ReadRequest { filename, mode } => be_bytes(1) + filename + seq![0u8]
                + mode.spec_name() + seq![0u8],
            PacketView::WriteRequest { filename, mode } => be_bytes(2) + filename + seq![0u8]
                + mode.spec_name() + seq![0u8],
            PacketView::Data { block_n, data } => be_bytes(3) + be_bytes(block_n) + data,
            PacketView::Acknowledgment { block_n } => be_bytes(4) + be_bytes(block_n),
            PacketView::Error { code, msg } => be_bytes(5) + be_bytes(code.spec_value()) + msg
                + seq![0u8],
        }
    }
}

/// Decoding of the body of a read (`op == 1`) or write request.
pub open spec fn decode_request(op: u16, body: Seq<u8>) -> Result<PacketView, Error> {
    if body.len() < 7 {
        Err(Error::Incomplete(body.len() as usize))
    } else {
        let i = nul_from(body, 0);
        if i == body.len() {
            Err(Error::Incomplete(0))
        } else {
            let filename = body.subrange(0, i);
            let rest = body.subrange(i + 1, body.len() as int);
            let mode = rest.subrange(0, nul_from(rest, 0));
            match RequestMode::spec_from_name(mode) {
                None => Err(Error::BadString),
                Some(m) => if op == 1 {
                    Ok(PacketView::ReadRequest { filename, mode: m })
                } else {
                    Ok(PacketView::WriteRequest { filename, mode: m })
                },
            }
        }
    }
}

/// Decoding of the body of an error packet.
pub open spec fn decode_error(body: Seq<u8>) -> Result<PacketView, Error> {
    if body.len() < 3 {
        Err(Error::Incomplete(body.len() as usize))
    } else {
        let v = be16(body[0], body[1]);
        match ErrorCode::spec_from_u16(v) {
            None => Err(Error::BadErrorCode(v)),
            Some(code) => if body.last() != 0 {
                Err(Error::BadString)
            } else {
                let msg = body.subrange(2, body.len() - 1);
                if has_nul(msg) {
                    Err(Error::BadString)
                } else {
                    Ok(PacketView::Error { code, msg })
                }
            },
        }
    }
}

/// The packet, or the error, that a datagram `b` decodes to.
pub open spec fn decode(b: Seq<u8>) -> Result<PacketView, Error> {
    if b.len() < 4 {
        Err(Error::Incomplete(b.len() as usize))
    } else {
        let op = be16(b[0], b[1]);
        let body = b.subrange(2, b.len() as int);
        if op == 1 || op == 2 {
            decode_request(op, body)
        } else if op == 3 {
            Ok(PacketView::Data { block_n: be16(body[0], body[1]), data: body.subrange(2, body.len() as int) })
        } else if op == 4 {
            Ok(PacketView::Acknowledgment { block_n: be16(body[0], body[1]) })
        } else if op == 5 {
            decode_error(body)
        } else {
            Err(Error::BadOpcode(op))
        }
    }
}

/// Appends the big-endian bytes of `v`.
fn push_u16(buf: &mut Vec<u8>, v: u16)
    ensures
        final(buf)@ == old(buf)@ + be_bytes(v),
{
    buf.push((v / 256) as u8);
    buf.push((v % 256) as u8);
    assert(final(buf)@ =~= old(buf)@ + be_bytes(v));
}

/// Appends `src[from..to]`.
fn push_range(buf: &mut Vec<u8>, src: &[u8], from: usize, to: usize)
    requires
        from <= to <= src@.len(),
    ensures
        final(buf)@ == old(buf)@ + src@.subrange(from as int, to as int),
{
    let ghost start = buf@;
    let mut i: usize = from;
    while i < to
        invariant
            from <= i <= to,
            to <= src@.len(),
            buf@ =~= start + src@.subrange(from as int, i as int),
        decreases to - i,
    {
        buf.push(src[i]);
        i = i + 1;
        assert(src@.subrange(from as int, i as int) =~= src@.subrange(from as int, i - 1 as int).push(
            src@[i - 1],
        ));
    }
}

/// Index of the first zero byte of `s` at or after `from`, or `s.len()`.
fn find_nul(s: &[u8], from: usize) -> (r: usize)
    requires
        from <= s@.len(),
    ensures
        r == nul_from(s@, from as int),
        from <= r <= s@.len(),
{
    proof { lemma_nul_from_shift(s@, 0, from as int); }
    let mut i: usize = from;
    while i < s.len()
        invariant
            from <= i <= s@.len(),
            nul_from(s@, i as int) == nul_from(s@, from as int),
            from <= nul_from(s@, from as int) <= s@.len(),
        decreases s@.len() - i,
    {
        if s[i] == 0 {
            return i;
        }
        i = i + 1;
    }
    i
}

/// Whether `s[from..to]` holds a zero byte.
fn range_has_nul(s: &[u8], from: usize, to: usize) -> (r: bool)
    requires
        from <= to <= s@.len(),
    ensures
        r == has_nul(s@.subrange(from as int, to as int)),
{
    let mut i: usize = from;
    while i < to
        invariant
            from <= i <= to <= s@.len(),
            forall|j: int| from <= j < i ==> s@[j] != 0,
        decreases to - i,
    {
        if s[i] == 0 {
            assert(s@.subrange(from as int, to as int)[i - from] == 0);
            return true;
        }
        i = i + 1;
    }
    assert forall|j: int| 0 <= j < to - from implies s@.subrange(from as int, to as int)[j] != 0 by {
        assert(s@[from + j] != 0);
    }
    false
}

/// Copies `src[from..to]` into a new vector.
pub(crate) fn copy_range(src: &[u8], from: usize, to: usize) -> (r: Vec<u8>)
    requires
        from <= to <= src@.len(),
    ensures
        r@ == src@.subrange(from as int, to as int),
{
    let mut r: Vec<u8> = Vec::new();
    push_range(&mut r, src, from, to);
    assert(r@ =~= src@.subrange(from as int, to as int));
    r
}

impl Packet {
    /// Encodes the packet in its wire format.
    pub fn to_bytes(&self) -> (r: Vec<u8>)
        ensures
            r@ == self@.encode(),
    {
        let mut buf: Vec<u8> = Vec::new();
        match self {
            Packet::ReadRequest { filename, mode } => {
                push_u16(&mut buf, 1);
                push_range(&mut buf, filename.as_slice(), 0, filename.len());
                buf.push(0);
                let name = mode.name();
                push_range(&mut buf, name.as_slice(), 0, name.len());
                buf.push(0);
                assert(filename@.subrange(0, filename@.len() as int) =~= filename@);
                assert(name@.subrange(0, name@.len() as int) =~= name@);
            },
            Packet::WriteRequest { filename, mode } => {
                push_u16(&mut buf, 2);
                push_range(&mut buf, filename.as_slice(), 0, filename.len());
                buf.push(0);
                let name = mode.name();
                push_range(&mut buf, name.as_slice(), 0, name.len());
                buf.push(0);
                assert(filename@.subrange(0, filename@.len() as int) =~= filename@);
                assert(name@.subrange(0, name@.len() as int) =~= name@);
            },
            Packet::Data { block_n, data } => {
                push_u16(&mut buf, 3);
                push_u16(&mut buf, *block_n);
                push_range(&mut buf, data.as_slice(), 0, data.len());
                assert(data@.subrange(0, data@.len() as int) =~= data@);
            },
            Packet::Acknowledgment { block_n } => {
                push_u16(&mut buf, 4);
                push_u16(&mut buf, *block_n);
            },
            Packet::Error { code, msg } => {
                push_u16(&mut buf, 5);
                push_u16(&mut buf, code.value());
                push_range(&mut buf, msg.as_slice(), 0, msg.len());
                buf.push(0);
                assert(msg@.subrange(0, msg@.len() as int) =~= msg@);
            },
        }
        assert(buf@ =~= self@.encode());
        buf
    }

    /// Decodes one datagram.
    pub fn from_bytes(bytes: &[u8]) -> (r: Result<Packet, Error>)
        ensures
            match r {
                Ok(p) => decode(bytes@) == Ok::<PacketView, Error>(p@),
                Err(e) => decode(bytes@) == Err::<PacketView, Error>(e),
            },
    {
        let len = bytes.len();
        if len < 4 {
            return Err(Error::Incomplete(len));
        }
        let op: u16 = bytes[0] as u16 * 256 + bytes[1] as u16;
        let ghost body = bytes@.subrange(2, len as int);
        if op == 1 || op == 2 {
            if len - 2 < 7 {
                return Err(Error::Incomplete(len - 2));
            }
            let i = find_nul(bytes, 2);
            proof { lemma_nul_from_shift(bytes@, 2, 2); }
            if i == len {
                return Err(Error::Incomplete(0));
            }
            let j = find_nul(bytes, i + 1);
            proof {
                let rest = body.subrange(i - 2 + 1, body.len() as int);
                assert(rest =~= bytes@.subrange(i + 1, len as int));
                lemma_nul_from_shift(bytes@, i + 1, i + 1);
            }
            proof {
                assert(bytes@.subrange(i + 1, j as int) =~= body.subrange(i - 2 + 1, body.len() as int).subrange(0, j - (i + 1)));
            }
            let filename = copy_range(bytes, 2, i);
            let mode = match RequestMode::from_name(slice_subrange(bytes, i + 1, j)) {
                Ok(m) => m,
                Err(e) => return Err(e),
            };
            proof {
                assert(filename@ =~= body.subrange(0, i - 2));
                assert(bytes@.subrange(i + 1, j as int) =~= body.subrange(i - 2 + 1, body.len() as int).subrange(0, j - (i + 1)));
            }
            if op == 1 {
                Ok(Packet::ReadRequest { filename, mode })
            } else {
                Ok(Packet::WriteRequest { filename, mode })
            }
        } else if op == 3 {
            let block_n: u16 = bytes[2] as u16 * 256 + bytes[3] as u16;
            let data = copy_range(bytes, 4, len);
            assert(data@ =~= body.subrange(2, body.len() as int));
            Ok(Packet::Data { block_n, data })
        } else if op == 4 {
            let block_n: u16 = bytes[2] as u16 * 256 + bytes[3] as u16;
            Ok(Packet::Acknowledgment { block_n })
        } else if op == 5 {
            if len - 2 < 3 {
                return Err(Error::Incomplete(len - 2));
            }
            let code = match ErrorCode::from_u16(bytes[2] as u16 * 256 + bytes[3] as u16) {
                Ok(c) => c,
                Err(e) => return Err(e),
            };
            if bytes[len - 1] != 0 {
                return Err(Error::BadString);
            }
            assert(bytes@.subrange(4, len - 1) =~= body.subrange(2, body.len() - 1));
            if range_has_nul(bytes, 4, len - 1) {
                return Err(Error::BadString);
            }
            let msg = copy_range(bytes, 4, len - 1);
            Ok(Packet::Error { code, msg })
        } else {
            Err(Error::BadOpcode(op))
        }
    }
}

/// Searching a suffix finds the same zero byte, shifted by the suffix's start.
proof fn lemma_nul_from_shift(s: Seq<u8>, k: int, i: int)
    requires
        0 <= k <= i <= s.len(),
    ensures
        nul_from(s.subrange(k, s.len() as int), i - k) == nul_from(s, i) - k,
        i <= nul_from(s, i) <= s.len(),
    decreases s.len() - i,
{
    if i < s.len() && s[i] != 0 {
        lemma_nul_from_shift(s, k, i + 1);
    }
}


/// Whether the bytes `e` agree with the start of `b`, up to ASCII case, where `b`
/// is read with one NUL byte appended (a request may omit its last terminator).
pub open spec fn case_prefix(e: Seq<u8>, b: Seq<u8>) -> bool {
    let t = b + seq![0u8];
    &&& e.len() <= t.len()
    &&& forall|k: int| 0 <= k < e.len() ==> ascii_lower(#[trigger] e[k]) == ascii_lower(t[k])
}

/// Whether `p` is a request whose encoded body is too short to be accepted: an
/// empty filename with the shortest mode name.
pub open spec fn is_short_request(p: PacketView) -> bool {
    match p {
        PacketView::ReadRequest { filename, mode } => filename.len() == 0 && mode == RequestMode::Mail,
        PacketView::WriteRequest { filename, mode } => filename.len() == 0 && mode == RequestMode::Mail,
        _ => false,
    }
}

proof fn lemma_be16_of_bytes(v: u16)
    ensures
        be16(be_bytes(v)[0], be_bytes(v)[1]) == v,
{
}

proof fn lemma_bytes_of_be16(hi: u8, lo: u8)
    ensures
        be_bytes(be16(hi, lo)) == seq![hi, lo],
{
    assert(be_bytes(be16(hi, lo)) =~= seq![hi, lo]);
}

/// The first NUL at or after `i` is at `n` when none lies between.
proof fn lemma_nul_at(s: Seq<u8>, i: int, n: int)
    requires
        0 <= i <= n <= s.len(),
        n < s.len() ==> s[n] == 0,
        forall|k: int| i <= k < n ==> s[k] != 0,
    ensures
        nul_from(s, i) == n,
    decreases n - i,
{
    if i < n {
        lemma_nul_at(s, i + 1, n);
    }
}

proof fn lemma_name_lower(m: RequestMode)
    ensures
        ascii_lower_seq(m.spec_name()) == m.spec_name(),
        RequestMode::spec_from_name(m.spec_name()) == Some(m),
        !has_nul(m.spec_name()),
        m.spec_name().len() >= 4,
{
    assert(ascii_lower_seq(m.spec_name()) =~= m.spec_name());
}

/// Decoding the encoding of a packet gives the packet back. The one exception is a
/// request with an empty filename in mode `mail`, whose body is shorter than the
/// shortest one that decoding accepts.
pub proof fn lemma_round_trip(p: PacketView)
    requires
        p.wf(),
        !is_short_request(p),
    ensures
        decode(p.encode()) == Ok::<PacketView, Error>(p),
{
    let e = p.encode();
    let body = e.subrange(2, e.len() as int);
    match p {
        PacketView::ReadRequest { filename, mode } => {
            lemma_request_round_trip(1, filename, mode);
        },
        PacketView::WriteRequest { filename, mode } => {
            lemma_request_round_trip(2, filename, mode);
        },
        PacketView::Data { block_n, data } => {
            lemma_be16_of_bytes(3);
            lemma_be16_of_bytes(block_n);
            assert(body.subrange(2, body.len() as int) =~= data);
        },
        PacketView::Acknowledgment { block_n } => {
            lemma_be16_of_bytes(4);
            lemma_be16_of_bytes(block_n);
        },
        PacketView::Error { code, msg } => {
            lemma_be16_of_bytes(5);
            lemma_be16_of_bytes(code.spec_value());
            assert(body.subrange(2, body.len() - 1) =~= msg);
        },
    }
}

proof fn lemma_request_round_trip(op: u16, filename: Seq<u8>, mode: RequestMode)
    requires
        op == 1 || op == 2,
        !has_nul(filename),
        !(filename.len() == 0 && mode == RequestMode::Mail),
    ensures
        decode(be_bytes(op) + filename + seq![0u8] + mode.spec_name() + seq![0u8]) == (if op == 1 {
            Ok::<PacketView, Error>(PacketView::ReadRequest { filename, mode })
        } else {
            Ok::<PacketView, Error>(PacketView::WriteRequest { filename, mode })
        }),
{
    let name = mode.spec_name();
    let e = be_bytes(op) + filename + seq![0u8] + name + seq![0u8];
    let body = e.subrange(2, e.len() as int);
    lemma_be16_of_bytes(op);
    lemma_name_lower(mode);
    assert(body =~= filename + seq![0u8] + name + seq![0u8]);
    let n = filename.len() as int;
    assert forall|k: int| 0 <= k < n implies body[k] != 0 by {
        assert(body[k] == filename[k]);
    }
    lemma_nul_at(body, 0, n);
    let rest = body.subrange(n + 1, body.len() as int);
    assert(rest =~= name + seq![0u8]);
    assert forall|k: int| 0 <= k < name.len() implies rest[k] != 0 by {
        assert(rest[k] == name[k]);
    }
    lemma_nul_at(rest, 0, name.len() as int);
    assert(body.subrange(0, n) =~= filename);
    assert(rest.subrange(0, name.len() as int) =~= name);
}

/// Any datagram decodes either to an error or to a packet whose strings hold no
/// NUL and whose encoding matches the datagram from its start, up to the ASCII case
/// of the mode name and the final terminator of a request.
pub proof fn lemma_decode_normalizes(b: Seq<u8>)
    ensures
        decode(b) is Ok ==> decode(b)->Ok_0.wf() && case_prefix(
            decode(b)->Ok_0.encode(),
            b,
        ),
{
    if decode(b) is Ok {
        let q = decode(b)->Ok_0;
        let e = q.encode();
        let t = b + seq![0u8];
        let body = b.subrange(2, b.len() as int);
        let op = be16(b[0], b[1]);
        lemma_bytes_of_be16(b[0], b[1]);
        if op == 1 || op == 2 {
            let i = nul_from(body, 0);
            lemma_nul_from_shift(body, 0, 0);
            let filename = body.subrange(0, i);
            let rest = body.subrange(i + 1, body.len() as int);
            let j = nul_from(rest, 0);
            lemma_nul_from_shift(rest, 0, 0);
            lemma_nul_prefix(body, 0);
            lemma_nul_prefix(rest, 0);
            let raw = rest.subrange(0, j);
            let m = RequestMode::spec_from_name(raw).unwrap();
            let name = m.spec_name();
            lemma_name_lower(m);
            assert(ascii_lower_seq(raw) == name);
            assert(!has_nul(filename));
            assert(e =~= seq![b[0], b[1]] + filename + seq![0u8] + name + seq![0u8]);
            assert forall|k: int| 0 <= k < e.len() implies ascii_lower(#[trigger] e[k]) == ascii_lower(t[k]) by {
                if k < 2 {
                } else if k < 2 + i {
                    assert(e[k] == filename[k - 2]);
                } else if k == 2 + i {
                } else if k < 3 + i + j {
                    assert(e[k] == name[k - 3 - i]);
                    assert(ascii_lower_seq(raw)[k - 3 - i] == ascii_lower(raw[k - 3 - i]));
                    lemma_lower_idem(raw[k - 3 - i]);
                    assert(t[k] == raw[k - 3 - i]);
                } else {
                    assert(e[k] == 0);
                    if 3 + i + j < b.len() {
                        assert(t[k] == rest[j]);
                    }
                }
            }
        } else if op == 3 {
            assert(e =~= b);
        } else if op == 4 {
            assert(e =~= b.subrange(0, 4));
        } else {
            let msg = body.subrange(2, body.len() - 1);
            let code = ErrorCode::spec_from_u16(be16(body[0], body[1])).unwrap();
            assert(code.spec_value() == be16(body[0], body[1]));
            lemma_bytes_of_be16(body[0], body[1]);
            assert(e =~= b);
        }
    }
}

proof fn lemma_lower_idem(x: u8)
    ensures
        ascii_lower(ascii_lower(x)) == ascii_lower(x),
{
}

/// No NUL lies before the first one.
proof fn lemma_nul_prefix(s: Seq<u8>, i: int)
    requires
        0 <= i <= s.len(),
    ensures
        forall|k: int| i <= k < nul_from(s, i) ==> s[k] != 0,
        nul_from(s, i) < s.len() ==> s[nul_from(s, i)] == 0,
    decreases s.len() - i,
{
    if i < s.len() && s[i] != 0 {
        lemma_nul_prefix(s, i + 1);
    }
}

/// A datagram shorter than four bytes is `Incomplete`.
pub proof fn lemma_short_is_incomplete(b: Seq<u8>)
    requires
        b.len() < 4,
    ensures
        decode(b) == Err::<PacketView, Error>(Error::Incomplete(b.len() as usize)),
{
}

/// An opcode outside one to five is `BadOpcode`.
pub proof fn lemma_bad_opcode(b: Seq<u8>)
    requires
        b.len() >= 4,
        !(1 <= be16(b[0], b[1]) <= 5),
    ensures
        decode(b) == Err::<PacketView, Error>(Error::BadOpcode(be16(b[0], b[1]))),
{
}

/// An error packet with a known code whose last byte is not NUL is `BadString`.
pub proof fn lemma_error_without_nul(b: Seq<u8>)
    requires
        b.len() >= 5,
        be16(b[0], b[1]) == 5,
        be16(b[2], b[3]) <= 8,
        b.last() != 0,
    ensures
        decode(b) == Err::<PacketView, Error>(Error::BadString),
{
}

/// An error packet whose code is above eight is `BadErrorCode`.
pub proof fn lemma_bad_error_code(b: Seq<u8>)
    requires
        b.len() >= 5,
        be16(b[0], b[1]) == 5,
        be16(b[2], b[3]) > 8,
    ensures
        decode(b) == Err::<PacketView, Error>(Error::BadErrorCode(be16(b[2], b[3]))),
{
}

} // verus!
