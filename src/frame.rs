use crate::checksum::{crc_xmodem, xmodem_crc};
use vstd::prelude::*;
use vstd::slice::{slice_subrange, slice_to_vec};

verus! {

/// Start-of-frame byte that opens every frame on the bus.
pub const SOF: u8 = 0xdc;

/// Smallest value of the length byte: SOF, four header bytes, four id bytes
/// and two checksum bytes.
pub const MIN_FRAME_LEN: u8 = 11;

/// Length bytes at or above this bound are refused.
pub const MAX_FRAME_LEN: u8 = 70;

/// A frame as it travels on the bus.
#[derive(Clone, Debug, PartialEq, Eq)]
pub struct Frame {
    pub destination_address: u8,
    pub source_address: u8,
    pub packet_type: u8,
    pub field_id: u32,
    pub payload: Vec<u8>,
}

/// The packet types of the bus, in the order of their codes.
#[derive(Clone, Copy, Debug, PartialEq, Eq, Structural)]
pub enum PacketType {
    Unknown0,
    Unknown1,
    Info,
    SetRequest,
    Ack,
    Nack,
    Get,
    Ret,
    Error,
}

/// Why a frame candidate was refused.
#[derive(Clone, Copy, Debug, PartialEq, Eq, Structural)]
pub enum ParseErrorKind {
    ChecksumError,
    InvalidLength,
}

/// The outcome of one call of the streaming parser.
pub enum ParseResult<'a> {
    /// A frame and the bytes after it.
    Parsed { rest: &'a [u8], frame: Frame },
    /// The input ends before a frame could be completed.
    Incomplete,
    /// The candidate frame is broken: `rest` starts at the offending field,
    /// `broken_data` is the whole input.
    Failure { rest: &'a [u8], broken_data: &'a [u8], error: ParseErrorKind },
}

/// What the parser makes of a byte sequence, by position.
pub enum ParseStep {
    /// A frame spans `start..end`.
    Span { start: int, end: int },
    /// More bytes are needed.
    NeedMore,
    /// The candidate frame is refused at position `at`.
    Fault { at: int, error: ParseErrorKind },
}

impl PacketType {
    /// The code of the packet type on the wire.
    pub open spec fn spec_code(self) -> u8 {
        match self {
            PacketType::Unknown0 => 0,
            PacketType::Unknown1 => 1,
            PacketType::Info => 2,
            PacketType::SetRequest => 3,
            PacketType::Ack => 4,
            PacketType::Nack => 5,
            PacketType::Get => 6,
            PacketType::Ret => 7,
            PacketType::Error => 8,
        }
    }

    /// The code of the packet type on the wire.
    pub fn code(self) -> (r: u8)
        ensures
            r == self.spec_code(),
    {
        match self {
            PacketType::Unknown0 => 0,
            PacketType::Unknown1 => 1,
            PacketType::Info => 2,
            PacketType::SetRequest => 3,
            PacketType::Ack => 4,
            PacketType::Nack => 5,
            PacketType::Get => 6,
            PacketType::Ret => 7,
            PacketType::Error => 8,
        }
    }

    /// The packet type with the given code, if there is one.
    pub fn from_repr(code: u8) -> (r: Option<PacketType>)
        ensures
            r is None <==> code > 8,
            r matches Some(t) ==> t.spec_code() == code,
    {
        match code {
            0 => Some(PacketType::Unknown0),
            1 => Some(PacketType::Unknown1),
            2 => Some(PacketType::Info),
            3 => Some(PacketType::SetRequest),
            4 => Some(PacketType::Ack),
            5 => Some(PacketType::Nack),
            6 => Some(PacketType::Get),
            7 => Some(PacketType::Ret),
            8 => Some(PacketType::Error),
            _ => None,
        }
    }
}

/// The field id with its two high bytes exchanged.
pub open spec fn swap_spec(id: u32) -> u32 {
    (id & 0x0000_ffff) | ((id >> 8) & 0x00ff_0000) | ((id << 8) & 0xff00_0000)
}

/// Set and Get frames carry the field id with its two high bytes exchanged.
pub open spec fn swaps_field_id(packet_type: u8) -> bool {
    packet_type == 3 || packet_type == 6
}

/// The 32-bit word that stands on the wire for `id` in a frame of this type.
pub open spec fn wire_word(packet_type: u8, id: u32) -> u32 {
    if swaps_field_id(packet_type) {
        swap_spec(id)
    } else {
        id
    }
}

/// Big-endian bytes of a 32-bit word.
pub open spec fn be32(w: u32) -> Seq<u8> {
    seq![(w >> 24) as u8, (w >> 16) as u8, (w >> 8) as u8, w as u8]
}

/// The 32-bit word of four big-endian bytes.
pub open spec fn be32_value(b: Seq<u8>) -> u32 {
    ((b[0] as u32) << 24) | ((b[1] as u32) << 16) | ((b[2] as u32) << 8) | (b[3] as u32)
}

/// Big-endian bytes of a 16-bit word.
pub open spec fn be16(w: u16) -> Seq<u8> {
    seq![(w >> 8) as u8, w as u8]
}

/// The 16-bit word of two big-endian bytes.
pub open spec fn be16_value(hi: u8, lo: u8) -> u16 {
    ((hi as u16) << 8) | (lo as u16)
}

/// The bytes of a frame up to, not including, its checksum.
pub open spec fn unsealed_bytes(f: Frame) -> Seq<u8> {
    seq![
        SOF,
        f.source_address ^ 0x80u8,
        f.destination_address,
        (f.payload@.len() + 11) as u8,
        f.packet_type,
    ] + be32(wire_word(f.packet_type, f.field_id)) + f.payload@
}

/// The bytes of a frame on the wire.
pub open spec fn wire_bytes(f: Frame) -> Seq<u8> {
    unsealed_bytes(f) + be16(xmodem_crc(unsealed_bytes(f)))
}

/// A frame whose length byte is in range.
pub open spec fn frame_wf(f: Frame) -> bool {
    f.payload@.len() + 11 < MAX_FRAME_LEN
}

/// The position of the first start-of-frame byte at or after `i`, or the
/// length of `s` if there is none.
pub open spec fn sof_from(s: Seq<u8>, i: int) -> int
    decreases s.len() - i,
{
    if i < 0 || i >= s.len() {
        s.len() as int
    } else if s[i] == SOF {
        i
    } else {
        sof_from(s, i + 1)
    }
}

/// How the parser reads `s`: resync to the first start-of-frame byte, check
/// the length byte, wait for the whole frame, then check the checksum.
pub open spec fn parse_step(s: Seq<u8>) -> ParseStep {
    let p = sof_from(s, 0);
    if s.len() < p + 4 {
        ParseStep::NeedMore
    } else {
        let len = s[p + 3] as int;
        if !(MIN_FRAME_LEN <= len < MAX_FRAME_LEN) {
            ParseStep::Fault { at: p + 3, error: ParseErrorKind::InvalidLength }
        } else if s.len() < p + len {
            ParseStep::NeedMore
        } else if be16_value(s[p + len - 2], s[p + len - 1]) != xmodem_crc(
            s.subrange(p, p + len - 2),
        ) {
            ParseStep::Fault { at: p + len - 2, error: ParseErrorKind::ChecksumError }
        } else {
            ParseStep::Span { start: p, end: p + len }
        }
    }
}

/// `f` is the frame that the checked frame bytes `m` carry.
pub open spec fn decodes_to(m: Seq<u8>, f: Frame) -> bool {
    &&& f.source_address == m[1] ^ 0x80u8
    &&& f.destination_address == m[2]
    &&& f.packet_type == m[4]
    &&& f.field_id == wire_word(f.packet_type, be32_value(m.subrange(5, 9)))
    &&& f.payload@ == m.subrange(9, m.len() - 2)
}

/// `r` is what the parser owes for input `s`.
pub open spec fn parse_agrees(r: ParseResult, s: Seq<u8>) -> bool {
    match r {
        ParseResult::Parsed { rest, frame } => match parse_step(s) {
            ParseStep::Span { start, end } => rest@ == s.subrange(end, s.len() as int)
                && decodes_to(s.subrange(start, end), frame),
            _ => false,
        },
        ParseResult::Incomplete => parse_step(s) is NeedMore,
        ParseResult::Failure { rest, broken_data, error } => match parse_step(s) {
            ParseStep::Fault { at, error: e } => e == error && rest@ == s.subrange(
                at,
                s.len() as int,
            ) && broken_data@ == s,
            _ => false,
        },
    }
}

/// Exchange the two high bytes of a field id, as Set and Get frames carry it.
pub fn swap_field_id(id: u32) -> (r: u32)
    ensures
        r == swap_spec(id),
{
    (id & 0x0000_ffff) | ((id >> 8) & 0x00ff_0000) | ((id << 8) & 0xff00_0000)
}

/// Exchanging the two high bytes of a field id twice gives the id back.
pub proof fn lemma_swap_involutive(id: u32)
    ensures
        swap_spec(swap_spec(id)) == id,
{
    let s = (id & 0x0000_ffff) | ((id >> 8) & 0x00ff_0000) | ((id << 8) & 0xff00_0000);
    assert(((s & 0x0000_ffff) | ((s >> 8) & 0x00ff_0000) | ((s << 8) & 0xff00_0000)) == id)
        by (bit_vector)
        requires
            s == (id & 0x0000_ffff) | ((id >> 8) & 0x00ff_0000) | ((id << 8) & 0xff00_0000),
    ;
}

proof fn lemma_be32_round_trip(w: u32)
    ensures
        be32_value(be32(w)) == w,
{
    let b0 = (w >> 24) as u8;
    let b1 = (w >> 16) as u8;
    let b2 = (w >> 8) as u8;
    let b3 = w as u8;
    assert(((b0 as u32) << 24) | ((b1 as u32) << 16) | ((b2 as u32) << 8) | (b3 as u32) == w)
        by (bit_vector)
        requires
            b0 == (w >> 24) as u8,
            b1 == (w >> 16) as u8,
            b2 == (w >> 8) as u8,
            b3 == w as u8,
    ;
}

proof fn lemma_be16_round_trip(w: u16)
    ensures
        be16_value(be16(w)[0], be16(w)[1]) == w,
{
    let hi = (w >> 8) as u8;
    let lo = w as u8;
    assert((((hi as u16) << 8) | (lo as u16)) == w) by (bit_vector)
        requires
            hi == (w >> 8) as u8,
            lo == w as u8,
    ;
}

proof fn lemma_xor_involutive(b: u8)
    ensures
        (b ^ 0x80u8) ^ 0x80u8 == b,
{
    assert((b ^ 0x80u8) ^ 0x80u8 == b) by (bit_vector);
}

/// Parsing the bytes of a well-formed frame gives that frame back, with
/// nothing left over.
pub proof fn lemma_frame_round_trip(f: Frame)
    requires
        frame_wf(f),
    ensures
        parse_step(wire_bytes(f)) == (ParseStep::Span { start: 0, end: wire_bytes(f).len() as int }),
        decodes_to(wire_bytes(f), f),
{
    let u = unsealed_bytes(f);
    let w = wire_bytes(f);
    let len = f.payload@.len() + 11;
    assert(u.len() == len - 2);
    assert(w.len() == len);
    assert(w[0] == SOF);
    assert(sof_from(w, 0) == 0);
    assert(w[3] == len as u8);
    assert(w.subrange(0, len - 2) =~= u);
    lemma_be16_round_trip(xmodem_crc(u));
    assert(w[len - 2] == be16(xmodem_crc(u))[0]);
    assert(w[len - 1] == be16(xmodem_crc(u))[1]);
    lemma_xor_involutive(f.source_address);
    assert(w.subrange(5, 9) =~= be32(wire_word(f.packet_type, f.field_id)));
    lemma_be32_round_trip(wire_word(f.packet_type, f.field_id));
    lemma_swap_involutive(f.field_id);
    assert(w.subrange(9, len - 2) =~= f.payload@);
}

/// A candidate frame whose length byte is below 11 or at least 70 is
/// refused with `InvalidLength`, at the length byte.
pub proof fn lemma_length_out_of_range(s: Seq<u8>)
    requires
        sof_from(s, 0) + 4 <= s.len(),
        s[sof_from(s, 0) + 3] < MIN_FRAME_LEN || s[sof_from(s, 0) + 3] >= MAX_FRAME_LEN,
    ensures
        parse_step(s) == (ParseStep::Fault {
            at: sof_from(s, 0) + 3,
            error: ParseErrorKind::InvalidLength,
        }),
{
}

impl Frame {
    /// A frame of the given fields.
    pub fn new(
        destination_address: u8,
        source_address: u8,
        packet_type: u8,
        field_id: u32,
        payload: Vec<u8>,
    ) -> (r: Frame)
        ensures
            r.destination_address == destination_address,
            r.source_address == source_address,
            r.packet_type == packet_type,
            r.field_id == field_id,
            r.payload@ == payload@,
    {
        Frame { destination_address, source_address, packet_type, field_id, payload }
    }

    /// A Get request for a field, with an empty payload.
    pub fn new_get(destination_address: u8, source_address: u8, field_id: u32) -> (r: Frame)
        ensures
            r.destination_address == destination_address,
            r.source_address == source_address,
            r.packet_type == PacketType::Get.spec_code(),
            r.field_id == field_id,
            r.payload@.len() == 0,
    {
        Frame::new(
            destination_address,
            source_address,
            PacketType::Get.code(),
            field_id,
            Vec::new(),
        )
    }

    /// A Set request for a field with the given payload.
    pub fn new_set(
        destination_address: u8,
        source_address: u8,
        field_id: u32,
        payload: Vec<u8>,
    ) -> (r: Frame)
        ensures
            r.destination_address == destination_address,
            r.source_address == source_address,
            r.packet_type == PacketType::SetRequest.spec_code(),
            r.field_id == field_id,
            r.payload@ == payload@,
    {
        Frame::new(
            destination_address,
            source_address,
            PacketType::SetRequest.code(),
            field_id,
            payload,
        )
    }

    /// The bytes of this frame on the wire, checksum included.
    pub fn serialize(&self) -> (r: Vec<u8>)
        requires
            self.payload@.len() + 11 <= 255,
        ensures
            r@ == wire_bytes(*self),
    {
        FrameSerializer::serialize(self)
    }

    /// Read one frame from the front of `input`, skipping any bytes before the
    /// first start-of-frame byte. A candidate whose length or checksum is
    /// wrong is reported, not skipped: the caller may drop its start byte and
    /// parse again.
    pub fn parse(input: &[u8]) -> (r: ParseResult<'_>)
        ensures
            parse_agrees(r, input@),
    {
        FrameParser::parse(input)
    }

    /// The destination address.
    pub fn destination_address(&self) -> (r: u8)
        ensures
            r == self.destination_address,
    {
        self.destination_address
    }

    /// The source address.
    pub fn source_address(&self) -> (r: u8)
        ensures
            r == self.source_address,
    {
        self.source_address
    }

    /// The packet type code.
    pub fn packet_type(&self) -> (r: u8)
        ensures
            r == self.packet_type,
    {
        self.packet_type
    }

    /// The field id, as the field registry knows it.
    pub fn field_id(&self) -> (r: u32)
        ensures
            r == self.field_id,
    {
        self.field_id
    }

    /// The payload bytes.
    pub fn payload(&self) -> (r: &[u8])
        ensures
            r@ == self.payload@,
    {
        self.payload.as_slice()
    }
}

/// Writes frames to bytes.
pub struct FrameSerializer {}

impl FrameSerializer {
    /// The bytes of a frame on the wire, checksum included.
    pub fn serialize(frame: &Frame) -> (r: Vec<u8>)
        requires
            frame.payload@.len() + 11 <= 255,
        ensures
            r@ == wire_bytes(*frame),
    {
        let len: u8 = (frame.payload.len() + 11) as u8;
        let mut buf: Vec<u8> = Vec::new();
        buf.push(SOF);
        buf.push(frame.source_address ^ 0x80u8);
        buf.push(frame.destination_address);
        buf.push(len);
        buf.push(frame.packet_type);
        let word = if frame.packet_type == 3 || frame.packet_type == 6 {
            swap_field_id(frame.field_id)
        } else {
            frame.field_id
        };
        buf.push((word >> 24) as u8);
        buf.push((word >> 16) as u8);
        buf.push((word >> 8) as u8);
        buf.push(word as u8);
        let ghost head = buf@;
        let mut i: usize = 0;
        while i < frame.payload.len()
            invariant
                i <= frame.payload@.len(),
                buf@ == head + frame.payload@.subrange(0, i as int),
            decreases frame.payload@.len() - i,
        {
            buf.push(frame.payload[i]);
            i += 1;
            assert(buf@ =~= head + frame.payload@.subrange(0, i as int));
        }
        assert(buf@ =~= unsealed_bytes(*frame));
        let crc = crc_xmodem(buf.as_slice());
        buf.push((crc >> 8) as u8);
        buf.push(crc as u8);
        assert(buf@ =~= wire_bytes(*frame));
        buf
    }

}

/// Reads frames from a byte stream.
pub struct FrameParser {}

impl FrameParser {
    /// Read one frame from the front of `input`, skipping any bytes before the
    /// first start-of-frame byte.
    pub fn parse(input: &[u8]) -> (r: ParseResult<'_>)
        ensures
            parse_agrees(r, input@),
    {
        let n = input.len();
        let mut p: usize = 0;
        while p < n && input[p] != SOF
            invariant
                p <= n,
                n == input@.len(),
                sof_from(input@, 0) == sof_from(input@, p as int),
            decreases n - p,
        {
            p += 1;
        }
        assert(sof_from(input@, p as int) == p);
        if n - p < 4 {
            return ParseResult::Incomplete;
        }
        let len = input[p + 3];
        if len < MIN_FRAME_LEN || len >= MAX_FRAME_LEN {
            return ParseResult::Failure {
                rest: slice_subrange(input, p + 3, n),
                broken_data: input,
                error: ParseErrorKind::InvalidLength,
            };
        }
        let len = len as usize;
        if n - p < len {
            return ParseResult::Incomplete;
        }
        let crc = crc_xmodem(slice_subrange(input, p, p + len - 2));
        let got = ((input[p + len - 2] as u16) << 8) | (input[p + len - 1] as u16);
        if got != crc {
            return ParseResult::Failure {
                rest: slice_subrange(input, p + len - 2, n),
                broken_data: input,
                error: ParseErrorKind::ChecksumError,
            };
        }
        let packet_type = input[p + 4];
        let word = ((input[p + 5] as u32) << 24) | ((input[p + 6] as u32) << 16) | ((input[p
            + 7] as u32) << 8) | (input[p + 8] as u32);
        let field_id = if packet_type == 3 || packet_type == 6 {
            swap_field_id(word)
        } else {
            word
        };
        let payload = slice_to_vec(slice_subrange(input, p + 9, p + len - 2));
        let frame = Frame {
            destination_address: input[p + 2],
            source_address: input[p + 1] ^ 0x80u8,
            packet_type,
            field_id,
            payload,
        };
        let ghost m = input@.subrange(p as int, p + len);
        assert(m.subrange(5, 9) =~= input@.subrange(p + 5, p + 9));
        assert(m.subrange(9, m.len() - 2) =~= input@.subrange(p + 9, p + len - 2));
        ParseResult::Parsed { rest: slice_subrange(input, p + len, n), frame }
    }

}

} // verus!
