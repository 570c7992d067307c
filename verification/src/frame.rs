//! Frame primitives: opcode, header bit fields, payload-length encoding,
//! masking, and the owned frame type.
use vstd::prelude::*;

verus! {

use vstd::string::StringSliceAdditionalSpecFns;

/// Interpretation of the payload data of a frame, RFC 6455 section 5.2.
#[derive(Debug, Clone, Copy, PartialEq, Eq, Structural)]
pub enum OpCode {
    /// a continuation frame of a fragmented message
    Continue,
    /// a text frame
    Text,
    /// a binary frame
    Binary,
    /// reserved for further non-control frames
    ReservedNonControl,
    /// a connection close
    Close,
    /// a ping
    Ping,
    /// a pong
    Pong,
    /// reserved for further control frames
    ReservedControl,
}

impl OpCode {
    /// The nibble this opcode is sent as on the wire.
    pub open spec fn spec_u8(self) -> u8 {
        match self {
            OpCode::Continue => 0,
            OpCode::Text => 1,
            OpCode::Binary => 2,
            OpCode::ReservedNonControl => 3,
            OpCode::Close => 8,
            OpCode::Ping => 9,
            OpCode::Pong => 10,
            OpCode::ReservedControl => 11,
        }
    }

    /// True of the control opcodes: close, ping, pong and the reserved control range.
    pub open spec fn spec_is_control(self) -> bool {
        self.spec_u8() >= 8
    }

    /// True of the data opcodes: continuation, text and binary.
    pub open spec fn spec_is_data(self) -> bool {
        self is Continue || self is Text || self is Binary
    }

    /// Wire value of the opcode.
    pub fn as_u8(&self) -> (r: u8)
        ensures
            r == self.spec_u8(),
    {
        match self {
            OpCode::Continue => 0,
            OpCode::Text => 1,
            OpCode::Binary => 2,
            OpCode::ReservedNonControl => 3,
            OpCode::Close => 8,
            OpCode::Ping => 9,
            OpCode::Pong => 10,
            OpCode::ReservedControl => 11,
        }
    }

    /// True when this opcode is a connection close.
    pub fn is_close(&self) -> (r: bool)
        ensures
            r == (*self is Close),
    {
        matches!(self, Self::Close)
    }

    /// True when this opcode carries or continues application data.
    pub fn is_data(&self) -> (r: bool)
        ensures
            r == self.spec_is_data(),
    {
        matches!(self, Self::Text | Self::Binary | Self::Continue)
    }
}

/// The opcode denoted by the low nibble of a header's first byte.
pub open spec fn opcode_of_nibble(n: u8) -> OpCode {
    if n == 0 {
        OpCode::Continue
    } else if n == 1 {
        OpCode::Text
    } else if n == 2 {
        OpCode::Binary
    } else if 3 <= n && n <= 7 {
        OpCode::ReservedNonControl
    } else if n == 8 {
        OpCode::Close
    } else if n == 9 {
        OpCode::Ping
    } else if n == 10 {
        OpCode::Pong
    } else {
        OpCode::ReservedControl
    }
}

/// Read the opcode out of the first byte of a frame header. Every nibble
/// denotes an opcode (the reserved ranges included), so this never fails;
/// the `Result` shape is kept for callers that treat reserved values as errors.
pub fn parse_opcode(val: u8) -> (r: Result<OpCode, u8>)
    ensures
        r == Ok::<OpCode, u8>(opcode_of_nibble(val & 0x0f)),
{
    let n = val & 0x0f;
    match n {
        0 => Ok(OpCode::Continue),
        1 => Ok(OpCode::Text),
        2 => Ok(OpCode::Binary),
        3..=7 => Ok(OpCode::ReservedNonControl),
        8 => Ok(OpCode::Close),
        9 => Ok(OpCode::Ping),
        10 => Ok(OpCode::Pong),
        _ => Ok(OpCode::ReservedControl),
    }
}

/// Whether bit `i` of `b` is set, counting from the most significant bit.
pub open spec fn bit_of(b: u8, i: u8) -> bool
    recommends
        i < 8,
{
    (b >> ((7 - i) as u8)) & 1 == 1
}

/// `b` with bit `i` (counting from the most significant bit) set to `v`.
pub open spec fn with_bit(b: u8, i: u8, v: bool) -> u8
    recommends
        i < 8,
{
    if v {
        b | (1u8 << ((7 - i) as u8))
    } else {
        b & (!(1u8 << ((7 - i) as u8)))
    }
}

/// Setting one bit changes that bit and leaves every other bit alone.
pub proof fn lemma_with_bit(b: u8, i: u8, j: u8, v: bool)
    by (bit_vector)
    requires
        i < 8,
        j < 8,
    ensures
        bit_of(with_bit(b, i, v), j) == if i == j {
            v
        } else {
            bit_of(b, j)
        },
{
}

/// Setting a bit in the high nibble leaves the low nibble alone.
pub proof fn lemma_with_bit_high_keeps_nibble(b: u8, i: u8, v: bool)
    by (bit_vector)
    requires
        i < 4,
    ensures
        with_bit(b, i, v) & 0x0f == b & 0x0f,
{
}

/// Setting the mask bit of the second header byte keeps the 7-bit length.
pub proof fn lemma_with_bit_keeps_len7(b: u8, v: bool)
    by (bit_vector)
    ensures
        with_bit(b, 0, v) & 0x7f == b & 0x7f,
{
}

/// Read bit `bit_idx` of byte `byte_idx`, counting bits from the most
/// significant one, as the wire format does.
pub fn get_bit(source: &[u8], byte_idx: usize, bit_idx: usize) -> (r: bool)
    requires
        byte_idx < source@.len(),
        bit_idx < 8,
    ensures
        r == bit_of(source@[byte_idx as int], bit_idx as u8),
{
    let b: u8 = source[byte_idx];
    let sh: u8 = (7 - bit_idx) as u8;
    (b >> sh) & 1 == 1
}

/// Set bit `bit_idx` of byte `byte_idx` to `val`, counting bits from the
/// most significant one.
pub fn set_bit(source: &mut Vec<u8>, byte_idx: usize, bit_idx: usize, val: bool)
    requires
        byte_idx < old(source)@.len(),
        bit_idx < 8,
    ensures
        final(source)@ == old(source)@.update(
            byte_idx as int,
            with_bit(old(source)@[byte_idx as int], bit_idx as u8, val),
        ),
{
    let b: u8 = source[byte_idx];
    let sh: u8 = (7 - bit_idx) as u8;
    if val {
        source[byte_idx] = b | (1u8 << sh);
    } else {
        source[byte_idx] = b & (!(1u8 << sh));
    }
}

/// The bytes of `data` XORed with `key` over a 4-byte stride.
pub open spec fn masked_bytes(data: Seq<u8>, key: Seq<u8>) -> Seq<u8>
    recommends
        key.len() == 4,
{
    Seq::new(data.len(), |i: int| data[i] ^ key[i % 4])
}

/// Masking twice with one key gives the bytes back.
pub proof fn lemma_mask_involutive(data: Seq<u8>, key: Seq<u8>)
    requires
        key.len() == 4,
    ensures
        masked_bytes(masked_bytes(data, key), key) =~= data,
{
    assert forall|i: int| 0 <= i < data.len() implies masked_bytes(masked_bytes(data, key), key)[i]
        == data[i] by {
        let d = data[i];
        let k = key[i % 4];
        assert((d ^ k) ^ k == d) by (bit_vector);
    }
}

/// XOR the buffer with the masking key, byte `i` with `key[i mod 4]`.
pub fn apply_mask(buf: &mut Vec<u8>, key: [u8; 4])
    ensures
        final(buf)@ == masked_bytes(old(buf)@, key@),
{
    let n = buf.len();
    let mut i: usize = 0;
    while i < n
        invariant
            n == old(buf)@.len(),
            buf@.len() == n,
            i <= n,
            forall|j: int| 0 <= j < i ==> buf@[j] == masked_bytes(old(buf)@, key@)[j],
            forall|j: int| i <= j < n ==> buf@[j] == old(buf)@[j],
        decreases n - i,
    {
        let b = buf[i];
        buf[i] = b ^ key[i % 4];
        i += 1;
    }
    assert(buf@ =~= masked_bytes(old(buf)@, key@));
}

/// The 4-byte-stride XOR done a stride at a time; same result as
/// [`apply_mask`], mirrored in the contract.
pub fn apply_mask_fast32(buf: &mut Vec<u8>, key: [u8; 4])
    ensures
        final(buf)@ == masked_bytes(old(buf)@, key@),
{
    let n = buf.len();
    let mut i: usize = 0;
    while n - i >= 4
        invariant
            n == old(buf)@.len(),
            buf@.len() == n,
            i <= n,
            i % 4 == 0,
            forall|j: int| 0 <= j < i ==> buf@[j] == masked_bytes(old(buf)@, key@)[j],
            forall|j: int| i <= j < n ==> buf@[j] == old(buf)@[j],
        decreases n - i,
    {
        let b0 = buf[i];
        let b1 = buf[i + 1];
        let b2 = buf[i + 2];
        let b3 = buf[i + 3];
        buf[i] = b0 ^ key[0];
        buf[i + 1] = b1 ^ key[1];
        buf[i + 2] = b2 ^ key[2];
        buf[i + 3] = b3 ^ key[3];
        proof {
            assert((i + 1int) % 4 == 1 && (i + 2int) % 4 == 2 && (i + 3int) % 4 == 3) by {
                assert(i % 4 == 0);
            }
        }
        i += 4;
    }
    while i < n
        invariant
            n == old(buf)@.len(),
            buf@.len() == n,
            i <= n,
            forall|j: int| 0 <= j < i ==> buf@[j] == masked_bytes(old(buf)@, key@)[j],
            forall|j: int| i <= j < n ==> buf@[j] == old(buf)@[j],
        decreases n - i,
    {
        let b = buf[i];
        buf[i] = b ^ key[i % 4];
        i += 1;
    }
    assert(buf@ =~= masked_bytes(old(buf)@, key@));
}

/// Value of two big-endian bytes.
pub open spec fn be16v(s: Seq<u8>) -> int
    recommends
        s.len() == 2,
{
    s[0] * 0x100 + s[1]
}

/// Value of eight big-endian bytes.
pub open spec fn be64v(s: Seq<u8>) -> int
    recommends
        s.len() == 8,
{
    ((((((s[0] * 0x100 + s[1]) * 0x100 + s[2]) * 0x100 + s[3]) * 0x100 + s[4]) * 0x100 + s[5])
        * 0x100 + s[6]) * 0x100 + s[7]
}

/// The fin bit of a header byte sequence.
pub open spec fn fin_of(h: Seq<u8>) -> bool
    recommends
        h.len() >= 1,
{
    bit_of(h[0], 0)
}

/// The first reserved bit.
pub open spec fn rsv1_of(h: Seq<u8>) -> bool
    recommends
        h.len() >= 1,
{
    bit_of(h[0], 1)
}

/// The second reserved bit.
pub open spec fn rsv2_of(h: Seq<u8>) -> bool
    recommends
        h.len() >= 1,
{
    bit_of(h[0], 2)
}

/// The third reserved bit.
pub open spec fn rsv3_of(h: Seq<u8>) -> bool
    recommends
        h.len() >= 1,
{
    bit_of(h[0], 3)
}

/// The opcode encoded in the low nibble of the first byte.
pub open spec fn opcode_of(h: Seq<u8>) -> OpCode
    recommends
        h.len() >= 1,
{
    opcode_of_nibble(h[0] & 0x0f)
}

/// The mask bit of the second byte.
pub open spec fn masked_of(h: Seq<u8>) -> bool
    recommends
        h.len() >= 2,
{
    bit_of(h[1], 0)
}

/// The 7-bit length marker of the second byte.
pub open spec fn len7_of(h: Seq<u8>) -> u8
    recommends
        h.len() >= 2,
{
    h[1] & 0x7f
}

/// How many extended-length bytes the 7-bit marker announces.
pub open spec fn ext_len_of(h: Seq<u8>) -> int
    recommends
        h.len() >= 2,
{
    if len7_of(h) < 126 {
        0
    } else if len7_of(h) == 126 {
        2
    } else {
        8
    }
}

/// The payload length the header announces.
pub open spec fn payload_len_of(h: Seq<u8>) -> int
    recommends
        h.len() >= 2 + ext_len_of(h),
{
    if len7_of(h) < 126 {
        len7_of(h) as int
    } else if len7_of(h) == 126 {
        be16v(h.subrange(2, 4))
    } else {
        be64v(h.subrange(2, 10))
    }
}

/// Offset of the masking key, right after the length encoding.
pub open spec fn key_off_of(h: Seq<u8>) -> int
    recommends
        h.len() >= 2,
{
    2 + ext_len_of(h)
}

/// Total length of the header: the two leading bytes, the extended length
/// and, when the mask bit is set, the 4-byte masking key.
pub open spec fn header_len_of(h: Seq<u8>) -> int
    recommends
        h.len() >= 2,
{
    key_off_of(h) + if masked_of(h) {
        4int
    } else {
        0int
    }
}

/// The masking key bytes of a masked header.
pub open spec fn key_of(h: Seq<u8>) -> Seq<u8>
    recommends
        h.len() >= key_off_of(h) + 4,
{
    h.subrange(key_off_of(h), key_off_of(h) + 4)
}

/// A well-formed header buffer holds exactly its announced header bytes.
pub open spec fn wf_header(h: Seq<u8>) -> bool {
    h.len() >= 2 && h.len() == header_len_of(h)
}

/// The 7-bit length marker is at most 127.
pub proof fn lemma_len7_bound(b: u8)
    by (bit_vector)
    ensures
        b & 0x7f <= 127,
{
}

/// Composing the first header byte out of its four flag bits and the opcode
/// nibble gives a byte whose fields read back as composed.
proof fn lemma_byte0_fields(f: bool, r1: bool, r2: bool, r3: bool, c: u8)
    by (bit_vector)
    requires
        c < 16,
    ensures
        ({
            let b = (if f { 0x80u8 } else { 0u8 }) | (if r1 { 0x40u8 } else { 0u8 })
                | (if r2 { 0x20u8 } else { 0u8 }) | (if r3 { 0x10u8 } else { 0u8 }) | c;
            bit_of(b, 0) == f && bit_of(b, 1) == r1 && bit_of(b, 2) == r2 && bit_of(b, 3) == r3
                && (b & 0x0f) == c
        }),
{
}

/// Composing the second header byte out of the mask bit and the 7-bit
/// length marker gives a byte whose fields read back as composed.
proof fn lemma_byte1_fields(m: bool, l: u8)
    by (bit_vector)
    requires
        l < 128,
    ensures
        ({
            let b = (if m { 0x80u8 } else { 0u8 }) | l;
            bit_of(b, 0) == m && (b & 0x7f) == l
        }),
{
}

/// Replacing the opcode nibble keeps the four flag bits.
proof fn lemma_set_nibble(b: u8, c: u8, j: u8)
    by (bit_vector)
    requires
        c < 16,
        j < 8,
    ensures
        (((b >> 4) << 4) | c) & 0x0f == c,
        j < 4 ==> bit_of(((b >> 4) << 4) | c, j) == bit_of(b, j),
{
}

/// Two headers of the same length that agree on the 7-bit length marker,
/// the mask bit and every byte past the first two announce the same payload
/// length and key; well-formedness carries over.
proof fn lemma_tail_equal_fields(h1: Seq<u8>, h2: Seq<u8>)
    requires
        wf_header(h1),
        h1.len() == h2.len(),
        len7_of(h1) == len7_of(h2),
        masked_of(h1) == masked_of(h2),
        forall|i: int| 2 <= i < h1.len() ==> h1[i] == h2[i],
    ensures
        payload_len_of(h1) == payload_len_of(h2),
        masked_of(h1) ==> key_of(h1) == key_of(h2),
        wf_header(h2),
{
    if len7_of(h1) == 126 {
        assert(h1.subrange(2, 4) =~= h2.subrange(2, 4));
    } else if len7_of(h1) > 126 {
        assert(h1.subrange(2, 10) =~= h2.subrange(2, 10));
    }
    if masked_of(h1) {
        assert(key_of(h1) =~= key_of(h2));
    }
}

/// An owned frame header: 2 leading bytes, the optional extended length,
/// and the masking key when the mask bit is set.
#[derive(Debug, Clone)]
pub struct Header(pub Vec<u8>);

impl Header {
    /// A well-formed header holds exactly its announced bytes.
    pub open spec fn wf(&self) -> bool {
        wf_header(self.0@)
    }

    /// The fin bit.
    pub fn fin(&self) -> (r: bool)
        requires
            self.0@.len() >= 2,
        ensures
            r == fin_of(self.0@),
    {
        get_bit(self.0.as_slice(), 0, 0)
    }

    /// The first reserved bit.
    pub fn rsv1(&self) -> (r: bool)
        requires
            self.0@.len() >= 2,
        ensures
            r == rsv1_of(self.0@),
    {
        get_bit(self.0.as_slice(), 0, 1)
    }

    /// The second reserved bit.
    pub fn rsv2(&self) -> (r: bool)
        requires
            self.0@.len() >= 2,
        ensures
            r == rsv2_of(self.0@),
    {
        get_bit(self.0.as_slice(), 0, 2)
    }

    /// The third reserved bit.
    pub fn rsv3(&self) -> (r: bool)
        requires
            self.0@.len() >= 2,
        ensures
            r == rsv3_of(self.0@),
    {
        get_bit(self.0.as_slice(), 0, 3)
    }

    /// The opcode of the frame.
    pub fn opcode(&self) -> (r: OpCode)
        requires
            self.0@.len() >= 2,
        ensures
            r == opcode_of(self.0@),
    {
        let b = self.0[0];
        match parse_opcode(b) {
            Ok(op) => op,
            Err(_) => {
                proof {
                    assert(false);
                }
                OpCode::Continue
            },
        }
    }

    /// The mask bit.
    pub fn masked(&self) -> (r: bool)
        requires
            self.0@.len() >= 2,
        ensures
            r == masked_of(self.0@),
    {
        get_bit(self.0.as_slice(), 1, 0)
    }

    /// The payload length the header announces.
    pub fn payload_len(&self) -> (r: u64)
        requires
            self.wf(),
        ensures
            r as int == payload_len_of(self.0@),
    {
        let len7 = self.0[1] & 0x7f;
        proof {
            lemma_len7_bound(self.0@[1]);
        }
        if len7 < 126 {
            len7 as u64
        } else if len7 == 126 {
            let r: u64 = (self.0[2] as u64) * 0x100 + (self.0[3] as u64);
            assert(r as int == be16v(self.0@.subrange(2, 4)));
            r
        } else {
            let mut acc: u64 = self.0[2] as u64;
            acc = acc * 0x100 + (self.0[3] as u64);
            acc = acc * 0x100 + (self.0[4] as u64);
            acc = acc * 0x100 + (self.0[5] as u64);
            acc = acc * 0x100 + (self.0[6] as u64);
            acc = acc * 0x100 + (self.0[7] as u64);
            acc = acc * 0x100 + (self.0[8] as u64);
            acc = acc * 0x100 + (self.0[9] as u64);
            assert(acc as int == be64v(self.0@.subrange(2, 10)));
            acc
        }
    }

    /// The masking key, when the mask bit is set.
    pub fn masking_key(&self) -> (r: Option<[u8; 4]>)
        requires
            self.wf(),
        ensures
            masked_of(self.0@) ==> (r matches Some(k) && k@ == key_of(self.0@)),
            !masked_of(self.0@) ==> r is None,
    {
        if self.masked() {
            let len7 = self.0[1] & 0x7f;
            proof {
                lemma_len7_bound(self.0@[1]);
            }
            let off: usize = if len7 < 126 {
                2
            } else if len7 == 126 {
                4
            } else {
                10
            };
            let arr = [self.0[off], self.0[off + 1], self.0[off + 2], self.0[off + 3]];
            assert(arr@ =~= key_of(self.0@));
            Some(arr)
        } else {
            None
        }
    }

    /// Offset where the payload would begin and end in a buffer holding
    /// this header followed by its payload.
    pub fn payload_idx(&self) -> (r: (usize, usize))
        requires
            self.wf(),
            header_len_of(self.0@) + payload_len_of(self.0@) <= usize::MAX,
        ensures
            r.0 == header_len_of(self.0@),
            r.1 == header_len_of(self.0@) + payload_len_of(self.0@),
    {
        let hl = self.0.len();
        let pl = self.payload_len();
        (hl, hl + (pl as usize))
    }

    /// Set one of the four flag bits of the first byte; every other header
    /// field is left alone.
    fn set_flag_bit(&mut self, bit_idx: usize, val: bool)
        requires
            old(self).0@.len() >= 2,
            bit_idx < 4,
        ensures
            final(self).0@.len() == old(self).0@.len(),
            forall|j: u8|
                j < 8 ==> bit_of(#[trigger] final(self).0@[0], j) == if j == bit_idx as u8 {
                    val
                } else {
                    bit_of(old(self).0@[0], j)
                },
            opcode_of(final(self).0@) == opcode_of(old(self).0@),
            forall|i: int| 1 <= i < old(self).0@.len() ==> final(self).0@[i] == old(self).0@[i],
            masked_of(final(self).0@) == masked_of(old(self).0@),
            old(self).wf() ==> payload_len_of(final(self).0@) == payload_len_of(old(self).0@),
            old(self).wf() && masked_of(old(self).0@) ==> key_of(final(self).0@) == key_of(
                old(self).0@,
            ),
            old(self).wf() ==> final(self).wf(),
    {
        let ghost h0 = self.0@;
        set_bit(&mut self.0, 0, bit_idx, val);
        proof {
            assert forall|j: u8| j < 8 implies bit_of(#[trigger] self.0@[0], j) == if j
                == bit_idx as u8 {
                val
            } else {
                bit_of(h0[0], j)
            } by {
                lemma_with_bit(h0[0], bit_idx as u8, j, val);
            }
            lemma_with_bit_high_keeps_nibble(h0[0], bit_idx as u8, val);
            if wf_header(h0) {
                lemma_tail_equal_fields(h0, self.0@);
            }
        }
    }

    /// Set the fin bit.
    pub fn set_fin(&mut self, val: bool)
        requires
            old(self).0@.len() >= 2,
        ensures
            final(self).0@.len() == old(self).0@.len(),
            fin_of(final(self).0@) == val,
            rsv1_of(final(self).0@) == rsv1_of(old(self).0@),
            rsv2_of(final(self).0@) == rsv2_of(old(self).0@),
            rsv3_of(final(self).0@) == rsv3_of(old(self).0@),
            opcode_of(final(self).0@) == opcode_of(old(self).0@),
            masked_of(final(self).0@) == masked_of(old(self).0@),
            old(self).wf() ==> payload_len_of(final(self).0@) == payload_len_of(old(self).0@),
            old(self).wf() && masked_of(old(self).0@) ==> key_of(final(self).0@) == key_of(
                old(self).0@,
            ),
            old(self).wf() ==> final(self).wf(),
    {
        self.set_flag_bit(0, val)
    }

    /// Set the first reserved bit.
    pub fn set_rsv1(&mut self, val: bool)
        requires
            old(self).0@.len() >= 2,
        ensures
            final(self).0@.len() == old(self).0@.len(),
            fin_of(final(self).0@) == fin_of(old(self).0@),
            rsv1_of(final(self).0@) == val,
            rsv2_of(final(self).0@) == rsv2_of(old(self).0@),
            rsv3_of(final(self).0@) == rsv3_of(old(self).0@),
            opcode_of(final(self).0@) == opcode_of(old(self).0@),
            masked_of(final(self).0@) == masked_of(old(self).0@),
            old(self).wf() ==> payload_len_of(final(self).0@) == payload_len_of(old(self).0@),
            old(self).wf() && masked_of(old(self).0@) ==> key_of(final(self).0@) == key_of(
                old(self).0@,
            ),
            old(self).wf() ==> final(self).wf(),
    {
        self.set_flag_bit(1, val)
    }

    /// Set the second reserved bit.
    pub fn set_rsv2(&mut self, val: bool)
        requires
            old(self).0@.len() >= 2,
        ensures
            final(self).0@.len() == old(self).0@.len(),
            fin_of(final(self).0@) == fin_of(old(self).0@),
            rsv1_of(final(self).0@) == rsv1_of(old(self).0@),
            rsv2_of(final(self).0@) == val,
            rsv3_of(final(self).0@) == rsv3_of(old(self).0@),
            opcode_of(final(self).0@) == opcode_of(old(self).0@),
            masked_of(final(self).0@) == masked_of(old(self).0@),
            old(self).wf() ==> payload_len_of(final(self).0@) == payload_len_of(old(self).0@),
            old(self).wf() && masked_of(old(self).0@) ==> key_of(final(self).0@) == key_of(
                old(self).0@,
            ),
            old(self).wf() ==> final(self).wf(),
    {
        self.set_flag_bit(2, val)
    }

    /// Set the third reserved bit.
    pub fn set_rsv3(&mut self, val: bool)
        requires
            old(self).0@.len() >= 2,
        ensures
            final(self).0@.len() == old(self).0@.len(),
            fin_of(final(self).0@) == fin_of(old(self).0@),
            rsv1_of(final(self).0@) == rsv1_of(old(self).0@),
            rsv2_of(final(self).0@) == rsv2_of(old(self).0@),
            rsv3_of(final(self).0@) == val,
            opcode_of(final(self).0@) == opcode_of(old(self).0@),
            masked_of(final(self).0@) == masked_of(old(self).0@),
            old(self).wf() ==> payload_len_of(final(self).0@) == payload_len_of(old(self).0@),
            old(self).wf() && masked_of(old(self).0@) ==> key_of(final(self).0@) == key_of(
                old(self).0@,
            ),
            old(self).wf() ==> final(self).wf(),
    {
        self.set_flag_bit(3, val)
    }

    /// Replace the opcode nibble; the flag bits and everything after the
    /// first byte are left alone.
    pub fn set_opcode(&mut self, code: OpCode)
        requires
            old(self).0@.len() >= 2,
        ensures
            final(self).0@.len() == old(self).0@.len(),
            fin_of(final(self).0@) == fin_of(old(self).0@),
            rsv1_of(final(self).0@) == rsv1_of(old(self).0@),
            rsv2_of(final(self).0@) == rsv2_of(old(self).0@),
            rsv3_of(final(self).0@) == rsv3_of(old(self).0@),
            opcode_of(final(self).0@) == code,
            masked_of(final(self).0@) == masked_of(old(self).0@),
            old(self).wf() ==> payload_len_of(final(self).0@) == payload_len_of(old(self).0@),
            old(self).wf() && masked_of(old(self).0@) ==> key_of(final(self).0@) == key_of(
                old(self).0@,
            ),
            old(self).wf() ==> final(self).wf(),
    {
        let ghost h0 = self.0@;
        let b = self.0[0];
        let c = code.as_u8();
        let leading = (b >> 4) << 4;
        self.0[0] = leading | c;
        proof {
            lemma_set_nibble(h0[0], code.spec_u8(), 0);
            lemma_set_nibble(h0[0], code.spec_u8(), 1);
            lemma_set_nibble(h0[0], code.spec_u8(), 2);
            lemma_set_nibble(h0[0], code.spec_u8(), 3);
            if wf_header(h0) {
                lemma_tail_equal_fields(h0, self.0@);
            }
        }
    }

    /// Set or clear the mask bit of the second byte. This changes how long
    /// the header is expected to be, so the caller must append or drop the
    /// key bytes to restore well-formedness.
    pub fn set_mask(&mut self, mask: bool)
        requires
            old(self).0@.len() >= 2,
        ensures
            final(self).0@.len() == old(self).0@.len(),
            final(self).0@[0] == old(self).0@[0],
            forall|i: int| 2 <= i < old(self).0@.len() ==> final(self).0@[i] == old(self).0@[i],
            masked_of(final(self).0@) == mask,
            len7_of(final(self).0@) == len7_of(old(self).0@),
            old(self).wf() ==> payload_len_of(final(self).0@) == payload_len_of(old(self).0@),
    {
        let ghost h0 = self.0@;
        set_bit(&mut self.0, 1, 0, mask);
        proof {
            lemma_with_bit(h0[1], 0, 0, mask);
            lemma_with_bit_keeps_len7(h0[1], mask);
            assert(len7_of(self.0@) == len7_of(h0));
            if wf_header(h0) {
                if len7_of(h0) == 126 {
                    assert(self.0@.subrange(2, 4) =~= h0.subrange(2, 4));
                } else if len7_of(h0) > 126 {
                    assert(self.0@.subrange(2, 10) =~= h0.subrange(2, 10));
                }
            }
        }
    }
}

/// Build the header bytes for the given first byte, masking key and payload
/// length, choosing the smallest length encoding.
fn build_header_bytes(byte0: u8, mask_key: Option<[u8; 4]>, payload_len: u64) -> (r: Vec<u8>)
    ensures
        wf_header(r@),
        r@[0] == byte0,
        masked_of(r@) == mask_key is Some,
        payload_len_of(r@) == payload_len,
        (mask_key matches Some(k) ==> key_of(r@) == k@),
        ext_len_of(r@) == if payload_len <= 125 {
            0int
        } else if payload_len <= 65535 {
            2int
        } else {
            8int
        },
{
    let mut buf: Vec<u8> = Vec::new();
    buf.push(byte0);
    let m8: u8 = if mask_key.is_some() {
        0x80
    } else {
        0
    };
    if payload_len <= 125 {
        let l7 = payload_len as u8;
        buf.push(m8 | l7);
        proof {
            lemma_byte1_fields(mask_key is Some, payload_len as u8);
        }
    } else if payload_len <= 65535 {
        buf.push(m8 | 126);
        proof {
            lemma_byte1_fields(mask_key is Some, 126);
        }
        let hi = (payload_len / 0x100) as u8;
        let lo = (payload_len % 0x100) as u8;
        buf.push(hi);
        buf.push(lo);
        assert(be16v(buf@.subrange(2, 4)) == payload_len);
    } else {
        buf.push(m8 | 127);
        proof {
            lemma_byte1_fields(mask_key is Some, 127);
        }
        let x6 = payload_len / 0x100;
        let x5 = x6 / 0x100;
        let x4 = x5 / 0x100;
        let x3 = x4 / 0x100;
        let x2 = x3 / 0x100;
        let x1 = x2 / 0x100;
        let x0 = x1 / 0x100;
        buf.push((x0 % 0x100) as u8);
        buf.push((x1 % 0x100) as u8);
        buf.push((x2 % 0x100) as u8);
        buf.push((x3 % 0x100) as u8);
        buf.push((x4 % 0x100) as u8);
        buf.push((x5 % 0x100) as u8);
        buf.push((x6 % 0x100) as u8);
        buf.push((payload_len % 0x100) as u8);
        assert(be64v(buf@.subrange(2, 10)) == payload_len);
    }
    let ghost before_key = buf@;
    if let Some(k) = mask_key {
        buf.push(k[0]);
        buf.push(k[1]);
        buf.push(k[2]);
        buf.push(k[3]);
        proof {
            assert(buf@.subrange(0, before_key.len() as int) =~= before_key);
            assert(len7_of(buf@) == len7_of(before_key));
            if len7_of(before_key) == 126 {
                assert(buf@.subrange(2, 4) =~= before_key.subrange(2, 4));
            } else if len7_of(before_key) > 126 {
                assert(buf@.subrange(2, 10) =~= before_key.subrange(2, 10));
            }
            assert(key_of(buf@) =~= mask_key->Some_0@);
        }
    }
    buf
}

impl Header {
    /// Construct a header with the given fields, choosing the smallest
    /// length encoding for the payload length.
    pub fn new(
        fin: bool,
        rsv1: bool,
        rsv2: bool,
        rsv3: bool,
        mask_key: Option<[u8; 4]>,
        opcode: OpCode,
        payload_len: u64,
    ) -> (r: Header)
        ensures
            r.wf(),
            fin_of(r.0@) == fin,
            rsv1_of(r.0@) == rsv1,
            rsv2_of(r.0@) == rsv2,
            rsv3_of(r.0@) == rsv3,
            opcode_of(r.0@) == opcode,
            masked_of(r.0@) == mask_key is Some,
            payload_len_of(r.0@) == payload_len,
            (mask_key matches Some(k) ==> key_of(r.0@) == k@),
            ext_len_of(r.0@) == if payload_len <= 125 {
                0int
            } else if payload_len <= 65535 {
                2int
            } else {
                8int
            },
    {
        let f8: u8 = if fin {
            0x80
        } else {
            0
        };
        let r18: u8 = if rsv1 {
            0x40
        } else {
            0
        };
        let r28: u8 = if rsv2 {
            0x20
        } else {
            0
        };
        let r38: u8 = if rsv3 {
            0x10
        } else {
            0
        };
        let byte0 = f8 | r18 | r28 | r38 | opcode.as_u8();
        proof {
            lemma_byte0_fields(fin, rsv1, rsv2, rsv3, opcode.spec_u8());
        }
        Header(build_header_bytes(byte0, mask_key, payload_len))
    }

    /// Re-encode the payload length, keeping every other field including the
    /// masking key; returns how many bytes past the first now encode the length.
    pub fn set_payload_len(&mut self, len: u64) -> (r: usize)
        requires
            old(self).wf(),
        ensures
            final(self).wf(),
            fin_of(final(self).0@) == fin_of(old(self).0@),
            rsv1_of(final(self).0@) == rsv1_of(old(self).0@),
            rsv2_of(final(self).0@) == rsv2_of(old(self).0@),
            rsv3_of(final(self).0@) == rsv3_of(old(self).0@),
            opcode_of(final(self).0@) == opcode_of(old(self).0@),
            masked_of(final(self).0@) == masked_of(old(self).0@),
            payload_len_of(final(self).0@) == len,
            masked_of(old(self).0@) ==> key_of(final(self).0@) == key_of(old(self).0@),
            r == 1 + ext_len_of(final(self).0@),
    {
        let key = self.masking_key();
        let byte0 = self.0[0];
        let nb = build_header_bytes(byte0, key, len);
        let r: usize = if len <= 125 {
            1
        } else if len <= 65535 {
            3
        } else {
            9
        };
        self.0 = nb;
        r
    }
}

/// The payload bytes as the application sees them: unmasked when the header
/// carries a masking key, the stored bytes otherwise.
pub open spec fn plain_payload(h: Seq<u8>, p: Seq<u8>) -> Seq<u8> {
    if masked_of(h) {
        masked_bytes(p, key_of(h))
    } else {
        p
    }
}

/// The payload of a close frame: the code in two big-endian bytes followed
/// by the reason bytes, or empty when no code is given.
pub open spec fn close_payload(code: Option<u16>, reason: Seq<u8>) -> Seq<u8> {
    match code {
        Some(c) => seq![(c / 0x100) as u8, (c % 0x100) as u8] + reason,
        None => Seq::empty(),
    }
}

/// An owned frame: a well-formed header and the payload bytes as sent on
/// the wire (masked whenever the header says so).
#[derive(Debug, Clone)]
pub struct OwnedFrame {
    /// the frame header
    pub header: Header,
    /// the payload as on the wire
    pub payload: Vec<u8>,
}

impl OwnedFrame {
    /// The header announces exactly the stored payload.
    pub open spec fn wf(&self) -> bool {
        self.header.wf() && self.payload@.len() == payload_len_of(self.header.0@)
    }

    /// The payload as the application sees it.
    pub open spec fn plain(&self) -> Seq<u8> {
        plain_payload(self.header.0@, self.payload@)
    }

    /// Construct a final (fin, no reserved bits) frame holding `data`,
    /// masked with `mask` when one is given.
    pub fn new(code: OpCode, mask: Option<[u8; 4]>, data: &[u8]) -> (r: OwnedFrame)
        ensures
            r.wf(),
            fin_of(r.header.0@),
            !rsv1_of(r.header.0@),
            !rsv2_of(r.header.0@),
            !rsv3_of(r.header.0@),
            opcode_of(r.header.0@) == code,
            masked_of(r.header.0@) == mask is Some,
            (mask matches Some(k) ==> key_of(r.header.0@) == k@),
            r.plain() == data@,
    {
        let header = Header::new(true, false, false, false, mask, code, data.len() as u64);
        let mut payload = vstd::slice::slice_to_vec(data);
        let r = match header.masking_key() {
            Some(k) => {
                apply_mask(&mut payload, k);
                proof {
                    lemma_mask_involutive(data@, k@);
                }
                OwnedFrame { header, payload }
            },
            None => OwnedFrame { header, payload },
        };
        r
    }

    /// Wrap an already-built header and payload without any check.
    pub fn with_raw(header: Header, payload: Vec<u8>) -> (r: OwnedFrame)
        ensures
            r.header == header,
            r.payload == payload,
    {
        OwnedFrame { header, payload }
    }

    /// A final text frame holding the bytes of `data`.
    pub fn text_frame(mask: Option<[u8; 4]>, data: &str) -> (r: OwnedFrame)
        ensures
            r.wf(),
            fin_of(r.header.0@),
            !rsv1_of(r.header.0@),
            opcode_of(r.header.0@) == OpCode::Text,
            masked_of(r.header.0@) == mask is Some,
            r.plain() == data.spec_bytes(),
    {
        Self::new(OpCode::Text, mask, data.as_bytes())
    }

    /// A final binary frame holding `data`.
    pub fn binary_frame(mask: Option<[u8; 4]>, data: &[u8]) -> (r: OwnedFrame)
        ensures
            r.wf(),
            fin_of(r.header.0@),
            !rsv1_of(r.header.0@),
            opcode_of(r.header.0@) == OpCode::Binary,
            masked_of(r.header.0@) == mask is Some,
            r.plain() == data@,
    {
        Self::new(OpCode::Binary, mask, data)
    }

    /// A ping frame; control payloads are limited to 125 bytes.
    pub fn ping_frame(mask: Option<[u8; 4]>, data: &[u8]) -> (r: OwnedFrame)
        requires
            data@.len() <= 125,
        ensures
            r.wf(),
            fin_of(r.header.0@),
            opcode_of(r.header.0@) == OpCode::Ping,
            masked_of(r.header.0@) == mask is Some,
            r.plain() == data@,
    {
        Self::new(OpCode::Ping, mask, data)
    }

    /// A pong frame; control payloads are limited to 125 bytes.
    pub fn pong_frame(mask: Option<[u8; 4]>, data: &[u8]) -> (r: OwnedFrame)
        requires
            data@.len() <= 125,
        ensures
            r.wf(),
            fin_of(r.header.0@),
            opcode_of(r.header.0@) == OpCode::Pong,
            masked_of(r.header.0@) == mask is Some,
            r.plain() == data@,
    {
        Self::new(OpCode::Pong, mask, data)
    }

    /// A close frame carrying `code` and the reason bytes; a reason is only
    /// allowed together with a code, and both must fit a control payload.
    pub fn close_frame(mask: Option<[u8; 4]>, code: Option<u16>, data: &[u8]) -> (r: OwnedFrame)
        requires
            data@.len() <= 123,
            code is Some || data@.len() == 0,
        ensures
            r.wf(),
            fin_of(r.header.0@),
            opcode_of(r.header.0@) == OpCode::Close,
            masked_of(r.header.0@) == mask is Some,
            r.plain() == close_payload(code, data@),
    {
        let mut payload: Vec<u8> = Vec::new();
        if let Some(c) = code {
            payload.push((c / 0x100) as u8);
            payload.push((c % 0x100) as u8);
            let mut rest = vstd::slice::slice_to_vec(data);
            payload.append(&mut rest);
        }
        assert(payload@ =~= close_payload(code, data@));
        Self::new(OpCode::Close, mask, payload.as_slice())
    }

    /// Remove the masking: unmask the payload, clear the mask bit and drop
    /// the key bytes; returns the key that was in use, if any.
    pub fn unmask(&mut self) -> (r: Option<[u8; 4]>)
        requires
            old(self).wf(),
        ensures
            final(self).wf(),
            !masked_of(final(self).header.0@),
            final(self).payload@ == old(self).plain(),
            final(self).plain() == old(self).plain(),
            fin_of(final(self).header.0@) == fin_of(old(self).header.0@),
            rsv1_of(final(self).header.0@) == rsv1_of(old(self).header.0@),
            rsv2_of(final(self).header.0@) == rsv2_of(old(self).header.0@),
            rsv3_of(final(self).header.0@) == rsv3_of(old(self).header.0@),
            opcode_of(final(self).header.0@) == opcode_of(old(self).header.0@),
            payload_len_of(final(self).header.0@) == payload_len_of(old(self).header.0@),
            len7_of(final(self).header.0@) == len7_of(old(self).header.0@),
            final(self).header.0@.len() == old(self).header.0@.len() - if masked_of(
                old(self).header.0@,
            ) {
                4int
            } else {
                0int
            },
            masked_of(old(self).header.0@) ==> (r matches Some(k) && k@ == key_of(
                old(self).header.0@,
            )),
            !masked_of(old(self).header.0@) ==> r is None,
    {
        let ghost h0 = self.header.0@;
        match self.header.masking_key() {
            Some(k) => {
                apply_mask_fast32(&mut self.payload, k);
                self.header.set_mask(false);
                let ghost h1 = self.header.0@;
                let hl = self.header.0.len();
                self.header.0.truncate(hl - 4);
                proof {
                    let h2 = self.header.0@;
                    assert(h2 =~= h1.subrange(0, h1.len() - 4));
                    assert(len7_of(h2) == len7_of(h0));
                    if len7_of(h0) == 126 {
                        assert(h2.subrange(2, 4) =~= h0.subrange(2, 4));
                    } else if len7_of(h0) > 126 {
                        assert(h2.subrange(2, 10) =~= h0.subrange(2, 10));
                    }
                }
                Some(k)
            },
            None => None,
        }
    }

    /// Mask the frame with the given key, replacing any mask in place.
    pub fn mask(&mut self, mask: [u8; 4])
        requires
            old(self).wf(),
        ensures
            final(self).wf(),
            masked_of(final(self).header.0@),
            key_of(final(self).header.0@) == mask@,
            final(self).plain() == old(self).plain(),
            fin_of(final(self).header.0@) == fin_of(old(self).header.0@),
            rsv1_of(final(self).header.0@) == rsv1_of(old(self).header.0@),
            rsv2_of(final(self).header.0@) == rsv2_of(old(self).header.0@),
            rsv3_of(final(self).header.0@) == rsv3_of(old(self).header.0@),
            opcode_of(final(self).header.0@) == opcode_of(old(self).header.0@),
            payload_len_of(final(self).header.0@) == payload_len_of(old(self).header.0@),
            len7_of(final(self).header.0@) == len7_of(old(self).header.0@),
            final(self).header.0@.len() == old(self).header.0@.len() + if masked_of(
                old(self).header.0@,
            ) {
                0int
            } else {
                4int
            },
    {
        self.unmask();
        let ghost h0 = self.header.0@;
        let ghost p0 = self.payload@;
        self.header.set_mask(true);
        self.header.0.push(mask[0]);
        self.header.0.push(mask[1]);
        self.header.0.push(mask[2]);
        self.header.0.push(mask[3]);
        apply_mask_fast32(&mut self.payload, mask);
        proof {
            let h2 = self.header.0@;
            assert(len7_of(h2) == len7_of(h0));
            if len7_of(h0) == 126 {
                assert(h2.subrange(2, 4) =~= h0.subrange(2, 4));
            } else if len7_of(h0) > 126 {
                assert(h2.subrange(2, 10) =~= h0.subrange(2, 10));
            }
            assert(key_of(h2) =~= mask@);
            lemma_mask_involutive(p0, mask@);
        }
    }

    /// Append bytes to the application payload, re-encoding the length and
    /// keeping the masking (if any) intact.
    pub fn extend_from_slice(&mut self, data: &[u8])
        requires
            old(self).wf(),
            old(self).payload@.len() + data@.len() <= usize::MAX,
        ensures
            final(self).wf(),
            final(self).plain() == old(self).plain() + data@,
            fin_of(final(self).header.0@) == fin_of(old(self).header.0@),
            rsv1_of(final(self).header.0@) == rsv1_of(old(self).header.0@),
            rsv2_of(final(self).header.0@) == rsv2_of(old(self).header.0@),
            rsv3_of(final(self).header.0@) == rsv3_of(old(self).header.0@),
            opcode_of(final(self).header.0@) == opcode_of(old(self).header.0@),
            masked_of(final(self).header.0@) == masked_of(old(self).header.0@),
            masked_of(old(self).header.0@) ==> key_of(final(self).header.0@) == key_of(
                old(self).header.0@,
            ),
    {
        let prev_mask = self.unmask();
        self.payload.extend_from_slice(data);
        let n = self.payload.len();
        self.header.set_payload_len(n as u64);
        if let Some(k) = prev_mask {
            self.mask(k);
        }
    }

    /// The frame header.
    pub fn header(&self) -> (r: &Header)
        ensures
            r == self.header,
    {
        &self.header
    }

    /// Mutable access to the frame header; the caller is responsible for
    /// keeping the header consistent with the stored payload.
    pub fn header_mut(&mut self) -> (r: &mut Header)
        ensures
            *r == old(self).header,
            final(self).header == *final(r),
            final(self).payload == old(self).payload,
    {
        &mut self.header
    }

    /// The payload as stored (masked when the header says so).
    pub fn payload(&self) -> (r: &Vec<u8>)
        ensures
            r == self.payload,
    {
        &self.payload
    }

    /// Unmask and split the frame into its header and plain payload.
    pub fn parts(self) -> (r: (Header, Vec<u8>))
        requires
            self.wf(),
        ensures
            r.0.wf(),
            !masked_of(r.0.0@),
            r.1@ == self.plain(),
            fin_of(r.0.0@) == fin_of(self.header.0@),
            rsv1_of(r.0.0@) == rsv1_of(self.header.0@),
            opcode_of(r.0.0@) == opcode_of(self.header.0@),
            payload_len_of(r.0.0@) == payload_len_of(self.header.0@),
    {
        let mut f = self;
        f.unmask();
        (f.header, f.payload)
    }
}

} // verus!
