use vstd::prelude::*;
use vstd::utf8::{valid_utf8, decode_utf8, encode_utf8};
use crate::protocol::{Position, position_word};

verus! {

/// Why a decode failed. Decode failures are fatal for the connection that
/// produced the bytes; they never affect other connections.
#[derive(Clone, Copy, PartialEq, Eq, Debug, Structural)]
pub enum DecodeError {
    /// The buffer ended before the field did.
    UnexpectedEnd,
    /// A variable-length integer ran past its allowed number of groups.
    VarnumTooLong,
    /// A string carried a negative byte count.
    NegativeLength,
    /// A string's bytes were not valid UTF-8.
    InvalidUtf8,
    /// A login-start packet did not carry the mandatory identifier.
    MissingUuid,
    /// A handshake asked for a state other than status or login.
    InvalidNextState,
}

// ---------------------------------------------------------------------------
// Spec-level encodings
// ---------------------------------------------------------------------------

/// 256^n.
pub open spec fn pow256(n: nat) -> nat
    decreases n,
{
    if n == 0 {
        1
    } else {
        256 * pow256((n - 1) as nat)
    }
}

/// 128^n.
pub open spec fn pow128(n: nat) -> nat
    decreases n,
{
    if n == 0 {
        1
    } else {
        128 * pow128((n - 1) as nat)
    }
}

/// The `n` low-order bytes of `v`, big-endian.
pub open spec fn be_bytes(v: nat, n: nat) -> Seq<u8>
    decreases n,
{
    if n == 0 {
        seq![]
    } else {
        be_bytes(v / 256, (n - 1) as nat) + seq![(v % 256) as u8]
    }
}

/// The value of a big-endian byte string.
pub open spec fn be_val(s: Seq<u8>) -> nat
    decreases s.len(),
{
    if s.len() == 0 {
        0
    } else {
        (be_val(s.drop_last()) * 256 + s.last()) as nat
    }
}

/// The canonical variable-length encoding of `v`: 7-bit groups, least
/// significant first, each non-final group marked with the high bit.
pub open spec fn varnum_bytes(v: nat) -> Seq<u8>
    decreases v,
{
    if v < 128 {
        seq![v as u8]
    } else {
        seq![(v % 128 + 128) as u8] + varnum_bytes(v / 128)
    }
}

/// A single encoded boolean.
pub open spec fn bool_byte(b: bool) -> u8 {
    if b {
        1
    } else {
        0
    }
}

/// A length-prefixed string: the UTF-8 byte count as a varint, then the
/// UTF-8 bytes themselves.
pub open spec fn str_bytes(s: Seq<char>) -> Seq<u8> {
    varnum_bytes(encode_utf8(s).len()) + encode_utf8(s)
}

/// A framed packet: total length as a varint, then the packet ID as a
/// varint, then the payload.
pub open spec fn frame_bytes(id: i32, payload: Seq<u8>) -> Seq<u8> {
    varnum_bytes((varnum_bytes((id as u32) as nat).len() + payload.len()) as nat) + varnum_bytes(
        (id as u32) as nat) + payload
}

// ---------------------------------------------------------------------------
// Spec-level decoding
// ---------------------------------------------------------------------------

/// The value and byte count of the variable-length integer starting at
/// `i`, if one terminates within `max` groups.
pub open spec fn varnum_at(s: Seq<u8>, i: int, max: nat) -> Option<(nat, nat)>
    decreases max,
{
    if max == 0 || i < 0 || i >= s.len() {
        None
    } else if s[i] < 128 {
        Some((s[i] as nat, 1))
    } else {
        match varnum_at(s, i + 1, (max - 1) as nat) {
            None => None,
            Some((v, n)) => Some(((s[i] - 128) as nat + 128 * v, (n + 1) as nat)),
        }
    }
}

/// True when `max` continuation-marked bytes sit at `i`: the encoding runs
/// past its allowed group count.
pub open spec fn varnum_overlong(s: Seq<u8>, i: int, max: nat) -> bool
    decreases max,
{
    if max == 0 {
        true
    } else {
        0 <= i < s.len() && s[i] >= 128 && varnum_overlong(s, i + 1, (max - 1) as nat)
    }
}

/// The 32-bit result a decoded varint yields: the group sum truncated to
/// 32 bits and reinterpreted as signed.
pub open spec fn varint_final(v: nat) -> i32 {
    ((v % 0x1_0000_0000) as u32) as i32
}

/// The 64-bit result a decoded varlong yields.
pub open spec fn varlong_final(v: nat) -> i64 {
    ((v % 0x1_0000_0000_0000_0000) as u64) as i64
}

/// The varint starting at `i`, as the decoder returns it: the value and
/// the index one past it, or the exact error.
pub open spec fn varint_at(s: Seq<u8>, i: int) -> Result<(i32, int), DecodeError> {
    match varnum_at(s, i, 5) {
        Some((v, n)) => Ok((varint_final(v), i + n)),
        None => if varnum_overlong(s, i, 5) {
            Err(DecodeError::VarnumTooLong)
        } else {
            Err(DecodeError::UnexpectedEnd)
        },
    }
}

/// The varlong starting at `i`.
pub open spec fn varlong_at(s: Seq<u8>, i: int) -> Result<(i64, int), DecodeError> {
    match varnum_at(s, i, 10) {
        Some((v, n)) => Ok((varlong_final(v), i + n)),
        None => if varnum_overlong(s, i, 10) {
            Err(DecodeError::VarnumTooLong)
        } else {
            Err(DecodeError::UnexpectedEnd)
        },
    }
}

/// The `n`-byte big-endian integer starting at `i`.
pub open spec fn be_at(s: Seq<u8>, i: int, n: nat) -> Result<(nat, int), DecodeError> {
    if 0 <= i && i + n <= s.len() {
        Ok((be_val(s.subrange(i, i + n)), i + n))
    } else {
        Err(DecodeError::UnexpectedEnd)
    }
}

/// The length-prefixed string starting at `i`: its characters and the
/// index one past it, or the exact error.
pub open spec fn string_at(s: Seq<u8>, i: int) -> Result<(Seq<char>, int), DecodeError> {
    match varint_at(s, i) {
        Err(e) => Err(e),
        Ok((len, j)) => if len < 0 {
            Err(DecodeError::NegativeLength)
        } else if j + len > s.len() {
            Err(DecodeError::UnexpectedEnd)
        } else {
            let bytes = s.subrange(j, j + len);
            if valid_utf8(bytes) {
                Ok((decode_utf8(bytes), j + len))
            } else {
                Err(DecodeError::InvalidUtf8)
            }
        },
    }
}

// ---------------------------------------------------------------------------
// Arithmetic support
// ---------------------------------------------------------------------------

/// A big-endian byte string of length `n` holds a value below 256^n.
pub proof fn lemma_be_val_bound(s: Seq<u8>)
    ensures
        be_val(s) < pow256(s.len()),
    decreases s.len(),
{
    if s.len() == 0 {
    } else {
        lemma_be_val_bound(s.drop_last());
        assert(be_val(s.drop_last()) * 256 <= (pow256((s.len() - 1) as nat) - 1) * 256)
            by (nonlinear_arith)
            requires
                be_val(s.drop_last()) <= pow256((s.len() - 1) as nat) - 1,
        ;
    }
}

/// `be_bytes` emits exactly `n` bytes.
pub proof fn lemma_be_bytes_len(v: nat, n: nat)
    ensures
        be_bytes(v, n).len() == n,
    decreases n,
{
    if n > 0 {
        lemma_be_bytes_len(v / 256, (n - 1) as nat);
    }
}

/// Reading back the `n` bytes of a value below 256^n yields the value.
pub proof fn lemma_be_round_trip(v: nat, n: nat)
    requires
        v < pow256(n),
    ensures
        be_val(be_bytes(v, n)) == v,
    decreases n,
{
    if n == 0 {
    } else {
        let s = be_bytes(v, n);
        lemma_be_bytes_len(v / 256, (n - 1) as nat);
        assert(s.drop_last() =~= be_bytes(v / 256, (n - 1) as nat));
        assert(v / 256 < pow256((n - 1) as nat)) by (nonlinear_arith)
            requires
                v < 256 * pow256((n - 1) as nat),
        ;
        lemma_be_round_trip(v / 256, (n - 1) as nat);
    }
}

/// The canonical varnum encoding of a value below 128^k takes at most `k`
/// bytes (k at least 1).
pub proof fn lemma_varnum_bytes_len(v: nat, k: nat)
    requires
        k >= 1,
        v < pow128(k),
    ensures
        1 <= varnum_bytes(v).len() <= k,
    decreases k,
{
    if v < 128 {
    } else {
        assert(v / 128 < pow128((k - 1) as nat)) by (nonlinear_arith)
            requires
                v < 128 * pow128((k - 1) as nat),
                v >= 128,
        ;
        lemma_varnum_bytes_len(v / 128, (k - 1) as nat);
    }
}

/// Decoding the canonical encoding of `v` (with anything after it) yields
/// `v` and its length, provided `v` fits in `max` groups.
pub proof fn lemma_varnum_round_trip(v: nat, max: nat, rest: Seq<u8>)
    requires
        max >= 1,
        v < pow128(max),
    ensures
        varnum_at(varnum_bytes(v) + rest, 0, max) == Some((v, varnum_bytes(v).len())),
    decreases max,
{
    let s = varnum_bytes(v) + rest;
    if v < 128 {
        assert(s[0] == v as u8);
    } else {
        assert(v / 128 < pow128((max - 1) as nat)) by (nonlinear_arith)
            requires
                v < 128 * pow128((max - 1) as nat),
                v >= 128,
        ;
        lemma_varnum_round_trip(v / 128, (max - 1) as nat, rest);
        assert(s.subrange(1, s.len() as int) =~= varnum_bytes(v / 128) + rest);
        lemma_varnum_tail(s, 0, max);
        assert(s[0] == (v % 128 + 128) as u8);
        let inner = varnum_at(s, 1, (max - 1) as nat);
        lemma_varnum_at_shift(varnum_bytes(v / 128) + rest, s, 1, (max - 1) as nat);
        assert(inner == Some((v / 128, varnum_bytes(v / 128).len())));
        assert((s[0] - 128) as nat + 128 * (v / 128) == v);
        lemma_varnum_bytes_len(v / 128, (max - 1) as nat);
    }
}

/// `varnum_at` at position `i + 1` sees what `varnum_at` at position 0 of
/// the shifted sequence sees.
proof fn lemma_varnum_at_shift(t: Seq<u8>, s: Seq<u8>, i: int, max: nat)
    requires
        0 <= i <= s.len(),
        t =~= s.subrange(i, s.len() as int),
    ensures
        varnum_at(s, i, max) == varnum_at(t, 0, max),
    decreases max,
{
    if max == 0 || i >= s.len() {
    } else {
        assert(s[i] == t[0]);
        if s[i] >= 128 {
            lemma_varnum_at_shift(t.subrange(1, t.len() as int), s, i + 1, (max - 1) as nat);
            lemma_varnum_at_shift(t.subrange(1, t.len() as int), t, 1, (max - 1) as nat);
        }
    }
}

/// Helper: unfolding `varnum_at` one group at a time.
proof fn lemma_varnum_tail(s: Seq<u8>, i: int, max: nat)
    requires
        max >= 1,
        0 <= i < s.len(),
        s[i] >= 128,
    ensures
        varnum_at(s, i, max) == match varnum_at(s, i + 1, (max - 1) as nat) {
            None => None::<(nat, nat)>,
            Some((v, n)) => Some((((s[i] - 128) as nat + 128 * v) as nat, (n + 1) as nat)),
        },
{
}

/// A varnum value that terminates within `max` groups stays below 128^max.
pub proof fn lemma_varnum_at_bound(s: Seq<u8>, i: int, max: nat)
    ensures
        match varnum_at(s, i, max) {
            Some((v, n)) => v < pow128(max) && 1 <= n <= max && i + n <= s.len(),
            None => true,
        },
    decreases max,
{
    if max == 0 || i < 0 || i >= s.len() {
    } else if s[i] < 128 {
        lemma_pow128_pos((max - 1) as nat);
        assert(pow128(max) >= 128 * 1) by (nonlinear_arith)
            requires
                max >= 1,
                pow128((max - 1) as nat) >= 1,
                pow128(max) == 128 * pow128((max - 1) as nat),
        ;
    } else {
        lemma_varnum_at_bound(s, i + 1, (max - 1) as nat);
        if let Some((v, n)) = varnum_at(s, i + 1, (max - 1) as nat) {
            let si = s[i];
            assert((si - 128) as nat + 128 * v < 128 * pow128((max - 1) as nat))
                by (nonlinear_arith)
                requires
                    v < pow128((max - 1) as nat),
                    128 <= si < 256,
            ;
        }
    }
}

/// 128^n is positive.
pub proof fn lemma_pow128_pos(n: nat)
    ensures
        pow128(n) >= 1,
    decreases n,
{
    if n > 0 {
        lemma_pow128_pos((n - 1) as nat);
    }
}

/// 256^n is positive.
pub proof fn lemma_pow256_pos(n: nat)
    ensures
        pow256(n) >= 1,
    decreases n,
{
    if n > 0 {
        lemma_pow256_pos((n - 1) as nat);
    }
}

// ---------------------------------------------------------------------------
// Encoder
// ---------------------------------------------------------------------------

/// An in-memory packet payload under construction. Every write appends the
/// spec-level encoding of its argument.
pub struct PacketEncoder {
    data: Vec<u8>,
}

impl View for PacketEncoder {
    type V = Seq<u8>;

    closed spec fn view(&self) -> Seq<u8> {
        self.data@
    }
}

impl PacketEncoder {
    /// An empty payload.
    pub fn new() -> (r: PacketEncoder)
        ensures
            r@ =~= Seq::<u8>::empty(),
    {
        PacketEncoder { data: Vec::new() }
    }

    /// Surrenders the accumulated bytes.
    pub fn to_data(self) -> (r: Vec<u8>)
        ensures
            r@ == self@,
    {
        self.data
    }

    /// Appends raw bytes unchanged.
    pub fn write_bytes(&mut self, data: &[u8])
        ensures
            final(self)@ == old(self)@ + data@,
    {
        self.data.extend_from_slice(data);
        assert(self@ =~= old(self)@ + data@);
    }

    /// Appends one boolean byte.
    pub fn write_bool(&mut self, data: bool)
        ensures
            final(self)@ == old(self)@ + seq![bool_byte(data)],
    {
        self.data.push(if data {
            1
        } else {
            0
        });
        assert(self@ =~= old(self)@ + seq![bool_byte(data)]);
    }

    /// Appends one signed byte.
    pub fn write_byte(&mut self, data: i8)
        ensures
            final(self)@ == old(self)@ + seq![data as u8],
    {
        self.data.push(data as u8);
        assert(self@ =~= old(self)@ + seq![data as u8]);
    }

    /// Appends one unsigned byte.
    pub fn write_ubyte(&mut self, data: u8)
        ensures
            final(self)@ == old(self)@ + seq![data],
    {
        self.data.push(data);
        assert(self@ =~= old(self)@ + seq![data]);
    }

    /// Appends the `n` low bytes of `v`, big-endian.
    fn write_be(&mut self, v: u128, n: usize)
        ensures
            final(self)@ == old(self)@ + be_bytes(v as nat, n as nat),
        decreases n,
    {
        if n == 0 {
            assert(self@ =~= old(self)@ + be_bytes(v as nat, 0));
        } else {
            self.write_be(v / 256, n - 1);
            self.data.push((v % 256) as u8);
            assert(self@ =~= old(self)@ + be_bytes(v as nat, n as nat));
        }
    }

    /// Appends a 16-bit signed integer, big-endian.
    pub fn write_short(&mut self, data: i16)
        ensures
            final(self)@ == old(self)@ + be_bytes((data as u16) as nat, 2),
    {
        self.write_be((data as u16) as u128, 2);
    }

    /// Appends a 16-bit unsigned integer, big-endian.
    pub fn write_ushort(&mut self, data: u16)
        ensures
            final(self)@ == old(self)@ + be_bytes(data as nat, 2),
    {
        self.write_be(data as u128, 2);
    }

    /// Appends a 32-bit signed integer, big-endian.
    pub fn write_int(&mut self, data: i32)
        ensures
            final(self)@ == old(self)@ + be_bytes((data as u32) as nat, 4),
    {
        self.write_be((data as u32) as u128, 4);
    }

    /// Appends a 64-bit signed integer, big-endian.
    pub fn write_long(&mut self, data: i64)
        ensures
            final(self)@ == old(self)@ + be_bytes((data as u64) as nat, 8),
    {
        self.write_be((data as u64) as u128, 8);
    }

    /// Appends a 128-bit identifier, big-endian.
    pub fn write_uuid(&mut self, data: u128)
        ensures
            final(self)@ == old(self)@ + be_bytes(data as nat, 16),
    {
        self.write_be(data, 16);
    }

    /// Appends the variable-length groups of `val`.
    fn write_varnum(&mut self, val: u64)
        ensures
            final(self)@ == old(self)@ + varnum_bytes(val as nat),
        decreases val,
    {
        if val < 128 {
            self.data.push(val as u8);
            assert(self@ =~= old(self)@ + varnum_bytes(val as nat));
        } else {
            self.data.push((val % 128 + 128) as u8);
            self.write_varnum(val / 128);
            assert(self@ =~= old(self)@ + varnum_bytes(val as nat));
        }
    }

    /// Appends a 32-bit integer in variable-length form; negative values
    /// take the full five groups.
    pub fn write_varint(&mut self, data: i32)
        ensures
            final(self)@ == old(self)@ + varnum_bytes((data as u32) as nat),
    {
        self.write_varnum((data as u32) as u64);
    }

    /// Appends a 64-bit integer in variable-length form.
    pub fn write_varlong(&mut self, data: i64)
        ensures
            final(self)@ == old(self)@ + varnum_bytes((data as u64) as nat),
    {
        self.write_varnum(data as u64);
    }

    /// Appends a packed block position.
    pub fn write_position(&mut self, position: Position)
        ensures
            final(self)@ == old(self)@ + be_bytes(position_word(position) as nat, 8),
    {
        let w: u64 = (((position.x as u64) & 0x3ffffff) << 38) | (((position.z as u64)
            & 0x3ffffff) << 12) | ((position.y as u64) & 0xfff);
        self.write_be(w as u128, 8);
    }

    /// Appends a length-prefixed string. The byte length must respect the
    /// field's declared character limit; larger values are refused by the
    /// caller before encoding.
    pub fn write_string(&mut self, max_len: usize, val: &str)
        requires
            encode_utf8(val@).len() <= 4 * max_len + 3,
            4 * max_len + 3 < 0x8000_0000,
        ensures
            final(self)@ == old(self)@ + str_bytes(val@),
    {
        let bytes = val.as_bytes();
        let len = bytes.len();
        self.write_varint(len as i32);
        self.write_bytes(bytes);
        assert(self@ =~= old(self)@ + str_bytes(val@));
    }
}

// ---------------------------------------------------------------------------
// Framing
// ---------------------------------------------------------------------------

/// The canonical variable-length encoding of a 32-bit integer.
pub fn encode_varint(data: i32) -> (r: Vec<u8>)
    ensures
        r@ == varnum_bytes((data as u32) as nat),
{
    let mut enc = PacketEncoder::new();
    enc.write_varint(data);
    let r = enc.to_data();
    assert(r@ =~= varnum_bytes((data as u32) as nat));
    r
}

/// Wraps a finished payload into a frame: total length, packet ID, payload.
pub fn finalize_packet(packet: Vec<u8>, packet_id: i32) -> (r: Vec<u8>)
    requires
        packet@.len() + 5 < 0x8000_0000,
    ensures
        r@ == frame_bytes(packet_id, packet@),
{
    let ghost orig = packet@;
    let mut data = packet;
    let mut id = encode_varint(packet_id);
    proof {
        lemma_pow128_concrete();
        lemma_varnum_bytes_len((packet_id as u32) as nat, 5);
    }
    let total_len = id.len() + data.len();
    let mut result = encode_varint(total_len as i32);
    result.append(&mut id);
    result.append(&mut data);
    assert(result@ =~= frame_bytes(packet_id, orig)) by {
        assert(((total_len as i32) as u32) as nat == varnum_bytes((packet_id as u32) as nat).len()
            + orig.len());
    }
    result
}

/// Concrete powers the codec's bounds rest on.
pub proof fn lemma_pow128_concrete()
    ensures
        pow128(5) == 0x8_0000_0000,
        pow128(9) == 0x8000_0000_0000_0000,
        pow128(10) == 0x40_0000_0000_0000_0000,
{
    reveal_with_fuel(pow128, 11);
}

/// Reads one variable-length integer out of a raw buffer: at most `max`
/// groups, starting at `i`. On success the returned index sits one past
/// the integer.
fn read_varnum_slice(data: &[u8], i: usize, max: u32) -> (r: Result<(u128, usize), DecodeError>)
    requires
        max <= 10,
    ensures
        match varnum_at(data@, i as int, max as nat) {
            Some((v, n)) => r matches Ok((rv, rn)) && rv as nat == v && rn == i + n,
            None => r matches Err(e) && e == (if varnum_overlong(data@, i as int, max as nat) {
                DecodeError::VarnumTooLong
            } else {
                DecodeError::UnexpectedEnd
            }),
        },
    decreases max,
{
    if max == 0 {
        return Err(DecodeError::VarnumTooLong);
    }
    if i >= data.len() {
        return Err(DecodeError::UnexpectedEnd);
    }
    let b = *vstd::slice::slice_index_get(data, i);
    if b < 128 {
        return Ok((b as u128, i + 1));
    }
    match read_varnum_slice(data, i + 1, max - 1) {
        Ok((v, n)) => {
            proof {
                lemma_varnum_at_bound(data@, i + 1 as int, (max - 1) as nat);
                lemma_pow128_concrete();
                lemma_pow128_mono((max - 1) as nat, 9);
            }
            Ok(((b - 128) as u128 + 128 * v, n))
        },
        Err(e) => Err(e),
    }
}

/// Reads the variable-length integer at the front of a raw buffer,
/// returning the value and the number of bytes it spanned.
pub fn read_varint(data: &[u8]) -> (r: Result<(i32, usize), DecodeError>)
    ensures
        match varint_at(data@, 0) {
            Ok((v, j)) => r matches Ok((rv, rn)) && rv == v && rn == j,
            Err(e) => r matches Err(re) && re == e,
        },
{
    match read_varnum_slice(data, 0, 5) {
        Ok((v, n)) => Ok((((v % 0x1_0000_0000) as u32) as i32, n)),
        Err(e) => Err(e),
    }
}

// ---------------------------------------------------------------------------
// Decoder
// ---------------------------------------------------------------------------

/// Relies on `String::from_utf8`: it succeeds exactly on valid UTF-8 input
/// and yields the character sequence that input encodes.
#[verifier::external_body]
fn string_from_utf8(bytes: Vec<u8>) -> (r: Option<String>)
    ensures
        match r {
            Some(s) => valid_utf8(bytes@) && s@ == decode_utf8(bytes@),
            None => !valid_utf8(bytes@),
        },
{
    String::from_utf8(bytes).ok()
}

/// One inbound frame under examination: the frame's bytes, a cursor, and
/// the packet ID already read off the front. The framing layer hands it
/// exactly the declared byte count; every read reports precisely whether
/// the remaining bytes carry the requested field.
pub struct PacketDecoder {
    data: Vec<u8>,
    idx: usize,
    packet_id: i32,
}

impl PacketDecoder {
    /// The frame's bytes.
    pub closed spec fn buf(self) -> Seq<u8> {
        self.data@
    }

    /// The cursor: the next byte to be read.
    pub closed spec fn pos(self) -> int {
        self.idx as int
    }

    /// The packet ID read off the front of the frame.
    pub closed spec fn id_spec(self) -> i32 {
        self.packet_id
    }

    /// The cursor never sits past the end of the frame.
    pub closed spec fn wf(self) -> bool {
        self.idx <= self.data@.len()
    }

    /// The cursor's bounds, exported for callers that hold only `wf`:
    /// it always sits inside the frame, so the lower bound of every
    /// field-at-position spec is dischargeable.
    pub proof fn lemma_pos_bounds(&self)
        requires
            self.wf(),
        ensures
            0 <= self.pos() <= self.buf().len(),
    {
    }

    /// Takes one frame's bytes and reads the packet ID varint off the
    /// front.
    pub fn decode(data: Vec<u8>) -> (r: Result<PacketDecoder, DecodeError>)
        ensures
            match varint_at(data@, 0) {
                Ok((id, j)) => r matches Ok(d) && d.buf() == data@ && d.pos() == j && d.id_spec()
                    == id && d.wf(),
                Err(e) => r matches Err(re) && re == e,
            },
    {
        proof {
            lemma_varnum_at_bound(data@, 0, 5);
        }
        match read_varint(data.as_slice()) {
            Ok((id, n)) => Ok(PacketDecoder { data, idx: n, packet_id: id }),
            Err(e) => Err(e),
        }
    }

    pub fn packet_id(&self) -> (r: i32)
        ensures
            r == self.id_spec(),
    {
        self.packet_id
    }

    /// Takes the next `n` bytes unchanged.
    pub fn read_bytes(&mut self, n: usize) -> (r: Result<Vec<u8>, DecodeError>)
        requires
            old(self).wf(),
        ensures
            final(self).buf() == old(self).buf(),
            final(self).id_spec() == old(self).id_spec(),
            final(self).wf(),
            if old(self).pos() + n <= old(self).buf().len() {
                r matches Ok(v) && v@ == old(self).buf().subrange(
                    old(self).pos(),
                    old(self).pos() + n,
                ) && final(self).pos() == old(self).pos() + n
            } else {
                r matches Err(e) && e == DecodeError::UnexpectedEnd && final(self).pos() == old(self).pos()
            },
    {
        if n > self.data.len() - self.idx {
            return Err(DecodeError::UnexpectedEnd);
        }
        let s = vstd::slice::slice_subrange(self.data.as_slice(), self.idx, self.idx + n);
        let v = vstd::slice::slice_to_vec(s);
        self.idx = self.idx + n;
        Ok(v)
    }

    /// Takes every byte left in the frame.
    pub fn read_to_end(&mut self) -> (r: Vec<u8>)
        requires
            old(self).wf(),
        ensures
            final(self).buf() == old(self).buf(),
            final(self).id_spec() == old(self).id_spec(),
            final(self).wf(),
            r@ == old(self).buf().subrange(old(self).pos(), old(self).buf().len() as int),
            final(self).pos() == old(self).buf().len(),
    {
        let n = self.data.len() - self.idx;
        match self.read_bytes(n) {
            Ok(v) => v,
            Err(_) => Vec::new(),
        }
    }

    /// Reads one boolean byte; anything non-zero counts as true.
    pub fn read_bool(&mut self) -> (r: Result<bool, DecodeError>)
        requires
            old(self).wf(),
        ensures
            final(self).buf() == old(self).buf(),
            final(self).id_spec() == old(self).id_spec(),
            final(self).wf(),
            if old(self).pos() < old(self).buf().len() {
                r matches Ok(b) && b == (old(self).buf()[old(self).pos()] != 0) && final(self).pos() == old(self).pos() + 1
            } else {
                r matches Err(e) && e == DecodeError::UnexpectedEnd && final(self).pos() == old(self).pos()
            },
    {
        match self.read_ubyte() {
            Ok(b) => Ok(b != 0),
            Err(e) => Err(e),
        }
    }

    /// Reads one signed byte.
    pub fn read_byte(&mut self) -> (r: Result<i8, DecodeError>)
        requires
            old(self).wf(),
        ensures
            final(self).buf() == old(self).buf(),
            final(self).id_spec() == old(self).id_spec(),
            final(self).wf(),
            if old(self).pos() < old(self).buf().len() {
                r matches Ok(b) && b == old(self).buf()[old(self).pos()] as i8 && final(self).pos() == old(self).pos() + 1
            } else {
                r matches Err(e) && e == DecodeError::UnexpectedEnd && final(self).pos() == old(self).pos()
            },
    {
        match self.read_ubyte() {
            Ok(b) => Ok(b as i8),
            Err(e) => Err(e),
        }
    }

    /// Reads one unsigned byte.
    pub fn read_ubyte(&mut self) -> (r: Result<u8, DecodeError>)
        requires
            old(self).wf(),
        ensures
            final(self).buf() == old(self).buf(),
            final(self).id_spec() == old(self).id_spec(),
            final(self).wf(),
            if old(self).pos() < old(self).buf().len() {
                r matches Ok(b) && b == old(self).buf()[old(self).pos()] && final(self).pos()
                    == old(self).pos() + 1
            } else {
                r matches Err(e) && e == DecodeError::UnexpectedEnd && final(self).pos() == old(self).pos()
            },
    {
        if self.idx >= self.data.len() {
            return Err(DecodeError::UnexpectedEnd);
        }
        let b = self.data[self.idx];
        self.idx = self.idx + 1;
        Ok(b)
    }

    /// Reads the next `n` bytes as one big-endian integer. The caller has
    /// already checked that they are present.
    fn read_be(&mut self, n: usize) -> (v: u128)
        requires
            old(self).wf(),
            old(self).pos() + n <= old(self).buf().len(),
            n <= 16,
        ensures
            final(self).buf() == old(self).buf(),
            final(self).id_spec() == old(self).id_spec(),
            final(self).wf(),
            final(self).pos() == old(self).pos() + n,
            v as nat == be_val(old(self).buf().subrange(old(self).pos(), old(self).pos() + n)),
        decreases n,
    {
        proof {
            lemma_pow256_concrete();
        }
        if n == 0 {
            assert(old(self).buf().subrange(old(self).pos(), old(self).pos()) =~= Seq::<
                u8,
            >::empty());
            0
        } else {
            let hi = self.read_be(n - 1);
            let ghost whole = old(self).buf().subrange(old(self).pos(), old(self).pos() + n);
            proof {
                lemma_be_val_bound(old(self).buf().subrange(
                    old(self).pos(),
                    old(self).pos() + n - 1,
                ));
                lemma_pow256_mono((n - 1) as nat, 15);
                assert(whole.drop_last() =~= old(self).buf().subrange(
                    old(self).pos(),
                    old(self).pos() + n - 1,
                ));
            }
            let total = self.data.len();
            let b = self.data[self.idx];
            assert(self.idx < total);
            self.idx = self.idx + 1;
            hi * 256 + b as u128
        }
    }

    /// Reads a 16-bit signed integer, big-endian.
    pub fn read_short(&mut self) -> (r: Result<i16, DecodeError>)
        requires
            old(self).wf(),
        ensures
            final(self).buf() == old(self).buf(),
            final(self).id_spec() == old(self).id_spec(),
            final(self).wf(),
            match be_at(old(self).buf(), old(self).pos(), 2) {
                Ok((v, j)) => r matches Ok(x) && x == (v as u16) as i16 && final(self).pos() == j,
                Err(e) => r matches Err(re) && re == e && final(self).pos() == old(self).pos(),
            },
    {
        if 2 > self.data.len() - self.idx {
            return Err(DecodeError::UnexpectedEnd);
        }
        proof {
            lemma_be_prefix_bound(old(self).buf(), old(self).pos(), 2);
        }
        let v = self.read_be(2);
        Ok((v as u16) as i16)
    }

    /// Reads a 16-bit unsigned integer, big-endian.
    pub fn read_ushort(&mut self) -> (r: Result<u16, DecodeError>)
        requires
            old(self).wf(),
        ensures
            final(self).buf() == old(self).buf(),
            final(self).id_spec() == old(self).id_spec(),
            final(self).wf(),
            match be_at(old(self).buf(), old(self).pos(), 2) {
                Ok((v, j)) => r matches Ok(x) && x == v as u16 && final(self).pos() == j,
                Err(e) => r matches Err(re) && re == e && final(self).pos() == old(self).pos(),
            },
    {
        if 2 > self.data.len() - self.idx {
            return Err(DecodeError::UnexpectedEnd);
        }
        proof {
            lemma_be_prefix_bound(old(self).buf(), old(self).pos(), 2);
        }
        let v = self.read_be(2);
        Ok(v as u16)
    }

    /// Reads a 32-bit signed integer, big-endian.
    pub fn read_int(&mut self) -> (r: Result<i32, DecodeError>)
        requires
            old(self).wf(),
        ensures
            final(self).buf() == old(self).buf(),
            final(self).id_spec() == old(self).id_spec(),
            final(self).wf(),
            match be_at(old(self).buf(), old(self).pos(), 4) {
                Ok((v, j)) => r matches Ok(x) && x == (v as u32) as i32 && final(self).pos() == j,
                Err(e) => r matches Err(re) && re == e && final(self).pos() == old(self).pos(),
            },
    {
        if 4 > self.data.len() - self.idx {
            return Err(DecodeError::UnexpectedEnd);
        }
        proof {
            lemma_be_prefix_bound(old(self).buf(), old(self).pos(), 4);
        }
        let v = self.read_be(4);
        Ok((v as u32) as i32)
    }

    /// Reads a 64-bit signed integer, big-endian.
    pub fn read_long(&mut self) -> (r: Result<i64, DecodeError>)
        requires
            old(self).wf(),
        ensures
            final(self).buf() == old(self).buf(),
            final(self).id_spec() == old(self).id_spec(),
            final(self).wf(),
            match be_at(old(self).buf(), old(self).pos(), 8) {
                Ok((v, j)) => r matches Ok(x) && x == (v as u64) as i64 && final(self).pos() == j,
                Err(e) => r matches Err(re) && re == e && final(self).pos() == old(self).pos(),
            },
    {
        if 8 > self.data.len() - self.idx {
            return Err(DecodeError::UnexpectedEnd);
        }
        proof {
            lemma_be_prefix_bound(old(self).buf(), old(self).pos(), 8);
        }
        let v = self.read_be(8);
        Ok((v as u64) as i64)
    }

    /// Reads a 128-bit identifier, big-endian.
    pub fn read_uuid(&mut self) -> (r: Result<u128, DecodeError>)
        requires
            old(self).wf(),
        ensures
            final(self).buf() == old(self).buf(),
            final(self).id_spec() == old(self).id_spec(),
            final(self).wf(),
            match be_at(old(self).buf(), old(self).pos(), 16) {
                Ok((v, j)) => r matches Ok(x) && x as nat == v && final(self).pos() == j,
                Err(e) => r matches Err(re) && re == e && final(self).pos() == old(self).pos(),
            },
    {
        if 16 > self.data.len() - self.idx {
            return Err(DecodeError::UnexpectedEnd);
        }
        let v = self.read_be(16);
        Ok(v)
    }

    /// Reads a variable-length 32-bit integer: at most five groups.
    pub fn read_varint(&mut self) -> (r: Result<i32, DecodeError>)
        requires
            old(self).wf(),
        ensures
            final(self).buf() == old(self).buf(),
            final(self).id_spec() == old(self).id_spec(),
            final(self).wf(),
            match varint_at(old(self).buf(), old(self).pos()) {
                Ok((v, j)) => r matches Ok(x) && x == v && final(self).pos() == j,
                Err(e) => r matches Err(re) && re == e && final(self).pos() == old(self).pos(),
            },
    {
        proof {
            lemma_varnum_at_bound(self.data@, self.idx as int, 5);
        }
        match read_varnum_slice(self.data.as_slice(), self.idx, 5) {
            Ok((v, n)) => {
                self.idx = n;
                Ok(((v % 0x1_0000_0000) as u32) as i32)
            },
            Err(e) => Err(e),
        }
    }

    /// Reads a variable-length 64-bit integer: at most ten groups.
    pub fn read_varlong(&mut self) -> (r: Result<i64, DecodeError>)
        requires
            old(self).wf(),
        ensures
            final(self).buf() == old(self).buf(),
            final(self).id_spec() == old(self).id_spec(),
            final(self).wf(),
            match varlong_at(old(self).buf(), old(self).pos()) {
                Ok((v, j)) => r matches Ok(x) && x == v && final(self).pos() == j,
                Err(e) => r matches Err(re) && re == e && final(self).pos() == old(self).pos(),
            },
    {
        proof {
            lemma_varnum_at_bound(self.data@, self.idx as int, 10);
        }
        match read_varnum_slice(self.data.as_slice(), self.idx, 10) {
            Ok((v, n)) => {
                self.idx = n;
                Ok(((v % 0x1_0000_0000_0000_0000) as u64) as i64)
            },
            Err(e) => Err(e),
        }
    }

    /// Reads a length-prefixed UTF-8 string.
    pub fn read_string(&mut self) -> (r: Result<String, DecodeError>)
        requires
            old(self).wf(),
        ensures
            final(self).buf() == old(self).buf(),
            final(self).id_spec() == old(self).id_spec(),
            final(self).wf(),
            match string_at(old(self).buf(), old(self).pos()) {
                Ok((chars, j)) => r matches Ok(s) && s@ == chars && final(self).pos() == j,
                Err(e) => r matches Err(re) && re == e,
            },
    {
        let len = match self.read_varint() {
            Ok(v) => v,
            Err(e) => {
                return Err(e);
            },
        };
        if len < 0 {
            return Err(DecodeError::NegativeLength);
        }
        let bytes = match self.read_bytes(len as usize) {
            Ok(v) => v,
            Err(e) => {
                return Err(e);
            },
        };
        match string_from_utf8(bytes) {
            Some(s) => Ok(s),
            None => Err(DecodeError::InvalidUtf8),
        }
    }
}

/// Concrete powers of 256 the decoder's bounds rest on.
pub proof fn lemma_pow256_concrete()
    ensures
        pow256(15) == 0x1000000000000000000000000000000,
        pow256(16) == 0x100000000000000000000000000000000,
        pow256(2) == 0x1_0000,
        pow256(4) == 0x1_0000_0000,
        pow256(8) == 0x1_0000_0000_0000_0000,
{
    reveal_with_fuel(pow256, 17);
}

/// 256^a is at most 256^b for a <= b.
proof fn lemma_pow256_mono(a: nat, b: nat)
    requires
        a <= b,
    ensures
        pow256(a) <= pow256(b),
    decreases b,
{
    if a < b {
        lemma_pow256_mono(a, (b - 1) as nat);
        lemma_pow256_pos((b - 1) as nat);
        assert(256 * pow256((b - 1) as nat) >= pow256((b - 1) as nat)) by (nonlinear_arith)
            requires
                pow256((b - 1) as nat) >= 1,
        ;
    }
}

/// A big-endian field's value fits the type whose width it carries.
proof fn lemma_be_prefix_bound(s: Seq<u8>, i: int, n: nat)
    requires
        0 <= i,
        i + n <= s.len(),
    ensures
        be_val(s.subrange(i, i + n)) < pow256(n),
{
    lemma_be_val_bound(s.subrange(i, i + n));
}

/// 128^a is at most 128^b for a <= b.
proof fn lemma_pow128_mono(a: nat, b: nat)
    requires
        a <= b,
    ensures
        pow128(a) <= pow128(b),
    decreases b,
{
    if a < b {
        lemma_pow128_mono(a, (b - 1) as nat);
        lemma_pow128_pos((b - 1) as nat);
        assert(128 * pow128((b - 1) as nat) >= pow128((b - 1) as nat)) by (nonlinear_arith)
            requires
                pow128((b - 1) as nat) >= 1,
        ;
    }
}

// ---------------------------------------------------------------------------
// Round-trip laws
// ---------------------------------------------------------------------------

/// An overlong run of continuation-marked bytes decodes to nothing.
proof fn lemma_overlong_none(s: Seq<u8>, i: int, max: nat)
    requires
        varnum_overlong(s, i, max),
    ensures
        varnum_at(s, i, max) is None,
    decreases max,
{
    if max != 0 {
        lemma_overlong_none(s, i + 1, (max - 1) as nat);
    }
}

/// A varint whose canonical encoding sits at `i` (with anything after it)
/// decodes from there to its value.
pub proof fn lemma_varint_at_from(s: Seq<u8>, i: int, v: u32, rest: Seq<u8>)
    requires
        0 <= i <= s.len(),
        s.subrange(i, s.len() as int) == varnum_bytes(v as nat) + rest,
    ensures
        varint_at(s, i) == Ok::<(i32, int), DecodeError>(
            (v as i32, i + varnum_bytes(v as nat).len()),
        ),
{
    lemma_pow128_concrete();
    lemma_varnum_round_trip(v as nat, 5, rest);
    lemma_varnum_at_shift(s.subrange(i, s.len() as int), s, i, 5);
}

/// A varlong whose canonical encoding sits at `i` decodes from there to
/// its value.
pub proof fn lemma_varlong_at_from(s: Seq<u8>, i: int, v: u64, rest: Seq<u8>)
    requires
        0 <= i <= s.len(),
        s.subrange(i, s.len() as int) == varnum_bytes(v as nat) + rest,
    ensures
        varlong_at(s, i) == Ok::<(i64, int), DecodeError>(
            (v as i64, i + varnum_bytes(v as nat).len()),
        ),
{
    lemma_pow128_concrete();
    lemma_varnum_round_trip(v as nat, 10, rest);
    lemma_varnum_at_shift(s.subrange(i, s.len() as int), s, i, 10);
}

/// A big-endian field whose encoding sits at `i` decodes from there to
/// its value.
pub proof fn lemma_be_at_from(s: Seq<u8>, i: int, v: nat, n: nat, rest: Seq<u8>)
    requires
        0 <= i <= s.len(),
        v < pow256(n),
        s.subrange(i, s.len() as int) == be_bytes(v, n) + rest,
    ensures
        be_at(s, i, n) == Ok::<(nat, int), DecodeError>((v, i + n)),
{
    lemma_be_bytes_len(v, n);
    assert((be_bytes(v, n) + rest).len() == n + rest.len());
    assert(s.subrange(i, s.len() as int).len() == s.len() - i);
    assert(s.len() - i == n + rest.len());
    assert(s.subrange(i, i + n) =~= be_bytes(v, n)) by {
        assert forall|k: int| 0 <= k < n implies s.subrange(i, i + n)[k] == be_bytes(v, n)[k] by {
            assert(s[i + k] == s.subrange(i, s.len() as int)[k]);
        }
    }
    lemma_be_round_trip(v, n);
}

/// A length-prefixed string whose encoding sits at `i` decodes from there
/// to its characters.
pub proof fn lemma_string_at_from(s: Seq<u8>, i: int, chars: Seq<char>, rest: Seq<u8>)
    requires
        0 <= i <= s.len(),
        encode_utf8(chars).len() < 0x8000_0000,
        s.subrange(i, s.len() as int) == str_bytes(chars) + rest,
    ensures
        string_at(s, i) == Ok::<(Seq<char>, int), DecodeError>(
            (chars, i + str_bytes(chars).len()),
        ),
{
    let bytes = encode_utf8(chars);
    let bl = bytes.len();
    let pre = varnum_bytes(bl);
    assert(s.subrange(i, s.len() as int) =~= pre + (bytes + rest));
    lemma_varint_at_from(s, i, bl as u32, bytes + rest);
    let j = i + pre.len();
    assert(s.subrange(j, j + bl) =~= bytes) by {
        assert forall|k: int| 0 <= k < bl implies s.subrange(j, j + bl)[k] == bytes[k] by {
            assert(s[j + k] == s.subrange(i, s.len() as int)[pre.len() + k]);
        }
    }
    vstd::utf8::encode_utf8_valid_utf8(chars);
    vstd::utf8::encode_utf8_decode_utf8(chars);
}

/// Law: decoding an encoded varint gives the value back, whatever follows
/// it, and the encoding never exceeds five bytes.
pub proof fn lemma_varint_round_trip(v: i32, rest: Seq<u8>)
    ensures
        varnum_bytes((v as u32) as nat).len() <= 5,
        varint_at(varnum_bytes((v as u32) as nat) + rest, 0) == Ok::<(i32, int), DecodeError>(
            (v, varnum_bytes((v as u32) as nat).len() as int),
        ),
{
    lemma_pow128_concrete();
    lemma_varnum_bytes_len((v as u32) as nat, 5);
    let s = varnum_bytes((v as u32) as nat) + rest;
    assert(s.subrange(0, s.len() as int) =~= varnum_bytes((v as u32) as nat) + rest);
    lemma_varint_at_from(s, 0, v as u32, rest);
    assert((v as u32) as i32 == v) by (bit_vector);
}

/// Law: decoding an encoded varlong gives the value back, and the
/// encoding never exceeds ten bytes.
pub proof fn lemma_varlong_round_trip(v: i64, rest: Seq<u8>)
    ensures
        varnum_bytes((v as u64) as nat).len() <= 10,
        varlong_at(varnum_bytes((v as u64) as nat) + rest, 0) == Ok::<(i64, int), DecodeError>(
            (v, varnum_bytes((v as u64) as nat).len() as int),
        ),
{
    lemma_pow128_concrete();
    lemma_varnum_bytes_len((v as u64) as nat, 10);
    let s = varnum_bytes((v as u64) as nat) + rest;
    assert(s.subrange(0, s.len() as int) =~= varnum_bytes((v as u64) as nat) + rest);
    lemma_varlong_at_from(s, 0, v as u64, rest);
    assert((v as u64) as i64 == v) by (bit_vector);
}

/// Law: a six-group varint — five continuation-marked bytes in a row —
/// is rejected as overlong.
pub proof fn lemma_varint_too_long_rejected(s: Seq<u8>, i: int)
    requires
        0 <= i,
        i + 5 <= s.len(),
        forall|j: int| #![trigger s[j]] i <= j < i + 5 ==> s[j] >= 128,
    ensures
        varint_at(s, i) == Err::<(i32, int), DecodeError>(DecodeError::VarnumTooLong),
{
    assert(s[i] >= 128 && s[i + 1] >= 128 && s[i + 2] >= 128 && s[i + 3] >= 128 && s[i + 4]
        >= 128);
    assert(varnum_overlong(s, i, 5)) by {
        reveal_with_fuel(varnum_overlong, 6);
    }
    lemma_overlong_none(s, i, 5);
}

/// Law: a framed packet opens back up. The leading varint names exactly
/// the frame's remaining length, and the body starts with the packet ID
/// followed by the payload.
pub proof fn lemma_frame_round_trip(id: i32, payload: Seq<u8>)
    requires
        payload.len() + 5 < 0x8000_0000,
    ensures
        ({
            let f = frame_bytes(id, payload);
            let id_enc = varnum_bytes((id as u32) as nat);
            let total = id_enc.len() + payload.len();
            let hdr = varnum_bytes(total as nat);
            &&& varint_at(f, 0) == Ok::<(i32, int), DecodeError>(
                (total as i32, hdr.len() as int),
            )
            &&& f.len() == hdr.len() + total
            &&& f.subrange(hdr.len() as int, f.len() as int) =~= id_enc + payload
            &&& varint_at(f, hdr.len() as int) == Ok::<(i32, int), DecodeError>(
                (id, (hdr.len() + id_enc.len()) as int),
            )
        }),
{
    let f = frame_bytes(id, payload);
    let id_enc = varnum_bytes((id as u32) as nat);
    let total = id_enc.len() + payload.len();
    let hdr = varnum_bytes(total as nat);
    lemma_pow128_concrete();
    lemma_varnum_bytes_len((id as u32) as nat, 5);
    assert(f.subrange(0, f.len() as int) =~= hdr + (id_enc + payload));
    lemma_varint_at_from(f, 0, total as u32, id_enc + payload);
    assert(f.subrange(hdr.len() as int, f.len() as int) =~= id_enc + payload);
    lemma_varint_at_from(f, hdr.len() as int, id as u32, payload);
    assert((id as u32) as i32 == id) by (bit_vector);
}

/// UTF-8 spends between one and four bytes on each character.
pub proof fn lemma_utf8_len(s: Seq<char>)
    ensures
        s.len() <= encode_utf8(s).len() <= 4 * s.len(),
    decreases s.len(),
{
    if s.len() == 0 {
    } else {
        lemma_utf8_len(s.drop_first());
        assert(1 <= vstd::utf8::encode_scalar(s[0] as u32).len() <= 4);
    }
}

/// A length-prefixed string spends at most five bytes beyond its UTF-8
/// form, and its UTF-8 form spends at most four bytes per character.
pub proof fn lemma_str_bytes_len(s: Seq<char>)
    requires
        encode_utf8(s).len() < 0x1_0000_0000,
    ensures
        encode_utf8(s).len() <= str_bytes(s).len() <= 5 + encode_utf8(s).len(),
{
    lemma_pow128_concrete();
    lemma_varnum_bytes_len(encode_utf8(s).len(), 5);
}

} // verus!
