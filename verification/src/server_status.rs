//! Minecraft server-list ping: VarInt coding, the handshake and status-request packets,
//! framing of the status response, and reading the status JSON into what the launcher shows.
use vstd::prelude::*;

use crate::text::int_text;
use vstd::string::StringSliceAdditionalSpecFns;

verus! {

/// The protocol version sent in the handshake; the server's anti-bot layer accepts only this one.
pub const PROTOCOL_VERSION: i32 = 754;

/// Message of the I/O error that reading past the end of the buffer reports.
pub const EOF_MESSAGE: &'static str = "failed to fill whole buffer";

pub const VARINT_TOO_LONG_MESSAGE: &'static str = "varint слишком длинный";

pub const EMPTY_RESPONSE_MESSAGE: &'static str = "Пустой ответ от сервера";

pub const BAD_JSON_LENGTH_MESSAGE: &'static str = "Некорректная длина JSON в ответе";

pub const UNEXPECTED_PACKET_PREFIX: &'static str = "Неожиданный id пакета: ";

// ---------------------------------------------------------------------------------------------
// VarInt
// ---------------------------------------------------------------------------------------------

/// The bit pattern of an `i32` read as unsigned (`value as u32`).
pub open spec fn u32_of_i32(v: int) -> int {
    if v >= 0 {
        v
    } else {
        v + 0x1_0000_0000
    }
}

/// The `i32` whose bit pattern is the unsigned `u` (`u as i32`).
pub open spec fn i32_of_u32(u: int) -> int {
    if u < 0x8000_0000 {
        u
    } else {
        u - 0x1_0000_0000
    }
}

/// `128^j`.
pub open spec fn pow128(j: nat) -> nat
    decreases j,
{
    if j == 0 {
        1
    } else {
        128 * pow128((j - 1) as nat)
    }
}

/// The VarInt encoding of `n`: seven bits per byte, least significant group first,
/// the high bit set on every byte but the last.
pub open spec fn varint_encode(n: nat) -> Seq<u8>
    decreases n,
{
    if n < 128 {
        seq![n as u8]
    } else {
        seq![((n % 128) + 128) as u8] + varint_encode(n / 128)
    }
}

/// Why a VarInt could not be read.
#[derive(Debug, Clone, Copy, PartialEq, Eq, Structural)]
pub enum VarintError {
    /// The buffer ended inside the VarInt.
    Eof,
    /// A sixth byte followed five continuation bytes.
    TooLong,
}

/// Reading a VarInt from `s`, having consumed `j` bytes from `pos` and accumulated `acc`:
/// the accumulated unsigned value and the number of bytes consumed.
pub open spec fn varint_scan(s: Seq<u8>, pos: int, j: nat, acc: nat) -> Result<(nat, nat), VarintError>
    decreases 6 - j,
{
    if pos + j >= s.len() {
        Err(VarintError::Eof)
    } else if j >= 5 {
        Err(VarintError::TooLong)
    } else {
        let b = s[pos + j];
        let acc2 = acc + (b % 128) as nat * pow128(j);
        if b < 128 {
            Ok((acc2, j + 1))
        } else {
            varint_scan(s, pos, j + 1, acc2)
        }
    }
}

/// The VarInt at `pos` in `s`: the `i32` it denotes (its low 32 bits) and the index after it.
pub open spec fn varint_decode(s: Seq<u8>, pos: int) -> Result<(int, int), VarintError> {
    match varint_scan(s, pos, 0, 0) {
        Ok((acc, n)) => Ok((i32_of_u32((acc % 0x1_0000_0000) as int), pos + n)),
        Err(e) => Err(e),
    }
}

pub open spec fn varint_error_text(e: VarintError) -> Seq<char> {
    match e {
        VarintError::Eof => EOF_MESSAGE@,
        VarintError::TooLong => VARINT_TOO_LONG_MESSAGE@,
    }
}

proof fn lemma_pow128_values()
    ensures
        pow128(0) == 1,
        pow128(1) == 128,
        pow128(2) == 16384,
        pow128(3) == 2097152,
        pow128(4) == 268435456,
        pow128(5) == 34359738368,
{
    reveal_with_fuel(pow128, 6);
}

proof fn lemma_varint_encode_len(n: nat)
    ensures
        varint_encode(n).len() >= 1,
        n < 0x1_0000_0000 ==> varint_encode(n).len() <= 5,
        forall|i: int| 0 <= i < varint_encode(n).len() - 1 ==> #[trigger] varint_encode(n)[i] >= 128,
        varint_encode(n).last() < 128,
    decreases n,
{
    if n >= 128 {
        lemma_varint_encode_len(n / 128);
        let t = varint_encode(n / 128);
        let e = varint_encode(n);
        assert(e == seq![((n % 128) + 128) as u8] + t);
        assert forall|i: int| 0 <= i < e.len() - 1 implies #[trigger] e[i] >= 128 by {
            if i > 0 {
                assert(e[i] == t[i - 1]);
            }
        }
        assert(e.last() == t.last());
        if n < 0x1_0000_0000 {
            assert(n / 128 < 0x1_0000_0000);
            if n / 128 >= 128 {
                assert(n / 128 / 128 < 0x1_0000_0000);
            }
            // the encoding of a value below 2^32 has at most five groups
            lemma_varint_encode_len_bound(n);
        }
    }
}

proof fn lemma_varint_encode_len_bound(n: nat)
    requires
        n < 0x1_0000_0000,
    ensures
        varint_encode(n).len() <= 5,
{
    let n1 = n / 128;
    let n2 = n1 / 128;
    let n3 = n2 / 128;
    let n4 = n3 / 128;
    assert(n4 < 128);
    reveal_with_fuel(varint_encode, 5);
    if n < 128 {
    } else if n1 < 128 {
        assert(varint_encode(n) == seq![((n % 128) + 128) as u8] + varint_encode(n1));
    } else if n2 < 128 {
        assert(varint_encode(n1) == seq![((n1 % 128) + 128) as u8] + varint_encode(n2));
    } else if n3 < 128 {
        assert(varint_encode(n2) == seq![((n2 % 128) + 128) as u8] + varint_encode(n3));
        assert(varint_encode(n1) == seq![((n1 % 128) + 128) as u8] + varint_encode(n2));
    } else {
        assert(varint_encode(n3) == seq![((n3 % 128) + 128) as u8] + varint_encode(n4));
        assert(varint_encode(n2) == seq![((n2 % 128) + 128) as u8] + varint_encode(n3));
        assert(varint_encode(n1) == seq![((n1 % 128) + 128) as u8] + varint_encode(n2));
    }
}

/// Scanning the encoding of `m`, placed at `pos + j`, finishes with `acc + m * 128^j`.
proof fn lemma_scan_encoded(s: Seq<u8>, pos: int, j: nat, acc: nat, m: nat)
    requires
        0 <= pos,
        j <= 4,
        m < pow128((5 - j) as nat),
        pos + j + varint_encode(m).len() <= s.len(),
        s.subrange(pos + j, pos + j + varint_encode(m).len()) == varint_encode(m),
    ensures
        varint_scan(s, pos, j, acc) == Ok::<(nat, nat), VarintError>(
            (acc + m * pow128(j), j + varint_encode(m).len()),
        ),
    decreases m,
{
    let e = varint_encode(m);
    assert(s[pos + j] == e[0]);
    if m < 128 {
        assert(e[0] == m as u8);
    } else {
        assert(e == seq![((m % 128) + 128) as u8] + varint_encode(m / 128));
        let b = s[pos + j];
        assert(b == ((m % 128) + 128) as u8);
        assert(b % 128 == m % 128);
        let acc2 = acc + (m % 128) * pow128(j);
        assert(j < 4) by {
            lemma_pow128_values();
            if j == 4 {
                assert(m < 128);
            }
        }
        assert(pow128((j + 1) as nat) == 128 * pow128(j));
        assert(pow128((5 - j) as nat) == 128 * pow128((5 - (j + 1)) as nat)) by {
            assert((5 - j) as nat == ((5 - (j + 1)) as nat) + 1);
        }
        assert(m / 128 < pow128((5 - (j + 1)) as nat)) by (nonlinear_arith)
            requires
                m < 128 * pow128((5 - (j + 1)) as nat),
        ;
        let t = varint_encode(m / 128);
        assert(s.subrange(pos + j + 1, pos + j + 1 + t.len()) == t) by {
            assert forall|i: int| 0 <= i < t.len() implies s.subrange(
                pos + j + 1,
                pos + j + 1 + t.len(),
            )[i] == t[i] by {
                assert(s[pos + j + 1 + i] == s.subrange(pos + j, pos + j + e.len())[1 + i]);
                assert(e[1 + i] == t[i]);
            }
            assert(s.subrange(pos + j + 1, pos + j + 1 + t.len()) =~= t);
        }
        lemma_scan_encoded(s, pos, (j + 1) as nat, acc2, m / 128);
        assert(acc2 + (m / 128) * pow128((j + 1) as nat) == acc + m * pow128(j)) by (nonlinear_arith)
            requires
                acc2 == acc + (m % 128) * pow128(j),
                pow128((j + 1) as nat) == 128 * pow128(j),
        {
            assert(m == (m / 128) * 128 + m % 128);
        }
    }
}

/// Decoding what was encoded gives back the same `i32` and consumes exactly the encoding.
pub proof fn lemma_varint_roundtrip(v: i32, s: Seq<u8>, pos: int)
    requires
        0 <= pos,
        pos + varint_encode(u32_of_i32(v as int) as nat).len() <= s.len(),
        s.subrange(pos, pos + varint_encode(u32_of_i32(v as int) as nat).len()) == varint_encode(
            u32_of_i32(v as int) as nat,
        ),
    ensures
        varint_decode(s, pos) == Ok::<(int, int), VarintError>(
            (v as int, pos + varint_encode(u32_of_i32(v as int) as nat).len()),
        ),
{
    let n = u32_of_i32(v as int) as nat;
    lemma_pow128_values();
    lemma_scan_encoded(s, pos, 0, 0, n);
    assert(n * pow128(0) == n);
    assert(n % 0x1_0000_0000 == n);
}

/// Law: reading back a VarInt written by [`write_varint`] yields the value written, whatever
/// bytes follow it.
pub proof fn varint_read_of_written(v: i32, rest: Seq<u8>)
    ensures
        ({
            let e = varint_encode(u32_of_i32(v as int) as nat);
            varint_decode(e + rest, 0) == Ok::<(int, int), VarintError>((v as int, e.len() as int))
        }),
{
    let e = varint_encode(u32_of_i32(v as int) as nat);
    assert((e + rest).subrange(0, e.len() as int) =~= e);
    lemma_varint_roundtrip(v, e + rest, 0);
}

fn u32_bits(value: i32) -> (u: u32)
    ensures
        u as int == u32_of_i32(value as int),
{
    if value >= 0 {
        value as u32
    } else {
        let m = (value as i64) + 0x1_0000_0000i64;
        m as u32
    }
}

fn i32_from_bits(u: u32) -> (v: i32)
    ensures
        v as int == i32_of_u32(u as int),
{
    if u < 0x8000_0000u32 {
        u as i32
    } else {
        ((u - 0x8000_0000u32) as i32) + i32::MIN
    }
}

/// Appends the VarInt encoding of `value`'s bit pattern to `buf`.
pub fn write_varint(buf: &mut Vec<u8>, value: i32)
    ensures
        final(buf)@ == old(buf)@ + varint_encode(u32_of_i32(value as int) as nat),
{
    write_varint_u32(buf, u32_bits(value));
}

fn write_varint_u32(buf: &mut Vec<u8>, value: u32)
    ensures
        final(buf)@ == old(buf)@ + varint_encode(value as nat),
{
    let mut v: u32 = value;
    loop
        invariant
            old(buf)@ + varint_encode(value as nat) == buf@ + varint_encode(v as nat),
        decreases v,
    {
        let ghost before = buf@;
        assert(v & !0x7Fu32 == 0 <==> v < 128) by (bit_vector);
        if v & !0x7F == 0 {
            buf.push(v as u8);
            assert(varint_encode(v as nat) == seq![v as u8]);
            assert(before + seq![v as u8] == buf@);
            return ;
        }
        assert(((v as u8) & 0x7Fu8) | 0x80u8 == ((v % 128) + 128) as u8) by (bit_vector);
        assert(v >> 7u32 == v / 128) by (bit_vector);
        let ghost v0 = v;
        buf.push(((v as u8) & 0x7F) | 0x80);
        assert(varint_encode(v0 as nat) == seq![((v0 % 128) + 128) as u8] + varint_encode(
            (v0 / 128) as nat,
        ));
        v = v >> 7;
        assert(buf@ == before.push(((v0 % 128) + 128) as u8));
        assert(before + varint_encode(v0 as nat) =~= buf@ + varint_encode(v as nat));
    }
}

fn varint_error_string(e: VarintError) -> (s: String)
    ensures
        s@ == varint_error_text(e),
{
    match e {
        VarintError::Eof => EOF_MESSAGE.to_owned(),
        VarintError::TooLong => VARINT_TOO_LONG_MESSAGE.to_owned(),
    }
}

/// Reads the VarInt at `pos`: the `i32` it denotes and the index just after it.
pub fn read_varint_at(buf: &[u8], pos: usize) -> (r: Result<(i32, usize), VarintError>)
    ensures
        match r {
            Ok((v, next)) => varint_decode(buf@, pos as int) == Ok::<(int, int), VarintError>(
                (v as int, next as int),
            ),
            Err(e) => varint_decode(buf@, pos as int) == Err::<(int, int), VarintError>(e),
        },
{
    proof {
        lemma_pow128_values();
    }
    let mut j: usize = 0;
    let mut acc: u64 = 0;
    let mut mul: u64 = 1;
    loop
        invariant
            j <= 5,
            mul == pow128(j as nat),
            acc < pow128(j as nat),
            varint_scan(buf@, pos as int, 0, 0) == varint_scan(buf@, pos as int, j as nat, acc as nat),
        decreases 6 - j,
    {
        if pos >= buf.len() || j >= buf.len() - pos {
            return Err(VarintError::Eof);
        }
        if j >= 5 {
            return Err(VarintError::TooLong);
        }
        let b = buf[pos + j];
        assert(b & 0x7Fu8 == b % 128) by (bit_vector);
        assert(b & 0x80u8 == 0 <==> b < 128) by (bit_vector);
        let low = (b & 0x7F) as u64;
        assert(mul <= 268435456) by {
            lemma_pow128_values();
        }
        assert(acc + low * mul < 128 * mul) by (nonlinear_arith)
            requires
                low < 128,
                acc < mul,
        ;
        assert(pow128((j + 1) as nat) == 128 * pow128(j as nat));
        acc = acc + low * mul;
        if b & 0x80 == 0 {
            let total = acc % 0x1_0000_0000u64;
            let v = i32_from_bits(total as u32);
            return Ok((v, pos + j + 1));
        }
        mul = mul * 128;
        j = j + 1;
    }
}

/// Reads the VarInt at `pos`, with the error as text.
pub fn read_varint(buf: &[u8], pos: usize) -> (r: Result<(i32, usize), String>)
    ensures
        match r {
            Ok((v, next)) => varint_decode(buf@, pos as int) == Ok::<(int, int), VarintError>(
                (v as int, next as int),
            ),
            Err(msg) => exists|e: VarintError|
                varint_decode(buf@, pos as int) == Err::<(int, int), VarintError>(e)
                    && msg@ == varint_error_text(e),
        },
{
    match read_varint_at(buf, pos) {
        Ok(p) => Ok(p),
        Err(e) => Err(varint_error_string(e)),
    }
}

// ---------------------------------------------------------------------------------------------
// Packets
// ---------------------------------------------------------------------------------------------

/// A length as the protocol's VarInt carries it: the low 32 bits (`len as i32`, re-read unsigned).
pub open spec fn length_field(len: nat) -> nat {
    len % 0x1_0000_0000
}

/// A packet on the wire: the VarInt length of `data`, then `data`.
pub open spec fn framed(data: Seq<u8>) -> Seq<u8> {
    varint_encode(length_field(data.len())) + data
}

/// The handshake payload: packet id 0, the protocol version, the host as a length-prefixed
/// UTF-8 string, the port big-endian, and the next state 1 (status).
pub open spec fn handshake_payload(host: Seq<u8>, port: u16) -> Seq<u8> {
    varint_encode(0) + varint_encode(PROTOCOL_VERSION as nat) + varint_encode(length_field(host.len()))
        + host + seq![(port / 256) as u8, (port % 256) as u8] + varint_encode(1)
}

/// Everything the ping writes: the framed handshake, then the framed empty status request.
pub open spec fn status_request(host: Seq<u8>, port: u16) -> Seq<u8> {
    framed(handshake_payload(host, port)) + framed(seq![0u8])
}

fn append_bytes(buf: &mut Vec<u8>, data: &[u8])
    ensures
        final(buf)@ == old(buf)@ + data@,
{
    let mut i: usize = 0;
    while i < data.len()
        invariant
            i <= data.len(),
            buf@ == old(buf)@ + data@.take(i as int),
        decreases data.len() - i,
    {
        buf.push(data[i]);
        i = i + 1;
        assert(data@.take(i as int) == data@.take((i - 1) as int).push(data@[i - 1]));
    }
    assert(data@.take(data.len() as int) == data@);
}

fn length_bits(len: usize) -> (u: u32)
    ensures
        u as nat == length_field(len as nat),
{
    let m = (len as u64) % 0x1_0000_0000u64;
    m as u32
}

/// `data` framed as a packet: its VarInt length followed by the bytes.
pub fn frame_packet(data: &[u8]) -> (p: Vec<u8>)
    ensures
        p@ == framed(data@),
{
    let mut p: Vec<u8> = Vec::new();
    write_varint_u32(&mut p, length_bits(data.len()));
    append_bytes(&mut p, data);
    p
}

/// The bytes the status ping sends to `host:port`.
pub fn status_request_bytes(host: &str, port: u16) -> (p: Vec<u8>)
    ensures
        p@ == status_request(host.spec_bytes(), port),
{
    let hb = host.as_bytes();
    let mut hs: Vec<u8> = Vec::new();
    write_varint(&mut hs, 0);
    write_varint(&mut hs, PROTOCOL_VERSION);
    write_varint_u32(&mut hs, length_bits(hb.len()));
    append_bytes(&mut hs, hb);
    hs.push((port / 256) as u8);
    hs.push((port % 256) as u8);
    write_varint(&mut hs, 1);
    assert(hs@ =~= handshake_payload(host.spec_bytes(), port));
    let mut p = frame_packet(hs.as_slice());
    let mut req: Vec<u8> = Vec::new();
    req.push(0u8);
    let r = frame_packet(req.as_slice());
    append_bytes(&mut p, r.as_slice());
    assert(req@ =~= seq![0u8]);
    p
}

// ---------------------------------------------------------------------------------------------
// Response framing
// ---------------------------------------------------------------------------------------------

/// `a + b` in `usize` with wrap-around, for `a >= 0` and any `b` that is not below `-a - usize::MAX - 1`.
pub open spec fn usize_wrapping(n: int) -> int {
    if n >= 0 {
        n
    } else {
        n + usize::MAX + 1
    }
}

/// How many bytes the status response is expected to hold once its first five bytes have
/// arrived: the index after the leading length VarInt plus that length (added in `usize` with
/// wrap-around, as the length is read signed). `None` before five bytes, or when the length
/// cannot be read from them.
pub open spec fn expected_response_len(resp: Seq<u8>) -> Option<int> {
    if resp.len() >= 5 {
        match varint_decode(resp, 0) {
            Ok((len, next)) => Some(usize_wrapping(next + len)),
            Err(_) => None,
        }
    } else {
        None
    }
}

/// Expected total length of the status response, from the bytes received so far.
pub fn response_expected_len(resp: &[u8]) -> (r: Option<usize>)
    ensures
        match r {
            Some(e) => expected_response_len(resp@) == Some(e as int),
            None => expected_response_len(resp@) is None,
        },
{
    if resp.len() < 5 {
        return None;
    }
    match read_varint_at(resp, 0) {
        Ok((len, next)) => {
            proof {
                lemma_pow128_values();
                lemma_scan_consumed(resp@, 0, 0, 0);
            }
            assert(next <= 5);
            if len >= 0 {
                Some(next + (len as usize))
            } else {
                let m: usize = if len == i32::MIN {
                    2147483648usize
                } else {
                    (-len) as usize
                };
                if m <= next {
                    Some(next - m)
                } else {
                    Some(usize::MAX - (m - next - 1))
                }
            }
        },
        Err(_) => None,
    }
}

proof fn lemma_scan_consumed(s: Seq<u8>, pos: int, j: nat, acc: nat)
    requires
        j <= 5,
    ensures
        varint_scan(s, pos, j, acc) matches Ok((_, n)) ==> j < n <= 5,
    decreases 6 - j,
{
    if pos + j < s.len() && j < 5 {
        let b = s[pos + j];
        let acc2 = acc + (b % 128) as nat * pow128(j);
        if b >= 128 {
            lemma_scan_consumed(s, pos, j + 1, acc2);
        }
    }
}

/// Where the status JSON lies in a complete response, or why it cannot be found:
/// the packet must be non-empty, carry packet id 0, and a JSON length that fits the bytes.
pub open spec fn status_json_range(resp: Seq<u8>) -> Result<(int, int), Seq<char>> {
    if resp.len() == 0 {
        Err(EMPTY_RESPONSE_MESSAGE@)
    } else {
        match varint_decode(resp, 0) {
            Err(e) => Err(varint_error_text(e)),
            Ok((_, p1)) => match varint_decode(resp, p1) {
                Err(e) => Err(varint_error_text(e)),
                Ok((id, p2)) => if id != 0 {
                    Err(UNEXPECTED_PACKET_PREFIX@ + int_text(id))
                } else {
                    match varint_decode(resp, p2) {
                        Err(e) => Err(varint_error_text(e)),
                        Ok((len, p3)) => if len < 0 || p3 + len > resp.len() {
                            Err(BAD_JSON_LENGTH_MESSAGE@)
                        } else {
                            Ok((p3, p3 + len))
                        },
                    }
                },
            },
        }
    }
}

/// The range of the status JSON inside a complete status response.
pub fn status_json_bounds(resp: &[u8]) -> (r: Result<(usize, usize), String>)
    ensures
        match r {
            Ok((a, b)) => status_json_range(resp@) == Ok::<(int, int), Seq<char>>((a as int, b as int)),
            Err(msg) => status_json_range(resp@) == Err::<(int, int), Seq<char>>(msg@),
        },
{
    if resp.len() == 0 {
        return Err(EMPTY_RESPONSE_MESSAGE.to_owned());
    }
    let p1 = match read_varint_at(resp, 0) {
        Ok((_, p)) => p,
        Err(e) => return Err(varint_error_string(e)),
    };
    let (id, p2) = match read_varint_at(resp, p1) {
        Ok(x) => x,
        Err(e) => return Err(varint_error_string(e)),
    };
    if id != 0 {
        let digits = crate::text::i64_text(id as i64);
        let mut msg = crate::text::chars_of(UNEXPECTED_PACKET_PREFIX);
        crate::text::extend_chars(&mut msg, digits.as_slice());
        return Err(crate::text::string_of(msg.as_slice()));
    }
    let (len, p3) = match read_varint_at(resp, p2) {
        Ok(x) => x,
        Err(e) => return Err(varint_error_string(e)),
    };
    if len < 0 || (len as usize) > resp.len() || p3 > resp.len() - (len as usize) {
        return Err(BAD_JSON_LENGTH_MESSAGE.to_owned());
    }
    Ok((p3, p3 + len as usize))
}

// ---------------------------------------------------------------------------------------------
// Status JSON
// ---------------------------------------------------------------------------------------------

/// A JSON document as the status reader sees it. Numbers keep what reading them as `i64`
/// gives (`None` for fractions and integers outside `i64`).
#[derive(Debug)]
pub enum JsonValue {
    Null,
    Bool(bool),
    Number(Option<i64>),
    Str(String),
    Array(Vec<JsonValue>),
    Object(Vec<(String, JsonValue)>),
}

/// Index of the first member named `key`.
pub open spec fn member_index(m: Seq<(String, JsonValue)>, key: Seq<char>) -> Option<int> {
    if exists|i: int| 0 <= i < m.len() && (#[trigger] m[i]).0@ == key {
        Some(
            choose|i: int|
                0 <= i < m.len() && (#[trigger] m[i]).0@ == key && forall|j: int|
                    0 <= j < i ==> (#[trigger] m[j]).0@ != key,
        )
    } else {
        None
    }
}

/// `value.get(key)`: the member of an object named `key`; nothing for any other value.
pub open spec fn json_get(v: JsonValue, key: Seq<char>) -> Option<JsonValue> {
    match v {
        JsonValue::Object(m) => match member_index(m@, key) {
            Some(i) => Some(m@[i].1),
            None => None,
        },
        _ => None,
    }
}

/// The text of a chat component: a string is its own text; an object contributes its `text`
/// string and then the text of each component in its `extra` array; anything else contributes
/// nothing.
pub open spec fn chat_text(v: JsonValue) -> Seq<char>
    decreases v,
{
    match v {
        JsonValue::Str(s) => s@,
        JsonValue::Object(m) => {
            let text = own_text(m@);
            let extra = match member_index(m@, "extra"@) {
                Some(i) => if 0 <= i < m@.len() {
                    match m@[i].1 {
                        JsonValue::Array(items) => {
                            proof {
                                assert(decreases_to!(v => m));
                                assert(decreases_to!(m => m@));
                                assert(decreases_to!(m@ => m@[i]));
                                assert(decreases_to!(m@[i] => m@[i].1));
                            }
                            chat_items(items@)
                        },
                        _ => Seq::<char>::empty(),
                    }
                } else {
                    Seq::<char>::empty()
                },
                None => Seq::<char>::empty(),
            };
            text + extra
        },
        _ => Seq::<char>::empty(),
    }
}

/// The `text` string of a chat component object, or nothing.
pub open spec fn own_text(m: Seq<(String, JsonValue)>) -> Seq<char> {
    match member_index(m, "text"@) {
        Some(i) => if 0 <= i < m.len() {
            match m[i].1 {
                JsonValue::Str(s) => s@,
                _ => Seq::<char>::empty(),
            }
        } else {
            Seq::<char>::empty()
        },
        None => Seq::<char>::empty(),
    }
}

/// The text of a list of chat components, one after another.
pub open spec fn chat_items(items: Seq<JsonValue>) -> Seq<char>
    decreases items,
{
    if items.len() == 0 {
        Seq::<char>::empty()
    } else {
        chat_items(items.drop_last()) + chat_text(items.last())
    }
}

/// `s` without Minecraft formatting codes: each `§` is dropped together with the character
/// after it.
pub open spec fn strip_format_codes(s: Seq<char>) -> Seq<char>
    decreases s.len(),
{
    if s.len() == 0 {
        s
    } else if s[0] == '\u{00A7}' {
        if s.len() >= 2 {
            strip_format_codes(s.skip(2))
        } else {
            Seq::<char>::empty()
        }
    } else {
        seq![s[0]] + strip_format_codes(s.skip(1))
    }
}

/// The plain MOTD of a `description` field.
pub open spec fn motd_of(desc: JsonValue) -> Seq<char> {
    strip_format_codes(chat_text(desc))
}

fn find_member(m: &Vec<(String, JsonValue)>, key: &str) -> (r: Option<usize>)
    ensures
        match r {
            Some(i) => member_index(m@, key@) == Some(i as int) && i < m@.len(),
            None => member_index(m@, key@) is None,
        },
{
    let mut i: usize = 0;
    while i < m.len()
        invariant
            i <= m.len(),
            forall|j: int| 0 <= j < i ==> (#[trigger] m@[j]).0@ != key@,
        decreases m.len() - i,
    {
        if crate::text::str_eq(m[i].0.as_str(), key) {
            proof {
                let w = choose|w: int|
                    0 <= w < m@.len() && (#[trigger] m@[w]).0@ == key@ && forall|j: int|
                        0 <= j < w ==> (#[trigger] m@[j]).0@ != key@;
                assert(m@[i as int].0@ == key@);
                if w < i {
                    assert(m@[w].0@ != key@);
                }
                if w > i {
                    assert(m@[i as int].0@ != key@);
                }
            }
            return Some(i);
        }
        i = i + 1;
    }
    None
}

/// `value.get(key)`.
pub fn get_member<'a>(v: &'a JsonValue, key: &str) -> (r: Option<&'a JsonValue>)
    ensures
        match r {
            Some(x) => json_get(*v, key@) == Some(*x),
            None => json_get(*v, key@) is None,
        },
{
    match v {
        JsonValue::Object(m) => match find_member(m, key) {
            Some(i) => Some(&m[i].1),
            None => None,
        },
        _ => None,
    }
}

#[verifier::rlimit(60)]
fn collect_chat(v: &JsonValue, out: &mut Vec<char>)
    ensures
        final(out)@ == old(out)@ + chat_text(*v),
    decreases *v,
{
    match v {
        JsonValue::Str(s) => {
            crate::text::extend_str(out, s.as_str());
        },
        JsonValue::Object(m) => {
            collect_own_text(m, out);
            let ghost mid = out@;
            match find_member(m, "extra") {
                Some(i) => match &m[i].1 {
                    JsonValue::Array(items) => {
                        proof {
                            assert(decreases_to!(*v => *m));
                            assert(decreases_to!(*m => m@));
                            assert(decreases_to!(m@ => m@[i as int]));
                            assert(decreases_to!(m@[i as int] => m@[i as int].1));
                            assert(decreases_to!(m@[i as int].1 => *items));
                        }
                        collect_chat_items(items, out);
                        assert(chat_text(*v) == own_text(m@) + chat_items(items@));
                        assert(out@ =~= old(out)@ + chat_text(*v));
                    },
                    _ => {
                        assert(chat_text(*v) =~= own_text(m@));
                    },
                },
                None => {
                    assert(chat_text(*v) =~= own_text(m@));
                },
            }
        },
        _ => {},
    }
}

fn collect_own_text(m: &Vec<(String, JsonValue)>, out: &mut Vec<char>)
    ensures
        final(out)@ == old(out)@ + own_text(m@),
{
    match find_member(m, "text") {
        Some(i) => match &m[i].1 {
            JsonValue::Str(s) => {
                crate::text::extend_str(out, s.as_str());
            },
            _ => {
                assert(out@ == old(out)@ + Seq::<char>::empty());
            },
        },
        None => {
            assert(out@ == old(out)@ + Seq::<char>::empty());
        },
    }
}

proof fn lemma_chat_items_step(items: Seq<JsonValue>, k: int)
    requires
        0 <= k < items.len(),
    ensures
        chat_items(items.take(k + 1)) == chat_items(items.take(k)) + chat_text(items[k]),
{
    let t = items.take(k + 1);
    assert(t.drop_last() == items.take(k));
    assert(t.last() == items[k]);
}

fn collect_chat_items(items: &Vec<JsonValue>, out: &mut Vec<char>)
    ensures
        final(out)@ == old(out)@ + chat_items(items@),
    decreases *items,
{
    let ghost start = out@;
    let mut k: usize = 0;
    assert(chat_items(items@.take(0)) == Seq::<char>::empty());
    while k < items.len()
        invariant
            k <= items.len(),
            out@ == start + chat_items(items@.take(k as int)),
        decreases items.len() - k,
    {
        proof {
            assert(decreases_to!(*items => items@));
            assert(decreases_to!(items@ => items@[k as int]));
        }
        collect_chat(&items[k], out);
        proof {
            lemma_chat_items_step(items@, k as int);
            assert(out@ =~= start + chat_items(items@.take((k + 1) as int)));
        }
        k = k + 1;
    }
    assert(items@.take(items.len() as int) == items@);
}

fn strip_codes(s: &[char]) -> (r: Vec<char>)
    ensures
        r@ == strip_format_codes(s@),
{
    let mut r: Vec<char> = Vec::new();
    let mut i: usize = 0;
    assert(s@.skip(0) == s@);
    while i < s.len()
        invariant
            i <= s.len(),
            r@ + strip_format_codes(s@.skip(i as int)) == strip_format_codes(s@),
        decreases s.len() - i,
    {
        let ghost t = s@.skip(i as int);
        if s[i] == '\u{00A7}' {
            if i + 1 < s.len() {
                assert(t.skip(2) == s@.skip(i + 2));
                i = i + 2;
            } else {
                assert(strip_format_codes(t) == Seq::<char>::empty());
                i = i + 1;
                assert(s@.skip(i as int).len() == 0);
            }
        } else {
            r.push(s[i]);
            assert(t.skip(1) == s@.skip(i + 1));
            assert(strip_format_codes(t) == seq![s@[i as int]] + strip_format_codes(t.skip(1)));
            i = i + 1;
        }
    }
    assert(s@.skip(i as int).len() == 0);
    r
}

/// The plain MOTD of a `description` chat component: its text with `§` formatting codes removed.
pub fn motd_text(desc: &JsonValue) -> (r: String)
    ensures
        r@ == motd_of(*desc),
{
    let mut raw: Vec<char> = Vec::new();
    collect_chat(desc, &mut raw);
    let clean = strip_codes(raw.as_slice());
    crate::text::string_of(clean.as_slice())
}

/// What the launcher reports of a server's status reply, apart from the measured latency.
#[derive(Debug, Clone, PartialEq)]
pub struct StatusReport {
    pub players_online: i64,
    pub players_max: i64,
    pub version: String,
    pub motd: String,
}

/// `v.as_i64()`, or 0.
pub open spec fn int_or_zero(v: Option<JsonValue>) -> int {
    match v {
        Some(JsonValue::Number(Some(n))) => n as int,
        _ => 0,
    }
}

pub open spec fn nested(v: JsonValue, outer: Seq<char>, inner: Seq<char>) -> Option<JsonValue> {
    match json_get(v, outer) {
        Some(o) => json_get(o, inner),
        None => None,
    }
}

/// The report read from a status reply: `players.online` and `players.max` (0 when missing or
/// not integers), `version.name` (`"?"` when missing or not a string), and the plain MOTD of
/// `description` (empty when missing).
pub open spec fn status_report_of(root: JsonValue, r: StatusReport) -> bool {
    &&& r.players_online == int_or_zero(nested(root, "players"@, "online"@))
    &&& r.players_max == int_or_zero(nested(root, "players"@, "max"@))
    &&& r.version@ == match nested(root, "version"@, "name"@) {
        Some(JsonValue::Str(s)) => s@,
        _ => "?"@,
    }
    &&& r.motd@ == match json_get(root, "description"@) {
        Some(d) => motd_of(d),
        None => Seq::<char>::empty(),
    }
}

fn member_int(v: Option<&JsonValue>, key: &str) -> (n: i64)
    ensures
        n == int_or_zero(
            match v {
                Some(x) => json_get(*x, key@),
                None => None,
            },
        ),
{
    match v {
        Some(x) => match get_member(x, key) {
            Some(JsonValue::Number(Some(n))) => *n,
            _ => 0,
        },
        None => 0,
    }
}

/// Reads the players, version and MOTD out of a server's status reply.
pub fn status_report(root: &JsonValue) -> (r: StatusReport)
    ensures
        status_report_of(*root, r),
{
    let players = get_member(root, "players");
    let players_online = member_int(players, "online");
    let players_max = member_int(players, "max");
    let version = match get_member(root, "version") {
        Some(v) => match get_member(v, "name") {
            Some(JsonValue::Str(s)) => s.clone(),
            _ => "?".to_owned(),
        },
        None => "?".to_owned(),
    };
    let motd = match get_member(root, "description") {
        Some(d) => motd_text(d),
        None => String::new(),
    };
    StatusReport { players_online, players_max, version, motd }
}

/// The host of an SRV target, without its trailing dots (`trim_end_matches('.')`).
pub open spec fn srv_host(target: Seq<char>) -> Seq<char>
    decreases target.len(),
{
    if target.len() > 0 && target.last() == '.' {
        srv_host(target.drop_last())
    } else {
        target
    }
}

/// The host to connect to for an SRV record's target name.
pub fn srv_target_host(target: &str) -> (h: String)
    ensures
        h@ == srv_host(target@),
{
    let t = crate::text::chars_of(target);
    let mut n = t.len();
    assert(t@.take(n as int) == target@);
    while n > 0 && t[n - 1] == '.'
        invariant
            n <= t.len(),
            srv_host(t@.take(n as int)) == srv_host(target@),
        decreases n,
    {
        assert(t@.take(n as int).drop_last() == t@.take(n - 1));
        n = n - 1;
    }
    let v = crate::text::slice_chars(t.as_slice(), 0, n);
    assert(t@.take(n as int) == t@.subrange(0, n as int));
    proof {
        assert(t@.take(t@.len() as int) == t@);
    }
    crate::text::string_of(v.as_slice())
}

/// The SRV record that names the game server: `_minecraft._tcp.<domain>.`.
pub fn srv_query_name() -> (n: String)
    ensures
        n@ == "_minecraft._tcp."@ + crate::config::SERVER_SRV_DOMAIN@ + "."@,
{
    let a = crate::text::concat("_minecraft._tcp.", crate::config::SERVER_SRV_DOMAIN);
    crate::text::concat(a.as_str(), ".")
}

/// The address pinged: the SRV record's target when the lookup found one, else the proxy's
/// known host and port.
pub fn srv_or_default(lookup: Result<(String, u16), String>) -> (t: (String, u16))
    ensures
        match lookup {
            Ok((h, p)) => t.0@ == srv_host(h@) && t.1 == p,
            Err(_) => t.0@ == crate::config::SERVER_HOST@ && t.1 == crate::config::SERVER_PORT,
        },
{
    match lookup {
        Ok((h, p)) => (srv_target_host(h.as_str()), p),
        Err(_) => (crate::config::SERVER_HOST.to_owned(), crate::config::SERVER_PORT),
    }
}

/// How many times the server is pinged before the status is given up.
pub const MAX_PING_ATTEMPTS: u32 = 3;

pub const PING_TIMEOUT_MESSAGE: &'static str = "Тайм-аут подключения к серверу";

/// What an attempt to ping the server came to.
#[derive(Debug)]
pub enum PingOutcome {
    /// The server answered with this status document.
    Answered(JsonValue),
    /// The ping failed with this error.
    Failed(String),
    /// No answer within the time limit.
    TimedOut,
}

/// What follows a ping attempt.
#[derive(Debug)]
pub enum PingStep {
    /// Use this status document.
    Report(JsonValue),
    /// Wait, then try again with this attempt number.
    Retry { attempt: u32, last_error: String },
    /// Give up with the last error.
    GiveUp(String),
}

/// Decides what follows attempt `attempt` (counted from 1) of pinging the server.
pub fn after_ping(attempt: u32, outcome: PingOutcome) -> (step: PingStep)
    requires
        1 <= attempt <= MAX_PING_ATTEMPTS,
    ensures
        outcome matches PingOutcome::Answered(v) ==> step == PingStep::Report(v),
        !(outcome is Answered) ==> {
            let err = match outcome {
                PingOutcome::Failed(e) => e@,
                _ => PING_TIMEOUT_MESSAGE@,
            };
            if attempt < MAX_PING_ATTEMPTS {
                step matches PingStep::Retry { attempt: a, last_error } && a == attempt + 1
                    && last_error@ == err
            } else {
                step matches PingStep::GiveUp(e) && e@ == err
            }
        },
{
    let err = match outcome {
        PingOutcome::Answered(v) => {
            return PingStep::Report(v);
        },
        PingOutcome::Failed(e) => e,
        PingOutcome::TimedOut => PING_TIMEOUT_MESSAGE.to_owned(),
    };
    if attempt < MAX_PING_ATTEMPTS {
        PingStep::Retry { attempt: attempt + 1, last_error: err }
    } else {
        PingStep::GiveUp(err)
    }
}

/// How old the cached status may be and still be shown: thirty days.
pub const STATUS_FALLBACK_MAX_AGE_SECS: u64 = 2592000;

/// Where the last status read is kept, for an instant first paint.
pub fn status_cache_path(game_dir: &str) -> (p: Vec<String>)
    ensures
        crate::mods::path_view(p@) == crate::mods::path_in(game_dir@, "server_status_cache.json"@),
{
    crate::mods::join_path(game_dir, "server_status_cache.json")
}

} // verus!
