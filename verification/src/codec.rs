//! The wire encoding of the simulator's messages.
//!
//! Payloads travel between ranks as length-prefixed little-endian byte
//! records.  Both ends of the wire use this module, so the encoding only
//! has to agree with itself: decoding is the exact inverse of encoding,
//! and rejects every buffer the encoder cannot produce.

use vstd::prelude::*;

verus! {

/// 256 to the power `n`.
pub open spec fn pow256(n: int) -> int
    decreases n,
{
    if n <= 0 {
        1
    } else {
        256 * pow256(n - 1)
    }
}

/// The `n` little-endian base-256 digits of `x`.
pub open spec fn le_bytes(x: int, n: int) -> Seq<u8>
    decreases n,
{
    if n <= 0 {
        Seq::empty()
    } else {
        seq![(x % 256) as u8] + le_bytes(x / 256, n - 1)
    }
}

/// The value a little-endian byte string denotes.
pub open spec fn le_value(bs: Seq<u8>) -> int
    decreases bs.len(),
{
    if bs.len() == 0 {
        0
    } else {
        bs[0] + 256 * le_value(bs.drop_first())
    }
}

/// Encoding a value below `pow256(n)` into `n` digits loses nothing.
pub proof fn lemma_le_round_trip(x: int, n: int)
    requires
        0 <= x < pow256(n),
    ensures
        le_value(le_bytes(x, n)) == x,
    decreases n,
{
    if n > 0 {
        vstd::arithmetic::div_mod::lemma_fundamental_div_mod(x, 256);
        assert(x / 256 < pow256(n - 1)) by {
            if x / 256 >= pow256(n - 1) {
                assert(x >= 256 * pow256(n - 1)) by (nonlinear_arith)
                    requires
                        x / 256 >= pow256(n - 1),
                        x >= 0,
                        x == 256 * (x / 256) + x % 256,
                        x % 256 >= 0,
                ;
            }
        }
        lemma_le_round_trip(x / 256, n - 1);
        let bs = le_bytes(x, n);
        assert(bs.drop_first() =~= le_bytes(x / 256, n - 1));
        assert(bs[0] == (x % 256) as u8);
    }
}

/// Little-endian byte strings have as many digits as their length says.
pub proof fn lemma_le_bytes_len(x: int, n: int)
    requires
        n >= 0,
    ensures
        le_bytes(x, n).len() == n,
    decreases n,
{
    if n > 0 {
        lemma_le_bytes_len(x / 256, n - 1);
    }
}

/// Appends the eight little-endian bytes of `x`.
pub fn push_u64_le(buf: &mut Vec<u8>, x: u64)
    ensures
        final(buf)@ == old(buf)@ + le_bytes(x as int, 8),
{
    let ghost base = buf@;
    let mut v: u64 = x;
    let mut k: usize = 0;
    while k < 8
        invariant
            0 <= k <= 8,
            le_bytes(x as int, 8) == buf@.skip(base.len() as int) + le_bytes(v as int, 8 - k),
            buf@.len() >= base.len(),
            buf@.subrange(0, base.len() as int) == base,
        decreases 8 - k,
    {
        let ghost before = buf@;
        let b = (v % 256) as u8;
        buf.push(b);
        proof {
            assert(le_bytes(v as int, 8 - k) =~= seq![b] + le_bytes(v as int / 256, 8 - k - 1));
            assert(buf@.skip(base.len() as int) =~= before.skip(base.len() as int) + seq![b]);
            assert(before.skip(base.len() as int) + (seq![b] + le_bytes(v as int / 256, 8 - k - 1))
                =~= (before.skip(base.len() as int) + seq![b]) + le_bytes(
                v as int / 256,
                8 - k - 1,
            ));
            assert(buf@.subrange(0, base.len() as int) =~= base);
        }
        v = v / 256;
        k = k + 1;
    }
    proof {
        assert(le_bytes(v as int, 0) =~= Seq::<u8>::empty());
        assert(buf@.skip(base.len() as int) + Seq::<u8>::empty() =~= buf@.skip(base.len() as int));
        assert(buf@ =~= base + buf@.skip(base.len() as int));
    }
}

/// Reads the value of the eight little-endian bytes at `pos`.
pub fn read_u64_le(buf: &Vec<u8>, pos: usize) -> (r: u64)
    requires
        pos + 8 <= buf@.len(),
    ensures
        r as int == le_value(buf@.subrange(pos as int, pos as int + 8)),
{
    let ghost whole = buf@.subrange(pos as int, pos as int + 8);
    let n = buf.len();
    let mut v: u64 = 0;
    let mut k: usize = 8;
    while k > 0
        invariant
            0 <= k <= 8,
            n == buf@.len(),
            pos + 8 <= n,
            whole == buf@.subrange(pos as int, pos as int + 8),
            v as int == le_value(buf@.subrange(pos + k, pos as int + 8)),
            (v as int) < pow256(8 - k),
        decreases k,
    {
        proof {
            lemma_le_value_bound(buf@.subrange(pos + k - 1, pos as int + 8));
            assert(pow256(9 - k) == 256 * pow256(8 - k));
            assert(buf@.subrange(pos + k - 1, pos as int + 8).drop_first() =~= buf@.subrange(
                pos + k,
                pos as int + 8,
            ));
            assert(pow256(8 - (k - 1)) <= pow256(8)) by {
                lemma_pow256_increases(8 - (k - 1), 8);
            }
            assert(pow256(0) == 1);
            assert(pow256(1) == 256);
            assert(pow256(2) == 0x1_0000);
            assert(pow256(3) == 0x100_0000);
            assert(pow256(4) == 0x1_0000_0000);
            assert(pow256(5) == 0x100_0000_0000);
            assert(pow256(6) == 0x1_0000_0000_0000);
            assert(pow256(7) == 0x100_0000_0000_0000);
            assert(pow256(8) == 0x1_0000_0000_0000_0000);
        }
        let idx: usize = pos + k - 1;
        let b = buf[idx];
        v = v * 256 + (b as u64);
        k = k - 1;
    }
    proof {
        assert(buf@.subrange(pos as int, pos as int + 8) == whole);
    }
    v
}

/// A value is below 256 to the number of its digits.
pub proof fn lemma_le_value_bound(bs: Seq<u8>)
    ensures
        0 <= le_value(bs) < pow256(bs.len() as int),
    decreases bs.len(),
{
    if bs.len() > 0 {
        lemma_le_value_bound(bs.drop_first());
    }
}

/// `pow256` grows with its argument.
pub proof fn lemma_pow256_increases(a: int, b: int)
    requires
        a <= b,
    ensures
        pow256(a) <= pow256(b),
    decreases b - a,
{
    if a < b {
        lemma_pow256_increases(a, b - 1);
        assert(pow256(b - 1) >= 1) by {
            lemma_pow256_pos(b - 1);
        }
    }
}

/// `pow256` is positive.
pub proof fn lemma_pow256_pos(n: int)
    ensures
        pow256(n) >= 1,
    decreases n,
{
    if n > 0 {
        lemma_pow256_pos(n - 1);
    }
}


/// The one-byte encoding of a flag.
pub open spec fn bool_byte(b: bool) -> u8 {
    if b {
        1
    } else {
        0
    }
}

/// Reads an eight-byte little-endian number.
pub open spec fn parse_u64_at(bs: Seq<u8>, pos: int) -> Option<(u64, int)> {
    if 0 <= pos && pos + 8 <= bs.len() {
        Some((le_value(bs.subrange(pos, pos + 8)) as u64, pos + 8))
    } else {
        None
    }
}

/// Reads an eight-byte little-endian number that must fit a `usize`.
pub open spec fn parse_usize_at(bs: Seq<u8>, pos: int) -> Option<(usize, int)> {
    match parse_u64_at(bs, pos) {
        Some((x, p)) => if x <= usize::MAX as u64 {
            Some((x as usize, p))
        } else {
            None
        },
        None => None,
    }
}

/// Reads a one-byte flag; only the two canonical bytes are accepted.
pub open spec fn parse_bool_at(bs: Seq<u8>, pos: int) -> Option<(bool, int)> {
    if 0 <= pos && pos + 1 <= bs.len() {
        if bs[pos] == 1u8 {
            Some((true, pos + 1))
        } else if bs[pos] == 0u8 {
            Some((false, pos + 1))
        } else {
            None
        }
    } else {
        None
    }
}

/// Reading eight bytes where an encoder just wrote a number yields that
/// number.
pub proof fn lemma_parse_u64_of_enc(bs: Seq<u8>, pos: int, x: u64, rest: Seq<u8>)
    requires
        0 <= pos == bs.len(),
    ensures
        parse_u64_at(bs + le_bytes(x as int, 8) + rest, pos) == Some((x, pos + 8)),
{
    lemma_le_bytes_len(x as int, 8);
    let whole = bs + le_bytes(x as int, 8) + rest;
    assert(whole.subrange(pos, pos + 8) =~= le_bytes(x as int, 8));
    assert(pow256(8) == 0x1_0000_0000_0000_0000) by {
        assert(pow256(0) == 1);
        assert(pow256(1) == 256);
        assert(pow256(2) == 0x1_0000);
        assert(pow256(3) == 0x100_0000);
        assert(pow256(4) == 0x1_0000_0000);
        assert(pow256(5) == 0x100_0000_0000);
        assert(pow256(6) == 0x1_0000_0000_0000);
        assert(pow256(7) == 0x100_0000_0000_0000);
    }
    lemma_le_round_trip(x as int, 8);
}

/// Appends the canonical byte of a flag.
pub fn push_bool(buf: &mut Vec<u8>, b: bool)
    ensures
        final(buf)@ == old(buf)@ + seq![bool_byte(b)],
{
    if b {
        buf.push(1);
    } else {
        buf.push(0);
    }
    proof {
        assert(buf@ =~= old(buf)@ + seq![bool_byte(b)]);
    }
}

/// Reading one byte where an encoder just wrote a flag yields that
/// flag.
pub proof fn lemma_parse_bool_of_enc(bs: Seq<u8>, b: bool, rest: Seq<u8>)
    ensures
        parse_bool_at(bs + seq![bool_byte(b)] + rest, bs.len() as int) == Some((
            b,
            bs.len() as int + 1,
        )),
{
    let whole = bs + seq![bool_byte(b)] + rest;
    assert(whole[bs.len() as int] == bool_byte(b));
}

/// Reads an eight-byte number at `pos`, if the buffer is long enough.
pub fn take_u64(data: &Vec<u8>, pos: usize) -> (r: Option<(u64, usize)>)
    ensures
        match r {
            Some((x, p)) => parse_u64_at(data@, pos as int) == Some((x, p as int)) && p == pos + 8
                && p <= data@.len(),
            None => parse_u64_at(data@, pos as int) is None,
        },
{
    if data.len() < 8 || pos > data.len() - 8 {
        None
    } else {
        proof {
            lemma_le_value_bound(data@.subrange(pos as int, pos as int + 8));
            assert(pow256(0) == 1);
            assert(pow256(1) == 256);
            assert(pow256(2) == 0x1_0000);
            assert(pow256(3) == 0x100_0000);
            assert(pow256(4) == 0x1_0000_0000);
            assert(pow256(5) == 0x100_0000_0000);
            assert(pow256(6) == 0x1_0000_0000_0000);
            assert(pow256(7) == 0x100_0000_0000_0000);
            assert(pow256(8) == 0x1_0000_0000_0000_0000);
        }
        let x = read_u64_le(data, pos);
        Some((x, pos + 8))
    }
}

/// Reads an eight-byte number at `pos` that must fit a `usize`.
pub fn take_usize(data: &Vec<u8>, pos: usize) -> (r: Option<(usize, usize)>)
    ensures
        match r {
            Some((x, p)) => parse_usize_at(data@, pos as int) == Some((x, p as int)) && p == pos + 8
                && p <= data@.len(),
            None => parse_usize_at(data@, pos as int) is None,
        },
{
    match take_u64(data, pos) {
        Some((x, p)) => {
            if x <= usize::MAX as u64 {
                Some((x as usize, p))
            } else {
                None
            }
        },
        None => None,
    }
}

/// Reads a one-byte flag at `pos`.
pub fn take_bool(data: &Vec<u8>, pos: usize) -> (r: Option<(bool, usize)>)
    ensures
        match r {
            Some((b, p)) => parse_bool_at(data@, pos as int) == Some((b, p as int)) && p == pos + 1
                && p <= data@.len(),
            None => parse_bool_at(data@, pos as int) is None,
        },
{
    if pos < data.len() {
        let b = data[pos];
        if b == 1 {
            Some((true, pos + 1))
        } else if b == 0 {
            Some((false, pos + 1))
        } else {
            None
        }
    } else {
        None
    }
}

/// Relies on `String::from_utf8` of std: it succeeds exactly on valid
/// UTF-8 and returns the string those bytes spell.
#[verifier::external_type_specification]
#[verifier::external_body]
pub struct ExFromUtf8Error(std::string::FromUtf8Error);

pub assume_specification[ String::from_utf8 ](v: Vec<u8>) -> (r: Result<
    String,
    std::string::FromUtf8Error,
>)
    ensures
        match r {
            Ok(s) => vstd::utf8::valid_utf8(v@) && s@ == vstd::utf8::decode_utf8(v@),
            Err(_) => !vstd::utf8::valid_utf8(v@),
        },
;

} // verus!
