//! Rendering numbers and byte strings as text: decimal, fixed-width and
//! per-byte lower-case hexadecimal.
use vstd::prelude::*;
use crate::text::concat_chars;

verus! {

/// The character of a digit value below 16, lower-case for 10..15.
pub open spec fn hex_char(d: int) -> char {
    if d < 10 {
        ((48 + d) as u8) as char
    } else {
        ((87 + d) as u8) as char
    }
}

/// The character of a decimal digit value.
pub open spec fn digit_char(d: int) -> char {
    ((48 + d) as u8) as char
}

/// The decimal digits of `n`, without leading zeros (`0` for zero), as
/// `Display` writes an unsigned integer.
pub open spec fn decimal_text(n: nat) -> Seq<char>
    decreases n,
{
    if n < 10 {
        seq![digit_char(n as int)]
    } else {
        decimal_text(n / 10) + seq![digit_char((n % 10) as int)]
    }
}

fn hex_char_exec(d: u8) -> (c: char)
    requires
        d < 16,
    ensures
        c == hex_char(d as int),
{
    if d < 10 {
        (48 + d) as char
    } else {
        (87 + d) as char
    }
}

/// The decimal text of `n` (see `decimal_text`).
pub fn decimal_exec(n: u128) -> (r: Vec<char>)
    ensures
        r@ == decimal_text(n as nat),
    decreases n,
{
    if n < 10 {
        let mut r: Vec<char> = Vec::new();
        r.push((48 + n as u8) as char);
        assert(r@ =~= seq![digit_char(n as int)]);
        r
    } else {
        let mut r = decimal_exec(n / 10);
        let d = (n % 10) as u8;
        r.push((48 + d) as char);
        assert(r@ =~= decimal_text((n / 10) as nat) + seq![digit_char((n % 10) as int)]);
        r
    }
}

/// `n` as exactly 16 lower-case hexadecimal digits (`{:016x}`).
pub open spec fn hex16(n: u64) -> Seq<char> {
    Seq::new(16, |i: int| hex_char(((n >> ((60 - 4 * i) as u64)) & 0xf) as int))
}

/// The 16 lower-case hexadecimal digits of `n`, zero-padded (see `hex16`).
pub fn hex16_exec(n: u64) -> (r: Vec<char>)
    ensures
        r@ == hex16(n),
{
    let mut r: Vec<char> = Vec::new();
    for i in 0..16u64
        invariant
            r@ == hex16(n).take(i as int),
    {
        let shift: u64 = 60 - 4 * i;
        let d = (n >> shift) & 0xf;
        assert(d < 16) by (bit_vector)
            requires
                d == (n >> shift) & 0xf,
        ;
        r.push(hex_char_exec(d as u8));
        assert(r@ =~= hex16(n).take(i + 1));
    }
    assert(r@ =~= hex16(n));
    r
}

/// Every byte as two lower-case hexadecimal digits, high nibble first, as
/// the `LowerHex` rendering of a digest.
pub open spec fn hex_bytes(b: Seq<u8>) -> Seq<char>
    decreases b.len(),
{
    if b.len() == 0 {
        Seq::empty()
    } else {
        hex_bytes(b.drop_last()) + seq![
            hex_char((b.last() >> 4u8) as int),
            hex_char((b.last() & 0xfu8) as int),
        ]
    }
}

/// Two lower-case hexadecimal digits per byte (see `hex_bytes`).
pub fn hex_bytes_exec(b: &[u8]) -> (r: Vec<char>)
    ensures
        r@ == hex_bytes(b@),
{
    let mut r: Vec<char> = Vec::new();
    for i in 0..b.len()
        invariant
            r@ == hex_bytes(b@.take(i as int)),
    {
        assert(b@.take(i + 1).drop_last() =~= b@.take(i as int));
        let x = b[i];
        let hi = x >> 4u8;
        let lo = x & 0xfu8;
        assert(hi < 16 && lo < 16) by (bit_vector)
            requires
                hi == x >> 4u8,
                lo == x & 0xfu8,
        ;
        let mut pair: Vec<char> = Vec::new();
        pair.push(hex_char_exec(hi));
        pair.push(hex_char_exec(lo));
        concat_chars(&mut r, &pair);
        assert(r@ =~= hex_bytes(b@.take(i + 1)));
    }
    assert(b@.take(b@.len() as int) =~= b@);
    r
}

} // verus!
