//! Text form of a signature: each byte in upper-case hexadecimal without
//! leading zeros, followed by a space.
use vstd::prelude::*;
use vstd::string::*;

verus! {

const HEX_DIGITS: &'static str = "0123456789ABCDEF";

/// The upper-case hexadecimal digit of a value below 16.
pub open spec fn hex_digit(d: int) -> char {
    seq!['0', '1', '2', '3', '4', '5', '6', '7', '8', '9', 'A', 'B', 'C', 'D', 'E', 'F'][d]
}

/// A byte in upper-case hexadecimal, without leading zeros.
pub open spec fn spec_hex(b: u8) -> Seq<char> {
    if b < 16 {
        seq![hex_digit(b as int)]
    } else {
        seq![hex_digit((b / 16) as int), hex_digit((b % 16) as int)]
    }
}

/// Each byte in hexadecimal followed by a space.
pub open spec fn spec_hex_dump(bytes: Seq<u8>) -> Seq<char>
    decreases bytes.len(),
{
    if bytes.len() == 0 {
        Seq::empty()
    } else {
        spec_hex_dump(bytes.drop_last()) + spec_hex(bytes.last()) + seq![' ']
    }
}

fn append_digit(out: &mut String, d: usize)
    requires
        d < 16,
    ensures
        final(out)@ == old(out)@.push(hex_digit(d as int)),
{
    proof {
        reveal_strlit("0123456789ABCDEF");
    }
    let digit = HEX_DIGITS.substring_char(d, d + 1);
    out.append(digit);
    proof {
        assert(digit@ =~= seq![hex_digit(d as int)]);
    }
}

/// Formats a signature the way it is printed: `{:X} ` for each byte.
pub fn hex_dump(signature: &[u8]) -> (s: String)
    ensures
        s@ == spec_hex_dump(signature@),
{
    let mut out = String::new();
    for i in 0..signature.len()
        invariant
            out@ == spec_hex_dump(signature@.take(i as int)),
    {
        let byte = signature[i];
        let ghost before = out@;
        if byte >= 16 {
            append_digit(&mut out, (byte / 16) as usize);
        }
        append_digit(&mut out, (byte % 16) as usize);
        out.append(" ");
        proof {
            reveal_strlit(" ");
            assert(signature@.take(i + 1 as int).drop_last() =~= signature@.take(i as int));
            assert(out@ =~= spec_hex_dump(signature@.take(i + 1 as int)));
        }
    }
    proof {
        assert(signature@.take(signature@.len() as int) =~= signature@);
    }
    out
}

/// A digit below ten is written '0' to '9', one from ten on 'A' to 'F';
/// a byte below sixteen takes one digit, any other two, high digit first;
/// and each byte of the dump is followed by a space.
pub proof fn lemma_hex_digits(d: int, b: u8, bytes: Seq<u8>)
    requires
        0 <= d < 16,
    ensures
        d < 10 ==> hex_digit(d) as u32 == 48 + d,
        d >= 10 ==> hex_digit(d) as u32 == 55 + d,
        b < 16 ==> spec_hex(b) == seq![hex_digit(b as int)],
        b >= 16 ==> spec_hex(b) == seq![hex_digit(b as int / 16), hex_digit(b as int % 16)],
        spec_hex_dump(bytes.push(b)) == spec_hex_dump(bytes) + spec_hex(b) + seq![' '],
        spec_hex_dump(Seq::empty()).len() == 0,
{
    assert(bytes.push(b).drop_last() =~= bytes);
    assert(d == 0 || d == 1 || d == 2 || d == 3 || d == 4 || d == 5 || d == 6 || d == 7 || d == 8
        || d == 9 || d == 10 || d == 11 || d == 12 || d == 13 || d == 14 || d == 15);
}

} // verus!
