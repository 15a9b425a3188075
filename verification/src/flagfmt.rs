//! The flag line the encoder prints: the two 64-bit flag halves as 16
//! lowercase hex digits each, concatenated inside `flag{...}`.

use vstd::prelude::*;

verus! {

/// The ASCII byte of one hex digit, lowercase.
pub open spec fn hex_digit(d: u64) -> u8 {
    if d < 10 {
        (0x30 + d) as u8
    } else {
        (0x61 + (d - 10)) as u8
    }
}

/// The 16 hex digits of a 64-bit value, most significant first.
pub open spec fn hex16(x: u64) -> Seq<u8> {
    Seq::new(16, |i: int| hex_digit((x >> ((60 - 4 * i) as u64)) & 0xf))
}

/// The full flag line, as bytes.
pub open spec fn flag_line_spec(a: u64, b: u64) -> Seq<u8> {
    seq![102u8, 108u8, 97u8, 103u8, 123u8] + hex16(a) + hex16(b) + seq![125u8]
}

/// Append the 16 hex digits of `x`, most significant first.
fn push_hex16(out: &mut Vec<u8>, x: u64)
    ensures
        final(out)@ == old(out)@ + hex16(x),
{
    let ghost orig = out@;
    let mut i: usize = 0;
    proof {
        assert(orig + hex16(x).take(0) =~= orig);
    }
    while i < 16
        invariant
            i <= 16,
            out@ == orig + hex16(x).take(i as int),
        decreases 16 - i,
    {
        let sh: u64 = 60 - 4 * (i as u64);
        let d: u64 = (x >> sh) & 0xf;
        proof {
            assert((x >> sh) & 0xf < 16) by (bit_vector);
        }
        let c: u8 = if d < 10 {
            (48 + d) as u8
        } else {
            (87 + d) as u8
        };
        out.push(c);
        proof {
            assert(c == hex_digit(d));
            assert(hex16(x)[i as int] == hex_digit((x >> ((60 - 4 * (i as int)) as u64)) & 0xf));
            assert(hex16(x).take(i + 1) =~= hex16(x).take(i as int).push(hex16(x)[i as int]));
            assert(out@ =~= orig + hex16(x).take(i + 1));
        }
        i = i + 1;
    }
    proof {
        assert(hex16(x).take(16) =~= hex16(x));
    }
}

/// The flag line for the two halves: `flag{` + 32 hex digits + `}`.
pub fn flag_line(a: u64, b: u64) -> (r: Vec<u8>)
    ensures
        r@ == flag_line_spec(a, b),
{
    let mut out: Vec<u8> = Vec::new();
    out.push(102);
    out.push(108);
    out.push(97);
    out.push(103);
    out.push(123);
    proof {
        assert(out@ =~= seq![102u8, 108u8, 97u8, 103u8, 123u8]);
    }
    push_hex16(&mut out, a);
    push_hex16(&mut out, b);
    out.push(125);
    proof {
        assert(out@ =~= flag_line_spec(a, b));
    }
    out
}

} // verus!
