//! Integers as bytes.
use vstd::prelude::*;

verus! {

/// A 16-bit number, high byte first.
pub open spec fn be16(n: u16) -> Seq<u8> {
    seq![(n / 256) as u8, (n % 256) as u8]
}

/// The number whose bytes, high byte first, are `hi` and `lo`.
pub open spec fn from_be16(hi: u8, lo: u8) -> u16 {
    (hi * 256 + lo) as u16
}

/// A 64-bit number, low byte first.
pub open spec fn le64(n: u64) -> Seq<u8> {
    seq![
        (n % 256) as u8,
        (n / 0x100 % 256) as u8,
        (n / 0x1_0000 % 256) as u8,
        (n / 0x100_0000 % 256) as u8,
        (n / 0x1_0000_0000 % 256) as u8,
        (n / 0x100_0000_0000 % 256) as u8,
        (n / 0x1_0000_0000_0000 % 256) as u8,
        (n / 0x100_0000_0000_0000 % 256) as u8,
    ]
}

/// Reading the bytes of a number gives the number.
pub proof fn lemma_be16_roundtrip(n: u16)
    ensures
        from_be16(be16(n)[0], be16(n)[1]) == n,
{
}

/// The number whose bytes, low byte first, are those of `b`.
pub open spec fn from_le64(b: Seq<u8>) -> int {
    b[0] + 0x100 * (b[1] + 0x100 * (b[2] + 0x100 * (b[3] + 0x100 * (b[4] + 0x100 * (b[5] + 0x100 * (
    b[6] + 0x100 * b[7]))))))
}

/// Reading the bytes of a number gives the number.
pub proof fn lemma_le64_roundtrip(n: u64)
    ensures
        from_le64(le64(n)) == n,
{
    let n1 = n / 0x100;
    let n2 = n / 0x1_0000;
    let n3 = n / 0x100_0000;
    let n4 = n / 0x1_0000_0000;
    let n5 = n / 0x100_0000_0000;
    let n6 = n / 0x1_0000_0000_0000;
    let n7 = n / 0x100_0000_0000_0000;
    assert(n7 < 256);
    assert(n6 == 0x100 * n7 + n6 % 256) by {
        assert(n6 / 256 == n7);
    }
    assert(n5 == 0x100 * n6 + n5 % 256) by {
        assert(n5 / 256 == n6);
    }
    assert(n4 == 0x100 * n5 + n4 % 256) by {
        assert(n4 / 256 == n5);
    }
    assert(n3 == 0x100 * n4 + n3 % 256) by {
        assert(n3 / 256 == n4);
    }
    assert(n2 == 0x100 * n3 + n2 % 256) by {
        assert(n2 / 256 == n3);
    }
    assert(n1 == 0x100 * n2 + n1 % 256) by {
        assert(n1 / 256 == n2);
    }
}

/// Different numbers have different bytes.
pub proof fn lemma_le64_injective(a: u64, b: u64)
    requires
        le64(a) == le64(b),
    ensures
        a == b,
{
    lemma_le64_roundtrip(a);
    lemma_le64_roundtrip(b);
}

pub fn read_be16(hi: u8, lo: u8) -> (n: u16)
    ensures
        n == from_be16(hi, lo),
{
    hi as u16 * 256 + lo as u16
}

/// Appends a 16-bit number, high byte first.
pub fn push_be16(out: &mut Vec<u8>, n: u16)
    ensures
        final(out)@ == old(out)@ + be16(n),
{
    out.push((n / 256) as u8);
    out.push((n % 256) as u8);
    assert(out@ =~= old(out)@ + be16(n));
}

/// Appends the bytes of a slice.
pub fn push_all(out: &mut Vec<u8>, data: &[u8])
    ensures
        final(out)@ == old(out)@ + data@,
{
    let mut i: usize = 0;
    while i < data.len()
        invariant
            i <= data@.len(),
            out@ == old(out)@ + data@.take(i as int),
        decreases data@.len() - i,
    {
        out.push(data[i]);
        i += 1;
        assert(out@ =~= old(out)@ + data@.take(i as int));
    }
    assert(data@.take(i as int) =~= data@);
}

} // verus!
