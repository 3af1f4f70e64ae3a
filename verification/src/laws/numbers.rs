//! Laws on numbers: as bytes, and as digits.
use crate::bytes;
use crate::protocol;
use crate::text;
use vstd::prelude::*;

verus! {

/// The number that decimal digits write, the first digit counting most.
pub open spec fn numeral(t: Seq<char>) -> int
    decreases t.len(),
{
    if t.len() == 0 {
        0
    } else {
        10 * numeral(t.drop_last()) + (t.last() as int - 48)
    }
}

/// Whether every character is one of the ten decimal digits.
pub open spec fn digits(t: Seq<char>) -> bool {
    forall|i: int| 0 <= i < t.len() ==> 48 <= (#[trigger] t[i]) as int <= 57
}

/// Whether a text writes a number in the usual way: digits, without a leading
/// zero.
pub open spec fn writes(t: Seq<char>, n: int) -> bool {
    &&& t.len() > 0
    &&& digits(t)
    &&& numeral(t) == n
    &&& t.len() > 1 ==> t[0] as int != 48
}

/// The value of a hexadecimal digit, and minus one for any other character.
pub open spec fn nibble(c: char) -> int {
    let u = c as int;
    if 48 <= u <= 57 {
        u - 48
    } else if 97 <= u <= 102 {
        u - 87
    } else if 65 <= u <= 70 {
        u - 55
    } else {
        -1
    }
}

/// A 16-bit number is its high byte times 256 and its low byte, in this order;
/// and so it is read.
pub proof fn lemma_be16(n: u16, hi: u8, lo: u8)
    ensures
        bytes::be16(n).len() == 2,
        bytes::be16(n)[0] * 256 + bytes::be16(n)[1] == n,
        bytes::from_be16(hi, lo) == hi * 256 + lo,
{
}

/// A 64-bit number is its eight bytes, each of which counts 256 times as much
/// as the one before it.
pub proof fn lemma_le64(n: u64)
    ensures
        bytes::le64(n).len() == 8,
        ({
            let b = bytes::le64(n);
            n == b[0] + 256 * (b[1] + 256 * (b[2] + 256 * (b[3] + 256 * (b[4] + 256 * (b[5] + 256 * (
            b[6] + 256 * b[7]))))))
        }),
{
    bytes::lemma_le64_roundtrip(n);
}

/// The decimal text of a number writes it in the usual way.
pub proof fn lemma_decimal_writes(n: nat)
    ensures
        writes(text::decimal(n), n as int),
    decreases n,
{
    let t = text::decimal(n);
    if n < 10 {
        assert(t.drop_last() =~= Seq::empty());
        reveal_with_fuel(numeral, 2);
    } else {
        lemma_decimal_writes(n / 10);
        let init = text::decimal(n / 10);
        assert(t.drop_last() =~= init);
        assert forall|i: int| 0 <= i < t.len() implies 48 <= (#[trigger] t[i]) as int <= 57 by {
            if i < init.len() {
                assert(t[i] == init[i]);
            }
        }
        assert(t[0] == init[0]);
        if init.len() == 1 {
            reveal_with_fuel(numeral, 2);
            assert(init.drop_last() =~= Seq::empty());
        }
    }
}

proof fn lemma_numeral_bound(t: Seq<char>)
    requires
        digits(t),
    ensures
        numeral(t) >= 0,
        t.len() > 0 && t[0] as int != 48 ==> numeral(t) > 0,
    decreases t.len(),
{
    if t.len() > 0 {
        let init = t.drop_last();
        assert forall|i: int| 0 <= i < init.len() implies 48 <= (#[trigger] init[i]) as int
            <= 57 by {
            assert(init[i] == t[i]);
        }
        lemma_numeral_bound(init);
        assert(48 <= t[t.len() - 1] as int <= 57);
        if init.len() > 0 {
            assert(init[0] == t[0]);
        }
    }
}

/// There is one way only to write a number in the usual way.
pub proof fn lemma_writes_once(t: Seq<char>, n: nat)
    requires
        writes(t, n as int),
    ensures
        t == text::decimal(n),
    decreases t.len(),
{
    let init = t.drop_last();
    let d = t.last() as int - 48;
    assert(48 <= t[t.len() - 1] as int <= 57);
    assert forall|i: int| 0 <= i < init.len() implies 48 <= (#[trigger] init[i]) as int <= 57 by {
        assert(init[i] == t[i]);
    }
    lemma_numeral_bound(init);
    if t.len() == 1 {
        reveal_with_fuel(numeral, 2);
        assert(n < 10);
        assert(t =~= text::decimal(n));
    } else {
        assert(init[0] == t[0]);
        assert(numeral(init) > 0);
        assert(n / 10 == numeral(init) && n % 10 == d);
        lemma_writes_once(init, n / 10);
        assert(t =~= init.push(t.last()));
        assert(t.last() == text::digit_char(d));
    }
}

/// A byte as hexadecimal text is two lower-case digits, of which the first
/// counts sixteen times as much.
pub proof fn lemma_hex2_writes(b: u8)
    ensures
        ({
            let t = text::hex2(b);
            &&& t.len() == 2
            &&& 0 <= nibble(t[0]) && 0 <= nibble(t[1])
            &&& nibble(t[0]) * 16 + nibble(t[1]) == b
            &&& !(65 <= t[0] as int <= 70) && !(65 <= t[1] as int <= 70)
        }),
{
}

/// An unsigned literal is one or more digits after an optional plus sign, and
/// denotes the number that they write. Nothing else is one.
pub proof fn lemma_unsigned(t: Seq<char>)
    ensures
        ({
            let d = if t.len() > 0 && t[0] == '+' {
                t.skip(1)
            } else {
                t
            };
            text::unsigned_value(t) == if d.len() > 0 && digits(d) {
                Some(numeral(d))
            } else {
                None::<int>
            }
        }),
{
    let d = if t.len() > 0 && t[0] == '+' {
        t.skip(1)
    } else {
        t
    };
    lemma_same_digits(d);
}

/// The two ways to speak of digits agree.
pub proof fn lemma_same_digits(t: Seq<char>)
    ensures
        text::all_decimal(t) == digits(t),
        digits(t) ==> text::decimal_value(t) == numeral(t),
    decreases t.len(),
{
    assert forall|i: int| 0 <= i < t.len() implies (text::decimal_digit(#[trigger] t[i]) is Some)
        == (48 <= t[i] as int <= 57) by {}
    if text::all_decimal(t) {
        assert(digits(t)) by {
            assert forall|i: int| 0 <= i < t.len() implies 48 <= (#[trigger] t[i]) as int <= 57 by {
                assert(text::decimal_digit(t[i]) is Some);
            }
        }
    }
    if digits(t) {
        assert forall|i: int| 0 <= i < t.len() implies text::decimal_digit(
            #[trigger] t[i],
        ) is Some by {
            assert(48 <= t[i] as int <= 57);
        }
        if t.len() > 0 {
            let init = t.drop_last();
            assert forall|i: int| 0 <= i < init.len() implies 48 <= (#[trigger] init[i]) as int
                <= 57 by {
                assert(init[i] == t[i]);
            }
            lemma_same_digits(init);
            assert(48 <= t[t.len() - 1] as int <= 57);
        }
    }
}

/// Whether a text is an address, one colon, and a port in the usual digits.
pub open spec fn names_target(r: Seq<char>, t: Seq<char>, port: int) -> bool {
    &&& r.len() > t.len() + 1
    &&& r.take(t.len() as int) == t
    &&& r[t.len() as int] == ':'
    &&& writes(r.skip(t.len() + 1int), port)
}

/// The text to connect to is the address as it is, one colon, and the port in
/// digits, and nothing else.
pub proof fn lemma_target(t: Seq<char>, port: u16)
    ensures
        names_target(protocol::target_text(t, port), t, port as int),
{
    reveal_strlit(":");
    let r = protocol::target_text(t, port);
    lemma_decimal_writes(port as nat);
    assert(r.take(t.len() as int) =~= t);
    assert(r.skip(t.len() + 1int) =~= text::decimal(port as nat));
}

} // verus!
