//! Text as sequences of characters: digits, decimal and hexadecimal numbers,
//! and conversion between strings, characters and bytes.
use vstd::prelude::*;
use vstd::utf8::*;

verus! {

// ---------------------------------------------------------------------------
// Strings and characters
// ---------------------------------------------------------------------------

/// `String::push` appends one character to the end of the string.
pub assume_specification[ String::push ](s: &mut String, ch: char)
    ensures
        final(s)@ == old(s)@.push(ch),
;

/// The characters of a string, in order.
pub fn chars_of(s: &str) -> (r: Vec<char>)
    ensures
        r@ == s@,
{
    let mut out: Vec<char> = Vec::new();
    for c in it: s.chars()
        invariant
            it.seq() == s@,
            out@ == s@.take(it.index()),
    {
        out.push(c);
        assert(out@ =~= s@.take(it.index() + 1));
    }
    assert(s@.take(s@.len() as int) =~= s@);
    out
}

/// The string made of the characters from `start` to `end`.
pub fn string_of(chars: &Vec<char>, start: usize, end: usize) -> (r: String)
    requires
        start <= end <= chars@.len(),
    ensures
        r@ == chars@.subrange(start as int, end as int),
{
    let mut out = String::new();
    let mut i: usize = start;
    while i < end
        invariant
            start <= i <= end <= chars@.len(),
            out@ == chars@.subrange(start as int, i as int),
        decreases end - i,
    {
        out.push(chars[i]);
        i += 1;
        assert(out@ =~= chars@.subrange(start as int, i as int));
    }
    out
}

// ---------------------------------------------------------------------------
// Digits
// ---------------------------------------------------------------------------

/// The lower-case digit of value `d`, for `d` below 16.
pub open spec fn digit_char(d: int) -> char {
    if d < 10 {
        ('0' as int + d) as char
    } else {
        ('a' as int + (d - 10)) as char
    }
}

pub fn digit(d: u8) -> (c: char)
    requires
        d < 16,
    ensures
        c == digit_char(d as int),
{
    if d < 10 {
        (48u8 + d) as char
    } else {
        (97u8 + (d - 10)) as char
    }
}

/// The value of a decimal digit.
pub open spec fn decimal_digit(c: char) -> Option<int> {
    if '0' <= c <= '9' {
        Some(c as int - '0' as int)
    } else {
        None
    }
}

/// The value of a hexadecimal digit of either case.
pub open spec fn hex_digit(c: char) -> Option<int> {
    if '0' <= c <= '9' {
        Some(c as int - '0' as int)
    } else if 'a' <= c <= 'f' {
        Some(c as int - 'a' as int + 10)
    } else if 'A' <= c <= 'F' {
        Some(c as int - 'A' as int + 10)
    } else {
        None
    }
}

pub fn decimal_digit_of(c: char) -> (r: Option<u8>)
    ensures
        r is Some <==> decimal_digit(c) is Some,
        r is Some ==> r->0 as int == decimal_digit(c)->0 && r->0 < 10,
{
    if '0' <= c && c <= '9' {
        Some((c as u32 - '0' as u32) as u8)
    } else {
        None
    }
}

pub fn hex_digit_of(c: char) -> (r: Option<u8>)
    ensures
        r is Some <==> hex_digit(c) is Some,
        r is Some ==> r->0 as int == hex_digit(c)->0 && r->0 < 16,
{
    if '0' <= c && c <= '9' {
        Some((c as u32 - '0' as u32) as u8)
    } else if 'a' <= c && c <= 'f' {
        Some((c as u32 - 'a' as u32 + 10) as u8)
    } else if 'A' <= c && c <= 'F' {
        Some((c as u32 - 'A' as u32 + 10) as u8)
    } else {
        None
    }
}

/// A byte as two lower-case hexadecimal digits.
pub open spec fn hex2(b: u8) -> Seq<char> {
    seq![digit_char((b / 16) as int), digit_char((b % 16) as int)]
}

/// Appends a byte as two hexadecimal digits.
pub fn push_hex2(s: &mut String, b: u8)
    ensures
        final(s)@ == old(s)@ + hex2(b),
{
    s.push(digit(b / 16));
    s.push(digit(b % 16));
    assert(s@ =~= old(s)@ + hex2(b));
}

// ---------------------------------------------------------------------------
// Decimal numbers
// ---------------------------------------------------------------------------

/// `n` written in decimal, without leading zeros.
pub open spec fn decimal(n: nat) -> Seq<char>
    decreases n,
{
    if n < 10 {
        seq![digit_char(n as int)]
    } else {
        decimal(n / 10).push(digit_char((n % 10) as int))
    }
}

/// Whether every character is a decimal digit.
pub open spec fn all_decimal(t: Seq<char>) -> bool {
    forall|i: int| 0 <= i < t.len() ==> decimal_digit(#[trigger] t[i]) is Some
}

/// The number that a sequence of decimal digits denotes.
pub open spec fn decimal_value(t: Seq<char>) -> int
    decreases t.len(),
{
    if t.len() == 0 {
        0
    } else {
        10 * decimal_value(t.drop_last()) + decimal_digit(t.last())->0
    }
}

/// The number that an unsigned integer literal denotes: one or more decimal
/// digits, after an optional plus sign.
pub open spec fn unsigned_value(t: Seq<char>) -> Option<int> {
    let digits = if t.len() > 0 && t[0] == '+' {
        t.skip(1)
    } else {
        t
    };
    if digits.len() > 0 && all_decimal(digits) {
        Some(decimal_value(digits))
    } else {
        None
    }
}

pub proof fn lemma_digit_char(d: int)
    requires
        0 <= d < 10,
    ensures
        decimal_digit(digit_char(d)) == Some(d),
        hex_digit(digit_char(d)) == Some(d),
{
}

/// The decimal text of a number is made of digits and denotes that number.
pub proof fn lemma_decimal(n: nat)
    ensures
        decimal(n).len() > 0,
        all_decimal(decimal(n)),
        decimal_value(decimal(n)) == n,
        n > 0 ==> decimal(n)[0] != '0',
    decreases n,
{
    let t = decimal(n);
    if n < 10 {
        lemma_digit_char(n as int);
        assert(t.drop_last().len() == 0);
        reveal_with_fuel(decimal_value, 2);
    } else {
        lemma_decimal(n / 10);
        lemma_digit_char((n % 10) as int);
        assert(t.drop_last() =~= decimal(n / 10));
    }
}

pub proof fn lemma_decimal_value_nonneg(t: Seq<char>)
    requires
        all_decimal(t),
    ensures
        decimal_value(t) >= 0,
    decreases t.len(),
{
    if t.len() > 0 {
        assert(decimal_digit(t[t.len() - 1]) is Some);
        assert forall|i: int| 0 <= i < t.drop_last().len() implies decimal_digit(
            #[trigger] t.drop_last()[i],
        ) is Some by {
            assert(decimal_digit(t[i]) is Some);
        }
        lemma_decimal_value_nonneg(t.drop_last());
    }
}

/// Appends `n` in decimal.
pub fn push_decimal(s: &mut String, n: u64)
    ensures
        final(s)@ == old(s)@ + decimal(n as nat),
    decreases n,
{
    if n >= 10 {
        push_decimal(s, n / 10);
    }
    s.push(digit((n % 10) as u8));
    assert(s@ =~= old(s)@ + decimal(n as nat));
}

/// Reads the characters from `start` to `end` as an unsigned integer literal
/// of at most `max`.
pub fn parse_unsigned(chars: &Vec<char>, start: usize, end: usize, max: u32) -> (r: Option<u32>)
    requires
        start <= end <= chars@.len(),
    ensures
        ({
            let value = unsigned_value(chars@.subrange(start as int, end as int));
            match r {
                Some(v) => value == Some(v as int) && v <= max,
                None => value is None || value->0 > max,
            }
        }),
{
    let ghost t = chars@.subrange(start as int, end as int);
    let mut first: usize = start;
    if start < end && chars[start] == '+' {
        first = start + 1;
    }
    let ghost digits = if t.len() > 0 && t[0] == '+' {
        t.skip(1)
    } else {
        t
    };
    assert(digits =~= chars@.subrange(first as int, end as int));
    if first == end {
        return None;
    }
    let mut acc: u64 = 0;
    let mut i: usize = first;
    while i < end
        invariant
            start <= first <= i <= end <= chars@.len(),
            first < end,
            digits == chars@.subrange(first as int, end as int),
            digits == (if t.len() > 0 && t[0] == '+' {
                t.skip(1)
            } else {
                t
            }),
            t == chars@.subrange(start as int, end as int),
            all_decimal(digits.take(i - first)),
            acc <= max ==> acc == decimal_value(digits.take(i - first)),
            acc > max ==> decimal_value(digits.take(i - first)) > max,
            acc <= 10 * max + 9,
        decreases end - i,
    {
        let ghost before = digits.take(i - first);
        let ghost after = digits.take(i + 1 - first);
        assert(after.drop_last() =~= before);
        assert(after.last() == chars@[i as int]);
        match decimal_digit_of(chars[i]) {
            Some(d) => {
                if acc <= max as u64 {
                    acc = acc * 10 + d as u64;
                }
                proof {
                    lemma_decimal_value_nonneg(before);
                    assert forall|j: int| 0 <= j < after.len() implies decimal_digit(
                        #[trigger] after[j],
                    ) is Some by {
                        if j < before.len() {
                            assert(before[j] == after[j]);
                        }
                    }
                }
            },
            None => {
                assert(digits[i - first] == chars@[i as int]);
                return None;
            },
        }
        i += 1;
    }
    assert(digits.take(end - first) =~= digits);
    if acc <= max as u64 {
        Some(acc as u32)
    } else {
        None
    }
}

// ---------------------------------------------------------------------------
// Searching, trimming and lines
// ---------------------------------------------------------------------------

/// The position of the first `c` in `t`, or the length of `t` where there is
/// none.
pub open spec fn find(t: Seq<char>, c: char) -> int
    decreases t.len(),
{
    if t.len() == 0 || t[0] == c {
        0
    } else {
        1 + find(t.drop_first(), c)
    }
}

pub proof fn lemma_find(t: Seq<char>, c: char)
    ensures
        0 <= find(t, c) <= t.len(),
        find(t, c) < t.len() ==> t[find(t, c)] == c,
        forall|j: int| 0 <= j < find(t, c) ==> t[j] != c,
    decreases t.len(),
{
    if t.len() > 0 && t[0] != c {
        lemma_find(t.drop_first(), c);
        let k = find(t.drop_first(), c);
        assert forall|j: int| 0 <= j < find(t, c) implies t[j] != c by {
            if j > 0 {
                assert(t.drop_first()[j - 1] == t[j]);
            }
        }
    }
}

/// The first `c` is where no `c` stands before it.
pub proof fn lemma_find_is(t: Seq<char>, c: char, k: int)
    requires
        0 <= k <= t.len(),
        k < t.len() ==> t[k] == c,
        forall|j: int| 0 <= j < k ==> t[j] != c,
    ensures
        find(t, c) == k,
{
    lemma_find(t, c);
    let f = find(t, c);
    if f < k {
        assert(t[f] != c);
    }
}

/// The first `c` at or after `start`, or `end` where there is none before it.
pub fn find_char(chars: &Vec<char>, start: usize, end: usize, c: char) -> (r: usize)
    requires
        start <= end <= chars@.len(),
    ensures
        start <= r <= end,
        r - start == find(chars@.subrange(start as int, end as int), c),
        r < end ==> chars@[r as int] == c,
        forall|j: int| start <= j < r ==> chars@[j] != c,
{
    let ghost t = chars@.subrange(start as int, end as int);
    let mut i: usize = start;
    while i < end && chars[i] != c
        invariant
            start <= i <= end <= chars@.len(),
            forall|j: int| start <= j < i ==> chars@[j] != c,
        decreases end - i,
    {
        i += 1;
    }
    proof {
        lemma_find_is(t, c, i - start);
    }
    i
}

/// The characters with the Unicode property White_Space.
pub open spec fn white_space(c: char) -> bool {
    let u = c as u32;
    ||| 0x09 <= u <= 0x0D
    ||| u == 0x20
    ||| u == 0x85
    ||| u == 0xA0
    ||| u == 0x1680
    ||| 0x2000 <= u <= 0x200A
    ||| u == 0x2028
    ||| u == 0x2029
    ||| u == 0x202F
    ||| u == 0x205F
    ||| u == 0x3000
}

pub fn is_white_space(c: char) -> (r: bool)
    ensures
        r == white_space(c),
{
    let u = c as u32;
    (0x09 <= u && u <= 0x0D) || u == 0x20 || u == 0x85 || u == 0xA0 || u == 0x1680 || (0x2000 <= u
        && u <= 0x200A) || u == 0x2028 || u == 0x2029 || u == 0x202F || u == 0x205F || u == 0x3000
}

/// `t` without the white space at its start.
pub open spec fn trim_start(t: Seq<char>) -> Seq<char>
    decreases t.len(),
{
    if t.len() > 0 && white_space(t[0]) {
        trim_start(t.drop_first())
    } else {
        t
    }
}

/// `t` without the white space at its end.
pub open spec fn trim_end(t: Seq<char>) -> Seq<char>
    decreases t.len(),
{
    if t.len() > 0 && white_space(t.last()) {
        trim_end(t.drop_last())
    } else {
        t
    }
}

/// `t` without the white space at either end.
pub open spec fn trim(t: Seq<char>) -> Seq<char> {
    trim_end(trim_start(t))
}

/// The part of the range from `start` to `end` that trimming leaves.
pub fn trim_range(chars: &Vec<char>, start: usize, end: usize) -> (r: (usize, usize))
    requires
        start <= end <= chars@.len(),
    ensures
        start <= r.0 <= r.1 <= end,
        chars@.subrange(r.0 as int, r.1 as int) == trim(chars@.subrange(start as int, end as int)),
{
    let ghost t = chars@.subrange(start as int, end as int);
    let mut i: usize = start;
    while i < end && is_white_space(chars[i])
        invariant
            start <= i <= end <= chars@.len(),
            trim_start(t) == trim_start(chars@.subrange(i as int, end as int)),
        decreases end - i,
    {
        let ghost rest = chars@.subrange(i as int, end as int);
        assert(rest.drop_first() =~= chars@.subrange(i + 1, end as int));
        i += 1;
    }
    let ghost u = chars@.subrange(i as int, end as int);
    assert(trim_start(t) == u);
    let mut j: usize = end;
    while i < j && is_white_space(chars[j - 1])
        invariant
            start <= i <= j <= end <= chars@.len(),
            trim_end(u) == trim_end(chars@.subrange(i as int, j as int)),
        decreases j - i,
    {
        let ghost rest = chars@.subrange(i as int, j as int);
        assert(rest.drop_last() =~= chars@.subrange(i as int, j - 1));
        j -= 1;
    }
    (i, j)
}

/// The lines of a text, each trimmed, without those that are then empty. A line
/// ends with a line feed or with the text.
pub open spec fn text_lines(t: Seq<char>) -> Seq<Seq<char>>
    decreases t.len(),
{
    if t.len() == 0 {
        Seq::empty()
    } else {
        let end = find(t, '\n');
        let line = trim(t.take(end));
        let rest = if 0 <= end < t.len() {
            text_lines(t.skip(end + 1))
        } else {
            Seq::empty()
        };
        if line.len() == 0 {
            rest
        } else {
            seq![line] + rest
        }
    }
}

/// The characters of each string.
pub open spec fn texts(v: Seq<String>) -> Seq<Seq<char>> {
    v.map_values(|s: String| s@)
}

pub fn lines_of(chars: &Vec<char>) -> (r: Vec<String>)
    ensures
        texts(r@) == text_lines(chars@),
{
    let mut out: Vec<String> = Vec::new();
    let mut i: usize = 0;
    assert(chars@.skip(0) =~= chars@);
    while i < chars.len()
        invariant
            i <= chars@.len(),
            text_lines(chars@) == texts(out@) + text_lines(chars@.skip(i as int)),
        decreases chars@.len() - i,
    {
        let ghost rest = chars@.skip(i as int);
        let ghost before = texts(out@);
        assert(rest =~= chars@.subrange(i as int, chars@.len() as int));
        let end = find_char(chars, i, chars.len(), '\n');
        let (a, b) = trim_range(chars, i, end);
        assert(rest.take(end - i) =~= chars@.subrange(i as int, end as int));
        if a < b {
            let line = string_of(chars, a, b);
            out.push(line);
            assert(texts(out@) =~= before.push(line@));
        }
        if end < chars.len() {
            assert(rest.skip(end - i + 1) =~= chars@.skip(end + 1));
            i = end + 1;
        } else {
            i = end;
            assert(text_lines(chars@.skip(i as int)) =~= Seq::empty());
        }
        assert(text_lines(chars@) =~= texts(out@) + text_lines(chars@.skip(i as int)));
    }
    assert(text_lines(chars@.skip(i as int)) =~= Seq::empty());
    assert(texts(out@) =~= text_lines(chars@));
    out
}

// ---------------------------------------------------------------------------
// UTF-8
// ---------------------------------------------------------------------------

/// What `String::from_utf8_lossy` makes of bytes that are not valid UTF-8.
pub uninterp spec fn utf8_replaced(bytes: Seq<u8>) -> Seq<char>;

/// The text of bytes read as UTF-8. Bytes that are not valid are replaced.
pub open spec fn lossy_text(bytes: Seq<u8>) -> Seq<char> {
    if valid_utf8(bytes) {
        decode_utf8(bytes)
    } else {
        utf8_replaced(bytes)
    }
}

/// Calls `String::from_utf8_lossy`, which decodes valid UTF-8, and replaces the
/// parts that are not valid. Which replacement characters stand where is left
/// to the name `utf8_replaced`.
#[verifier::external_body]
pub(crate) fn lossy_string(bytes: &[u8]) -> (r: String)
    ensures
        valid_utf8(bytes@) ==> r@ == decode_utf8(bytes@),
        !valid_utf8(bytes@) ==> r@ == utf8_replaced(bytes@),
{
    String::from_utf8_lossy(bytes).into_owned()
}

/// Text that was encoded as UTF-8 decodes to itself.
pub proof fn lemma_lossy_of_encoded(t: Seq<char>)
    ensures
        lossy_text(encode_utf8(t)) == t,
{
    encode_utf8_valid_utf8(t);
    encode_utf8_decode_utf8(t);
}

} // verus!
