//! Internet addresses as text.
use crate::text;
use vstd::prelude::*;

verus! {

// ---------------------------------------------------------------------------
// IPv4
// ---------------------------------------------------------------------------

/// Four octets in decimal, joined by dots.
pub open spec fn ipv4_text(o: Seq<u8>) -> Seq<char> {
    text::decimal(o[0] as nat) + seq!['.'] + (text::decimal(o[1] as nat) + seq!['.'] + (text::decimal(o[2] as nat)
        + seq!['.'] + text::decimal(o[3] as nat)))
}

/// The octets that a text denotes as an IPv4 address. Only the text that
/// `ipv4_text` gives counts: an octet has no leading zero.
pub open spec fn ipv4_value(t: Seq<char>) -> Option<Seq<u8>> {
    if exists|o: Seq<u8>| o.len() == 4 && t == #[trigger] ipv4_text(o) {
        Some(choose|o: Seq<u8>| o.len() == 4 && t == #[trigger] ipv4_text(o))
    } else {
        None
    }
}

/// The decimal text of an octet, written out.
pub proof fn lemma_octet_text(v: u8)
    ensures
        v < 10 ==> text::decimal(v as nat) == seq![text::digit_char(v as int)],
        10 <= v < 100 ==> text::decimal(v as nat) == seq![
            text::digit_char((v / 10) as int),
            text::digit_char((v % 10) as int),
        ],
        100 <= v ==> text::decimal(v as nat) == seq![
            text::digit_char((v / 100) as int),
            text::digit_char((v / 10 % 10) as int),
            text::digit_char((v % 10) as int),
        ],
{
    reveal_with_fuel(text::decimal, 3);
    let n = v as nat;
    if 10 <= v < 100 {
        assert(text::decimal(n) =~= seq![text::digit_char((v / 10) as int), text::digit_char((v % 10) as int)]);
    } else if 100 <= v {
        assert(n / 10 / 10 == n / 100);
        assert(text::decimal(n) =~= seq![
            text::digit_char((v / 100) as int),
            text::digit_char((v / 10 % 10) as int),
            text::digit_char((v % 10) as int),
        ]);
    }
}

/// The decimal text of an octet does not hold a character that is no digit.
pub proof fn lemma_octet_without(v: u8, c: char)
    requires
        text::decimal_digit(c) is None,
    ensures
        forall|i: int| 0 <= i < text::decimal(v as nat).len() ==> text::decimal(v as nat)[i] != c,
{
    text::lemma_decimal(v as nat);
    assert forall|i: int| 0 <= i < text::decimal(v as nat).len() implies text::decimal(
        v as nat,
    )[i] != c by {
        assert(text::decimal_digit(text::decimal(v as nat)[i]) is Some);
    }
}

/// A text that holds a separator splits at the first one in one way only.
pub proof fn lemma_split_at_first(a: Seq<char>, b: Seq<char>, c: char)
    requires
        forall|i: int| 0 <= i < a.len() ==> a[i] != c,
    ensures
        text::find(a + seq![c] + b, c) == a.len(),
        (a + seq![c] + b).take(a.len() as int) == a,
        (a + seq![c] + b).skip(a.len() as int + 1) == b,
{
    let t = a + seq![c] + b;
    text::lemma_find_is(t, c, a.len() as int);
    assert(t.take(a.len() as int) =~= a);
    assert(t.skip(a.len() as int + 1) =~= b);
}

/// A text made of parts without a separator has no separator.
pub proof fn lemma_find_none(a: Seq<char>, c: char)
    requires
        forall|i: int| 0 <= i < a.len() ==> a[i] != c,
    ensures
        text::find(a, c) == a.len(),
{
    text::lemma_find_is(a, c, a.len() as int);
}

/// Reads the characters from `start` to `end` as an octet.
fn parse_octet(chars: &Vec<char>, start: usize, end: usize) -> (r: Option<u8>)
    requires
        start <= end <= chars@.len(),
    ensures
        match r {
            Some(v) => chars@.subrange(start as int, end as int) == text::decimal(v as nat),
            None => forall|v: u8|
                chars@.subrange(start as int, end as int) != #[trigger] text::decimal(v as nat),
        },
{
    let ghost t = chars@.subrange(start as int, end as int);
    proof {
        assert forall|v: u8| t == #[trigger] text::decimal(v as nat) implies {
            &&& 1 <= t.len() <= 3
            &&& text::all_decimal(t)
            &&& t.len() > 1 ==> t[0] != '0'
            &&& text::decimal_value(t) == v
        } by {
            lemma_octet_text(v);
            text::lemma_decimal(v as nat);
        }
    }
    let n = end - start;
    if n == 0 || n > 3 {
        return None;
    }
    if n > 1 && chars[start] == '0' {
        assert(t[0] == '0');
        return None;
    }
    let mut acc: u32 = 0;
    let mut i: usize = start;
    while i < end
        invariant
            start <= i <= end <= chars@.len(),
            end - start <= 3,
            t == chars@.subrange(start as int, end as int),
            text::all_decimal(t.take(i - start)),
            acc == text::decimal_value(t.take(i - start)),
            i == start ==> acc == 0,
            i == start + 1 ==> acc < 10,
            i == start + 2 ==> acc < 100,
            i == start + 3 ==> acc < 1000,
            forall|v: u8| t == #[trigger] text::decimal(v as nat) ==> text::all_decimal(t),
        decreases end - i,
    {
        let ghost before = t.take(i - start);
        let ghost after = t.take(i + 1 - start);
        assert(after.drop_last() =~= before);
        assert(after.last() == chars@[i as int]);
        match text::decimal_digit_of(chars[i]) {
            Some(d) => {
                acc = acc * 10 + d as u32;
                assert forall|j: int| 0 <= j < after.len() implies text::decimal_digit(
                    #[trigger] after[j],
                ) is Some by {
                    if j < before.len() {
                        assert(before[j] == after[j]);
                    }
                }
            },
            None => {
                assert(t[i - start] == chars@[i as int]);
                return None;
            },
        }
        i += 1;
    }
    assert(t.take(end - start) =~= t);
    if acc > 255 {
        return None;
    }
    proof {
        lemma_octet_text(acc as u8);
        reveal_with_fuel(text::decimal_value, 4);
        assert forall|j: int| 0 <= j < t.len() implies text::decimal_digit(#[trigger] t[j]) is Some by {
        }
        assert(t =~= text::decimal(acc as nat)) by {
            let t1 = t.drop_last();
            if t.len() == 1 {
                assert(text::decimal_value(t1) == 0);
                assert(text::decimal_digit(t[0]) is Some);
            } else if t.len() == 2 {
                let t2 = t1.drop_last();
                assert(t1.last() == t[0]);
                assert(text::decimal_value(t2) == 0);
                assert(text::decimal_digit(t[0]) is Some);
                assert(text::decimal_digit(t[1]) is Some);
                assert(t[0] != '0');
            } else {
                let t2 = t1.drop_last();
                let t3 = t2.drop_last();
                assert(t1.last() == t[1]);
                assert(t2.last() == t[0]);
                assert(text::decimal_value(t3) == 0);
                assert(text::decimal_digit(t[0]) is Some);
                assert(text::decimal_digit(t[1]) is Some);
                assert(text::decimal_digit(t[2]) is Some);
                assert(t[0] != '0');
            }
        }
    }
    Some(acc as u8)
}

/// Whether a text is cut at its first three dots into the decimal texts of four
/// octets.
spec fn cut_into(t: Seq<char>, o: Seq<u8>) -> bool {
    let t1 = t.skip(text::find(t, '.') + 1);
    let t2 = t1.skip(text::find(t1, '.') + 1);
    &&& text::find(t, '.') < t.len()
    &&& t.take(text::find(t, '.')) == text::decimal(o[0] as nat)
    &&& text::find(t1, '.') < t1.len()
    &&& t1.take(text::find(t1, '.')) == text::decimal(o[1] as nat)
    &&& text::find(t2, '.') < t2.len()
    &&& t2.take(text::find(t2, '.')) == text::decimal(o[2] as nat)
    &&& t2.skip(text::find(t2, '.') + 1) == text::decimal(o[3] as nat)
}

/// The text of an address is cut at its dots.
proof fn lemma_ipv4_text_split(o: Seq<u8>)
    ensures
        cut_into(ipv4_text(o), o),
{
    let d0 = text::decimal(o[0] as nat);
    let d1 = text::decimal(o[1] as nat);
    let d2 = text::decimal(o[2] as nat);
    let d3 = text::decimal(o[3] as nat);
    lemma_octet_without(o[0], '.');
    lemma_octet_without(o[1], '.');
    lemma_octet_without(o[2], '.');
    let t2 = d2 + seq!['.'] + d3;
    let t1 = d1 + seq!['.'] + t2;
    lemma_split_at_first(d2, d3, '.');
    lemma_split_at_first(d1, t2, '.');
    lemma_split_at_first(d0, t1, '.');
}

/// A text that holds a separator is what stands before the first one, the
/// separator and what stands after it.
proof fn lemma_cut_joins(t: Seq<char>, c: char)
    requires
        text::find(t, c) < t.len(),
    ensures
        t == t.take(text::find(t, c)) + seq![c] + t.skip(text::find(t, c) + 1),
{
    text::lemma_find(t, c);
    assert(t =~= t.take(text::find(t, c)) + seq![c] + t.skip(text::find(t, c) + 1));
}

/// A text that is cut at its dots into octets denotes them.
proof fn lemma_cut_is_ipv4(t: Seq<char>, o: Seq<u8>)
    requires
        o.len() == 4,
        cut_into(t, o),
    ensures
        ipv4_value(t) == Some(o),
{
    let t1 = t.skip(text::find(t, '.') + 1);
    let t2 = t1.skip(text::find(t1, '.') + 1);
    lemma_cut_joins(t, '.');
    lemma_cut_joins(t1, '.');
    lemma_cut_joins(t2, '.');
    assert(t == ipv4_text(o));
    lemma_ipv4_roundtrip(o);
}

/// A text that denotes an address is cut at its dots into its octets.
proof fn lemma_ipv4_is_cut(t: Seq<char>)
    ensures
        ipv4_value(t) is Some ==> cut_into(t, ipv4_value(t)->0),
{
    if ipv4_value(t) is Some {
        lemma_ipv4_text_split(ipv4_value(t)->0);
    }
}

/// Different addresses have different texts.
pub proof fn lemma_ipv4_text_injective(a: Seq<u8>, b: Seq<u8>)
    requires
        a.len() == 4,
        b.len() == 4,
        ipv4_text(a) == ipv4_text(b),
    ensures
        a == b,
{
    lemma_ipv4_text_split(a);
    lemma_ipv4_text_split(b);
    assert forall|i: int| 0 <= i < 4 implies a[i] == b[i] by {
        text::lemma_decimal(a[i] as nat);
        text::lemma_decimal(b[i] as nat);
    }
    assert(a =~= b);
}

/// Writing an address and reading it back gives the address.
pub proof fn lemma_ipv4_roundtrip(o: Seq<u8>)
    requires
        o.len() == 4,
    ensures
        ipv4_value(ipv4_text(o)) == Some(o),
{
    let t = ipv4_text(o);
    let p = choose|p: Seq<u8>| p.len() == 4 && t == #[trigger] ipv4_text(p);
    lemma_ipv4_text_injective(o, p);
}

/// Reads the characters from `start` to `end` as an IPv4 address.
pub fn parse_ipv4(chars: &Vec<char>, start: usize, end: usize) -> (r: Option<[u8; 4]>)
    requires
        start <= end <= chars@.len(),
    ensures
        ({
            let value = ipv4_value(chars@.subrange(start as int, end as int));
            match r {
                Some(o) => value == Some(o@),
                None => value is None,
            }
        }),
{
    let ghost t = chars@.subrange(start as int, end as int);
    proof {
        lemma_ipv4_is_cut(t);
    }
    let d0 = text::find_char(chars, start, end, '.');
    if d0 == end {
        return None;
    }
    let ghost t1 = t.skip(text::find(t, '.') + 1);
    assert(t1 =~= chars@.subrange(d0 + 1, end as int));
    assert(t.take(text::find(t, '.')) =~= chars@.subrange(start as int, d0 as int));
    let d1 = text::find_char(chars, d0 + 1, end, '.');
    if d1 == end {
        return None;
    }
    let ghost t2 = t1.skip(text::find(t1, '.') + 1);
    assert(t2 =~= chars@.subrange(d1 + 1, end as int));
    assert(t1.take(text::find(t1, '.')) =~= chars@.subrange(d0 + 1, d1 as int));
    let d2 = text::find_char(chars, d1 + 1, end, '.');
    if d2 == end {
        return None;
    }
    assert(t2.skip(text::find(t2, '.') + 1) =~= chars@.subrange(d2 + 1, end as int));
    assert(t2.take(text::find(t2, '.')) =~= chars@.subrange(d1 + 1, d2 as int));
    let a = match parse_octet(chars, start, d0) {
        Some(v) => v,
        None => {
            return None;
        },
    };
    let b = match parse_octet(chars, d0 + 1, d1) {
        Some(v) => v,
        None => {
            return None;
        },
    };
    let c = match parse_octet(chars, d1 + 1, d2) {
        Some(v) => v,
        None => {
            return None;
        },
    };
    let d = match parse_octet(chars, d2 + 1, end) {
        Some(v) => v,
        None => {
            return None;
        },
    };
    let o: [u8; 4] = [a, b, c, d];
    proof {
        lemma_cut_is_ipv4(t, o@);
    }
    Some(o)
}

/// The text of an IPv4 address.
pub fn ipv4_string(o: &[u8; 4]) -> (r: String)
    ensures
        r@ == ipv4_text(o@),
{
    let mut s = String::new();
    text::push_decimal(&mut s, o[0] as u64);
    s.push('.');
    text::push_decimal(&mut s, o[1] as u64);
    s.push('.');
    text::push_decimal(&mut s, o[2] as u64);
    s.push('.');
    text::push_decimal(&mut s, o[3] as u64);
    assert(s@ =~= ipv4_text(o@));
    s
}

// ---------------------------------------------------------------------------
// IPv6
// ---------------------------------------------------------------------------

/// Pairs of octets, each as four lower-case hexadecimal digits, joined by
/// colons.
pub open spec fn ipv6_text(o: Seq<u8>) -> Seq<char>
    decreases o.len(),
{
    if o.len() <= 2 {
        text::hex2(o[0]) + text::hex2(o[1])
    } else {
        text::hex2(o[0]) + text::hex2(o[1]) + seq![':'] + ipv6_text(o.skip(2))
    }
}

/// Whether every character is a hexadecimal digit.
pub open spec fn all_hex(t: Seq<char>) -> bool {
    forall|i: int| 0 <= i < t.len() ==> text::hex_digit(#[trigger] t[i]) is Some
}

/// The number that a sequence of hexadecimal digits denotes.
pub open spec fn hex_value(t: Seq<char>) -> int
    decreases t.len(),
{
    if t.len() == 0 {
        0
    } else {
        16 * hex_value(t.drop_last()) + text::hex_digit(t.last())->0
    }
}

/// The value of a group: one to four hexadecimal digits.
pub open spec fn group_value(t: Seq<char>) -> Option<u16> {
    if 1 <= t.len() <= 4 && all_hex(t) {
        Some(hex_value(t) as u16)
    } else {
        None
    }
}

/// Two octets as one group.
pub open spec fn pair(hi: u8, lo: u8) -> u16 {
    (hi * 256 + lo) as u16
}

/// `rest` with `front` before it.
pub open spec fn prepend(front: Seq<u16>, rest: Option<Seq<u16>>) -> Option<Seq<u16>> {
    match rest {
        Some(r) => Some(front + r),
        None => None,
    }
}

/// The groups of a text in which colons separate them. Where `v4` holds, the
/// last two groups may be written as an IPv4 address.
pub open spec fn groups(t: Seq<char>, v4: bool) -> Option<Seq<u16>>
    decreases t.len(),
{
    let k = text::find(t, ':');
    if 0 <= k < t.len() {
        match group_value(t.take(k)) {
            Some(g) => prepend(seq![g], groups(t.skip(k + 1), v4)),
            None => None,
        }
    } else if group_value(t) is Some {
        Some(seq![group_value(t)->0])
    } else if v4 && ipv4_value(t) is Some {
        let o = ipv4_value(t)->0;
        Some(seq![pair(o[0], o[1]), pair(o[2], o[3])])
    } else {
        None
    }
}

/// The groups on one side of a double colon, where there may be none.
pub open spec fn side(t: Seq<char>, v4: bool) -> Option<Seq<u16>> {
    if t.len() == 0 {
        Some(Seq::empty())
    } else {
        groups(t, v4)
    }
}

/// The position of the first double colon in `t`, or the length of `t` where
/// there is none.
pub open spec fn find_gap(t: Seq<char>) -> int
    decreases t.len(),
{
    if t.len() == 0 {
        0
    } else if t.len() >= 2 && t[0] == ':' && t[1] == ':' {
        0
    } else {
        1 + find_gap(t.drop_first())
    }
}

/// The eight groups that a text denotes as an IPv6 address: all of them, or
/// those on either side of a double colon, which stands for one or more groups
/// of zeros.
pub open spec fn ipv6_groups(t: Seq<char>) -> Option<Seq<u16>> {
    let k = find_gap(t);
    if 0 <= k < t.len() {
        match (side(t.take(k), false), side(t.skip(k + 2), true)) {
            (Some(head), Some(tail)) => if head.len() + tail.len() <= 7 {
                Some(head + Seq::new((8 - head.len() - tail.len()) as nat, |i: int| 0u16) + tail)
            } else {
                None
            },
            _ => None,
        }
    } else {
        match groups(t, true) {
            Some(g) => if g.len() == 8 {
                Some(g)
            } else {
                None
            },
            None => None,
        }
    }
}

/// Groups as octets, the high octet of each first.
pub open spec fn group_octets(g: Seq<u16>) -> Seq<u8> {
    Seq::new(
        2 * g.len(),
        |i: int|
            if i % 2 == 0 {
                (g[i / 2] / 256) as u8
            } else {
                (g[i / 2] % 256) as u8
            },
    )
}

/// The octets that a text denotes as an IPv6 address.
pub open spec fn ipv6_value(t: Seq<char>) -> Option<Seq<u8>> {
    match ipv6_groups(t) {
        Some(g) => Some(group_octets(g)),
        None => None,
    }
}

pub proof fn lemma_find_gap_is(t: Seq<char>, k: int)
    requires
        0 <= k <= t.len(),
        k < t.len() ==> k + 1 < t.len() && t[k] == ':' && t[k + 1] == ':',
        forall|j: int| 0 <= j < k && j + 1 < t.len() ==> !(t[j] == ':' && #[trigger] t[j + 1] == ':'),
    ensures
        find_gap(t) == k,
    decreases t.len(),
{
    if k > 0 {
        let u = t.drop_first();
        if t.len() >= 2 {
            assert(!(t[0] == ':' && t[0int + 1] == ':'));
        }
        assert forall|j: int| 0 <= j < k - 1 && j + 1 < u.len() implies !(u[j] == ':'
            && #[trigger] u[j + 1] == ':') by {
            assert(u[j] == t[j + 1]);
            assert(u[j + 1] == t[(j + 1) + 1]);
        }
        lemma_find_gap_is(u, k - 1);
    }
}

/// Reads the characters from `start` to `end` as a group.
fn parse_group(chars: &Vec<char>, start: usize, end: usize) -> (r: Option<u16>)
    requires
        start <= end <= chars@.len(),
    ensures
        r == group_value(chars@.subrange(start as int, end as int)),
{
    let ghost t = chars@.subrange(start as int, end as int);
    let n = end - start;
    if n == 0 || n > 4 {
        return None;
    }
    let mut acc: u32 = 0;
    let mut i: usize = start;
    while i < end
        invariant
            start <= i <= end <= chars@.len(),
            1 <= end - start <= 4,
            t == chars@.subrange(start as int, end as int),
            all_hex(t.take(i - start)),
            acc == hex_value(t.take(i - start)),
            i == start ==> acc == 0,
            i == start + 1 ==> acc < 0x10,
            i == start + 2 ==> acc < 0x100,
            i == start + 3 ==> acc < 0x1000,
            i == start + 4 ==> acc < 0x10000,
        decreases end - i,
    {
        let ghost before = t.take(i - start);
        let ghost after = t.take(i + 1 - start);
        assert(after.drop_last() =~= before);
        assert(after.last() == chars@[i as int]);
        match text::hex_digit_of(chars[i]) {
            Some(d) => {
                acc = acc * 16 + d as u32;
                assert forall|j: int| 0 <= j < after.len() implies text::hex_digit(
                    #[trigger] after[j],
                ) is Some by {
                    if j < before.len() {
                        assert(before[j] == after[j]);
                    }
                }
            },
            None => {
                assert(t[i - start] == chars@[i as int]);
                return None;
            },
        }
        i += 1;
    }
    assert(t.take(end - start) =~= t);
    Some(acc as u16)
}

/// Reads the characters from `start` to `end` as groups separated by colons.
fn parse_groups(chars: &Vec<char>, start: usize, end: usize, v4: bool) -> (r: Option<Vec<u16>>)
    requires
        start <= end <= chars@.len(),
    ensures
        ({
            let value = groups(chars@.subrange(start as int, end as int), v4);
            match r {
                Some(g) => value == Some(g@),
                None => value is None,
            }
        }),
{
    let ghost whole = chars@.subrange(start as int, end as int);
    let mut out: Vec<u16> = Vec::new();
    let mut i: usize = start;
    proof {
        let rest = groups(whole, v4);
        assert(rest is Some ==> Seq::<u16>::empty() + rest->0 =~= rest->0);
    }
    loop
        invariant
            start <= i <= end <= chars@.len(),
            whole == chars@.subrange(start as int, end as int),
            groups(whole, v4) == prepend(out@, groups(chars@.subrange(i as int, end as int), v4)),
        decreases end - i,
    {
        let ghost t = chars@.subrange(i as int, end as int);
        let k = text::find_char(chars, i, end, ':');
        if k == end {
            match parse_group(chars, i, end) {
                Some(g) => {
                    let ghost before = out@;
                    out.push(g);
                    assert(out@ =~= before + seq![g]);
                    return Some(out);
                },
                None => {},
            }
            if v4 {
                match parse_ipv4(chars, i, end) {
                    Some(o) => {
                        let ghost before = out@;
                        out.push(o[0] as u16 * 256 + o[1] as u16);
                        out.push(o[2] as u16 * 256 + o[3] as u16);
                        assert(out@ =~= before + seq![pair(o@[0], o@[1]), pair(o@[2], o@[3])]);
                        return Some(out);
                    },
                    None => {},
                }
            }
            return None;
        }
        assert(t.take(k - i) =~= chars@.subrange(i as int, k as int));
        match parse_group(chars, i, k) {
            Some(g) => {
                let ghost before = out@;
                out.push(g);
                proof {
                    assert(t.skip(k - i + 1) =~= chars@.subrange(k + 1, end as int));
                    let rest = groups(chars@.subrange(k + 1, end as int), v4);
                    assert(rest is Some ==> before + (seq![g] + rest->0) =~= out@ + rest->0);
                }
                i = k + 1;
            },
            None => {
                return None;
            },
        }
    }
}

/// The first double colon, or the length where there is none.
fn find_gap_in(chars: &Vec<char>) -> (r: usize)
    ensures
        r == find_gap(chars@),
        r < chars@.len() ==> r + 1 < chars@.len(),
        r <= chars@.len(),
{
    let n = chars.len();
    let mut i: usize = 0;
    while i < n && !(i + 1 < n && chars[i] == ':' && chars[i + 1] == ':')
        invariant
            n == chars@.len(),
            i <= n,
            forall|j: int|
                0 <= j < i && j + 1 < n ==> !(chars@[j] == ':' && #[trigger] chars@[j + 1] == ':'),
        decreases n - i,
    {
        i += 1;
    }
    proof {
        lemma_find_gap_is(chars@, i as int);
    }
    i
}

/// The groups as an array of octets.
fn octets_of(g: &Vec<u16>) -> (r: [u8; 16])
    requires
        g@.len() == 8,
    ensures
        r@ == group_octets(g@),
{
    let mut r: [u8; 16] = [0; 16];
    let mut i: usize = 0;
    while i < 8
        invariant
            g@.len() == 8,
            i <= 8,
            forall|j: int| 0 <= j < 2 * i ==> r@[j] == group_octets(g@)[j],
        decreases 8 - i,
    {
        r[2 * i] = (g[i] / 256) as u8;
        r[2 * i + 1] = (g[i] % 256) as u8;
        i += 1;
    }
    assert(r@ =~= group_octets(g@));
    r
}

/// Reads a text as an IPv6 address.
pub fn parse_ipv6(chars: &Vec<char>) -> (r: Option<[u8; 16]>)
    ensures
        match r {
            Some(o) => ipv6_value(chars@) == Some(o@),
            None => ipv6_value(chars@) is None,
        },
{
    let n = chars.len();
    let k = find_gap_in(chars);
    if k == n {
        assert(chars@.subrange(0, n as int) =~= chars@);
        return match parse_groups(chars, 0, n, true) {
            Some(g) => if g.len() == 8 {
                Some(octets_of(&g))
            } else {
                None
            },
            None => None,
        };
    }
    assert(chars@.take(k as int) =~= chars@.subrange(0, k as int));
    assert(chars@.skip(k + 2) =~= chars@.subrange(k + 2, n as int));
    let head: Vec<u16> = if k == 0 {
        Vec::new()
    } else {
        match parse_groups(chars, 0, k, false) {
            Some(g) => g,
            None => {
                return None;
            },
        }
    };
    assert(side(chars@.take(k as int), false) == Some(head@)) by {
        assert(k == 0 ==> head@ =~= Seq::empty());
    }
    let mut tail: Vec<u16> = if k + 2 == n {
        Vec::new()
    } else {
        match parse_groups(chars, k + 2, n, true) {
            Some(g) => g,
            None => {
                return None;
            },
        }
    };
    assert(side(chars@.skip(k + 2), true) == Some(tail@)) by {
        assert(k + 2 == n ==> tail@ =~= Seq::empty());
    }
    if head.len() > 7 || tail.len() > 7 || head.len() + tail.len() > 7 {
        return None;
    }
    let zeros = 8 - head.len() - tail.len();
    let mut all = head;
    let ghost front = all@;
    let ghost back = tail@;
    let mut i: usize = 0;
    while i < zeros
        invariant
            i <= zeros,
            all@ == front + Seq::new(i as nat, |j: int| 0u16),
        decreases zeros - i,
    {
        all.push(0);
        i += 1;
        assert(all@ =~= front + Seq::new(i as nat, |j: int| 0u16));
    }
    all.append(&mut tail);
    assert(all@ =~= front + Seq::new(zeros as nat, |j: int| 0u16) + back);
    Some(octets_of(&all))
}

// ---------------------------------------------------------------------------
// The written form of an IPv6 address reads back
// ---------------------------------------------------------------------------

proof fn lemma_hex2(b: u8)
    ensures
        all_hex(text::hex2(b)),
        text::hex_digit(text::hex2(b)[0]) == Some((b / 16) as int),
        text::hex_digit(text::hex2(b)[1]) == Some((b % 16) as int),
        text::hex2(b)[0] != ':',
        text::hex2(b)[1] != ':',
{
}

proof fn lemma_group_text(a: u8, b: u8)
    ensures
        group_value(text::hex2(a) + text::hex2(b)) == Some(pair(a, b)),
        forall|i: int| 0 <= i < 4 ==> (text::hex2(a) + text::hex2(b))[i] != ':',
{
    let t = text::hex2(a) + text::hex2(b);
    lemma_hex2(a);
    lemma_hex2(b);
    let t3 = t.drop_last();
    let t2 = t3.drop_last();
    let t1 = t2.drop_last();
    let t0 = t1.drop_last();
    reveal_with_fuel(hex_value, 5);
    assert(t.last() == text::hex2(b)[1]);
    assert(t3.last() == text::hex2(b)[0]);
    assert(t2.last() == text::hex2(a)[1]);
    assert(t1.last() == text::hex2(a)[0]);
    assert(hex_value(t0) == 0);
    assert(hex_value(t) == a * 256 + b);
}

/// The groups of the octets of an address.
pub open spec fn octet_groups(o: Seq<u8>) -> Seq<u16> {
    Seq::new(o.len() / 2, |i: int| pair(o[2 * i], o[2 * i + 1]))
}

proof fn lemma_ipv6_text_groups(o: Seq<u8>, v4: bool)
    requires
        o.len() >= 2,
        o.len() % 2 == 0,
    ensures
        groups(ipv6_text(o), v4) == Some(octet_groups(o)),
        ipv6_text(o).len() > 0,
        ipv6_text(o)[0] != ':',
        find_gap(ipv6_text(o)) == ipv6_text(o).len(),
    decreases o.len(),
{
    let t = ipv6_text(o);
    let g = text::hex2(o[0]) + text::hex2(o[1]);
    lemma_group_text(o[0], o[1]);
    if o.len() == 2 {
        lemma_find_none(t, ':');
        assert(octet_groups(o) =~= seq![pair(o[0], o[1])]);
        lemma_find_gap_is(t, t.len() as int);
    } else {
        let rest = ipv6_text(o.skip(2));
        lemma_ipv6_text_groups(o.skip(2), v4);
        lemma_split_at_first(g, rest, ':');
        assert(octet_groups(o) =~= seq![pair(o[0], o[1])] + octet_groups(o.skip(2)));
        lemma_gap_none(rest);
        assert forall|j: int| 0 <= j < t.len() && j + 1 < t.len() implies !(t[j] == ':'
            && #[trigger] t[j + 1] == ':') by {
            if j < 4 {
                assert(t[j] == g[j]);
            } else if j == 4 {
                assert(t[5] == rest[0]);
            } else {
                assert(t[j] == rest[j - 5]);
                assert(t[j + 1] == rest[(j - 5) + 1]);
            }
        }
        lemma_find_gap_is(t, t.len() as int);
    }
}

proof fn lemma_gap_none(t: Seq<char>)
    requires
        find_gap(t) == t.len(),
    ensures
        forall|j: int| 0 <= j && j + 1 < t.len() ==> !(t[j] == ':' && #[trigger] t[j + 1] == ':'),
    decreases t.len(),
{
    if t.len() > 0 {
        let u = t.drop_first();
        lemma_gap_none(u);
        assert forall|j: int| 0 <= j && j + 1 < t.len() implies !(t[j] == ':'
            && #[trigger] t[j + 1] == ':') by {
            if j > 0 {
                assert(u[j - 1] == t[j]);
                assert(u[(j - 1) + 1] == t[j + 1]);
            }
        }
    }
}

/// Writing an address and reading it back gives the address.
pub proof fn lemma_ipv6_roundtrip(o: Seq<u8>)
    requires
        o.len() == 16,
    ensures
        ipv6_value(ipv6_text(o)) == Some(o),
{
    lemma_ipv6_text_groups(o, true);
    let g = octet_groups(o);
    assert(group_octets(g) =~= o) by {
        assert forall|i: int| 0 <= i < 16 implies #[trigger] group_octets(g)[i] == o[i] by {
            assert(g[i / 2] == pair(o[2 * (i / 2)], o[2 * (i / 2) + 1]));
        }
    }
}

/// The text of an IPv6 address is not that of an IPv4 address.
pub proof fn lemma_ipv6_is_not_ipv4(o: Seq<u8>)
    requires
        o.len() == 16,
    ensures
        ipv4_value(ipv6_text(o)) is None,
{
    let t = ipv6_text(o);
    lemma_group_text(o[0], o[1]);
    assert(t[4] == ':');
    if ipv4_value(t) is Some {
        let p = choose|p: Seq<u8>| p.len() == 4 && t == #[trigger] ipv4_text(p);
        assert forall|i: int| 0 <= i < ipv4_text(p).len() implies ipv4_text(p)[i] != ':' by {
            lemma_octet_without(p[0], ':');
            lemma_octet_without(p[1], ':');
            lemma_octet_without(p[2], ':');
            lemma_octet_without(p[3], ':');
        }
    }
}

/// The text of an IPv6 address, with all eight groups written out.
pub fn ipv6_string(o: &[u8; 16]) -> (r: String)
    ensures
        r@ == ipv6_text(o@),
{
    let mut s = String::new();
    let mut i: usize = 0;
    assert(o@.skip(0) =~= o@);
    while i < 14
        invariant
            i <= 14,
            i % 2 == 0,
            ipv6_text(o@) == s@ + ipv6_text(o@.skip(i as int)),
        decreases 14 - i,
    {
        let ghost before = s@;
        text::push_hex2(&mut s, o[i]);
        text::push_hex2(&mut s, o[i + 1]);
        s.push(':');
        assert(o@.skip(i as int).skip(2) =~= o@.skip(i + 2));
        i += 2;
        assert(ipv6_text(o@) =~= s@ + ipv6_text(o@.skip(i as int)));
    }
    text::push_hex2(&mut s, o[14]);
    text::push_hex2(&mut s, o[15]);
    assert(s@ =~= ipv6_text(o@));
    s
}

} // verus!
