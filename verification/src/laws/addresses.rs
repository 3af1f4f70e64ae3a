//! Laws on Internet addresses as text.
use crate::ip;
use crate::laws::numbers;
use crate::text;
use vstd::prelude::*;

verus! {

// ---------------------------------------------------------------------------
// IPv4
// ---------------------------------------------------------------------------

/// Four parts with a dot between each two.
pub open spec fn dotted(a: Seq<char>, b: Seq<char>, c: Seq<char>, d: Seq<char>) -> Seq<char> {
    a + seq!['.'] + (b + seq!['.'] + (c + seq!['.'] + d))
}

/// Whether four parts write four octets in the usual way.
pub open spec fn write_octets(
    a: Seq<char>,
    b: Seq<char>,
    c: Seq<char>,
    d: Seq<char>,
    o: Seq<u8>,
) -> bool {
    &&& o.len() == 4
    &&& numbers::writes(a, o[0] as int)
    &&& numbers::writes(b, o[1] as int)
    &&& numbers::writes(c, o[2] as int)
    &&& numbers::writes(d, o[3] as int)
}

/// Four numbers below 256 in the usual digits, with dots between them, are the
/// IPv4 address of these octets in this order.
pub proof fn lemma_ipv4_spelled(
    a: Seq<char>,
    b: Seq<char>,
    c: Seq<char>,
    d: Seq<char>,
    o: Seq<u8>,
)
    requires
        write_octets(a, b, c, d, o),
    ensures
        ip::ipv4_value(dotted(a, b, c, d)) == Some(o),
        ip::ipv4_text(o) == dotted(a, b, c, d),
{
    numbers::lemma_writes_once(a, o[0] as nat);
    numbers::lemma_writes_once(b, o[1] as nat);
    numbers::lemma_writes_once(c, o[2] as nat);
    numbers::lemma_writes_once(d, o[3] as nat);
    assert(dotted(a, b, c, d) =~= ip::ipv4_text(o));
    ip::lemma_ipv4_roundtrip(o);
}

/// No other text is an IPv4 address.
pub proof fn lemma_ipv4_only(t: Seq<char>)
    ensures
        ip::ipv4_value(t) matches Some(o) ==> exists|
            a: Seq<char>,
            b: Seq<char>,
            c: Seq<char>,
            d: Seq<char>,
        |
            #[trigger] write_octets(a, b, c, d, o) && t == dotted(a, b, c, d),
{
    if ip::ipv4_value(t) is Some {
        let o = ip::ipv4_value(t)->0;
        let a = text::decimal(o[0] as nat);
        let b = text::decimal(o[1] as nat);
        let c = text::decimal(o[2] as nat);
        let d = text::decimal(o[3] as nat);
        numbers::lemma_decimal_writes(o[0] as nat);
        numbers::lemma_decimal_writes(o[1] as nat);
        numbers::lemma_decimal_writes(o[2] as nat);
        numbers::lemma_decimal_writes(o[3] as nat);
        assert(t =~= dotted(a, b, c, d));
        assert(write_octets(a, b, c, d, o));
    }
}

// ---------------------------------------------------------------------------
// IPv6
// ---------------------------------------------------------------------------

/// The number that hexadecimal digits write.
pub open spec fn hex_numeral(t: Seq<char>) -> int
    decreases t.len(),
{
    if t.len() == 0 {
        0
    } else {
        16 * hex_numeral(t.drop_last()) + numbers::nibble(t.last())
    }
}

/// Whether a text is one group: one to four hexadecimal digits.
pub open spec fn is_group(g: Seq<char>) -> bool {
    1 <= g.len() <= 4 && forall|i: int|
        0 <= i < g.len() ==> 0 <= numbers::nibble(#[trigger] g[i])
}

/// Whether every text is one group.
pub open spec fn all_groups(gs: Seq<Seq<char>>) -> bool {
    forall|i: int| 0 <= i < gs.len() ==> is_group(#[trigger] gs[i])
}

/// Parts with a colon between each two.
pub open spec fn with_colons(parts: Seq<Seq<char>>) -> Seq<char>
    decreases parts.len(),
{
    if parts.len() == 0 {
        Seq::empty()
    } else if parts.len() == 1 {
        parts[0]
    } else {
        parts[0] + seq![':'] + with_colons(parts.skip(1))
    }
}

/// Groups, and after them the text of an IPv4 address, where there is one.
pub open spec fn parts_of(gs: Seq<Seq<char>>, v4: Option<Seq<u8>>) -> Seq<Seq<char>> {
    match v4 {
        Some(o) => gs.push(ip::ipv4_text(o)),
        None => gs,
    }
}

/// Groups with colons between them, and after them an IPv4 address, where there
/// is one.
pub open spec fn spelled(gs: Seq<Seq<char>>, v4: Option<Seq<u8>>) -> Seq<char> {
    with_colons(parts_of(gs, v4))
}

/// The numbers that groups write, and after them the two of the IPv4 address.
pub open spec fn numbers_of(gs: Seq<Seq<char>>, v4: Option<Seq<u8>>) -> Seq<int> {
    let own = gs.map_values(|g: Seq<char>| hex_numeral(g));
    match v4 {
        Some(o) => own + seq![o[0] * 256 + o[1], o[2] * 256 + o[3]],
        None => own,
    }
}

/// Whether octets are these numbers, two octets for each, the high one first.
pub open spec fn octets_are(o: Seq<u8>, v: Seq<int>) -> bool {
    &&& o.len() == 2 * v.len()
    &&& forall|i: int| 0 <= i < v.len() ==> o[2 * i] * 256 + o[2 * i + 1] == #[trigger] v[i]
}

proof fn lemma_same_group(g: Seq<char>)
    requires
        g.len() <= 4,
        forall|i: int| 0 <= i < g.len() ==> 0 <= numbers::nibble(#[trigger] g[i]),
    ensures
        ip::all_hex(g),
        ip::hex_value(g) == hex_numeral(g),
        0 <= hex_numeral(g),
        g.len() <= 1 ==> hex_numeral(g) < 16,
        g.len() <= 2 ==> hex_numeral(g) < 256,
        g.len() <= 3 ==> hex_numeral(g) < 4096,
        hex_numeral(g) < 65536,
        forall|i: int| 0 <= i < g.len() ==> g[i] != ':',
    decreases g.len(),
{
    assert forall|i: int| 0 <= i < g.len() implies text::hex_digit(#[trigger] g[i]) is Some && g[i]
        != ':' by {
        assert(0 <= numbers::nibble(g[i]));
    }
    if g.len() > 0 {
        let init = g.drop_last();
        assert forall|i: int| 0 <= i < init.len() implies 0 <= numbers::nibble(
            #[trigger] init[i],
        ) by {
            assert(init[i] == g[i]);
        }
        lemma_same_group(init);
        assert(0 <= numbers::nibble(g[g.len() - 1]));
        assert(text::hex_digit(g[g.len() - 1])->0 == numbers::nibble(g.last()));
    }
}

proof fn lemma_group_value(g: Seq<char>)
    requires
        is_group(g),
    ensures
        ip::group_value(g) == Some(hex_numeral(g) as u16),
        0 <= hex_numeral(g) < 65536,
        forall|i: int| 0 <= i < g.len() ==> g[i] != ':',
{
    lemma_same_group(g);
}

/// Whether a part is not empty and holds no colon.
spec fn plain_part(p: Seq<char>) -> bool {
    p.len() > 0 && forall|i: int| 0 <= i < p.len() ==> p[i] != ':'
}

spec fn plain_parts(parts: Seq<Seq<char>>) -> bool {
    forall|i: int| 0 <= i < parts.len() ==> plain_part(#[trigger] parts[i])
}

proof fn lemma_colons(parts: Seq<Seq<char>>)
    requires
        parts.len() > 0,
        plain_parts(parts),
    ensures
        ({
            let t = with_colons(parts);
            &&& t.len() > 0
            &&& t[0] != ':'
            &&& t.last() != ':'
            &&& forall|j: int|
                0 <= j && j + 1 < t.len() ==> !(t[j] == ':' && #[trigger] t[j + 1] == ':')
        }),
    decreases parts.len(),
{
    let t = with_colons(parts);
    let p = parts[0];
    assert(plain_part(p));
    if parts.len() > 1 {
        let rest = with_colons(parts.skip(1));
        assert forall|i: int| 0 <= i < parts.skip(1).len() implies plain_part(
            #[trigger] parts.skip(1)[i],
        ) by {
            assert(plain_part(parts[i + 1]));
        }
        lemma_colons(parts.skip(1));
        assert forall|j: int| 0 <= j && j + 1 < t.len() implies !(t[j] == ':' && #[trigger] t[j + 1]
            == ':') by {
            let n = p.len() as int;
            if j < n {
                assert(t[j] == p[j]);
            } else if j == n {
                assert(t[j + 1] == rest[0]);
            } else {
                assert(t[j] == rest[j - n - 1]);
                assert(t[j + 1] == rest[(j - n - 1) + 1]);
            }
        }
    }
}

proof fn lemma_ipv4_text_part(o: Seq<u8>)
    requires
        o.len() == 4,
    ensures
        plain_part(ip::ipv4_text(o)),
        ip::group_value(ip::ipv4_text(o)) is None,
{
    let t = ip::ipv4_text(o);
    ip::lemma_octet_without(o[0], ':');
    ip::lemma_octet_without(o[1], ':');
    ip::lemma_octet_without(o[2], ':');
    ip::lemma_octet_without(o[3], ':');
    let n = text::decimal(o[0] as nat).len() as int;
    assert(t[n] == '.');
    assert(text::hex_digit(t[n]) is None);
}

/// The parts that are spelled, each of them without a colon.
proof fn lemma_spelled_parts(gs: Seq<Seq<char>>, v4: Option<Seq<u8>>)
    requires
        all_groups(gs),
        v4 is Some ==> v4->0.len() == 4,
    ensures
        plain_parts(parts_of(gs, v4)),
{
    let parts = parts_of(gs, v4);
    assert forall|i: int| 0 <= i < parts.len() implies plain_part(#[trigger] parts[i]) by {
        if i < gs.len() {
            assert(is_group(gs[i]));
            lemma_group_value(gs[i]);
        } else {
            lemma_ipv4_text_part(v4->0);
        }
    }
}

/// Whether the groups that a text is read as are these numbers.
spec fn read_as(t: Seq<char>, allowed: bool, v: Seq<int>) -> bool {
    ip::groups(t, allowed) matches Some(g) && g.len() == v.len() && forall|i: int|
        0 <= i < v.len() ==> g[i] == #[trigger] v[i]
}

proof fn lemma_groups_v4(o: Seq<u8>)
    requires
        o.len() == 4,
    ensures
        read_as(
            ip::ipv4_text(o),
            true,
            seq![o[0] * 256 + o[1], o[2] * 256 + o[3]],
        ),
{
    lemma_ipv4_text_part(o);
    ip::lemma_find_none(ip::ipv4_text(o), ':');
    ip::lemma_ipv4_roundtrip(o);
}

proof fn lemma_groups_one(g: Seq<char>, allowed: bool)
    requires
        is_group(g),
    ensures
        read_as(g, allowed, seq![hex_numeral(g)]),
{
    lemma_group_value(g);
    ip::lemma_find_none(g, ':');
}

proof fn lemma_groups_more(g: Seq<char>, rest: Seq<char>, allowed: bool, w: Seq<int>)
    requires
        is_group(g),
        read_as(rest, allowed, w),
    ensures
        read_as(g + seq![':'] + rest, allowed, seq![hex_numeral(g)] + w),
{
    let t = g + seq![':'] + rest;
    lemma_group_value(g);
    ip::lemma_split_at_first(g, rest, ':');
    let more = ip::groups(rest, allowed)->0;
    let v = seq![hex_numeral(g)] + w;
    let all = seq![hex_numeral(g) as u16] + more;
    assert(ip::groups(t, allowed) == Some(all));
    assert forall|i: int| 0 <= i < v.len() implies all[i] == #[trigger] v[i] by {
        if i > 0 {
            assert(more[i - 1] == w[i - 1]);
        }
    }
}

proof fn lemma_groups(gs: Seq<Seq<char>>, v4: Option<Seq<u8>>, allowed: bool)
    requires
        all_groups(gs),
        v4 is Some ==> v4->0.len() == 4 && allowed,
        gs.len() > 0 || v4 is Some,
    ensures
        read_as(spelled(gs, v4), allowed, numbers_of(gs, v4)),
    decreases gs.len(),
{
    let t = spelled(gs, v4);
    let v = numbers_of(gs, v4);
    if gs.len() == 0 {
        let o = v4->0;
        assert(gs.push(ip::ipv4_text(o)).len() == 1);
        assert(t == ip::ipv4_text(o));
        assert(v =~= seq![o[0] * 256 + o[1], o[2] * 256 + o[3]]);
        lemma_groups_v4(o);
    } else {
        let g = gs[0];
        assert(is_group(g));
        if gs.len() == 1 && v4 is None {
            assert(v =~= seq![hex_numeral(g)]);
            lemma_groups_one(g, allowed);
        } else {
            let rest = gs.skip(1);
            assert forall|i: int| 0 <= i < rest.len() implies is_group(#[trigger] rest[i]) by {
                assert(is_group(gs[i + 1]));
            }
            assert(parts_of(gs, v4).skip(1) =~= parts_of(rest, v4));
            lemma_groups(rest, v4, allowed);
            assert(v =~= seq![hex_numeral(g)] + numbers_of(rest, v4));
            lemma_groups_more(g, spelled(rest, v4), allowed, numbers_of(rest, v4));
        }
    }
}

proof fn lemma_octets(g: Seq<u16>, v: Seq<int>)
    requires
        g.len() == v.len(),
        forall|i: int| 0 <= i < v.len() ==> g[i] == #[trigger] v[i],
    ensures
        octets_are(ip::group_octets(g), v),
{
    let o = ip::group_octets(g);
    assert forall|i: int| 0 <= i < v.len() implies o[2 * i] * 256 + o[2 * i + 1]
        == #[trigger] v[i] by {
        assert((2 * i) / 2 == i && (2 * i + 1) / 2 == i);
    }
}

/// Eight groups with colons between them, of which an IPv4 address may stand for
/// the last two, are the IPv6 address of the numbers that they write, in this
/// order.
pub proof fn lemma_ipv6_full(gs: Seq<Seq<char>>, v4: Option<Seq<u8>>)
    requires
        all_groups(gs),
        v4 is Some ==> v4->0.len() == 4,
        numbers_of(gs, v4).len() == 8,
    ensures
        ip::ipv6_value(spelled(gs, v4)) matches Some(o) && octets_are(o, numbers_of(gs, v4)),
{
    let t = spelled(gs, v4);
    lemma_spelled_parts(gs, v4);
    lemma_colons(parts_of(gs, v4));
    ip::lemma_find_gap_is(t, t.len() as int);
    lemma_groups(gs, v4, true);
    lemma_octets(ip::groups(t, true)->0, numbers_of(gs, v4));
}

/// The numbers of an address with a double colon: those before it first, those
/// after it last, and zeros between them.
pub open spec fn around_zeros(head: Seq<int>, tail: Seq<int>) -> Seq<int> {
    Seq::new(
        8,
        |i: int|
            if i < head.len() {
                head[i]
            } else if i >= 8 - tail.len() {
                tail[i - (8 - tail.len())]
            } else {
                0
            },
    )
}

/// A double colon stands for as many groups of zero as make the others eight.
/// The groups before it are the first of the address, those after it are its
/// last, and all between are zero. Either side may be empty, and an IPv4
/// address may stand for the last two groups.
pub proof fn lemma_ipv6_gap(hs: Seq<Seq<char>>, ts: Seq<Seq<char>>, v4: Option<Seq<u8>>)
    requires
        all_groups(hs),
        all_groups(ts),
        v4 is Some ==> v4->0.len() == 4,
        hs.len() + numbers_of(ts, v4).len() <= 7,
    ensures
        ip::ipv6_value(with_colons(hs) + seq![':', ':'] + spelled(ts, v4)) matches Some(o)
            && octets_are(o, around_zeros(numbers_of(hs, None), numbers_of(ts, v4))),
{
    let h = with_colons(hs);
    let l = spelled(ts, v4);
    let t = h + seq![':', ':'] + l;
    let k = h.len() as int;
    lemma_spelled_parts(hs, None);
    if hs.len() > 0 {
        lemma_colons(hs);
    }
    assert forall|j: int| 0 <= j < k && j + 1 < t.len() implies !(t[j] == ':' && #[trigger] t[j + 1]
        == ':') by {
        assert(t[j] == h[j]);
        if j + 1 < k {
            assert(t[j + 1] == h[j + 1]);
        } else {
            assert(h[j] == h.last());
        }
    }
    ip::lemma_find_gap_is(t, k);
    assert(t.take(k) =~= h);
    assert(t.skip(k + 2) =~= l);
    let hv = numbers_of(hs, None);
    let tv = numbers_of(ts, v4);
    if hs.len() > 0 {
        lemma_groups(hs, None, false);
    }
    if ts.len() > 0 || v4 is Some {
        lemma_groups(ts, v4, true);
        lemma_spelled_parts(ts, v4);
        lemma_colons(parts_of(ts, v4));
    }
    let head = ip::side(h, false)->0;
    let tail = ip::side(l, true)->0;
    assert(head.len() == hv.len() && tail.len() == tv.len());
    let g = ip::ipv6_groups(t)->0;
    let v = around_zeros(hv, tv);
    assert(g.len() == 8);
    assert forall|i: int| 0 <= i < v.len() implies g[i] == #[trigger] v[i] by {
        if i < hv.len() {
            assert(head[i] == hv[i]);
        } else if i >= 8 - tv.len() {
            assert(tail[i - (8 - tv.len())] == tv[i - (8 - tv.len())]);
        }
    }
    lemma_octets(g, v);
}

/// The groups that a text is made of, where it is made of groups.
proof fn lemma_groups_only(t: Seq<char>, allowed: bool) -> (r: (Seq<Seq<char>>, Option<Seq<u8>>))
    requires
        ip::groups(t, allowed) is Some,
    ensures
        all_groups(r.0),
        r.1 is Some ==> r.1->0.len() == 4 && allowed,
        r.0.len() > 0 || r.1 is Some,
        t == spelled(r.0, r.1),
        numbers_of(r.0, r.1).len() == ip::groups(t, allowed)->0.len(),
    decreases t.len(),
{
    let k = text::find(t, ':');
    text::lemma_find(t, ':');
    if 0 <= k < t.len() {
        let g = t.take(k);
        lemma_is_group(g);
        let (rest, v4) = lemma_groups_only(t.skip(k + 1), allowed);
        let gs = seq![g] + rest;
        assert(gs.skip(1) =~= rest);
        assert forall|i: int| 0 <= i < gs.len() implies is_group(#[trigger] gs[i]) by {
            if i > 0 {
                assert(is_group(rest[i - 1]));
            }
        }
        assert(parts_of(gs, v4).skip(1) =~= parts_of(rest, v4));
        assert(t =~= g + seq![':'] + t.skip(k + 1));
        assert(numbers_of(gs, v4).len() == 1 + numbers_of(rest, v4).len());
        (gs, v4)
    } else if ip::group_value(t) is Some {
        lemma_is_group(t);
        (seq![t], None)
    } else {
        let o = ip::ipv4_value(t)->0;
        let gs = Seq::<Seq<char>>::empty();
        assert(gs.push(ip::ipv4_text(o)).len() == 1);
        (gs, Some(o))
    }
}

proof fn lemma_is_group(g: Seq<char>)
    requires
        ip::group_value(g) is Some,
    ensures
        is_group(g),
{
    assert forall|i: int| 0 <= i < g.len() implies 0 <= numbers::nibble(#[trigger] g[i]) by {
        assert(text::hex_digit(g[i]) is Some);
    }
}

/// Whether a text is eight groups, or at most seven around a double colon.
pub open spec fn ipv6_form(
    t: Seq<char>,
    hs: Seq<Seq<char>>,
    ts: Seq<Seq<char>>,
    v4: Option<Seq<u8>>,
    gap: bool,
) -> bool {
    &&& all_groups(hs) && all_groups(ts)
    &&& v4 is Some ==> v4->0.len() == 4
    &&& if gap {
        hs.len() + numbers_of(ts, v4).len() <= 7 && t == with_colons(hs) + seq![':', ':'] + spelled(
            ts,
            v4,
        )
    } else {
        numbers_of(ts, v4).len() == 8 && t == spelled(ts, v4)
    }
}

/// No other text is an IPv6 address.
pub proof fn lemma_ipv6_only(t: Seq<char>)
    ensures
        ip::ipv6_value(t) is Some ==> exists|
            hs: Seq<Seq<char>>,
            ts: Seq<Seq<char>>,
            v4: Option<Seq<u8>>,
            gap: bool,
        |
            #[trigger] ipv6_form(t, hs, ts, v4, gap),
{
    if ip::ipv6_value(t) is Some {
        let none = Seq::<Seq<char>>::empty();
        let k = ip::find_gap(t);
        lemma_gap_at(t);
        if 0 <= k < t.len() {
            let h = t.take(k);
            let l = t.skip(k + 2);
            assert(t =~= h + seq![':', ':'] + l);
            let hs = if h.len() == 0 {
                none
            } else {
                let (hs, v4) = lemma_groups_only(h, false);
                hs
            };
            let (ts, v4) = if l.len() == 0 {
                (none, None)
            } else {
                lemma_groups_only(l, true)
            };
            assert(numbers_of(none, None).len() == 0);
            assert(ipv6_form(t, hs, ts, v4, true));
        } else {
            let (ts, v4) = lemma_groups_only(t, true);
            assert(ipv6_form(t, none, ts, v4, false));
        }
    }
}

proof fn lemma_gap_at(t: Seq<char>)
    ensures
        0 <= ip::find_gap(t) <= t.len(),
        ip::find_gap(t) < t.len() ==> ip::find_gap(t) + 1 < t.len() && t[ip::find_gap(t)] == ':'
            && t[ip::find_gap(t) + 1] == ':',
    decreases t.len(),
{
    if t.len() > 0 && !(t.len() >= 2 && t[0] == ':' && t[1] == ':') {
        lemma_gap_at(t.drop_first());
    }
}

// ---------------------------------------------------------------------------
// The written form
// ---------------------------------------------------------------------------

/// Whether pair number i of the octets stands in its place in a text: two
/// digits for each octet, and a colon after them, unless they end the text.
pub open spec fn pair_written(t: Seq<char>, o: Seq<u8>, i: int) -> bool {
    &&& t.subrange(5 * i, 5 * i + 2) == text::hex2(o[2 * i])
    &&& t.subrange(5 * i + 2, 5 * i + 4) == text::hex2(o[2 * i + 1])
    &&& 5 * i + 4 < t.len() ==> t[5 * i + 4] == ':'
}

/// The text of octets is pairs of octets as four lower-case digits each, with a
/// colon between each two pairs, every octet in its place.
pub proof fn lemma_ipv6_written(o: Seq<u8>)
    requires
        o.len() >= 2,
        o.len() % 2 == 0,
    ensures
        ip::ipv6_text(o).len() == o.len() / 2 * 5 - 1,
        forall|i: int| 0 <= i < o.len() / 2 ==> #[trigger] pair_written(ip::ipv6_text(o), o, i),
    decreases o.len(),
{
    let t = ip::ipv6_text(o);
    let a = text::hex2(o[0]);
    let b = text::hex2(o[1]);
    assert(a.len() == 2 && b.len() == 2);
    if o.len() == 2 {
        assert(t.subrange(0, 2) =~= a);
        assert(t.subrange(2, 4) =~= b);
        assert(pair_written(t, o, 0));
    } else {
        let u = o.skip(2);
        let rest = ip::ipv6_text(u);
        lemma_ipv6_written(u);
        assert(t == a + b + seq![':'] + rest);
        assert forall|i: int| 0 <= i < o.len() / 2 implies #[trigger] pair_written(t, o, i) by {
            if i == 0 {
                assert(t.subrange(0, 2) =~= a);
                assert(t.subrange(2, 4) =~= b);
            } else {
                let j = i - 1;
                assert(pair_written(rest, u, j));
                assert(u[2 * j] == o[2 * i] && u[2 * j + 1] == o[2 * i + 1]);
                assert(t.subrange(5 * i, 5 * i + 2) =~= rest.subrange(5 * j, 5 * j + 2));
                assert(t.subrange(5 * i + 2, 5 * i + 4) =~= rest.subrange(5 * j + 2, 5 * j + 4));
                if 5 * i + 4 < t.len() {
                    assert(t[5 * i + 4] == rest[5 * j + 4]);
                }
            }
        }
    }
}

// ---------------------------------------------------------------------------
// Reading and writing
// ---------------------------------------------------------------------------

/// An IPv4 address is read from just the characters of a range, and written in
/// the usual digits.
pub proof fn lemma_ipv4_read(
    chars: &Vec<char>,
    start: usize,
    end: usize,
    r: Option<[u8; 4]>,
    octets: &[u8; 4],
    s: String,
    a: Seq<char>,
    b: Seq<char>,
    c: Seq<char>,
    d: Seq<char>,
)
    requires
        start <= end <= chars@.len(),
        call_ensures(ip::parse_ipv4, (chars, start, end), r),
        call_ensures(ip::ipv4_string, (octets,), s),
        write_octets(a, b, c, d, octets@),
    ensures
        s@ == dotted(a, b, c, d),
        r == Some(*octets) ==> chars@.subrange(start as int, end as int) == dotted(a, b, c, d),
        chars@.subrange(start as int, end as int) == dotted(a, b, c, d) ==> (r matches Some(o) && o@
            == octets@),
{
    lemma_ipv4_spelled(a, b, c, d, octets@);
}

/// An IPv6 address with a double colon is read as its first groups, its last
/// groups and zeros between them; one without is read group by group.
pub proof fn lemma_ipv6_read(
    chars: &Vec<char>,
    r: Option<[u8; 16]>,
    hs: Seq<Seq<char>>,
    ts: Seq<Seq<char>>,
    v4: Option<Seq<u8>>,
    gap: bool,
)
    requires
        call_ensures(ip::parse_ipv6, (chars,), r),
        ipv6_form(chars@, hs, ts, v4, gap),
    ensures
        r matches Some(o) && octets_are(
            o@,
            if gap {
                around_zeros(numbers_of(hs, None), numbers_of(ts, v4))
            } else {
                numbers_of(ts, v4)
            },
        ),
{
    if gap {
        lemma_ipv6_gap(hs, ts, v4);
    } else {
        lemma_ipv6_full(ts, v4);
    }
}

/// A text of no such form is not read as an IPv6 address.
pub proof fn lemma_ipv6_not_read(chars: &Vec<char>, r: Option<[u8; 16]>)
    requires
        call_ensures(ip::parse_ipv6, (chars,), r),
        forall|hs: Seq<Seq<char>>, ts: Seq<Seq<char>>, v4: Option<Seq<u8>>, gap: bool|
            !(#[trigger] ipv6_form(chars@, hs, ts, v4, gap)),
    ensures
        r is None,
{
    lemma_ipv6_only(chars@);
}

/// To write the groups that a double colon stands for as zeros does not change
/// the address: groups of zero, each as the digit 0, in the place of the gap.
pub proof fn lemma_zeros_written_out(
    hs: Seq<Seq<char>>,
    zs: Seq<Seq<char>>,
    ts: Seq<Seq<char>>,
    v4: Option<Seq<u8>>,
)
    requires
        all_groups(hs) && all_groups(ts),
        v4 is Some ==> v4->0.len() == 4,
        zs.len() >= 1,
        forall|i: int| 0 <= i < zs.len() ==> #[trigger] zs[i] == seq!['0'],
        hs.len() + zs.len() + numbers_of(ts, v4).len() == 8,
    ensures
        ip::ipv6_value(with_colons(hs) + seq![':', ':'] + spelled(ts, v4)) == ip::ipv6_value(
            spelled(hs + zs + ts, v4),
        ),
        ip::ipv6_value(spelled(hs + zs + ts, v4)) is Some,
{
    let all = hs + zs + ts;
    assert forall|i: int| 0 <= i < all.len() implies is_group(#[trigger] all[i]) by {
        if i < hs.len() {
            assert(is_group(hs[i]));
        } else if i < hs.len() + zs.len() {
            assert(zs[i - hs.len()] == seq!['0']);
        } else {
            assert(is_group(ts[i - hs.len() - zs.len()]));
        }
    }
    lemma_ipv6_gap(hs, ts, v4);
    lemma_ipv6_full(all, v4);
    let v = numbers_of(all, v4);
    let w = around_zeros(numbers_of(hs, None), numbers_of(ts, v4));
    assert(hex_numeral(seq!['0']) == 0) by {
        reveal_with_fuel(hex_numeral, 2);
        assert(seq!['0'].drop_last() =~= Seq::<char>::empty());
    }
    assert(v =~= w) by {
        assert forall|i: int| 0 <= i < 8 implies v[i] == w[i] by {
            if hs.len() <= i < hs.len() + zs.len() {
                assert(zs[i - hs.len()] == seq!['0']);
                assert(all[i] == seq!['0']);
            }
        }
    }
    let a = ip::ipv6_value(with_colons(hs) + seq![':', ':'] + spelled(ts, v4))->0;
    let b = ip::ipv6_value(spelled(all, v4))->0;
    assert forall|k: int| 0 <= k < 16 implies a[k] == b[k] by {
        let i = k / 2;
        assert(a[2 * i] * 256 + a[2 * i + 1] == v[i]);
        assert(b[2 * i] * 256 + b[2 * i + 1] == v[i]);
        assert(k == 2 * i || k == 2 * i + 1);
    }
    assert(a =~= b);
}

} // verus!
