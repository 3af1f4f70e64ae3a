//! Laws on the address of a server, and on reading over QUIC.
use crate::laws::numbers;
use crate::quic;
use crate::quic::{
    AddressError, AddressErrorView, CertCheck, ExactRead, PortError, QuicRelay, TlsError,
};
use crate::text;
use vstd::prelude::*;

verus! {

/// A text without its plus sign in front, where it has one.
pub open spec fn without_plus(t: Seq<char>) -> Seq<char> {
    if t.len() > 0 && t[0] == '+' {
        t.skip(1)
    } else {
        t
    }
}

/// Whether a text is a port: one or more digits after an optional plus sign,
/// that write a number below 65536.
pub open spec fn is_port(t: Seq<char>) -> bool {
    let d = without_plus(t);
    d.len() > 0 && numbers::digits(d) && numbers::numeral(d) <= 65535
}

/// Whether a text begins with digits that write a number of 65536 or more.
pub open spec fn begins_too_large(t: Seq<char>) -> bool {
    exists|i: int|
        0 < i <= without_plus(t).len() && numbers::digits(#[trigger] without_plus(t).take(i))
            && numbers::numeral(without_plus(t).take(i)) > 65535
}

/// A text that is a port denotes the number that its digits write. Any other is
/// refused: an empty one as empty, one that begins with too large a number as
/// too large, and the rest for a character that is no digit or is missing.
pub proof fn lemma_port(t: Seq<char>)
    ensures
        is_port(t) ==> (quic::port_value(t) matches Ok(p) && p == numbers::numeral(
            without_plus(t),
        )),
        t.len() == 0 ==> quic::port_value(t) == Err::<u16, PortError>(PortError::Empty),
        begins_too_large(t) ==> quic::port_value(t) == Err::<u16, PortError>(PortError::TooLarge),
        t.len() > 0 && !is_port(t) && !begins_too_large(t) ==> quic::port_value(t) == Err::<
            u16,
            PortError,
        >(PortError::InvalidDigit),
{
    let d = without_plus(t);
    let k = quic::digit_count(d);
    quic::lemma_digit_count_bounds(d);
    let head = d.take(k);
    assert(numbers::digits(head)) by {
        assert forall|i: int| 0 <= i < head.len() implies 48 <= (#[trigger] head[i]) as int
            <= 57 by {
            assert(text::decimal_digit(d[i]) is Some);
        }
    }
    numbers::lemma_same_digits(head);
    text::lemma_decimal_value_nonneg(head);
    if is_port(t) {
        assert forall|j: int| 0 <= j < d.len() implies text::decimal_digit(
            #[trigger] d[j],
        ) is Some by {
            assert(48 <= d[j] as int <= 57);
        }
        quic::lemma_digit_count_at_least(d, d.len() as int);
        assert(head =~= d);
    }
    if begins_too_large(t) {
        let i = choose|i: int|
            0 < i <= d.len() && numbers::digits(#[trigger] d.take(i)) && numbers::numeral(d.take(i))
                > 65535;
        let part = d.take(i);
        assert forall|j: int| 0 <= j < i implies text::decimal_digit(#[trigger] d[j]) is Some by {
            assert(48 <= part[j] as int <= 57);
        }
        numbers::lemma_same_digits(part);
        quic::lemma_digit_count_at_least(d, i);
        quic::lemma_value_grows(d, i, k);
    }
    if t.len() > 0 && !is_port(t) && !begins_too_large(t) {
        if numbers::numeral(head) > 65535 {
            assert(k > 0) by {
                if k == 0 {
                    assert(head =~= Seq::empty());
                }
            }
            assert(numbers::digits(d.take(k)));
        }
        if k == d.len() && k > 0 {
            assert(head =~= d);
        }
    }
}

/// Whether a host stands in square brackets.
pub open spec fn bracketed(h: Seq<char>) -> bool {
    h.len() >= 2 && h[0] == '[' && h.last() == ']'
}

/// The address of a server is split at its last colon. What stands after it is
/// the port, what stands before it is the host, without square brackets where
/// it has both.
pub proof fn lemma_split(
    addr: &str,
    r: Result<(String, u16), AddressError>,
    host: Seq<char>,
    port: Seq<char>,
)
    requires
        call_ensures(quic::split_host_port, (addr,), r),
        addr@ == host + seq![':'] + port,
        !port.contains(':'),
    ensures
        r is Ok <==> is_port(port),
        r matches Ok((h, p)) ==> p == numbers::numeral(without_plus(port)) && if bracketed(host) {
            seq!['['] + h@ + seq![']'] == host
        } else {
            h@ == host
        },
        r matches Err(e) ==> e@ == AddressErrorView::Port(
            if port.len() == 0 {
                PortError::Empty
            } else if begins_too_large(port) {
                PortError::TooLarge
            } else {
                PortError::InvalidDigit
            },
        ),
{
    let t = addr@;
    let k = host.len() as int;
    assert forall|j: int| k < j < t.len() implies t[j] != ':' by {
        assert(t[j] == port[j - k - 1]);
    }
    quic::lemma_last_colon(t, k);
    assert(t.skip(k + 1) =~= port);
    assert(t.take(k) =~= host);
    lemma_port(port);
    if is_port(port) && begins_too_large(port) {
        let d = without_plus(port);
        let i = choose|i: int|
            0 < i <= d.len() && numbers::digits(#[trigger] d.take(i)) && numbers::numeral(d.take(i))
                > 65535;
        assert(false);
    }
    if bracketed(host) {
        assert(seq!['['] + host.subrange(1, k - 1) + seq![']'] =~= host);
    }
}

/// Without a colon there is no port, and the text is named in the error.
pub proof fn lemma_no_port(addr: &str, r: Result<(String, u16), AddressError>)
    requires
        call_ensures(quic::split_host_port, (addr,), r),
        !addr@.contains(':'),
    ensures
        r matches Err(e) && e@ == AddressErrorView::NoPort(addr@),
{
    lemma_no_colon(addr@);
}

proof fn lemma_no_colon(t: Seq<char>)
    requires
        !t.contains(':'),
    ensures
        quic::last_colon(t) == -1,
    decreases t.len(),
{
    if t.len() > 0 {
        assert(t[t.len() - 1] != ':');
        let init = t.drop_last();
        assert(!init.contains(':')) by {
            if init.contains(':') {
                let i = choose|i: int| 0 <= i < init.len() && init[i] == ':';
                assert(t[i] == ':');
            }
        }
        lemma_no_colon(init);
    }
}

/// A host and a port that are put together split into them again, for every
/// host but one that both begins with an opening square bracket and ends with a
/// closing one.
pub proof fn lemma_put_together(
    addr: &str,
    r: Result<(String, u16), AddressError>,
    host: Seq<char>,
    port: u16,
)
    requires
        call_ensures(quic::split_host_port, (addr,), r),
        numbers::names_target(addr@, host, port as int),
        !bracketed(host),
    ensures
        r matches Ok((h, p)) && h@ == host && p == port,
{
    let n = host.len() as int;
    let digits = addr@.skip(n + 1);
    assert(addr@ =~= host + seq![':'] + digits);
    assert forall|i: int| 0 <= i < digits.len() implies digits[i] != ':' && digits[i] != '+' by {
        assert(48 <= digits[i] as int <= 57);
    }
    assert(without_plus(digits) == digits);
    lemma_split(addr, r, host, digits);
}

// ---------------------------------------------------------------------------
// Reading over QUIC
// ---------------------------------------------------------------------------

/// Reading so many bytes is done just when all have come, goes on with as many
/// as have come, and ends where a read gives none before that.
pub proof fn lemma_exact_read(offset: usize, want: usize, got: Option<usize>, r: ExactRead)
    requires
        offset <= want,
        got matches Some(n) ==> offset + n <= want,
        call_ensures(quic::read_exact_quic, (offset, want, got), r),
    ensures
        ({
            let n = if got is Some {
                got->0 as int
            } else {
                0
            };
            &&& r is Done <==> offset + n == want
            &&& r is End <==> n == 0 && offset < want
            &&& r matches ExactRead::More(m) ==> m == offset + n && offset < m < want
        }),
{
}

/// A relay writes just as many bytes as it has read, and at the end of what it
/// reads finishes the side into the tunnel, or stops.
pub proof fn lemma_quic_relay(n: usize, got: Option<usize>, a: QuicRelay, b: QuicRelay)
    requires
        call_ensures(quic::relay_external_to_quic, (n,), a),
        call_ensures(quic::relay_quic_to_external, (got,), b),
    ensures
        a matches QuicRelay::Write(m) ==> m == n && n > 0,
        a is Finish <==> n == 0,
        !(a is Stop),
        b matches QuicRelay::Write(m) ==> got == Some(m) && m > 0,
        b is Stop <==> got is None || got == Some(0usize),
        !(b is Finish),
{
}

/// A client accepts any certificate just where it is to be insecure, and else
/// does not go on.
pub proof fn lemma_certificate_check(
    insecure: bool,
    fingerprint: Option<&str>,
    r: Result<CertCheck, TlsError>,
)
    requires
        call_ensures(quic::build_quic_client_tls, (insecure, fingerprint), r),
    ensures
        r is Ok <==> insecure,
        r matches Ok(check) ==> check == CertCheck::Skip,
        r matches Err(e) ==> (e == TlsError::Fingerprint <==> fingerprint is Some),
{
}

} // verus!
