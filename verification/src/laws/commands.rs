//! Laws on keys as text, and on what a command line asks for.
use crate::cli;
use crate::cli::{CertSource, Command, Plan, PlanError, Transport};
use crate::crypto::KEY_LEN;
use crate::laws::numbers;
use crate::proxy;
use crate::quic::{CertCheck, TlsError};
use crate::secret;
use crate::secret::{HexError, SecretError};
use crate::text;
use vstd::prelude::*;
use vstd::utf8::*;

verus! {

// ---------------------------------------------------------------------------
// Keys as text
// ---------------------------------------------------------------------------

/// Whether two hexadecimal digits of either case write a byte, the first of the
/// two counting sixteen times as much.
pub open spec fn write_byte(a: char, b: char, v: u8) -> bool {
    &&& 0 <= numbers::nibble(a)
    &&& 0 <= numbers::nibble(b)
    &&& numbers::nibble(a) * 16 + numbers::nibble(b) == v
}

/// Whether a text spells a key: 64 hexadecimal digits of either case, two for
/// each byte in turn.
pub open spec fn spells(t: Seq<char>, key: Seq<u8>) -> bool {
    &&& t.len() == 64
    &&& key.len() == 32
    &&& forall|i: int| 0 <= i < 32 ==> write_byte(t[2 * i], t[2 * i + 1], #[trigger] key[i])
}

/// A text that spells a key denotes this key.
pub proof fn lemma_spelled_key(t: Seq<char>, key: Seq<u8>)
    requires
        spells(t, key),
    ensures
        secret::secret_value(t) == Ok::<Seq<u8>, SecretError>(key),
{
    let b = encode_utf8(t);
    assert forall|i: int| 0 <= i < t.len() implies text::hex_digit(#[trigger] t[i]) is Some by {
        let k = i / 2;
        assert(i == 2 * k || i == 2 * k + 1);
        assert(write_byte(t[2 * k], t[2 * k + 1], key[k]));
    }
    secret::lemma_digits_are_ascii(t);
    secret::lemma_secret_form(t);
    assert(secret::hex_pairs(b) =~= key) by {
        assert forall|i: int| 0 <= i < 32 implies secret::hex_pairs(b)[i] == key[i] by {
            assert(b[2 * i] as char == t[2 * i]);
            assert(b[2 * i + 1] as char == t[2 * i + 1]);
            assert(write_byte(t[2 * i], t[2 * i + 1], key[i]));
        }
    }
}

/// A text that denotes a key spells it.
pub proof fn lemma_key_spelled(t: Seq<char>)
    ensures
        secret::secret_value(t) matches Ok(key) ==> spells(t, key),
{
    if secret::secret_value(t) is Ok {
        let key = secret::secret_value(t)->Ok_0;
        let b = encode_utf8(t);
        secret::lemma_secret_form(t);
        secret::lemma_digits_are_ascii(t);
        assert forall|i: int| 0 <= i < 32 implies write_byte(
            t[2 * i],
            t[2 * i + 1],
            #[trigger] key[i],
        ) by {
            assert(b[2 * i] as char == t[2 * i]);
            assert(b[2 * i + 1] as char == t[2 * i + 1]);
            assert(text::hex_digit(t[2 * i]) is Some);
            assert(text::hex_digit(t[2 * i + 1]) is Some);
        }
    }
}

/// The text of bytes is two lower-case digits for each byte in turn.
pub proof fn lemma_hex_text_spells(d: Seq<u8>)
    ensures
        secret::hex_text(d).len() == 2 * d.len(),
        forall|i: int|
            0 <= i < d.len() ==> write_byte(
                secret::hex_text(d)[2 * i],
                secret::hex_text(d)[2 * i + 1],
                #[trigger] d[i],
            ),
        forall|i: int|
            0 <= i < 2 * d.len() ==> !(65 <= (#[trigger] secret::hex_text(d)[i]) as int <= 70),
{
    let t = secret::hex_text(d);
    secret::lemma_hex_text(d);
    assert forall|i: int| 0 <= i < d.len() implies write_byte(
        t[2 * i],
        t[2 * i + 1],
        #[trigger] d[i],
    ) by {
        numbers::lemma_hex2_writes(d[i]);
    }
    assert forall|i: int| 0 <= i < 2 * d.len() implies !(65 <= (#[trigger] t[i]) as int <= 70) by {
        let k = i / 2;
        assert(i == 2 * k || i == 2 * k + 1);
        numbers::lemma_hex2_writes(d[k]);
    }
}

/// What is wrong with a text that denotes no key. An odd number of bytes comes
/// first; then the first byte that is no digit, with its position; then a
/// number of bytes other than that of a key.
pub proof fn lemma_key_refused(t: Seq<char>, k: int)
    ensures
        ({
            let b = encode_utf8(t);
            let r = secret::secret_value(t);
            &&& b.len() % 2 != 0 ==> r == Err::<Seq<u8>, SecretError>(
                SecretError::Hex(HexError::OddLength),
            )
            &&& b.len() % 2 == 0 && 0 <= k < b.len() && k <= usize::MAX && numbers::nibble(
                b[k] as char,
            ) < 0 && (forall|j: int|
                0 <= j < k ==> 0 <= numbers::nibble(#[trigger] b[j] as char)) ==> r == Err::<
                Seq<u8>,
                SecretError,
            >(SecretError::Hex(HexError::InvalidCharacter { c: b[k] as char, index: k as usize }))
            &&& b.len() % 2 == 0 && b.len() != 64 && (forall|j: int|
                0 <= j < b.len() ==> 0 <= numbers::nibble(#[trigger] b[j] as char)) ==> r == Err::<
                Seq<u8>,
                SecretError,
            >(SecretError::Length((b.len() / 2) as usize))
        }),
{
    let b = encode_utf8(t);
    secret::lemma_first_bad(b);
    let f = secret::first_bad(b);
    if 0 <= k < b.len() && numbers::nibble(b[k] as char) < 0 && (forall|j: int|
        0 <= j < k ==> 0 <= numbers::nibble(#[trigger] b[j] as char)) {
        if f < k {
            assert(0 <= numbers::nibble(b[f] as char));
        } else if f > k {
            assert(secret::hex_value(b[k]) is Some);
        }
    }
    if forall|j: int| 0 <= j < b.len() ==> 0 <= numbers::nibble(#[trigger] b[j] as char) {
        if f < b.len() {
            assert(0 <= numbers::nibble(b[f] as char));
        }
    }
}

/// Inside another program a text that spells a key stands for this key, and any
/// other text, or none, stands for no key.
pub proof fn lemma_optional_key(t: Option<Seq<char>>, key: Seq<u8>)
    ensures
        proxy::optional_key(t) == Some(key) <==> t is Some && spells(t->0, key),
{
    if t is Some {
        lemma_key_spelled(t->0);
        if spells(t->0, key) {
            lemma_spelled_key(t->0, key);
        }
    }
}

// ---------------------------------------------------------------------------
// Plans
// ---------------------------------------------------------------------------

/// Over TCP a client is run with a key just where a secret is given, and the
/// secret spells this key; it listens and connects where it was told to.
pub proof fn lemma_tcp_client_plan(command: Command, r: Result<Plan, PlanError>)
    requires
        call_ensures(cli::plan, (command,), r),
        command matches Command::Client { transport: Transport::Tcp, .. },
    ensures
        r matches Ok(p) ==> {
            &&& p is TcpClient
            &&& p->TcpClient_listen@ == command->Client_listen@
            &&& p->TcpClient_server@ == command->Client_server@
            &&& p->TcpClient_key is Some <==> command->Client_secret is Some
            &&& command->Client_secret is Some ==> spells(
                command->Client_secret->0@,
                p->TcpClient_key->0@,
            )
        },
        r is Err <==> command->Client_secret is Some && forall|key: Seq<u8>|
            !spells(command->Client_secret->0@, key),
        r matches Err(e) ==> e == PlanError::Secret(
            secret::secret_value(command->Client_secret->0@)->Err_0,
        ),
{
    if command->Client_secret is Some {
        let t = command->Client_secret->0@;
        lemma_key_spelled(t);
        if exists|key: Seq<u8>| spells(t, key) {
            let key = choose|key: Seq<u8>| spells(t, key);
            lemma_spelled_key(t, key);
        }
    }
}

/// Over TCP a server is run with a key just where a secret is given, and the
/// secret spells this key; it listens where it was told to.
pub proof fn lemma_tcp_server_plan(command: Command, r: Result<Plan, PlanError>)
    requires
        call_ensures(cli::plan, (command,), r),
        command matches Command::Server { transport: Transport::Tcp, .. },
    ensures
        r matches Ok(p) ==> {
            &&& p is TcpServer
            &&& p->TcpServer_listen@ == command->Server_listen@
            &&& p->TcpServer_key is Some <==> command->Server_secret is Some
            &&& command->Server_secret is Some ==> spells(
                command->Server_secret->0@,
                p->TcpServer_key->0@,
            )
        },
        r is Err <==> command->Server_secret is Some && forall|key: Seq<u8>|
            !spells(command->Server_secret->0@, key),
        r matches Err(e) ==> e == PlanError::Secret(
            secret::secret_value(command->Server_secret->0@)->Err_0,
        ),
{
    if command->Server_secret is Some {
        let t = command->Server_secret->0@;
        lemma_key_spelled(t);
        if exists|key: Seq<u8>| spells(t, key) {
            let key = choose|key: Seq<u8>| spells(t, key);
            lemma_spelled_key(t, key);
        }
    }
}

/// A client and a server over TCP that are given the same secret are run with
/// the same key, or neither is run.
pub proof fn lemma_same_secret_same_key(
    client: Command,
    server: Command,
    rc: Result<Plan, PlanError>,
    rs: Result<Plan, PlanError>,
)
    requires
        call_ensures(cli::plan, (client,), rc),
        call_ensures(cli::plan, (server,), rs),
        client matches Command::Client { transport: Transport::Tcp, .. },
        server matches Command::Server { transport: Transport::Tcp, .. },
        cli::opt_text(client->Client_secret) == cli::opt_text(server->Server_secret),
    ensures
        match (rc, rs) {
            (
                Ok(Plan::TcpClient { key: Some(a), .. }),
                Ok(Plan::TcpServer { key: Some(b), .. }),
            ) => a@ == b@,
            (Ok(Plan::TcpClient { key: None, .. }), Ok(Plan::TcpServer { key: None, .. })) => true,
            (Err(a), Err(b)) => a == b,
            _ => false,
        },
{
    lemma_tcp_client_plan(client, rc);
    lemma_tcp_server_plan(server, rs);
}

/// Over QUIC a client is run just where it is to be insecure, and then accepts
/// any certificate; a secret changes nothing.
pub proof fn lemma_quic_client_plan(command: Command, r: Result<Plan, PlanError>)
    requires
        call_ensures(cli::plan, (command,), r),
        command matches Command::Client { transport: Transport::Quic, .. },
    ensures
        match r {
            Ok(Plan::QuicClient { listen, server, check }) => {
                &&& command->quic_insecure
                &&& listen@ == command->Client_listen@
                &&& server@ == command->Client_server@
                &&& check == CertCheck::Skip
            },
            Err(PlanError::Tls(e)) => {
                &&& !command->quic_insecure
                &&& e == TlsError::Fingerprint <==> command->quic_fingerprint is Some
            },
            _ => false,
        },
{
}

/// Over QUIC a server is always run, on the address that it is given for QUIC,
/// and uses certificate files just where it is given both.
pub proof fn lemma_quic_server_plan(command: Command, r: Result<Plan, PlanError>)
    requires
        call_ensures(cli::plan, (command,), r),
        command matches Command::Server { transport: Transport::Quic, .. },
    ensures
        match r {
            Ok(Plan::QuicServer { listen, cert }) => {
                &&& command->quic_listen is Some ==> listen@ == command->quic_listen->0@
                &&& command->quic_listen is None ==> listen@ == "0.0.0.0:9091"@
                &&& cert is Files <==> command->quic_cert is Some && command->quic_key is Some
                &&& cert matches CertSource::Files { cert, key } ==> cert@
                    == command->quic_cert->0@ && key@ == command->quic_key->0@
            },
            _ => false,
        },
{
}

// ---------------------------------------------------------------------------
// Reading and writing keys
// ---------------------------------------------------------------------------

/// A key is read from the text that spells it, and from no other. A text that
/// may be left out gives no key where it is left out or spells none.
pub proof fn lemma_key_read(
    s: &str,
    t: Option<&str>,
    r: Result<[u8; KEY_LEN], SecretError>,
    o: Option<[u8; KEY_LEN]>,
    key: Seq<u8>,
)
    requires
        call_ensures(secret::parse_secret, (s,), r),
        call_ensures(secret::parse_secret_opt, (t,), o),
    ensures
        spells(s@, key) ==> (r matches Ok(k) && k@ == key),
        r matches Ok(k) ==> spells(s@, k@),
        r matches Err(e) ==> secret::secret_value(s@) == Err::<Seq<u8>, SecretError>(e),
        t is Some && spells(t->0@, key) ==> (o matches Some(k) && k@ == key),
        o matches Some(k) ==> t is Some && spells(t->0@, k@),
{
    lemma_key_spelled(s@);
    if spells(s@, key) {
        lemma_spelled_key(s@, key);
    }
    if t is Some {
        lemma_key_spelled(t->0@);
        if spells(t->0@, key) {
            lemma_spelled_key(t->0@, key);
        }
    }
}

/// A key as text, a fresh one too, spells the key in lower-case digits.
pub proof fn lemma_key_written(key: &[u8; KEY_LEN], r: String, fresh: String)
    requires
        call_ensures(secret::secret_text, (key,), r),
        call_ensures(secret::keygen, (), fresh),
    ensures
        spells(r@, key@),
        forall|i: int| 0 <= i < r@.len() ==> !(65 <= (#[trigger] r@[i]) as int <= 70),
        exists|k: Seq<u8>| #[trigger] spells(fresh@, k),
        forall|i: int| 0 <= i < fresh@.len() ==> !(65 <= (#[trigger] fresh@[i]) as int <= 70),
{
    lemma_hex_text_spells(key@);
    lemma_key_spelled(fresh@);
    let k = secret::secret_value(fresh@)->Ok_0;
    assert(spells(fresh@, k));
    lemma_hex_text_spells(k);
}

/// Why nothing is run is told in the words of what is wrong.
pub proof fn lemma_plan_error(e: &PlanError, r: String)
    requires
        call_ensures(PlanError::message, (e,), r),
    ensures
        *e matches PlanError::Secret(f) ==> r@ == f.message_text(),
        *e matches PlanError::Tls(f) ==> r@ == match f {
            TlsError::Fingerprint =>
                "fingerprint verification not yet implemented; use --quic-insecure for testing"@,
            TlsError::NoCheck =>
                "QUIC requires --quic-insecure or --quic-fingerprint for server certificate verification"@,
        },
{
}

/// Keys are made, and nothing else is run, just where this is asked for.
pub proof fn lemma_keygen_plan(command: Command, r: Result<Plan, PlanError>)
    requires
        call_ensures(cli::plan, (command,), r),
    ensures
        command is Keygen <==> (r matches Ok(Plan::Keygen)),
{
}

} // verus!
