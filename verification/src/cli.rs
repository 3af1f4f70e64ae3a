//! What the command line asks for, made ready to run.
use crate::crypto::KEY_LEN;
use crate::quic;
use crate::quic::{CertCheck, TlsError};
use crate::secret;
use crate::secret::SecretError;
use vstd::prelude::*;

verus! {

/// How the tunnel travels.
#[derive(Debug, Clone, Copy, PartialEq, Eq, Structural)]
pub enum Transport {
    Tcp,
    Quic,
}

/// A command with its arguments.
#[derive(Debug)]
pub enum Command {
    Client {
        listen: String,
        server: String,
        secret: Option<String>,
        transport: Transport,
        quic_insecure: bool,
        quic_fingerprint: Option<String>,
    },
    Server {
        listen: String,
        secret: Option<String>,
        transport: Transport,
        quic_listen: Option<String>,
        quic_cert: Option<String>,
        quic_key: Option<String>,
    },
    Keygen,
}

/// Where a server has its certificate from.
#[derive(Debug)]
pub enum CertSource {
    /// From a certificate file and a key file.
    Files { cert: String, key: String },
    /// It makes one that signs itself.
    SelfSigned,
}

/// What is to be run.
#[derive(Debug)]
pub enum Plan {
    TcpClient { listen: String, server: String, key: Option<[u8; KEY_LEN]> },
    QuicClient { listen: String, server: String, check: CertCheck },
    TcpServer { listen: String, key: Option<[u8; KEY_LEN]> },
    QuicServer { listen: String, cert: CertSource },
    Keygen,
}

/// Why nothing is run.
#[derive(Debug, Clone, Copy, PartialEq, Eq, Structural)]
pub enum PlanError {
    Secret(SecretError),
    Tls(TlsError),
}

impl PlanError {
    /// The error in words.
    pub open spec fn message_text(self) -> Seq<char> {
        match self {
            PlanError::Secret(e) => e.message_text(),
            PlanError::Tls(e) => e.message_text(),
        }
    }

    pub fn message(&self) -> (r: String)
        ensures
            r@ == self.message_text(),
    {
        match self {
            PlanError::Secret(e) => e.message(),
            PlanError::Tls(e) => e.message(),
        }
    }
}

/// The characters of an optional text.
pub open spec fn opt_text(t: Option<String>) -> Option<Seq<char>> {
    match t {
        Some(t) => Some(t@),
        None => None,
    }
}

/// The bytes of an optional key.
pub open spec fn opt_key(key: Option<[u8; KEY_LEN]>) -> Option<Seq<u8>> {
    match key {
        Some(key) => Some(key@),
        None => None,
    }
}

/// The key of an optional secret: none where there is no secret.
pub open spec fn given_key(t: Option<Seq<char>>) -> Result<Option<Seq<u8>>, SecretError> {
    match t {
        None => Ok(None),
        Some(t) => match secret::secret_value(t) {
            Ok(key) => Ok(Some(key)),
            Err(e) => Err(e),
        },
    }
}

fn read_key(secret: &Option<String>) -> (r: Result<Option<[u8; KEY_LEN]>, SecretError>)
    ensures
        match r {
            Ok(key) => given_key(opt_text(*secret)) == Ok::<Option<Seq<u8>>, SecretError>(
                opt_key(key),
            ),
            Err(e) => given_key(opt_text(*secret)) == Err::<Option<Seq<u8>>, SecretError>(e),
        },
{
    match secret {
        None => Ok(None),
        Some(t) => match secret::parse_secret(t.as_str()) {
            Ok(key) => Ok(Some(key)),
            Err(e) => Err(e),
        },
    }
}

/// The address that a server listens on over QUIC where none is given.
pub open spec fn default_quic_listen() -> Seq<char> {
    "0.0.0.0:9091"@
}

/// Whether a plan is the one for a command. Over TCP a secret must be a key,
/// and over QUIC it is ignored; a server over QUIC uses its certificate files
/// only where both are given.
pub open spec fn planned(command: Command, r: Result<Plan, PlanError>) -> bool {
    match command {
        Command::Client { listen, server, secret, transport: Transport::Tcp, .. } => match given_key(
            opt_text(secret),
        ) {
            Ok(wanted) => {
                &&& r matches Ok(Plan::TcpClient { listen: at, server: to, key })
                &&& at@ == listen@
                &&& to@ == server@
                &&& opt_key(key) == wanted
            },
            Err(e) => r == Err::<Plan, PlanError>(PlanError::Secret(e)),
        },
        Command::Client {
            listen,
            server,
            transport: Transport::Quic,
            quic_insecure,
            quic_fingerprint,
            ..
        } => if quic_insecure {
            &&& r matches Ok(Plan::QuicClient { listen: at, server: to, check })
            &&& at@ == listen@
            &&& to@ == server@
            &&& check == CertCheck::Skip
        } else if quic_fingerprint is Some {
            r == Err::<Plan, PlanError>(PlanError::Tls(TlsError::Fingerprint))
        } else {
            r == Err::<Plan, PlanError>(PlanError::Tls(TlsError::NoCheck))
        },
        Command::Server { listen, secret, transport: Transport::Tcp, .. } => match given_key(
            opt_text(secret),
        ) {
            Ok(wanted) => {
                &&& r matches Ok(Plan::TcpServer { listen: at, key })
                &&& at@ == listen@
                &&& opt_key(key) == wanted
            },
            Err(e) => r == Err::<Plan, PlanError>(PlanError::Secret(e)),
        },
        Command::Server { transport: Transport::Quic, quic_listen, quic_cert, quic_key, .. } => {
            &&& r matches Ok(Plan::QuicServer { listen: at, cert })
            &&& at@ == match quic_listen {
                Some(t) => t@,
                None => default_quic_listen(),
            }
            &&& match (quic_cert, quic_key) {
                (Some(c), Some(k)) => {
                    &&& cert matches CertSource::Files { cert: cert_file, key: key_file }
                    &&& cert_file@ == c@
                    &&& key_file@ == k@
                },
                _ => cert is SelfSigned,
            }
        },
        Command::Keygen => r matches Ok(Plan::Keygen),
    }
}

/// Makes a command ready to run.
pub fn plan(command: Command) -> (r: Result<Plan, PlanError>)
    ensures
        planned(command, r),
{
    match command {
        Command::Client { listen, server, secret, transport, quic_insecure, quic_fingerprint } => {
            match transport {
                Transport::Tcp => match read_key(&secret) {
                    Ok(key) => Ok(Plan::TcpClient { listen, server, key }),
                    Err(e) => Err(PlanError::Secret(e)),
                },
                Transport::Quic => {
                    let fingerprint = match &quic_fingerprint {
                        Some(t) => Some(t.as_str()),
                        None => None,
                    };
                    match quic::build_quic_client_tls(quic_insecure, fingerprint) {
                        Ok(check) => Ok(Plan::QuicClient { listen, server, check }),
                        Err(e) => Err(PlanError::Tls(e)),
                    }
                },
            }
        },
        Command::Server { listen, secret, transport, quic_listen, quic_cert, quic_key } => {
            match transport {
                Transport::Tcp => match read_key(&secret) {
                    Ok(key) => Ok(Plan::TcpServer { listen, key }),
                    Err(e) => Err(PlanError::Secret(e)),
                },
                Transport::Quic => {
                    let listen = match quic_listen {
                        Some(t) => t,
                        None => "0.0.0.0:9091".to_string(),
                    };
                    let cert = match (quic_cert, quic_key) {
                        (Some(cert), Some(key)) => CertSource::Files { cert, key },
                        _ => CertSource::SelfSigned,
                    };
                    Ok(Plan::QuicServer { listen, cert })
                },
            }
        },
        Command::Keygen => Ok(Plan::Keygen),
    }
}

} // verus!
