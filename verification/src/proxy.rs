//! The control of a proxy that runs inside another program: it is started and
//! stopped there, and its log is polled.
use crate::crypto::KEY_LEN;
use crate::log::LogBuffer;
use crate::secret;
use crate::secret::SecretError;
use vstd::prelude::*;

verus! {

/// The answer to a start that cannot read its arguments or does not get its
/// port.
pub const START_FAILED: i32 = -1;

/// The answer to a start while the proxy runs.
pub const START_RUNNING: i32 = -2;

/// How many seconds a stop waits for the proxy to end.
pub const STOP_SECONDS: u64 = 5;

/// Whether the proxy runs. Its log is kept beside it.
#[derive(Debug)]
pub struct Proxy {
    pub running: bool,
}

/// What follows from a request to start.
#[derive(Debug)]
pub enum StartAction {
    /// Run a client that listens here, for this server, with this key.
    Run { listen: String, server: String, key: Option<[u8; KEY_LEN]> },
    /// Answer this.
    Answer(i32),
}

/// The key that an optional text stands for. A text that is empty or no key
/// stands for none.
pub open spec fn optional_key(t: Option<Seq<char>>) -> Option<Seq<u8>> {
    match t {
        Some(t) if t.len() > 0 => match secret::secret_value(t) {
            Ok(key) => Some(key),
            Err(_) => None,
        },
        _ => None,
    }
}

impl Proxy {
    pub fn new() -> (r: Self)
        ensures
            !r.running,
    {
        Proxy { running: false }
    }

    /// Takes a request to start. An argument that could not be read is missing;
    /// a secret that was read may still be left out. A start that goes on
    /// empties the log.
    pub fn start(
        &mut self,
        log: &mut LogBuffer,
        server: Option<String>,
        listen: Option<String>,
        secret: Option<Option<String>>,
    ) -> (r: StartAction)
        requires
            old(log).wf(),
        ensures
            final(log).wf(),
            *final(self) == *old(self),
            match r {
                StartAction::Answer(code) => {
                    &&& *final(log) == *old(log)
                    &&& if server is None || listen is None || secret is None {
                        code == START_FAILED
                    } else {
                        old(self).running && code == START_RUNNING
                    }
                },
                StartAction::Run { listen: at, server: to, key } => {
                    &&& server is Some && listen is Some && secret is Some
                    &&& !old(self).running
                    &&& at@ == listen->0@
                    &&& to@ == server->0@
                    &&& optional_key(
                        match secret->0 {
                            Some(t) => Some(t@),
                            None => None,
                        },
                    ) == match key {
                        Some(k) => Some(k@),
                        None => None,
                    }
                    &&& final(log).texts() == Seq::<Seq<char>>::empty()
                },
            },
    {
        match (server, listen, secret) {
            (Some(server), Some(listen), Some(secret)) => {
                let key = match &secret {
                    Some(t) => secret::parse_secret_opt(Some(t.as_str())),
                    None => None,
                };
                if self.running {
                    return StartAction::Answer(START_RUNNING);
                }
                log.clear();
                StartAction::Run { listen, server, key }
            },
            _ => StartAction::Answer(START_FAILED),
        }
    }

    /// Takes the port that a client which was to run has bound, where it has,
    /// and gives the answer to the request.
    pub fn started(&mut self, port: Option<u16>) -> (r: i32)
        ensures
            match port {
                Some(p) => final(self).running && r == p,
                None => final(self).running == old(self).running && r == START_FAILED,
            },
    {
        match port {
            Some(p) => {
                self.running = true;
                p as i32
            },
            None => START_FAILED,
        }
    }

    /// Takes a request to stop: whether there is a proxy to stop.
    pub fn stop(&mut self) -> (r: bool)
        ensures
            r == old(self).running,
            !final(self).running,
    {
        let running = self.running;
        self.running = false;
        running
    }
}

} // verus!
