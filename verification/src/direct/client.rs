//! The client side of the direct variant: the header goes to the server
//! without a frame, and one byte comes back.
use crate::client;
use crate::client::{SocksAction, SocksActionView, SocksSession, SocksStateView};
use crate::text;
use vstd::prelude::*;

verus! {

/// Where the connection of an application stands.
#[derive(Debug)]
pub enum ClientState {
    /// In the conversation with the application.
    Talking(SocksSession),
    /// Before the status of the server.
    Status,
    Closed,
}

/// What is done next for an application.
#[derive(Debug)]
pub enum ClientAction {
    /// What the conversation asks for. A target is opened by sending its header
    /// to the server and reading the status.
    Talk(SocksAction),
    /// Write this to the application and relay.
    Relay(Vec<u8>),
    /// Write this to the application and end with the status.
    Refuse(Vec<u8>, u8),
}

/// A `ClientState` as a mathematical value. A conversation has beside its state
/// whether every application is accepted.
pub enum ClientStateView {
    Talking(SocksStateView, bool),
    Status,
    Closed,
}

/// A `ClientAction` as a mathematical value.
pub enum ClientActionView {
    Talk(SocksActionView),
    Relay(Seq<u8>),
    Refuse(Seq<u8>, u8),
}

impl View for ClientState {
    type V = ClientStateView;

    open spec fn view(&self) -> ClientStateView {
        match self {
            ClientState::Talking(s) => ClientStateView::Talking(s.state@, s.any_method),
            ClientState::Status => ClientStateView::Status,
            ClientState::Closed => ClientStateView::Closed,
        }
    }
}

impl View for ClientAction {
    type V = ClientActionView;

    open spec fn view(&self) -> ClientActionView {
        match self {
            ClientAction::Talk(a) => ClientActionView::Talk(a@),
            ClientAction::Relay(out) => ClientActionView::Relay(out@),
            ClientAction::Refuse(out, status) => ClientActionView::Refuse(out@, *status),
        }
    }
}

impl ClientStateView {
    /// How many bytes the next step takes, from the application or, for the
    /// status, from the server.
    pub open spec fn needs(self) -> int {
        match self {
            ClientStateView::Talking(s, _) => s.needs(),
            ClientStateView::Status => 1,
            ClientStateView::Closed => 0,
        }
    }
}

impl ClientState {
    /// Whether the state can go on. Every application is accepted.
    pub open spec fn wf(self) -> bool {
        self matches ClientState::Talking(s) ==> s.state@.wf() && s.any_method
    }

    /// The state before the first byte. It needs two bytes first.
    pub fn new() -> (r: Self)
        ensures
            r.wf(),
            r@ == ClientStateView::Talking(SocksStateView::Greeting, true),
            r@.needs() == 2,
    {
        ClientState::Talking(SocksSession::new(true))
    }
}

/// What follows from the status of the server.
pub open spec fn status_action(status: u8) -> ClientActionView {
    let reply = client::reply_bytes(client::status_reply(status));
    if status == 0x00 {
        ClientActionView::Relay(reply)
    } else {
        ClientActionView::Refuse(reply, status)
    }
}

/// One step, from the bytes that the state needs.
pub open spec fn client_step(state: ClientStateView, input: Seq<u8>) -> (
    ClientStateView,
    ClientActionView,
) {
    match state {
        ClientStateView::Talking(s, any_method) => {
            let (next, action) = client::socks_step(s, input, any_method);
            (
                if action is Open {
                    ClientStateView::Status
                } else {
                    ClientStateView::Talking(next, any_method)
                },
                ClientActionView::Talk(action),
            )
        },
        ClientStateView::Status => (ClientStateView::Closed, status_action(input[0])),
        ClientStateView::Closed => (
            ClientStateView::Closed,
            ClientActionView::Talk(SocksActionView::Read(0)),
        ),
    }
}

/// Takes the bytes that the state needs, and says what to do next.
pub fn handle_socks_client(state: ClientState, input: &[u8]) -> (r: (ClientState, ClientAction))
    requires
        state.wf(),
        input@.len() == state@.needs(),
    ensures
        (r.0@, r.1@) == client_step(state@, input@),
        r.0.wf(),
{
    match state {
        ClientState::Talking(session) => {
            let (session, action) = client::handle_socks_client(session, input);
            match action {
                SocksAction::Open(target) => (
                    ClientState::Status,
                    ClientAction::Talk(SocksAction::Open(target)),
                ),
                action => (ClientState::Talking(session), ClientAction::Talk(action)),
            }
        },
        ClientState::Status => {
            let status = input[0];
            let reply = client::send_socks_reply(client::reply_of_status(status));
            if status != 0x00 {
                (ClientState::Closed, ClientAction::Refuse(reply, status))
            } else {
                (ClientState::Closed, ClientAction::Relay(reply))
            }
        },
        ClientState::Closed => (ClientState::Closed, ClientAction::Talk(SocksAction::Read(0))),
    }
}

/// The complaint about a status.
pub open spec fn rejected_text(status: u8) -> Seq<char> {
    "server rejected: status 0x"@ + text::hex2(status)
}

pub fn rejected_message(status: u8) -> (r: String)
    ensures
        r@ == rejected_text(status),
{
    let mut s = "server rejected: status 0x".to_string();
    text::push_hex2(&mut s, status);
    s
}

} // verus!
