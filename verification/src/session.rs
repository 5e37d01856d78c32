//! The state machine of one peer connection: handshake, keepalive, idle
//! timeout and cleanup.
//!
//! A session performs no I/O. Each event of the transport is handed to it
//! with the shared registry, and it answers with the actions the caller has
//! to carry out, in order, once the registry is no longer borrowed.

use crate::handshake::{
    cidr_text, field_views, grant_text, hello, hello_reply, hello_text, is_hello, is_thanks,
    lemma_hello_reply_tokens, parse_dotted, read_address, split_tokens, starts_with_hello,
    thanks, thanks_text, tokens,
};
use crate::network::ConfiguredNetwork;
use crate::registry::{
    lemma_allocate, lemma_assign_free, lemma_release_free, lemma_release_then_allocate,
    PeerHandle, PeerRegistry, RegistryModel,
};
use crate::tun::IfaceWrapper;
use vstd::prelude::*;

verus! {

/// Delay of the first keepalive ping after the handshake, in milliseconds.
pub const PING_INTERVAL_MS: u64 = 10_000;

/// Delay of every later keepalive ping, in milliseconds.
pub const PING_REPEAT_MS: u64 = 5_000;

/// Silence after which a connection is closed, in milliseconds.
pub const TIMEOUT_MS: u64 = 60_000;

/// Stands for an armed timer of the transport.
pub type TimerHandle = u64;

/// The two kinds of timer a session arms.
#[derive(Clone, Copy, Debug, PartialEq, Eq, Structural)]
pub enum TimerClass {
    KeepAlivePing,
    IdleTimeout,
}

/// Why a session closes its connection.
#[derive(Clone, Copy, Debug, PartialEq, Eq, Structural)]
pub enum CloseSignal {
    /// The peer was refused: no address is free, or the interface has no
    /// block or no gateway.
    Policy,
    /// The peer was silent for too long.
    Away,
    /// The peer broke the handshake protocol.
    Protocol,
}

/// A condition that ends the whole process.
#[derive(Clone, Copy, Debug, PartialEq, Eq, Structural)]
pub enum Fault {
    /// A session closed, and the registry did not hold its address.
    ReleaseOfAbsentEntry,
    /// The connection of a client closed.
    ConnectionLost,
    /// The grant named a gateway that is no address.
    MalformedGateway,
}

/// Where a session stands.
#[derive(Clone, Copy, Debug, PartialEq, Eq, Structural)]
pub enum SessionState {
    Connecting,
    AwaitingHandshake,
    Established,
    Closed,
}

/// A message of the transport. A text is held as its bytes.
#[derive(Debug, PartialEq, Eq)]
pub enum Message {
    Text(Vec<u8>),
    Binary(Vec<u8>),
}

/// A message with its payload as a value.
pub enum MessageView {
    Text(Seq<u8>),
    Binary(Seq<u8>),
}

impl View for Message {
    type V = MessageView;

    open spec fn view(&self) -> MessageView {
        match self {
            Message::Text(text) => MessageView::Text(text@),
            Message::Binary(data) => MessageView::Binary(data@),
        }
    }
}

/// What the caller has to do for a session.
#[derive(Debug, PartialEq, Eq)]
pub enum Action {
    /// Send a text frame to the peer.
    SendText(Vec<u8>),
    /// Send a ping to the peer.
    Ping,
    /// Close the connection.
    Close(CloseSignal),
    /// Arm a timer of the given class.
    ArmTimer { delay_ms: u64, class: TimerClass },
    /// Cancel an armed timer.
    CancelTimer(TimerHandle),
    /// Hand a packet to the virtual interface, as it is.
    Deliver(Vec<u8>),
    /// Configure the virtual interface with the block written in the text.
    ConfigureInterface(Vec<u8>),
    /// End the process.
    Terminate(Fault),
}

/// An action with its payload as a value.
pub enum ActionView {
    SendText(Seq<u8>),
    Ping,
    Close(CloseSignal),
    ArmTimer { delay_ms: u64, class: TimerClass },
    CancelTimer(TimerHandle),
    Deliver(Seq<u8>),
    ConfigureInterface(Seq<u8>),
    Terminate(Fault),
}

impl View for Action {
    type V = ActionView;

    open spec fn view(&self) -> ActionView {
        match self {
            Action::SendText(text) => ActionView::SendText(text@),
            Action::Ping => ActionView::Ping,
            Action::Close(signal) => ActionView::Close(*signal),
            Action::ArmTimer { delay_ms, class } => ActionView::ArmTimer {
                delay_ms: *delay_ms,
                class: *class,
            },
            Action::CancelTimer(handle) => ActionView::CancelTimer(*handle),
            Action::Deliver(packet) => ActionView::Deliver(packet@),
            Action::ConfigureInterface(cidr) => ActionView::ConfigureInterface(cidr@),
            Action::Terminate(fault) => ActionView::Terminate(*fault),
        }
    }
}

/// The views of a run of actions.
pub open spec fn action_views(actions: Seq<Action>) -> Seq<ActionView> {
    actions.map_values(|a: Action| a@)
}

/// The timer class that a token of the transport stands for.
pub open spec fn class_of_token(token: usize) -> Option<TimerClass> {
    if token == 0 {
        Some(TimerClass::KeepAlivePing)
    } else if token == 1 {
        Some(TimerClass::IdleTimeout)
    } else {
        None
    }
}

impl TimerClass {
    /// The token under which the transport knows timers of this class.
    pub open spec fn spec_token(self) -> usize {
        match self {
            TimerClass::KeepAlivePing => 0,
            TimerClass::IdleTimeout => 1,
        }
    }

    /// The token under which the transport knows timers of this class.
    #[verifier::when_used_as_spec(spec_token)]
    pub fn token(self) -> (t: usize)
        ensures
            t == self.spec_token(),
            class_of_token(t) == Some(self),
    {
        match self {
            TimerClass::KeepAlivePing => 0,
            TimerClass::IdleTimeout => 1,
        }
    }

    /// The class of a token; any token but the two known ones is refused.
    pub fn from_token(token: usize) -> (r: Option<TimerClass>)
        ensures
            r == class_of_token(token),
    {
        if token == 0 {
            Some(TimerClass::KeepAlivePing)
        } else if token == 1 {
            Some(TimerClass::IdleTimeout)
        } else {
            None
        }
    }
}

/// A session as a value.
pub struct SessionView {
    pub is_server: bool,
    pub peer: PeerHandle,
    pub ip: Option<u32>,
    pub timeout: Option<TimerHandle>,
    pub state: SessionState,
}

impl SessionView {
    /// A session before its connection has opened.
    pub open spec fn initial(peer: PeerHandle, is_server: bool) -> SessionView {
        SessionView {
            is_server,
            peer,
            ip: None,
            timeout: None,
            state: SessionState::Connecting,
        }
    }

    /// The connection has opened: a client asks for an address, a server
    /// waits. Only a session that is still connecting opens; in any other
    /// state nothing happens.
    pub open spec fn on_open(self) -> (SessionView, Seq<ActionView>) {
        if self.state != SessionState::Connecting {
            (self, Seq::empty())
        } else {
            (
                SessionView { state: SessionState::AwaitingHandshake, ..self },
                if self.is_server {
                    Seq::empty()
                } else {
                    seq![ActionView::SendText(hello())]
                },
            )
        }
    }

    /// A frame has arrived: a server starts the idle timeout anew.
    pub open spec fn on_frame(self) -> Seq<ActionView> {
        if self.is_server {
            seq![ActionView::ArmTimer { delay_ms: TIMEOUT_MS, class: TimerClass::IdleTimeout }]
        } else {
            Seq::empty()
        }
    }

    /// A server has been asked for an address: it grants the lowest free one,
    /// or closes the connection. A closed session answers nothing.
    pub open spec fn on_hello_request(
        self,
        peers: RegistryModel,
        network: Option<ConfiguredNetwork>,
    ) -> (SessionView, RegistryModel, Seq<ActionView>) {
        if self.state == SessionState::Closed {
            (self, peers, Seq::empty())
        } else if self.ip is Some {
            (self, peers, seq![ActionView::Close(CloseSignal::Protocol)])
        } else if network is Some && network->Some_0.spec_gateway() is Some
            && peers.allocate(self.peer).1 is Some {
            let address = peers.allocate(self.peer).1->Some_0;
            (
                SessionView { ip: Some(address), state: SessionState::Established, ..self },
                peers.allocate(self.peer).0,
                seq![
                    ActionView::ArmTimer {
                        delay_ms: PING_INTERVAL_MS,
                        class: TimerClass::KeepAlivePing,
                    },
                    ActionView::ArmTimer { delay_ms: TIMEOUT_MS, class: TimerClass::IdleTimeout },
                    ActionView::SendText(
                        hello_reply(
                            address,
                            network->Some_0.spec_prefix(),
                            network->Some_0.spec_gateway()->Some_0,
                        ),
                    ),
                ],
            )
        } else {
            (self, peers, seq![ActionView::Close(CloseSignal::Policy)])
        }
    }

    /// A client has been granted an address: it configures its interface,
    /// registers the server under the gateway address and acknowledges. A
    /// grant that has not exactly three tokens between whitespace closes the
    /// connection and changes nothing. A closed session answers nothing.
    pub open spec fn on_hello_reply(self, text: Seq<u8>, peers: RegistryModel) -> (
        SessionView,
        RegistryModel,
        Seq<ActionView>,
    ) {
        let fields = tokens(text);
        if self.state == SessionState::Closed {
            (self, peers, Seq::empty())
        } else if fields.len() != 3 {
            (self, peers, seq![ActionView::Close(CloseSignal::Policy)])
        } else if parse_dotted(fields[2]) is Some {
            (
                SessionView { state: SessionState::Established, ..self },
                peers.assign(parse_dotted(fields[2])->Some_0, self.peer),
                seq![
                    ActionView::ConfigureInterface(fields[1]),
                    ActionView::SendText(thanks()),
                ],
            )
        } else {
            (
                self,
                peers,
                seq![
                    ActionView::ConfigureInterface(fields[1]),
                    ActionView::Terminate(Fault::MalformedGateway),
                ],
            )
        }
    }

    /// A message has arrived. A packet goes to the interface whatever the
    /// state of the session; of the texts only the handshake is answered.
    pub open spec fn on_message(
        self,
        msg: MessageView,
        peers: RegistryModel,
        network: Option<ConfiguredNetwork>,
    ) -> (SessionView, RegistryModel, Seq<ActionView>) {
        match msg {
            MessageView::Binary(data) => (self, peers, seq![ActionView::Deliver(data)]),
            MessageView::Text(text) => {
                if self.is_server && text == thanks() {
                    (self, peers, Seq::empty())
                } else if starts_with_hello(text) {
                    if self.is_server {
                        self.on_hello_request(peers, network)
                    } else {
                        self.on_hello_reply(text, peers)
                    }
                } else {
                    (self, peers, Seq::empty())
                }
            },
        }
    }

    /// A timer has fired: the keepalive pings and arms itself again, the idle
    /// timeout closes the connection.
    pub open spec fn on_timeout(self, class: TimerClass) -> Seq<ActionView> {
        match class {
            TimerClass::KeepAlivePing => seq![
                ActionView::Ping,
                ActionView::ArmTimer { delay_ms: PING_REPEAT_MS, class: TimerClass::KeepAlivePing },
            ],
            TimerClass::IdleTimeout => seq![ActionView::Close(CloseSignal::Away)],
        }
    }

    /// A timer has been armed: a new idle timeout replaces the one before,
    /// which is cancelled.
    pub open spec fn on_new_timeout(self, class: TimerClass, handle: TimerHandle) -> (
        SessionView,
        Seq<ActionView>,
    ) {
        match class {
            TimerClass::IdleTimeout => (
                SessionView { timeout: Some(handle), ..self },
                match self.timeout {
                    Some(stale) => seq![ActionView::CancelTimer(stale)],
                    None => Seq::empty(),
                },
            ),
            TimerClass::KeepAlivePing => (self, Seq::empty()),
        }
    }

    /// The connection has closed. A server gives the address of the session
    /// back; that the registry does not hold it ends the process, as does any
    /// close of a client. A session that is closed already does nothing.
    pub open spec fn on_close(self, peers: RegistryModel) -> (
        SessionView,
        RegistryModel,
        Seq<ActionView>,
    ) {
        let closed = SessionView { state: SessionState::Closed, ..self };
        if self.state == SessionState::Closed {
            (self, peers, Seq::empty())
        } else if !self.is_server {
            (closed, peers, seq![ActionView::Terminate(Fault::ConnectionLost)])
        } else if self.ip is Some {
            match peers.release(self.ip->Some_0) {
                Some(after) => (closed, after, Seq::empty()),
                None => (
                    closed,
                    peers,
                    seq![ActionView::Terminate(Fault::ReleaseOfAbsentEntry)],
                ),
            }
        } else {
            (closed, peers, Seq::empty())
        }
    }
}

/// The state of one peer connection.
#[derive(Debug)]
pub struct Handler {
    peer: PeerHandle,
    ip: Option<u32>,
    is_server: bool,
    timeout: Option<TimerHandle>,
    state: SessionState,
}

impl View for Handler {
    type V = SessionView;

    closed spec fn view(&self) -> SessionView {
        SessionView {
            is_server: self.is_server,
            peer: self.peer,
            ip: self.ip,
            timeout: self.timeout,
            state: self.state,
        }
    }
}

impl Handler {
    /// The session of the connection `peer`, in the given role.
    pub fn new(peer: PeerHandle, is_server: bool) -> (r: Handler)
        ensures
            r@ == SessionView::initial(peer, is_server),
    {
        Handler { peer, ip: None, is_server, timeout: None, state: SessionState::Connecting }
    }

    /// The session of a connection that a server accepted.
    pub fn new_server(peer: PeerHandle) -> (r: Handler)
        ensures
            r@ == SessionView::initial(peer, true),
    {
        Handler::new(peer, true)
    }

    /// The session of a connection that a client opened.
    pub fn new_client(peer: PeerHandle) -> (r: Handler)
        ensures
            r@ == SessionView::initial(peer, false),
    {
        Handler::new(peer, false)
    }

    /// Whether the session is that of a server.
    pub fn is_server(&self) -> (r: bool)
        ensures
            r == self@.is_server,
    {
        self.is_server
    }

    /// The connection of the session.
    pub fn peer(&self) -> (r: PeerHandle)
        ensures
            r == self@.peer,
    {
        self.peer
    }

    /// The address the session was granted, once it has one.
    pub fn ip(&self) -> (r: Option<u32>)
        ensures
            r == self@.ip,
    {
        self.ip
    }

    /// Where the session stands.
    pub fn state(&self) -> (r: SessionState)
        ensures
            r == self@.state,
    {
        self.state
    }

    /// The idle timeout that is armed, if any.
    pub fn timeout(&self) -> (r: Option<TimerHandle>)
        ensures
            r == self@.timeout,
    {
        self.timeout
    }

    /// The connection has opened.
    pub fn on_open(&mut self) -> (r: Vec<Action>)
        ensures
            (final(self)@, action_views(r@)) == old(self)@.on_open(),
    {
        let mut r: Vec<Action> = Vec::new();
        if self.state == SessionState::Connecting {
            self.state = SessionState::AwaitingHandshake;
            if !self.is_server {
                r.push(Action::SendText(hello_text()));
            }
        }
        assert(action_views(r@) =~= old(self)@.on_open().1);
        r
    }

    /// A frame has arrived.
    pub fn on_frame(&self) -> (r: Vec<Action>)
        ensures
            action_views(r@) == self@.on_frame(),
    {
        let mut r: Vec<Action> = Vec::new();
        if self.is_server {
            r.push(Action::ArmTimer { delay_ms: TIMEOUT_MS, class: TimerClass::IdleTimeout });
        }
        assert(action_views(r@) =~= self@.on_frame());
        r
    }

    fn on_hello_request(&mut self, peers: &mut PeerRegistry, iface: &IfaceWrapper) -> (r: Vec<
        Action,
    >)
        requires
            old(peers).wf(),
        ensures
            final(peers).wf(),
            final(peers)@.wf(),
            (final(self)@, final(peers)@, action_views(r@)) == old(self)@.on_hello_request(
                old(peers)@,
                iface.spec_network(),
            ),
    {
        proof {
            peers.lemma_valid_view();
        }
        let mut r: Vec<Action> = Vec::new();
        if self.state == SessionState::Closed {
            assert(action_views(r@) =~= Seq::<ActionView>::empty());
            return r;
        }
        if self.ip.is_some() {
            r.push(Action::Close(CloseSignal::Protocol));
            assert(action_views(r@) =~= seq![ActionView::Close(CloseSignal::Protocol)]);
            return r;
        }
        if let Some(network) = iface.network() {
            if let Some(gateway) = network.gateway() {
                if let Ok(address) = peers.allocate_any(self.peer) {
                    self.ip = Some(address);
                    self.state = SessionState::Established;
                    r.push(
                        Action::ArmTimer {
                            delay_ms: PING_INTERVAL_MS,
                            class: TimerClass::KeepAlivePing,
                        },
                    );
                    r.push(
                        Action::ArmTimer { delay_ms: TIMEOUT_MS, class: TimerClass::IdleTimeout },
                    );
                    r.push(Action::SendText(grant_text(address, network.prefix(), gateway)));
                    assert(action_views(r@) =~= old(self)@.on_hello_request(
                        old(peers)@,
                        iface.spec_network(),
                    ).2);
                    return r;
                }
            }
        }
        r.push(Action::Close(CloseSignal::Policy));
        assert(action_views(r@) =~= seq![ActionView::Close(CloseSignal::Policy)]);
        r
    }

    fn on_hello_reply(&mut self, text: &[u8], peers: &mut PeerRegistry) -> (r: Vec<Action>)
        requires
            old(peers).wf(),
        ensures
            final(peers).wf(),
            final(peers)@.wf(),
            (final(self)@, final(peers)@, action_views(r@)) == old(self)@.on_hello_reply(
                text@,
                old(peers)@,
            ),
    {
        proof {
            peers.lemma_valid_view();
        }
        let mut r: Vec<Action> = Vec::new();
        if self.state == SessionState::Closed {
            assert(action_views(r@) =~= Seq::<ActionView>::empty());
            return r;
        }
        let mut fields = split_tokens(text);
        if fields.len() != 3 {
            r.push(Action::Close(CloseSignal::Policy));
            assert(action_views(r@) =~= seq![ActionView::Close(CloseSignal::Policy)]);
            return r;
        }
        assert(field_views(fields@)[1] == fields@[1]@ && field_views(fields@)[2] == fields@[2]@);
        let gateway_text = fields.pop().unwrap();
        let cidr = fields.pop().unwrap();
        r.push(Action::ConfigureInterface(cidr));
        match read_address(gateway_text.as_slice()) {
            Some(gateway) => {
                peers.assign(gateway, self.peer);
                self.state = SessionState::Established;
                r.push(Action::SendText(thanks_text()));
            },
            None => {
                r.push(Action::Terminate(Fault::MalformedGateway));
            },
        }
        assert(action_views(r@) =~= old(self)@.on_hello_reply(text@, old(peers)@).2);
        r
    }

    /// A message has arrived.
    pub fn on_message(&mut self, msg: Message, peers: &mut PeerRegistry, iface: &IfaceWrapper) -> (r:
        Vec<Action>)
        requires
            old(peers).wf(),
        ensures
            final(peers).wf(),
            final(peers)@.wf(),
            (final(self)@, final(peers)@, action_views(r@)) == old(self)@.on_message(
                msg@,
                old(peers)@,
                iface.spec_network(),
            ),
            old(self)@.ip is Some ==> final(self)@.ip == old(self)@.ip,
    {
        proof {
            peers.lemma_valid_view();
        }
        match msg {
            Message::Binary(data) => {
                let mut r: Vec<Action> = Vec::new();
                r.push(Action::Deliver(data));
                assert(action_views(r@) =~= seq![ActionView::Deliver(data@)]);
                r
            },
            Message::Text(text) => {
                if self.is_server && is_thanks(text.as_slice()) {
                    let r: Vec<Action> = Vec::new();
                    assert(action_views(r@) =~= Seq::<ActionView>::empty());
                    r
                } else if is_hello(text.as_slice()) {
                    if self.is_server {
                        self.on_hello_request(peers, iface)
                    } else {
                        self.on_hello_reply(text.as_slice(), peers)
                    }
                } else {
                    let r: Vec<Action> = Vec::new();
                    assert(action_views(r@) =~= Seq::<ActionView>::empty());
                    r
                }
            },
        }
    }

    /// A timer has fired.
    pub fn on_timeout(&self, class: TimerClass) -> (r: Vec<Action>)
        ensures
            action_views(r@) == self@.on_timeout(class),
    {
        let mut r: Vec<Action> = Vec::new();
        match class {
            TimerClass::KeepAlivePing => {
                r.push(Action::Ping);
                r.push(
                    Action::ArmTimer { delay_ms: PING_REPEAT_MS, class: TimerClass::KeepAlivePing },
                );
            },
            TimerClass::IdleTimeout => {
                r.push(Action::Close(CloseSignal::Away));
            },
        }
        assert(action_views(r@) =~= self@.on_timeout(class));
        r
    }

    /// A timer has been armed.
    pub fn on_new_timeout(&mut self, class: TimerClass, handle: TimerHandle) -> (r: Vec<Action>)
        ensures
            (final(self)@, action_views(r@)) == old(self)@.on_new_timeout(class, handle),
    {
        let mut r: Vec<Action> = Vec::new();
        match class {
            TimerClass::IdleTimeout => {
                if let Some(stale) = self.timeout {
                    r.push(Action::CancelTimer(stale));
                }
                self.timeout = Some(handle);
            },
            TimerClass::KeepAlivePing => {},
        }
        assert(action_views(r@) =~= old(self)@.on_new_timeout(class, handle).1);
        r
    }

    /// The connection has closed.
    pub fn on_close(&mut self, peers: &mut PeerRegistry) -> (r: Vec<Action>)
        requires
            old(peers).wf(),
        ensures
            final(peers).wf(),
            final(peers)@.wf(),
            (final(self)@, final(peers)@, action_views(r@)) == old(self)@.on_close(old(peers)@),
            final(self)@.state == SessionState::Closed,
            final(self)@.ip == old(self)@.ip,
    {
        proof {
            peers.lemma_valid_view();
        }
        let mut r: Vec<Action> = Vec::new();
        if self.state == SessionState::Closed {
            assert(action_views(r@) =~= Seq::<ActionView>::empty());
            return r;
        }
        self.state = SessionState::Closed;
        if !self.is_server {
            r.push(Action::Terminate(Fault::ConnectionLost));
        } else if let Some(address) = self.ip {
            if peers.release(address).is_err() {
                r.push(Action::Terminate(Fault::ReleaseOfAbsentEntry));
            }
        }
        assert(action_views(r@) =~= old(self)@.on_close(old(peers)@).2);
        r
    }
}

/// The address of a session never changes once it is set, whatever event the
/// session sees.
pub proof fn lemma_address_is_kept(
    s: SessionView,
    msg: MessageView,
    peers: RegistryModel,
    network: Option<ConfiguredNetwork>,
    class: TimerClass,
    handle: TimerHandle,
)
    requires
        s.ip is Some,
    ensures
        s.on_open().0.ip == s.ip,
        s.on_message(msg, peers, network).0.ip == s.ip,
        s.on_new_timeout(class, handle).0.ip == s.ip,
        s.on_close(peers).0.ip == s.ip,
{
}

/// A server that grants an address grants one that was free, registers it
/// for the session and for no other, and takes nothing else from the pool.
pub proof fn lemma_grant_is_exclusive(
    s: SessionView,
    peers: RegistryModel,
    network: Option<ConfiguredNetwork>,
)
    requires
        peers.wf(),
        s.is_server,
    ensures
        s.on_hello_request(peers, network).1.wf(),
        s.on_hello_request(peers, network).0.ip != s.ip ==> {
            let address = s.on_hello_request(peers, network).0.ip->Some_0;
            let after = s.on_hello_request(peers, network).1;
            &&& s.ip is None
            &&& s.on_hello_request(peers, network).0.ip is Some
            &&& peers.free().contains(address)
            &&& peers.in_pool(address)
            &&& after.occupant(address) == Some(s.peer)
            &&& after.free() == peers.free().remove(address)
            &&& after.free().len() == peers.free().len() - 1
        },
        s.on_hello_request(peers, network).0.ip == s.ip ==> s.on_hello_request(peers, network).1
            == peers,
{
    lemma_allocate(peers, s.peer);
}

/// With no free address, or with an interface that has no block, a server
/// answers a request by closing the connection: it sends no grant and leaves
/// the session and the registry as they were.
pub proof fn lemma_refusal_changes_nothing(
    s: SessionView,
    peers: RegistryModel,
    network: Option<ConfiguredNetwork>,
)
    requires
        peers.wf(),
        s.is_server,
        s.state != SessionState::Closed,
        s.ip is None,
        peers.free().is_empty() || network is None,
    ensures
        s.on_message(MessageView::Text(hello()), peers, network) == (
            s,
            peers,
            seq![ActionView::Close(CloseSignal::Policy)],
        ),
{
    lemma_allocate(peers, s.peer);
    assert(hello().subrange(0, 5) =~= hello());
    assert(hello()[0] == 72u8 && thanks()[0] == 84u8);
}

/// The handshake completes: whatever grant a server writes, the client that
/// receives it configures its interface with the granted block, registers the
/// server under the gateway address and acknowledges; the acknowledgement
/// makes the server answer nothing and change nothing.
pub proof fn lemma_handshake_completes(
    server: SessionView,
    client: SessionView,
    address: u32,
    network: ConfiguredNetwork,
    server_peers: RegistryModel,
    client_peers: RegistryModel,
)
    requires
        server.is_server,
        !client.is_server,
        client.state != SessionState::Closed,
        network.spec_gateway() is Some,
    ensures
        ({
            let grant = hello_reply(
                address,
                network.spec_prefix(),
                network.spec_gateway()->Some_0,
            );
            client.on_message(MessageView::Text(grant), client_peers, None) == (
                SessionView { state: SessionState::Established, ..client },
                client_peers.assign(network.spec_gateway()->Some_0, client.peer),
                seq![
                    ActionView::ConfigureInterface(
                        cidr_text(address, network.spec_prefix()),
                    ),
                    ActionView::SendText(thanks()),
                ],
            )
        }),
        server.on_message(MessageView::Text(thanks()), server_peers, Some(network)) == (
            server,
            server_peers,
            Seq::<ActionView>::empty(),
        ),
{
    lemma_hello_reply_tokens(
        address,
        network.spec_prefix(),
        network.spec_gateway()->Some_0,
    );
}

/// The idle timeout closes the connection it belongs to, whatever the state
/// of the session; it reads nothing of the registry or of any other session.
/// Every frame a server receives arms it anew, at sixty seconds, and the
/// timeout armed before is cancelled.
pub proof fn lemma_idle_timeout(s: SessionView, handle: TimerHandle)
    ensures
        s.on_timeout(TimerClass::IdleTimeout) == seq![ActionView::Close(CloseSignal::Away)],
        s.is_server ==> s.on_frame() == seq![
            ActionView::ArmTimer { delay_ms: 60_000, class: TimerClass::IdleTimeout },
        ],
        s.on_new_timeout(TimerClass::IdleTimeout, handle).0.timeout == Some(handle),
        s.timeout matches Some(stale) ==> s.on_new_timeout(TimerClass::IdleTimeout, handle).1
            == seq![ActionView::CancelTimer(stale)],
{
}

/// A session releases its address once: the first close of a server session
/// gives the address back, and a close that follows changes nothing.
pub proof fn lemma_close_releases_once(s: SessionView, peers: RegistryModel)
    requires
        peers.wf(),
        s.is_server,
        s.state != SessionState::Closed,
        s.ip matches Some(a) && peers.occupant(a) is Some,
    ensures
        s.on_close(peers).2 == Seq::<ActionView>::empty(),
        s.on_close(peers).1 == peers.release(s.ip->Some_0)->Some_0,
        s.on_close(peers).1.occupant(s.ip->Some_0) is None,
        s.on_close(peers).0.on_close(s.on_close(peers).1) == (
            s.on_close(peers).0,
            s.on_close(peers).1,
            Seq::<ActionView>::empty(),
        ),
{
    lemma_release_free(peers, s.ip->Some_0);
}

/// A closed session stays closed: no event opens it again, changes its
/// address or touches the registry, so the address it gave back at its close
/// is never given back a second time.
pub proof fn lemma_closed_is_final(
    s: SessionView,
    msg: MessageView,
    peers: RegistryModel,
    network: Option<ConfiguredNetwork>,
    class: TimerClass,
    handle: TimerHandle,
)
    requires
        s.state == SessionState::Closed,
    ensures
        s.on_open() == (s, Seq::<ActionView>::empty()),
        s.on_close(peers) == (s, peers, Seq::<ActionView>::empty()),
        s.on_message(msg, peers, network).0 == s,
        s.on_message(msg, peers, network).1 == peers,
        msg is Text ==> s.on_message(msg, peers, network).2 == Seq::<ActionView>::empty(),
        s.on_new_timeout(class, handle).0.state == SessionState::Closed,
        s.on_new_timeout(class, handle).0.ip == s.ip,
{
}

/// Whatever a session does with a valid registry leaves the registry valid.
pub proof fn lemma_registry_stays_valid(
    s: SessionView,
    msg: MessageView,
    peers: RegistryModel,
    network: Option<ConfiguredNetwork>,
)
    requires
        peers.wf(),
    ensures
        s.on_message(msg, peers, network).1.wf(),
        s.on_close(peers).1.wf(),
{
    lemma_allocate(peers, s.peer);
    if let MessageView::Text(text) = msg {
        let fields = tokens(text);
        if fields.len() == 3 && parse_dotted(fields[2]) is Some {
            lemma_assign_free(peers, parse_dotted(fields[2])->Some_0, s.peer);
        }
    }
    if s.ip is Some && peers.occupant(s.ip->Some_0) is Some {
        lemma_release_free(peers, s.ip->Some_0);
    }
}

/// The close of a server session makes its address free again. The address,
/// one of the pool that a peer held, is unassigned afterwards, every other
/// entry of the registry is as it was, and a session that asks next is
/// granted that address or a lower one: that very address where no other
/// was free.
pub proof fn lemma_close_makes_address_free(
    s: SessionView,
    next: SessionView,
    peers: RegistryModel,
    network: ConfiguredNetwork,
)
    requires
        peers.wf(),
        s.is_server,
        s.state != SessionState::Closed,
        s.ip matches Some(a) && peers.occupant(a) is Some && peers.in_pool(a),
        next.is_server,
        next.state != SessionState::Closed,
        next.ip is None,
        network.spec_gateway() is Some,
    ensures
        s.on_close(peers).2 == Seq::<ActionView>::empty(),
        s.on_close(peers).1.wf(),
        s.on_close(peers).1.network == peers.network,
        s.on_close(peers).1.entries == peers.entries.insert(s.ip->Some_0, None),
        s.on_close(peers).1.free() == peers.free().insert(s.ip->Some_0),
        next.on_hello_request(s.on_close(peers).1, Some(network)).0.ip matches Some(granted)
            && granted <= s.ip->Some_0 && (peers.free().is_empty() ==> granted == s.ip->Some_0),
        next.on_hello_request(s.on_close(peers).1, Some(network)).1.occupant(
            next.on_hello_request(s.on_close(peers).1, Some(network)).0.ip->Some_0,
        ) == Some(next.peer),
{
    let a = s.ip->Some_0;
    lemma_release_free(peers, a);
    lemma_release_then_allocate(peers, a, next.peer);
    let after = s.on_close(peers).1;
    lemma_allocate(after, next.peer);
}

} // verus!
