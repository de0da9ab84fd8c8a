//! Messages between a member and the media server.

use medea_client_api_proto::{
    ClientMsg, Command, Credential, Event, IceCandidate, MemberId, NegotiationRole, PeerId, RoomId,
    ServerMsg, TrackId,
};
use serde_json::Error as JsonError;
use std::collections::HashMap;
use vstd::prelude::*;

verus! {

// ---------------------------------------------------------------------------
// Messages
// ---------------------------------------------------------------------------
/// An ICE candidate.
#[derive(Debug, PartialEq, Eq)]
pub struct Candidate {
    /// The `candidate-attribute`.
    pub candidate: String,
    /// Index of the media description that it belongs to.
    pub sdp_m_line_index: Option<u16>,
    /// Identification of that media description.
    pub sdp_mid: Option<String>,
}

/// Which side makes the SDP offer.
#[derive(Debug, PartialEq, Eq)]
pub enum Role {
    /// The member does.
    Offerer,
    /// The server did, and the member answers it.
    Answerer(String),
}

/// What the media server says, as far as a member listens.
#[derive(Debug, PartialEq, Eq)]
pub enum ServerMessage {
    /// A probe that is to be answered.
    Ping(u32),
    /// A peer is to be created.
    PeerCreated {
        /// ID of the peer.
        peer_id: u32,
        /// Its part in the negotiation.
        role: Role,
    },
    /// A peer changed.
    PeerUpdated {
        /// ID of the peer.
        peer_id: u32,
    },
    /// The other side of a peer found a candidate.
    IceCandidateDiscovered {
        /// ID of the peer.
        peer_id: u32,
        /// The candidate.
        candidate: Candidate,
    },
    /// Anything else.
    Other,
}

/// What a member says to the media server.
#[derive(Debug, PartialEq, Eq)]
pub enum ClientMessage {
    /// Answer to a probe.
    Pong(u32),
    /// Request to join a room.
    JoinRoom {
        /// ID of the room.
        room_id: String,
        /// ID of the member.
        member_id: String,
        /// What the member proves its identity with.
        credential: String,
    },
    /// SDP answer of a peer.
    MakeSdpAnswer {
        /// ID of the room.
        room_id: String,
        /// ID of the peer.
        peer_id: u32,
        /// The answer.
        sdp_answer: String,
        /// Whether transceivers are enabled, by the IDs of their tracks.
        transceivers_statuses: HashMap<u32, bool>,
    },
    /// Candidate of a peer.
    SetIceCandidate {
        /// ID of the room.
        room_id: String,
        /// ID of the peer.
        peer_id: u32,
        /// The candidate.
        candidate: Candidate,
    },
}

/// Why a message could not be handled.
#[derive(Clone, Copy, Debug, PartialEq, Eq, Structural)]
pub enum SignalError {
    /// The text is not UTF-8.
    NotUtf8,
    /// The text is not a message of the server.
    NotAMessage,
    /// The message has no JSON text.
    NotSerializable,
    /// The message speaks of a peer that does not exist.
    UnknownPeer,
    /// The member is asked to make the offer, which only the server does.
    UnexpectedOfferer,
    /// The offer has no audio.
    NoAudio,
}

// ---------------------------------------------------------------------------
// Their views
// ---------------------------------------------------------------------------
/// View of an optional string.
pub open spec fn text_view(s: Option<String>) -> Option<Seq<char>> {
    match s {
        Some(s) => Some(s@),
        None => None,
    }
}

/// View of a [`Candidate`].
pub struct CandidateView {
    pub candidate: Seq<char>,
    pub sdp_m_line_index: Option<u16>,
    pub sdp_mid: Option<Seq<char>>,
}

impl View for Candidate {
    type V = CandidateView;

    open spec fn view(&self) -> CandidateView {
        CandidateView {
            candidate: self.candidate@,
            sdp_m_line_index: self.sdp_m_line_index,
            sdp_mid: text_view(self.sdp_mid),
        }
    }
}

/// View of a [`Role`].
pub enum RoleView {
    Offerer,
    Answerer(Seq<char>),
}

impl View for Role {
    type V = RoleView;

    open spec fn view(&self) -> RoleView {
        match *self {
            Role::Offerer => RoleView::Offerer,
            Role::Answerer(sdp) => RoleView::Answerer(sdp@),
        }
    }
}

/// View of a [`ServerMessage`].
pub enum ServerMessageView {
    Ping(u32),
    PeerCreated { peer_id: u32, role: RoleView },
    PeerUpdated { peer_id: u32 },
    IceCandidateDiscovered { peer_id: u32, candidate: CandidateView },
    Other,
}

impl View for ServerMessage {
    type V = ServerMessageView;

    open spec fn view(&self) -> ServerMessageView {
        match *self {
            ServerMessage::Ping(id) => ServerMessageView::Ping(id),
            ServerMessage::PeerCreated { peer_id, role } => ServerMessageView::PeerCreated {
                peer_id,
                role: role@,
            },
            ServerMessage::PeerUpdated { peer_id } => ServerMessageView::PeerUpdated { peer_id },
            ServerMessage::IceCandidateDiscovered { peer_id, candidate } =>
                ServerMessageView::IceCandidateDiscovered { peer_id, candidate: candidate@ },
            ServerMessage::Other => ServerMessageView::Other,
        }
    }
}

/// View of a [`ClientMessage`].
pub enum ClientMessageView {
    Pong(u32),
    JoinRoom { room_id: Seq<char>, member_id: Seq<char>, credential: Seq<char> },
    MakeSdpAnswer {
        room_id: Seq<char>,
        peer_id: u32,
        sdp_answer: Seq<char>,
        transceivers_statuses: Map<u32, bool>,
    },
    SetIceCandidate { room_id: Seq<char>, peer_id: u32, candidate: CandidateView },
}

impl View for ClientMessage {
    type V = ClientMessageView;

    open spec fn view(&self) -> ClientMessageView {
        match *self {
            ClientMessage::Pong(id) => ClientMessageView::Pong(id),
            ClientMessage::JoinRoom { room_id, member_id, credential } =>
                ClientMessageView::JoinRoom {
                room_id: room_id@,
                member_id: member_id@,
                credential: credential@,
            },
            ClientMessage::MakeSdpAnswer { room_id, peer_id, sdp_answer, transceivers_statuses } =>
                ClientMessageView::MakeSdpAnswer {
                room_id: room_id@,
                peer_id,
                sdp_answer: sdp_answer@,
                transceivers_statuses: transceivers_statuses@,
            },
            ClientMessage::SetIceCandidate { room_id, peer_id, candidate } =>
                ClientMessageView::SetIceCandidate {
                room_id: room_id@,
                peer_id,
                candidate: candidate@,
            },
        }
    }
}

// ---------------------------------------------------------------------------
// Their texts
// ---------------------------------------------------------------------------
/// Error of the `serde_json` crate.
#[verifier::external_type_specification]
#[verifier::external_body]
pub struct ExJsonError(JsonError);

/// The message that `serde_json::from_str` reads from a text, if it reads one.
pub uninterp spec fn server_message_of(text: Seq<char>) -> Option<ServerMessageView>;

impl ClientMessageView {
    /// The message has one text. Two statuses or more could come in any order.
    pub open spec fn has_one_text(self) -> bool {
        self matches ClientMessageView::MakeSdpAnswer { transceivers_statuses, .. } ==>
            transceivers_statuses.len() <= 1
    }
}

/// The text that `serde_json::to_string` makes of a message, if it makes one.
pub uninterp spec fn client_message_text(msg: ClientMessageView) -> Option<Seq<char>>;

/// `serde_json::from_str` of a `ServerMsg`, which depends on the text alone.
/// What a text has to look like to be such a message is left open.
#[verifier::external_body]
fn json_to_server_message(text: &str) -> (r: Result<ServerMessage, JsonError>)
    ensures
        r is Ok <==> server_message_of(text@) is Some,
        r matches Ok(msg) ==> server_message_of(text@) == Some(msg@),
{
    serde_json::from_str(text).map(|msg: ServerMsg| match msg {
        ServerMsg::Ping(id) => ServerMessage::Ping(id),
        ServerMsg::Event { event: Event::PeerCreated { peer_id, negotiation_role, .. }, .. } => {
            let role = match negotiation_role {
                NegotiationRole::Offerer => Role::Offerer,
                NegotiationRole::Answerer(sdp) => Role::Answerer(sdp),
            };
            ServerMessage::PeerCreated { peer_id: peer_id.0, role }
        }
        ServerMsg::Event { event: Event::PeerUpdated { peer_id, .. }, .. } => ServerMessage::PeerUpdated { peer_id: peer_id.0 },
        ServerMsg::Event { event: Event::IceCandidateDiscovered { peer_id, candidate: IceCandidate { candidate, sdp_m_line_index, sdp_mid } }, .. } =>
            ServerMessage::IceCandidateDiscovered { peer_id: peer_id.0, candidate: Candidate { candidate, sdp_m_line_index, sdp_mid } },
        _ => ServerMessage::Other,
    })
}

/// `serde_json::to_string` of a `ClientMsg`, which depends on the message
/// alone, unless it has to walk a hash map of two statuses or more: of the text
/// then nothing is stated. What a text looks like is left open.
#[verifier::external_body]
fn client_message_to_json(msg: ClientMessage) -> (r: Result<String, JsonError>)
    ensures
        msg@.has_one_text() ==> (r is Ok <==> client_message_text(msg@) is Some),
        msg@.has_one_text() ==> (r matches Ok(text) ==> client_message_text(msg@) == Some(text@)),
{
    let (room_id, command) = match msg {
        ClientMessage::Pong(id) => return serde_json::to_string(&ClientMsg::Pong(id)),
        ClientMessage::JoinRoom { room_id, member_id, credential } =>
            (room_id, Command::JoinRoom { member_id: MemberId(member_id), credential: Credential(credential) }),
        ClientMessage::MakeSdpAnswer { room_id, peer_id, sdp_answer, transceivers_statuses } => {
            let transceivers_statuses = transceivers_statuses.into_iter().map(|(id, on)| (TrackId(id), on)).collect();
            (room_id, Command::MakeSdpAnswer { peer_id: PeerId(peer_id), sdp_answer, transceivers_statuses })
        }
        ClientMessage::SetIceCandidate { room_id, peer_id, candidate: Candidate { candidate, sdp_m_line_index, sdp_mid } } =>
            (room_id, Command::SetIceCandidate { peer_id: PeerId(peer_id), candidate: IceCandidate { candidate, sdp_m_line_index, sdp_mid } }),
    };
    serde_json::to_string(&ClientMsg::Command { room_id: RoomId(room_id), command })
}

/// `String::from_utf8` accepts exactly valid UTF-8, and gives its characters.
#[verifier::external_body]
fn string_from_utf8(bytes: Vec<u8>) -> (r: Option<String>)
    ensures
        r is Some <==> vstd::utf8::valid_utf8(bytes@),
        r matches Some(s) ==> s@ == vstd::utf8::decode_utf8(bytes@),
{
    String::from_utf8(bytes).ok()
}

/// The message in the bytes of a text frame.
pub open spec fn message_in_frame(bytes: Seq<u8>) -> Result<ServerMessageView, SignalError> {
    if !vstd::utf8::valid_utf8(bytes) {
        Err(SignalError::NotUtf8)
    } else {
        match server_message_of(vstd::utf8::decode_utf8(bytes)) {
            Some(msg) => Ok(msg),
            None => Err(SignalError::NotAMessage),
        }
    }
}

/// View of a [`ServerMessage`] or of why there is none.
pub open spec fn message_view(r: Result<ServerMessage, SignalError>) -> Result<
    ServerMessageView,
    SignalError,
> {
    match r {
        Ok(msg) => Ok(msg@),
        Err(e) => Err(e),
    }
}

impl ServerMessage {
    /// Reads a message from the bytes of a text frame.
    pub fn from_frame(bytes: Vec<u8>) -> (r: Result<ServerMessage, SignalError>)
        ensures
            message_view(r) == message_in_frame(bytes@),
    {
        match string_from_utf8(bytes) {
            None => Err(SignalError::NotUtf8),
            Some(text) => match json_to_server_message(text.as_str()) {
                Ok(msg) => Ok(msg),
                Err(_) => Err(SignalError::NotAMessage),
            },
        }
    }
}

impl ClientMessage {
    /// The text of the message. The statuses of an answer come in any order.
    pub fn into_text(self) -> (r: Result<String, SignalError>)
        ensures
            self@.has_one_text() ==> match client_message_text(self@) {
                Some(text) => r matches Ok(s) && s@ == text,
                None => r == Err::<String, SignalError>(SignalError::NotSerializable),
            },
            r matches Err(e) ==> e == SignalError::NotSerializable,
    {
        match client_message_to_json(self) {
            Ok(text) => Ok(text),
            Err(_) => Err(SignalError::NotSerializable),
        }
    }
}

// ---------------------------------------------------------------------------
// Laws
// ---------------------------------------------------------------------------
/// The frame of a text holds the message that the text stands for, if it stands
/// for one.
pub proof fn law_text_frames_are_read(text: Seq<char>)
    ensures
        message_in_frame(vstd::utf8::encode_utf8(text)) == (match server_message_of(text) {
            Some(msg) => Ok::<ServerMessageView, SignalError>(msg),
            None => Err(SignalError::NotAMessage),
        }),
{
    vstd::utf8::encode_utf8_valid_utf8(text);
    vstd::utf8::encode_utf8_decode_utf8(text);
}

/// Bytes that are no text hold no message.
pub proof fn law_broken_frames_are_refused(bytes: Seq<u8>)
    ensures
        message_in_frame(bytes) == Err::<ServerMessageView, SignalError>(SignalError::NotUtf8)
            <==> !vstd::utf8::valid_utf8(bytes),
{
}

/// Every message has one text, but for an answer with two statuses or more.
pub proof fn law_messages_have_one_text(msg: ClientMessageView)
    ensures
        !(msg is MakeSdpAnswer) ==> msg.has_one_text(),
        msg matches ClientMessageView::MakeSdpAnswer { transceivers_statuses, .. } ==>
            transceivers_statuses.len() < 2 ==> msg.has_one_text(),
{
}

/// An optional text is known by its view.
pub open spec fn same_text(a: Option<String>, b: Option<String>) -> bool {
    match (a, b) {
        (Some(x), Some(y)) => x@ == y@,
        (None, None) => true,
        _ => false,
    }
}

/// A candidate is known by its view: nothing of it is left out.
pub proof fn law_views_tell_candidates_apart(a: Candidate, b: Candidate)
    requires
        a@ == b@,
    ensures
        a.candidate@ == b.candidate@,
        a.sdp_m_line_index == b.sdp_m_line_index,
        same_text(a.sdp_mid, b.sdp_mid),
{
}

/// A message of the media server is known by its view, and so is the lack of
/// one.
pub proof fn law_views_tell_server_messages_apart(
    a: Result<ServerMessage, SignalError>,
    b: Result<ServerMessage, SignalError>,
)
    requires
        message_view(a) == message_view(b),
    ensures
        match (a, b) {
            (Ok(ServerMessage::Ping(x)), Ok(ServerMessage::Ping(y))) => x == y,
            (
                Ok(ServerMessage::PeerCreated { peer_id: p, role: x }),
                Ok(ServerMessage::PeerCreated { peer_id: q, role: y }),
            ) => p == q && match (x, y) {
                (Role::Offerer, Role::Offerer) => true,
                (Role::Answerer(s), Role::Answerer(t)) => s@ == t@,
                _ => false,
            },
            (
                Ok(ServerMessage::PeerUpdated { peer_id: p }),
                Ok(ServerMessage::PeerUpdated { peer_id: q }),
            ) => p == q,
            (
                Ok(ServerMessage::IceCandidateDiscovered { peer_id: p, candidate: x }),
                Ok(ServerMessage::IceCandidateDiscovered { peer_id: q, candidate: y }),
            ) => p == q && x@ == y@,
            (Ok(ServerMessage::Other), Ok(ServerMessage::Other)) => true,
            (Err(x), Err(y)) => x == y,
            _ => false,
        },
{
}

/// A message of a member is known by its view.
pub proof fn law_views_tell_client_messages_apart(a: ClientMessage, b: ClientMessage)
    requires
        a@ == b@,
    ensures
        match (a, b) {
            (ClientMessage::Pong(x), ClientMessage::Pong(y)) => x == y,
            (
                ClientMessage::JoinRoom { room_id: r, member_id: m, credential: c },
                ClientMessage::JoinRoom { room_id: s, member_id: n, credential: d },
            ) => r@ == s@ && m@ == n@ && c@ == d@,
            (
                ClientMessage::MakeSdpAnswer {
                    room_id: r,
                    peer_id: p,
                    sdp_answer: x,
                    transceivers_statuses: t,
                },
                ClientMessage::MakeSdpAnswer {
                    room_id: s,
                    peer_id: q,
                    sdp_answer: y,
                    transceivers_statuses: u,
                },
            ) => r@ == s@ && p == q && x@ == y@ && t@ == u@,
            (
                ClientMessage::SetIceCandidate { room_id: r, peer_id: p, candidate: x },
                ClientMessage::SetIceCandidate { room_id: s, peer_id: q, candidate: y },
            ) => r@ == s@ && p == q && x@ == y@,
            _ => false,
        },
{
}

} // verus!
