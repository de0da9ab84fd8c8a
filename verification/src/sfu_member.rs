//! A member of an SFU room: what it says to the media server, and how it
//! answers the peers that the server creates.

use std::collections::{HashMap, HashSet};

use vstd::prelude::*;

use crate::signal::{
    Candidate, CandidateView, ClientMessage, ClientMessageView, Role, RoleView, ServerMessage,
    ServerMessageView, SignalError,
};

verus! {

broadcast use vstd::std_specs::hash::group_hash_axioms;

// ---------------------------------------------------------------------------
// Texts
// ---------------------------------------------------------------------------
/// Where the media server listens.
pub open spec fn server_url() -> Seq<char> {
    "ws://127.0.0.1:8080/ws"@
}

/// What every member of a test room proves its identity with.
pub open spec fn test_credential() -> Seq<char> {
    "test"@
}

/// The decimal digit `d`.
pub open spec fn digit(d: int) -> char {
    (48 + d) as char
}

/// The decimal digits of `n`.
pub open spec fn decimal(n: int) -> Seq<char>
    decreases n,
{
    if n < 10 {
        seq![digit(n)]
    } else {
        decimal(n / 10).push(digit(n % 10))
    }
}

fn digit_text(d: u32) -> (s: &'static str)
    requires
        d < 10,
    ensures
        s@ == seq![digit(d as int)],
{
    proof {
        reveal_strlit("0");
        reveal_strlit("1");
        reveal_strlit("2");
        reveal_strlit("3");
        reveal_strlit("4");
        reveal_strlit("5");
        reveal_strlit("6");
        reveal_strlit("7");
        reveal_strlit("8");
        reveal_strlit("9");
    }
    let s: &'static str = match d {
        0 => "0",
        1 => "1",
        2 => "2",
        3 => "3",
        4 => "4",
        5 => "5",
        6 => "6",
        7 => "7",
        8 => "8",
        _ => "9",
    };
    assert(s@ =~= seq![digit(d as int)]);
    s
}

fn append_decimal(text: &mut String, n: u32)
    ensures
        final(text)@ == old(text)@ + decimal(n as int),
    decreases n,
{
    if n < 10 {
        text.append(digit_text(n));
    } else {
        append_decimal(text, n / 10);
        text.append(digit_text(n % 10));
        assert(text@ =~= old(text)@ + decimal(n as int));
    }
}

// ---------------------------------------------------------------------------
// Answering an offer
// ---------------------------------------------------------------------------
/// Which way the media of a transceiver goes.
#[derive(Clone, Copy, Debug, PartialEq, Eq, Structural)]
pub enum Direction {
    Unspecified,
    Sendrecv,
    Sendonly,
    Recvonly,
    Inactive,
}

/// What kind of media a transceiver carries.
#[derive(Clone, Copy, Debug, PartialEq, Eq, Structural)]
pub enum Kind {
    Unspecified,
    Audio,
    Video,
}

/// A transceiver of a peer.
#[derive(Clone, Copy, Debug, PartialEq, Eq, Structural)]
pub struct Transceiver {
    pub direction: Direction,
    pub kind: Kind,
}

/// The track that an answering member sends.
#[derive(Debug, PartialEq, Eq)]
pub struct SenderPlan {
    /// Index of the transceiver that gets the track.
    pub transceiver: usize,
    /// Codec of the track.
    pub mime_type: String,
    /// ID of the track.
    pub track_id: String,
    /// ID of the stream of the track.
    pub stream_id: String,
}

/// How a member answers an offer.
#[derive(Debug, PartialEq, Eq)]
pub struct AnswerPlan {
    /// Indices of the transceivers to receive from.
    pub receivers: Vec<usize>,
    /// The track to send, if there is one.
    pub sender: Option<SenderPlan>,
}

/// `i` is the first transceiver that carries audio.
pub open spec fn is_first_audio(ts: Seq<Transceiver>, i: int) -> bool {
    &&& 0 <= i < ts.len()
    &&& ts[i].kind == Kind::Audio
    &&& forall|j: int| 0 <= j < i ==> (#[trigger] ts[j]).kind != Kind::Audio
}

/// The indices of the transceivers that only receive, in ascending order.
pub open spec fn receiving(ts: Seq<Transceiver>) -> Seq<usize>
    decreases ts.len(),
{
    if ts.len() == 0 {
        Seq::empty()
    } else if ts.last().direction == Direction::Recvonly {
        receiving(ts.drop_last()).push((ts.len() - 1) as usize)
    } else {
        receiving(ts.drop_last())
    }
}

/// The plan for the track of the peer `peer_id` on the transceiver `i`.
pub open spec fn is_audio_track(plan: SenderPlan, i: int, peer_id: u32) -> bool {
    &&& plan.transceiver == i
    &&& plan.mime_type@ == "audio/G722"@
    &&& plan.track_id@ == "audio"@ + decimal(peer_id as int)
    &&& plan.stream_id@ == "webrtc-rs"@
}

/// Whether `plan` answers an offer with the transceivers `ts`, of which `i` is
/// the first with audio: receive from all that only receive, and send a track
/// if `i` only sends.
pub open spec fn answers(
    plan: AnswerPlan,
    ts: Seq<Transceiver>,
    i: int,
    peer_id: u32,
) -> bool {
    &&& plan.receivers@ == receiving(ts)
    &&& if ts[i].direction == Direction::Sendonly {
        plan.sender matches Some(sender) && is_audio_track(sender, i, peer_id)
    } else {
        plan.sender is None
    }
}

/// Decides how to answer the offer of the peer `peer_id`, which led to these
/// transceivers.
pub fn plan_answer(peer_id: u32, transceivers: &[Transceiver]) -> (r: Result<
    AnswerPlan,
    SignalError,
>)
    ensures
        match r {
            Ok(plan) => exists|i: int| #[trigger]
                is_first_audio(transceivers@, i) && answers(plan, transceivers@, i, peer_id),
            Err(e) => {
                &&& e == SignalError::NoAudio
                &&& forall|i: int| !#[trigger] is_first_audio(transceivers@, i)
            },
        },
{
    let mut receivers: Vec<usize> = Vec::new();
    let mut audio: Option<usize> = None;
    let mut i: usize = 0;
    assert(transceivers@.take(0) =~= Seq::empty());
    while i < transceivers.len()
        invariant
            i <= transceivers@.len(),
            receivers@ == receiving(transceivers@.take(i as int)),
            match audio {
                Some(a) => a < i && is_first_audio(transceivers@, a as int),
                None => forall|j: int| 0 <= j < i ==> (#[trigger] transceivers@[j]).kind
                    != Kind::Audio,
            },
        decreases transceivers@.len() - i,
    {
        let t: Transceiver = transceivers[i];
        assert(transceivers@.take(i + 1).drop_last() =~= transceivers@.take(i as int));
        if t.direction == Direction::Recvonly {
            receivers.push(i);
        }
        if audio.is_none() && t.kind == Kind::Audio {
            audio = Some(i);
        }
        i += 1;
    }
    assert(transceivers@.take(i as int) =~= transceivers@);
    let first: usize = match audio {
        Some(first) => first,
        None => {
            return Err(SignalError::NoAudio);
        },
    };
    let sender: Option<SenderPlan> = if transceivers[first].direction == Direction::Sendonly {
        let mut track_id: String = "audio".to_owned();
        append_decimal(&mut track_id, peer_id);
        Some(
            SenderPlan {
                transceiver: first,
                mime_type: "audio/G722".to_owned(),
                track_id,
                stream_id: "webrtc-rs".to_owned(),
            },
        )
    } else {
        None
    };
    let plan: AnswerPlan = AnswerPlan { receivers, sender };
    assert(is_first_audio(transceivers@, first as int));
    assert(answers(plan, transceivers@, first as int, peer_id));
    Ok(plan)
}

// ---------------------------------------------------------------------------
// The member
// ---------------------------------------------------------------------------
/// A message of the connection to the media server.
#[derive(Debug, PartialEq, Eq)]
pub enum Frame {
    /// A text.
    Text(Vec<u8>),
    /// Anything else.
    Other,
}

/// What a message of the media server asks a member to do.
#[derive(Debug, PartialEq, Eq)]
pub enum Reaction {
    /// Nothing.
    Ignore,
    /// Send a message back.
    Reply(ClientMessage),
    /// Create a peer and answer its offer.
    CreatePeer {
        /// ID of the peer.
        peer_id: u32,
        /// The offer.
        sdp_offer: String,
    },
    /// Give a candidate to a peer.
    AddCandidate {
        /// ID of the peer.
        peer_id: u32,
        /// The candidate.
        candidate: Candidate,
    },
}

/// View of a [`Reaction`].
pub enum ReactionView {
    Ignore,
    Reply(ClientMessageView),
    CreatePeer { peer_id: u32, sdp_offer: Seq<char> },
    AddCandidate { peer_id: u32, candidate: CandidateView },
}

impl View for Reaction {
    type V = ReactionView;

    open spec fn view(&self) -> ReactionView {
        match *self {
            Reaction::Ignore => ReactionView::Ignore,
            Reaction::Reply(msg) => ReactionView::Reply(msg@),
            Reaction::CreatePeer { peer_id, sdp_offer } => ReactionView::CreatePeer {
                peer_id,
                sdp_offer: sdp_offer@,
            },
            Reaction::AddCandidate { peer_id, candidate } => ReactionView::AddCandidate {
                peer_id,
                candidate: candidate@,
            },
        }
    }
}

/// View of a [`Reaction`] or of why there is none.
pub open spec fn reaction_view(r: Result<Reaction, SignalError>) -> Result<
    ReactionView,
    SignalError,
> {
    match r {
        Ok(reaction) => Ok(reaction@),
        Err(e) => Err(e),
    }
}

/// What a member that answered a peer asks its caller to do.
#[derive(Debug)]
pub struct PeerAnswered {
    /// The answer for the media server.
    pub answer: ClientMessage,
    /// Whether to tell that the negotiation is complete.
    pub notify: bool,
}

/// A member that is about to connect.
#[derive(Debug)]
pub struct Connecting {
    /// The member.
    pub member: SfuMember,
    /// Where to connect to.
    pub url: String,
    /// The text to send first.
    pub join: String,
}

/// What a [`SfuMember`] knows.
#[verifier::ext_equal]
pub struct SfuMemberView {
    /// ID of its room.
    pub room_id: Seq<char>,
    /// IDs of its peers.
    pub peers: Set<u32>,
    /// Somebody waits for the first peer to be answered.
    pub negotiating: bool,
}

/// A member of an SFU room.
#[derive(Debug)]
pub struct SfuMember {
    room_id: String,
    peers: HashSet<u32>,
    negotiating: bool,
}

impl View for SfuMember {
    type V = SfuMemberView;

    closed spec fn view(&self) -> SfuMemberView {
        SfuMemberView {
            room_id: self.room_id@,
            peers: self.peers@,
            negotiating: self.negotiating,
        }
    }
}

impl SfuMemberView {
    /// A member of the room `room_id` that has no peers.
    pub open spec fn joining(room_id: Seq<char>) -> SfuMemberView {
        SfuMemberView { room_id, peers: Set::empty(), negotiating: true }
    }

    /// The request to join the room as `member_id`.
    pub open spec fn join_request(self, member_id: Seq<char>) -> ClientMessageView {
        ClientMessageView::JoinRoom {
            room_id: self.room_id,
            member_id,
            credential: test_credential(),
        }
    }

    /// The message for a candidate that the peer `peer_id` found.
    pub open spec fn candidate_found(
        self,
        peer_id: u32,
        candidate: CandidateView,
    ) -> ClientMessageView {
        ClientMessageView::SetIceCandidate { room_id: self.room_id, peer_id, candidate }
    }

    /// The message for the answer `sdp_answer` of the peer `peer_id`.
    pub open spec fn answer(self, peer_id: u32, sdp_answer: Seq<char>) -> ClientMessageView {
        ClientMessageView::MakeSdpAnswer {
            room_id: self.room_id,
            peer_id,
            sdp_answer,
            transceivers_statuses: Map::empty(),
        }
    }

    /// What a frame asks for.
    pub open spec fn frame_reaction(self, frame: Frame) -> Result<ReactionView, SignalError> {
        match frame {
            Frame::Other => Ok(ReactionView::Ignore),
            Frame::Text(bytes) => match crate::signal::message_in_frame(bytes@) {
                Ok(msg) => self.reaction(msg),
                Err(e) => Err(e),
            },
        }
    }

    /// What the message asks for.
    pub open spec fn reaction(self, msg: ServerMessageView) -> Result<ReactionView, SignalError> {
        match msg {
            ServerMessageView::Ping(id) => Ok(ReactionView::Reply(ClientMessageView::Pong(id))),
            ServerMessageView::PeerCreated { peer_id, role } => match role {
                RoleView::Offerer => Err(SignalError::UnexpectedOfferer),
                RoleView::Answerer(sdp_offer) => Ok(
                    ReactionView::CreatePeer { peer_id, sdp_offer },
                ),
            },
            ServerMessageView::IceCandidateDiscovered { peer_id, candidate } => if self.peers.contains(
                peer_id,
            ) {
                Ok(ReactionView::AddCandidate { peer_id, candidate })
            } else {
                Err(SignalError::UnknownPeer)
            },
            ServerMessageView::PeerUpdated { .. } | ServerMessageView::Other => Ok(
                ReactionView::Ignore,
            ),
        }
    }

    /// The member after it answered the peer `peer_id`.
    pub open spec fn after_answer(self, peer_id: u32) -> SfuMemberView {
        SfuMemberView {
            room_id: self.room_id,
            peers: self.peers.insert(peer_id),
            negotiating: false,
        }
    }
}

impl SfuMember {
    /// A member of the room `room_id` that has no peers.
    pub fn new(room_id: String) -> (m: Self)
        ensures
            m@ == SfuMemberView::joining(room_id@),
    {
        SfuMember { room_id, peers: HashSet::new(), negotiating: true }
    }

    /// The request to join the room as `member_id`.
    pub fn join_message(&self, member_id: String) -> (msg: ClientMessage)
        ensures
            msg@ == self@.join_request(member_id@),
    {
        ClientMessage::JoinRoom {
            room_id: self.room_id.clone(),
            member_id,
            credential: "test".to_owned(),
        }
    }

    /// Prepares the connection of the member `member_id` to the room `room_id`.
    /// The media server listens at one place only, whatever `url` says.
    pub fn connect(url: String, room_id: String, member_id: String) -> (r: Result<
        Connecting,
        SignalError,
    >)
        ensures
            match crate::signal::client_message_text(
                SfuMemberView::joining(room_id@).join_request(member_id@),
            ) {
                Some(text) => {
                    &&& r matches Ok(c)
                    &&& c.url@ == server_url()
                    &&& c.join@ == text
                    &&& c.member@ == SfuMemberView::joining(room_id@)
                },
                None => r matches Err(e) && e == SignalError::NotSerializable,
            },
    {
        let member: SfuMember = SfuMember::new(room_id);
        let url: String = "ws://127.0.0.1:8080/ws".to_owned();
        match member.join_message(member_id).into_text() {
            Ok(join) => Ok(Connecting { member, url, join }),
            Err(e) => Err(e),
        }
    }

    /// Decides what a message of the media server asks for.
    pub fn handle_message(&self, msg: ServerMessage) -> (r: Result<Reaction, SignalError>)
        ensures
            reaction_view(r) == self@.reaction(msg@),
    {
        match msg {
            ServerMessage::Ping(id) => Ok(Reaction::Reply(ClientMessage::Pong(id))),
            ServerMessage::PeerCreated { peer_id, role } => match role {
                Role::Offerer => Err(SignalError::UnexpectedOfferer),
                Role::Answerer(sdp_offer) => Ok(Reaction::CreatePeer { peer_id, sdp_offer }),
            },
            ServerMessage::PeerUpdated { .. } => Ok(Reaction::Ignore),
            ServerMessage::IceCandidateDiscovered { peer_id, candidate } => {
                if self.peers.contains(&peer_id) {
                    Ok(Reaction::AddCandidate { peer_id, candidate })
                } else {
                    Err(SignalError::UnknownPeer)
                }
            },
            ServerMessage::Other => Ok(Reaction::Ignore),
        }
    }

    /// Decides what a frame from the media server asks for.
    pub fn handle_frame(&self, frame: Frame) -> (r: Result<Reaction, SignalError>)
        ensures
            reaction_view(r) == self@.frame_reaction(frame),
    {
        match frame {
            Frame::Other => Ok(Reaction::Ignore),
            Frame::Text(bytes) => match ServerMessage::from_frame(bytes) {
                Ok(msg) => self.handle_message(msg),
                Err(e) => Err(e),
            },
        }
    }

    /// The message for a candidate that the peer `peer_id` found. There is none
    /// once the search is over.
    pub fn on_ice_candidate(&self, peer_id: u32, candidate: Option<Candidate>) -> (msg: Option<
        ClientMessage,
    >)
        ensures
            match candidate {
                Some(candidate) => {
                    &&& msg matches Some(m)
                    &&& m@ == self@.candidate_found(peer_id, candidate@)
                },
                None => msg is None,
            },
    {
        match candidate {
            Some(candidate) => Some(
                ClientMessage::SetIceCandidate { room_id: self.room_id.clone(), peer_id, candidate },
            ),
            None => None,
        }
    }

    /// Takes note of a peer whose offer was answered with `sdp_answer`.
    pub fn peer_answered(&mut self, peer_id: u32, sdp_answer: String) -> (r: PeerAnswered)
        ensures
            final(self)@ == old(self)@.after_answer(peer_id),
            r.answer@ == old(self)@.answer(peer_id, sdp_answer@),
            r.answer@.has_one_text(),
            r.notify == old(self)@.negotiating,
    {
        let answer: ClientMessage = ClientMessage::MakeSdpAnswer {
            room_id: self.room_id.clone(),
            peer_id,
            sdp_answer,
            transceivers_statuses: HashMap::new(),
        };
        self.peers.insert(peer_id);
        let notify: bool = self.negotiating;
        self.negotiating = false;
        PeerAnswered { answer, notify }
    }
}

} // verus!
