//! What holds of a row of messages to a [`SfuMember`](crate::sfu_member::SfuMember).

use vstd::prelude::*;

use crate::sfu_member::{
    AnswerPlan, Direction, Frame, Kind, Reaction, ReactionView, SfuMemberView, Transceiver,
};
use crate::signal::{
    CandidateView, ClientMessageView, RoleView, ServerMessageView, SignalError,
};

verus! {

/// The member after it answered these peers.
pub open spec fn after_answers(m: SfuMemberView, peers: Seq<u32>) -> SfuMemberView
    decreases peers.len(),
{
    if peers.len() == 0 {
        m
    } else {
        after_answers(m, peers.drop_last()).after_answer(peers.last())
    }
}

/// Every probe of the media server is answered with its own number, whatever
/// peers were answered before.
pub proof fn law_ping_is_answered(m: SfuMemberView, peers: Seq<u32>, id: u32)
    ensures
        after_answers(m, peers).reaction(ServerMessageView::Ping(id)) == Ok::<
            ReactionView,
            SignalError,
        >(ReactionView::Reply(ClientMessageView::Pong(id))),
{
}

/// Every peer that the media server creates with an offer is created, with that
/// offer, whatever peers were answered before, and even if it is one of them. An
/// offer is never made.
pub proof fn law_every_offered_peer_is_created(
    m: SfuMemberView,
    peers: Seq<u32>,
    peer_id: u32,
    sdp: Seq<char>,
)
    ensures
        after_answers(m, peers).reaction(
            ServerMessageView::PeerCreated { peer_id, role: RoleView::Answerer(sdp) },
        ) == Ok::<ReactionView, SignalError>(ReactionView::CreatePeer { peer_id, sdp_offer: sdp }),
        after_answers(m, peers).reaction(
            ServerMessageView::PeerCreated { peer_id, role: RoleView::Offerer },
        ) == Err::<ReactionView, SignalError>(SignalError::UnexpectedOfferer),
{
}

/// Nothing else asks a member to do anything, and nothing else is an error: only
/// probes, offers and candidates are acted on.
pub proof fn law_other_messages_are_ignored(
    m: SfuMemberView,
    peers: Seq<u32>,
    msg: ServerMessageView,
)
    ensures
        after_answers(m, peers).reaction(msg) == Ok::<ReactionView, SignalError>(
            ReactionView::Ignore,
        ) <==> msg is PeerUpdated || msg is Other,
{
}

/// A frame asks for what the message in its text asks for. A text that is no
/// message is an error, bytes that are no text are another, and a frame without
/// text asks for nothing.
pub proof fn law_frames_carry_messages(m: SfuMemberView, frame: Frame, text: Seq<char>)
    ensures
        frame is Other ==> m.frame_reaction(frame) == Ok::<ReactionView, SignalError>(
            ReactionView::Ignore,
        ),
        frame matches Frame::Text(bytes) ==> bytes@ == vstd::utf8::encode_utf8(text) ==> (
        match crate::signal::server_message_of(text) {
            Some(msg) => m.frame_reaction(frame) == m.reaction(msg),
            None => m.frame_reaction(frame) == Err::<ReactionView, SignalError>(
                SignalError::NotAMessage,
            ),
        }),
        frame matches Frame::Text(bytes) ==> !vstd::utf8::valid_utf8(bytes@) ==> m.frame_reaction(
            frame,
        ) == Err::<ReactionView, SignalError>(SignalError::NotUtf8),
{
    crate::signal::law_text_frames_are_read(text);
}

/// Whatever peers were answered before, a member's messages name the room that
/// it joined, and carry what they are made for. An answer names no statuses.
pub proof fn law_messages_name_the_room(
    room: Seq<char>,
    peers: Seq<u32>,
    member_id: Seq<char>,
    peer_id: u32,
    sdp: Seq<char>,
    candidate: CandidateView,
)
    ensures
        ({
            let m = after_answers(SfuMemberView::joining(room), peers);
            &&& m.join_request(member_id) matches ClientMessageView::JoinRoom {
                room_id,
                member_id: id,
                credential,
            } && room_id == room && id == member_id && credential == seq!['t', 'e', 's', 't']
            &&& m.answer(peer_id, sdp) matches ClientMessageView::MakeSdpAnswer {
                room_id,
                peer_id: id,
                sdp_answer,
                transceivers_statuses,
            } && room_id == room && id == peer_id && sdp_answer == sdp
                && transceivers_statuses.dom() == Set::<u32>::empty()
            &&& m.candidate_found(peer_id, candidate)
                matches ClientMessageView::SetIceCandidate {
                room_id,
                peer_id: id,
                candidate: told,
            } && room_id == room && id == peer_id && told == candidate
        }),
{
    law_negotiation_completes_once(SfuMemberView::joining(room), peers);
    reveal_strlit("test");
    assert(crate::sfu_member::test_credential() =~= seq!['t', 'e', 's', 't']);
}

/// Members connect to one place.
pub proof fn law_members_connect_to_one_place()
    ensures
        crate::sfu_member::server_url() == seq![
            'w', 's', ':', '/', '/', '1', '2', '7', '.', '0', '.', '0', '.', '1', ':', '8', '0', '8',
            '0', '/', 'w', 's'
        ],
{
    reveal_strlit("ws://127.0.0.1:8080/ws");
    assert(crate::sfu_member::server_url() =~= seq![
        'w', 's', ':', '/', '/', '1', '2', '7', '.', '0', '.', '0', '.', '1', ':', '8', '0', '8',
        '0', '/', 'w', 's'
    ]);
}

/// A new member knows no peer: every candidate comes too early, until its peer
/// is answered.
pub proof fn law_new_member_knows_no_peer(
    room: Seq<char>,
    peer_id: u32,
    candidate: CandidateView,
)
    ensures
        SfuMemberView::joining(room).reaction(
            ServerMessageView::IceCandidateDiscovered { peer_id, candidate },
        ) == Err::<ReactionView, SignalError>(SignalError::UnknownPeer),
        SfuMemberView::joining(room).negotiating,
        SfuMemberView::joining(room).room_id == room,
{
}

/// A reaction is known by its view, and so is the lack of one.
pub proof fn law_views_tell_reactions_apart(
    a: Result<Reaction, SignalError>,
    b: Result<Reaction, SignalError>,
)
    requires
        crate::sfu_member::reaction_view(a) == crate::sfu_member::reaction_view(b),
    ensures
        match (a, b) {
            (Ok(Reaction::Ignore), Ok(Reaction::Ignore)) => true,
            (Ok(Reaction::Reply(x)), Ok(Reaction::Reply(y))) => x@ == y@,
            (
                Ok(Reaction::CreatePeer { peer_id: p, sdp_offer: x }),
                Ok(Reaction::CreatePeer { peer_id: q, sdp_offer: y }),
            ) => p == q && x@ == y@,
            (
                Ok(Reaction::AddCandidate { peer_id: p, candidate: x }),
                Ok(Reaction::AddCandidate { peer_id: q, candidate: y }),
            ) => p == q && x@ == y@,
            (Err(x), Err(y)) => x == y,
            _ => false,
        },
{
}

/// A candidate reaches its peer exactly if the peer was answered before.
pub proof fn law_candidates_need_their_peer(
    m: SfuMemberView,
    peers: Seq<u32>,
    peer_id: u32,
    candidate: CandidateView,
)
    ensures
        after_answers(m, peers).reaction(
            ServerMessageView::IceCandidateDiscovered { peer_id, candidate },
        ) == (if m.peers.contains(peer_id) || peers.contains(peer_id) {
            Ok::<ReactionView, SignalError>(ReactionView::AddCandidate { peer_id, candidate })
        } else {
            Err(SignalError::UnknownPeer)
        }),
    decreases peers.len(),
{
    if peers.len() > 0 {
        let less = peers.drop_last();
        law_candidates_need_their_peer(m, less, peer_id, candidate);
        if less.contains(peer_id) {
            let k = choose|k: int| 0 <= k < less.len() && less[k] == peer_id;
            assert(peers[k] == peer_id);
        }
        if peers.contains(peer_id) && peer_id != peers.last() {
            let k = choose|k: int| 0 <= k < peers.len() && peers[k] == peer_id;
            assert(less[k] == peer_id);
        }
        assert(peers[peers.len() - 1] == peers.last());
    }
}

/// Whoever waits for the negotiation is told of the first answered peer, and of
/// no other.
pub proof fn law_negotiation_completes_once(m: SfuMemberView, peers: Seq<u32>)
    ensures
        after_answers(m, peers).negotiating == (m.negotiating && peers.len() == 0),
        after_answers(m, peers).room_id == m.room_id,
    decreases peers.len(),
{
    if peers.len() > 0 {
        law_negotiation_completes_once(m, peers.drop_last());
    }
}

/// What an answer is made of: a track is sent if and only if the first
/// transceiver with audio only sends, and it is sent there. It is a G.722 track
/// of the stream `webrtc-rs`, named after audio and the peer. What is received
/// depends on the transceivers alone.
pub proof fn law_answer_sends_at_most_one_track(
    plan: AnswerPlan,
    ts: Seq<Transceiver>,
    i: int,
    peer_id: u32,
)
    requires
        crate::sfu_member::is_first_audio(ts, i),
        crate::sfu_member::answers(plan, ts, i, peer_id),
    ensures
        0 <= i < ts.len(),
        ts[i].kind == Kind::Audio,
        forall|j: int| 0 <= j < i ==> (#[trigger] ts[j]).kind != Kind::Audio,
        plan.sender is Some <==> ts[i].direction == Direction::Sendonly,
        plan.sender matches Some(sender) ==> {
            &&& sender.transceiver == i
            &&& sender.mime_type@ == seq!['a', 'u', 'd', 'i', 'o', '/', 'G', '7', '2', '2']
            &&& sender.stream_id@ == seq!['w', 'e', 'b', 'r', 't', 'c', '-', 'r', 's']
            &&& sender.track_id@.take(5) == seq!['a', 'u', 'd', 'i', 'o']
            &&& number_in(sender.track_id@.skip(5)) == peer_id
        },
        plan.receivers@ == crate::sfu_member::receiving(ts),
{
    reveal_strlit("audio/G722");
    reveal_strlit("webrtc-rs");
    reveal_strlit("audio");
    law_decimal_reads_back(peer_id as int);
    match plan.sender {
        Some(sender) => {
            assert(sender.mime_type@ =~= seq!['a', 'u', 'd', 'i', 'o', '/', 'G', '7', '2', '2']);
            assert(sender.stream_id@ =~= seq!['w', 'e', 'b', 'r', 't', 'c', '-', 'r', 's']);
            assert(sender.track_id@.take(5) =~= seq!['a', 'u', 'd', 'i', 'o']);
            assert(sender.track_id@.skip(5) =~= crate::sfu_member::decimal(peer_id as int));
        },
        None => {},
    }
}

/// There is a first transceiver with audio, and only one, exactly if there is
/// one with audio at all.
pub proof fn law_first_audio_is_found(ts: Seq<Transceiver>, j: int)
    requires
        0 <= j < ts.len(),
        ts[j].kind == Kind::Audio,
    ensures
        exists|i: int| #[trigger] crate::sfu_member::is_first_audio(ts, i) && i <= j,
        forall|i: int, k: int| #[trigger]
            crate::sfu_member::is_first_audio(ts, i) && #[trigger] crate::sfu_member::is_first_audio(
                ts,
                k,
            ) ==> i == k,
    decreases j,
{
    if !crate::sfu_member::is_first_audio(ts, j) {
        let k = choose|k: int| 0 <= k < j && (#[trigger] ts[k]).kind == Kind::Audio;
        law_first_audio_is_found(ts, k);
    }
}

/// The number that decimal digits stand for.
pub open spec fn number_in(digits: Seq<char>) -> int
    decreases digits.len(),
{
    if digits.len() == 0 {
        0
    } else {
        10 * number_in(digits.drop_last()) + (digits.last() as int - '0' as int)
    }
}

/// A number in decimal is made of digits, stands for the number, and does not
/// start with a zero unless it is zero.
pub proof fn law_decimal_reads_back(n: int)
    requires
        0 <= n,
    ensures
        ({
            let digits = crate::sfu_member::decimal(n);
            &&& number_in(digits) == n
            &&& digits.len() > 0
            &&& forall|k: int| 0 <= k < digits.len() ==> '0' <= #[trigger] digits[k] <= '9'
            &&& n > 0 ==> digits[0] != '0'
            &&& n == 0 ==> digits.len() == 1
        }),
    decreases n,
{
    let digits = crate::sfu_member::decimal(n);
    if n < 10 {
        reveal_with_fuel(number_in, 2);
        assert(digits.drop_last() =~= Seq::empty());
    } else {
        law_decimal_reads_back(n / 10);
        assert(digits.drop_last() =~= crate::sfu_member::decimal(n / 10));
    }
}

/// A track is sent on the first of the transceivers that only send audio.
pub proof fn law_track_goes_to_first_sender(
    plan: AnswerPlan,
    ts: Seq<Transceiver>,
    i: int,
    peer_id: u32,
    j: int,
)
    requires
        crate::sfu_member::is_first_audio(ts, i),
        crate::sfu_member::answers(plan, ts, i, peer_id),
        plan.sender is Some,
        0 <= j < ts.len(),
        ts[j] == (Transceiver { direction: Direction::Sendonly, kind: Kind::Audio }),
    ensures
        ts[plan.sender->Some_0.transceiver as int] == ts[j],
        plan.sender->Some_0.transceiver <= j,
{
}

/// The receivers of an answer are exactly the transceivers that only receive,
/// each of them once, in order.
pub proof fn law_receivers_are_exact(ts: Seq<Transceiver>, i: int)
    requires
        0 <= i < ts.len(),
        ts.len() <= usize::MAX,
    ensures
        crate::sfu_member::receiving(ts).contains(i as usize) <==> ts[i].direction
            == Direction::Recvonly,
        forall|k: int|
            0 <= k < crate::sfu_member::receiving(ts).len()
                ==> #[trigger] crate::sfu_member::receiving(ts)[k] < ts.len(),
        forall|j: int, k: int|
            0 <= j < k < crate::sfu_member::receiving(ts).len() ==> crate::sfu_member::receiving(
                ts,
            )[j] < crate::sfu_member::receiving(ts)[k],
{
    lemma_receiving(ts);
    lemma_receiving_member(ts, i);
}

proof fn lemma_receiving(ts: Seq<Transceiver>)
    requires
        ts.len() <= usize::MAX,
    ensures
        forall|k: int|
            0 <= k < crate::sfu_member::receiving(ts).len()
                ==> #[trigger] crate::sfu_member::receiving(ts)[k] < ts.len(),
        forall|j: int, k: int|
            0 <= j < k < crate::sfu_member::receiving(ts).len() ==> crate::sfu_member::receiving(
                ts,
            )[j] < crate::sfu_member::receiving(ts)[k],
    decreases ts.len(),
{
    if ts.len() > 0 {
        let before = crate::sfu_member::receiving(ts.drop_last());
        let all = crate::sfu_member::receiving(ts);
        lemma_receiving(ts.drop_last());
        assert(forall|k: int| 0 <= k < before.len() ==> #[trigger] all[k] == before[k]);
        assert(all.len() > before.len() ==> all[before.len() as int] == ts.len() - 1);
    }
}

proof fn lemma_receiving_member(ts: Seq<Transceiver>, i: int)
    requires
        0 <= i < ts.len() <= usize::MAX,
    ensures
        crate::sfu_member::receiving(ts).contains(i as usize) <==> ts[i].direction
            == Direction::Recvonly,
    decreases ts.len(),
{
    let less = ts.drop_last();
    let before = crate::sfu_member::receiving(less);
    let all = crate::sfu_member::receiving(ts);
    lemma_receiving(less);
    if i < less.len() {
        lemma_receiving_member(less, i);
        if before.contains(i as usize) {
            let k = choose|k: int| 0 <= k < before.len() && before[k] == i as usize;
            assert(all[k] == i as usize);
        }
        if all.contains(i as usize) {
            let k = choose|k: int| 0 <= k < all.len() && all[k] == i as usize;
            assert(before[k] == i as usize);
        }
    } else {
        if ts.last().direction == Direction::Recvonly {
            assert(all[all.len() - 1] == i as usize);
        } else if all.contains(i as usize) {
            let k = choose|k: int| 0 <= k < all.len() && all[k] == i as usize;
            assert(before[k] == i as usize);
        }
    }
}

} // verus!
