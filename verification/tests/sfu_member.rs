use std::collections::HashMap;

use medea_rtc::sfu_member::{
    plan_answer, AnswerPlan, Direction, Frame, Kind, Reaction, SenderPlan, SfuMember, Transceiver,
};
use medea_rtc::signal::{Candidate, ClientMessage, Role, ServerMessage, SignalError};

fn transceiver(kind: Kind, direction: Direction) -> Transceiver {
    Transceiver { direction, kind }
}

fn candidate() -> Candidate {
    Candidate { candidate: "c".to_string(), sdp_m_line_index: None, sdp_mid: None }
}

fn discovered(peer_id: u32) -> ServerMessage {
    ServerMessage::IceCandidateDiscovered { peer_id, candidate: candidate() }
}

#[test]
fn member_joins_its_room() {
    let c =
        SfuMember::connect("ws://elsewhere".to_string(), "r".to_string(), "m".to_string()).unwrap();
    assert_eq!(c.url, "ws://127.0.0.1:8080/ws");
    assert_eq!(
        c.join,
        [
            r#"{"Command":{"room_id":"r","command":{"command":"JoinRoom","#,
            r#""data":{"member_id":"m","credential":"test"}}}}"#,
        ]
        .concat()
    );
    assert_eq!(
        c.member.join_message("n".to_string()),
        ClientMessage::JoinRoom {
            room_id: "r".to_string(),
            member_id: "n".to_string(),
            credential: "test".to_string(),
        }
    );
}

#[test]
fn probe_is_answered() {
    let member = SfuMember::new("r".to_string());
    assert_eq!(
        member.handle_message(ServerMessage::Ping(8)),
        Ok(Reaction::Reply(ClientMessage::Pong(8)))
    );
    assert_eq!(
        member.handle_frame(Frame::Text(br#"{"msg":"Ping","data":9}"#.to_vec())),
        Ok(Reaction::Reply(ClientMessage::Pong(9)))
    );
}

#[test]
fn offer_is_answered() {
    let member = SfuMember::new("r".to_string());
    let created = |role| ServerMessage::PeerCreated { peer_id: 2, role };
    assert_eq!(
        member.handle_message(created(Role::Answerer("v=0".to_string()))),
        Ok(Reaction::CreatePeer { peer_id: 2, sdp_offer: "v=0".to_string() })
    );
    assert_eq!(
        member.handle_message(created(Role::Offerer)),
        Err(SignalError::UnexpectedOfferer)
    );
}

#[test]
fn unimportant_frames_are_ignored() {
    let member = SfuMember::new("r".to_string());
    assert_eq!(
        member.handle_message(ServerMessage::PeerUpdated { peer_id: 2 }),
        Ok(Reaction::Ignore)
    );
    assert_eq!(member.handle_message(ServerMessage::Other), Ok(Reaction::Ignore));
    assert_eq!(member.handle_frame(Frame::Other), Ok(Reaction::Ignore));
    assert_eq!(member.handle_frame(Frame::Text(vec![0xc0])), Err(SignalError::NotUtf8));
    assert_eq!(member.handle_frame(Frame::Text(vec![])), Err(SignalError::NotAMessage));
}

#[test]
fn candidates_need_their_peer() {
    let mut member = SfuMember::new("r".to_string());
    assert_eq!(member.handle_message(discovered(2)), Err(SignalError::UnknownPeer));
    member.peer_answered(2, "v=0".to_string());
    assert_eq!(
        member.handle_message(discovered(2)),
        Ok(Reaction::AddCandidate { peer_id: 2, candidate: candidate() })
    );
    assert_eq!(member.handle_message(discovered(3)), Err(SignalError::UnknownPeer));
}

#[test]
fn negotiation_completes_once() {
    let mut member = SfuMember::new("r".to_string());
    let first = member.peer_answered(2, "v=0".to_string());
    assert!(first.notify);
    assert_eq!(
        first.answer,
        ClientMessage::MakeSdpAnswer {
            room_id: "r".to_string(),
            peer_id: 2,
            sdp_answer: "v=0".to_string(),
        transceivers_statuses: HashMap::new(),
        }
    );
    assert!(!member.peer_answered(3, "v=0".to_string()).notify);
}

#[test]
fn found_candidates_are_told() {
    let member = SfuMember::new("r".to_string());
    assert_eq!(
        member.on_ice_candidate(2, Some(candidate())),
        Some(ClientMessage::SetIceCandidate {
            room_id: "r".to_string(),
            peer_id: 2,
            candidate: candidate(),
        })
    );
    assert_eq!(member.on_ice_candidate(2, None), None);
}

#[test]
fn sender_gets_a_track() {
    let ts = [
        transceiver(Kind::Video, Direction::Sendonly),
        transceiver(Kind::Audio, Direction::Sendonly),
        transceiver(Kind::Audio, Direction::Recvonly),
        transceiver(Kind::Video, Direction::Recvonly),
    ];
    assert_eq!(
        plan_answer(4_294_967_295, &ts),
        Ok(AnswerPlan {
            receivers: vec![2, 3],
            sender: Some(SenderPlan {
                transceiver: 1,
                mime_type: "audio/G722".to_string(),
                track_id: "audio4294967295".to_string(),
                stream_id: "webrtc-rs".to_string(),
            }),
        })
    );
    let plan = plan_answer(0, &ts[1..]).unwrap();
    assert_eq!(plan.sender.unwrap().track_id, "audio0");
    assert_eq!(plan.receivers, vec![1, 2]);
}

#[test]
fn receiver_sends_nothing() {
    let ts = [
        transceiver(Kind::Audio, Direction::Recvonly),
        transceiver(Kind::Audio, Direction::Sendonly),
        transceiver(Kind::Audio, Direction::Sendrecv),
        transceiver(Kind::Unspecified, Direction::Inactive),
    ];
    assert_eq!(plan_answer(7, &ts), Ok(AnswerPlan { receivers: vec![0], sender: None }));
}

#[test]
fn offer_without_audio_is_refused() {
    assert_eq!(plan_answer(7, &[]), Err(SignalError::NoAudio));
    let ts = [transceiver(Kind::Video, Direction::Recvonly)];
    assert_eq!(plan_answer(7, &ts), Err(SignalError::NoAudio));
}
