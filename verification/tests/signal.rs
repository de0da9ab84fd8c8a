use std::collections::HashMap;

use medea_rtc::signal::{Candidate, ClientMessage, Role, ServerMessage, SignalError};

fn read(text: &str) -> Result<ServerMessage, SignalError> {
    ServerMessage::from_frame(text.as_bytes().to_vec())
}

#[test]
fn ping_is_read() {
    assert_eq!(read(r#"{"msg":"Ping","data":5}"#), Ok(ServerMessage::Ping(5)));
}

#[test]
fn created_peer_is_read() {
    let event = |role: &str| {
        format!(
            r#"{{"msg":"Event","data":{{"room_id":"r","event":{{"event":"PeerCreated","data":{{
                "peer_id":3,"negotiation_role":{role},"connection_mode":"Sfu","tracks":[],
                "ice_servers":[],"force_relay":false}}}}}}}}"#
        )
    };
    assert_eq!(
        read(&event(r#"{"Answerer":"v=0"}"#)),
        Ok(ServerMessage::PeerCreated { peer_id: 3, role: Role::Answerer("v=0".to_string()) })
    );
    assert_eq!(
        read(&event(r#""Offerer""#)),
        Ok(ServerMessage::PeerCreated { peer_id: 3, role: Role::Offerer })
    );
}

#[test]
fn updated_peer_is_read() {
    assert_eq!(
        read(
            r#"{"msg":"Event","data":{"room_id":"r","event":{"event":"PeerUpdated","data":{
                "peer_id":4,"updates":[],"negotiation_role":null}}}}"#
        ),
        Ok(ServerMessage::PeerUpdated { peer_id: 4 })
    );
}

#[test]
fn discovered_candidate_is_read() {
    assert_eq!(
        read(
            r#"{"msg":"Event","data":{"room_id":"r","event":{"event":"IceCandidateDiscovered",
                "data":{"peer_id":4,"candidate":{"candidate":"c","sdp_m_line_index":1,
                "sdp_mid":null}}}}}"#
        ),
        Ok(ServerMessage::IceCandidateDiscovered {
            peer_id: 4,
            candidate: Candidate {
                candidate: "c".to_string(),
                sdp_m_line_index: Some(1),
                sdp_mid: None,
            },
        })
    );
}

#[test]
fn other_messages_are_read() {
    assert_eq!(
        read(r#"{"msg":"RpcSettings","data":{"idle_timeout_ms":1,"ping_interval_ms":2}}"#),
        Ok(ServerMessage::Other)
    );
    assert_eq!(
        read(
            r#"{"msg":"Event","data":{"room_id":"r","event":{"event":"PeersRemoved","data":{
                "peer_ids":[1]}}}}"#
        ),
        Ok(ServerMessage::Other)
    );
}

#[test]
fn bad_frames_are_told_apart() {
    assert_eq!(ServerMessage::from_frame(vec![0xff, 0x22]), Err(SignalError::NotUtf8));
    assert_eq!(read("ping"), Err(SignalError::NotAMessage));
    assert_eq!(read(r#"{"Ping":5}"#), Err(SignalError::NotAMessage));
    assert_eq!(read(""), Err(SignalError::NotAMessage));
}

#[test]
fn messages_of_a_member_are_written() {
    assert_eq!(ClientMessage::Pong(5).into_text(), Ok(r#"{"Pong":5}"#.to_string()));
    let join = ClientMessage::JoinRoom {
        room_id: "r".to_string(),
        member_id: "m".to_string(),
        credential: "test".to_string(),
    };
    assert_eq!(
        join.into_text(),
        Ok(concat(&[
            r#"{"Command":{"room_id":"r","command":{"command":"JoinRoom","#,
            r#""data":{"member_id":"m","credential":"test"}}}}"#,
        ]))
    );
    let answer = ClientMessage::MakeSdpAnswer {
        room_id: "r".to_string(),
        peer_id: 3,
        sdp_answer: "v=0".to_string(),
        transceivers_statuses: HashMap::new(),
    };
    assert_eq!(
        answer.into_text(),
        Ok(concat(&[
            r#"{"Command":{"room_id":"r","command":{"command":"MakeSdpAnswer","#,
            r#""data":{"peer_id":3,"sdp_answer":"v=0","transceivers_statuses":{}}}}}"#,
        ]))
    );
    let answer = ClientMessage::MakeSdpAnswer {
        room_id: "r".to_string(),
        peer_id: 3,
        sdp_answer: "v=0".to_string(),
        transceivers_statuses: HashMap::from([(7, true)]),
    };
    assert_eq!(
        answer.into_text(),
        Ok(concat(&[
            r#"{"Command":{"room_id":"r","command":{"command":"MakeSdpAnswer","#,
            r#""data":{"peer_id":3,"sdp_answer":"v=0","transceivers_statuses":{"7":true}}}}}"#,
        ]))
    );
    let candidate = ClientMessage::SetIceCandidate {
        room_id: "r".to_string(),
        peer_id: 3,
        candidate: Candidate {
            candidate: "c".to_string(),
            sdp_m_line_index: Some(0),
            sdp_mid: Some("0".to_string()),
        },
    };
    assert_eq!(
        candidate.into_text(),
        Ok(concat(&[
            r#"{"Command":{"room_id":"r","command":{"command":"SetIceCandidate","#,
            r#""data":{"peer_id":3,"candidate":{"candidate":"c","sdp_m_line_index":0,"#,
            r#""sdp_mid":"0"}}}}}"#,
        ]))
    );
}

fn concat(parts: &[&str]) -> String {
    parts.concat()
}
