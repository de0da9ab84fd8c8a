use medea_rtc::control::{
    create_member, create_room, member_sid, Element, Endpoint, EndpointRequest, Member,
    MemberPlan, MemberRequest, P2pMode, PlayEndpoint, Room, RoomElement, RoomRequest,
};

fn play(id: &str, src: &str) -> PlayEndpoint {
    PlayEndpoint { id: id.to_string(), src: src.to_string() }
}

fn member(id: &str, endpoints: Vec<Endpoint>) -> RoomElement {
    RoomElement::Member(Member { id: id.to_string(), endpoints })
}

fn request(plays: Vec<PlayEndpoint>) -> MemberRequest {
    MemberRequest {
        parent_fid: "room".to_string(),
        id: "new".to_string(),
        credential: "test".to_string(),
        plays,
        publish_id: "publish".to_string(),
        p2p: P2pMode::Never,
    }
}

#[test]
fn room_is_created_at_the_top() {
    assert_eq!(
        create_room("room".to_string()),
        RoomRequest { parent_fid: String::new(), id: "room".to_string() }
    );
}

#[test]
fn first_member_plays_nobody() {
    for found in [
        Element::Other,
        Element::Room(Room { id: "room".to_string(), elements: vec![] }),
    ] {
        assert_eq!(
            create_member(&found, "room".to_string(), "new".to_string()),
            MemberPlan { member: request(vec![]), others: vec![] }
        );
    }
}

#[test]
fn new_member_and_publishers_play_each_other() {
    let found = Element::Room(Room {
        id: "found".to_string(),
        elements: vec![
            member(
                "a",
                vec![Endpoint::Other, Endpoint::Publish("p1".to_string()), Endpoint::Publish("p2".to_string())],
            ),
            RoomElement::Other,
            member("b", vec![Endpoint::Other]),
            member("c", vec![Endpoint::Publish("publish".to_string())]),
        ],
    });
    let to_newcomer = |parent_fid: &str| EndpointRequest {
        parent_fid: parent_fid.to_string(),
        play: play("play-new", "local://room/new/publish"),
    };
    assert_eq!(
        create_member(&found, "room".to_string(), "new".to_string()),
        MemberPlan {
            member: request(vec![
                play("play-a", "local://found/a/p1"),
                play("play-a", "local://found/a/p2"),
                play("play-c", "local://found/c/publish"),
            ]),
            others: vec![to_newcomer("found/a"), to_newcomer("found/a"), to_newcomer("found/c")],
        }
    );
}

#[test]
fn sid_belongs_to_its_member() {
    let sids = |ids: &[&str]| -> Vec<(String, String)> {
        ids.iter().map(|id| (id.to_string(), format!("ws://{id}"))).collect()
    };
    let id = "b".to_string();
    assert_eq!(member_sid(sids(&["a", "b", "c"]), &id), Some("ws://b".to_string()));
    assert_eq!(member_sid(sids(&["a", "c"]), &id), None);
    assert_eq!(member_sid(sids(&[]), &id), None);
}
