//! What is asked of the media server to set up a test room, so that every
//! member plays what every other member publishes.

use vstd::prelude::*;

verus! {

// ---------------------------------------------------------------------------
// Elements of the media server
// ---------------------------------------------------------------------------
/// An endpoint of a member.
#[derive(Debug, PartialEq, Eq)]
pub enum Endpoint {
    /// It publishes media, under this ID.
    Publish(String),
    /// Anything else.
    Other,
}

/// A member of a room.
#[derive(Debug, PartialEq, Eq)]
pub struct Member {
    /// ID of the member.
    pub id: String,
    /// Its endpoints.
    pub endpoints: Vec<Endpoint>,
}

/// An element of a room.
#[derive(Debug, PartialEq, Eq)]
pub enum RoomElement {
    /// A member.
    Member(Member),
    /// Anything else.
    Other,
}

/// A room.
#[derive(Debug, PartialEq, Eq)]
pub struct Room {
    /// ID of the room.
    pub id: String,
    /// Its elements, in the order in which they were listed.
    pub elements: Vec<RoomElement>,
}

/// What was found under the ID of a room.
#[derive(Debug, PartialEq, Eq)]
pub enum Element {
    /// A room.
    Room(Room),
    /// Anything else, or nothing.
    Other,
}

/// Something that is published in a room.
pub struct Publisher {
    /// ID of the member.
    pub member: Seq<char>,
    /// ID of its endpoint.
    pub endpoint: Seq<char>,
}

/// What a member publishes, as far as its endpoints `es`.
pub open spec fn published(member: Seq<char>, es: Seq<Endpoint>) -> Seq<Publisher>
    decreases es.len(),
{
    if es.len() == 0 {
        Seq::empty()
    } else {
        let before = published(member, es.drop_last());
        match es.last() {
            Endpoint::Publish(id) => before.push(Publisher { member, endpoint: id@ }),
            Endpoint::Other => before,
        }
    }
}

/// What is published in a room, as far as its elements `es`, in the order of
/// the elements and of their endpoints.
pub open spec fn publishers(es: Seq<RoomElement>) -> Seq<Publisher>
    decreases es.len(),
{
    if es.len() == 0 {
        Seq::empty()
    } else {
        let before = publishers(es.drop_last());
        match es.last() {
            RoomElement::Member(member) => before + published(member.id@, member.endpoints@),
            RoomElement::Other => before,
        }
    }
}

impl Element {
    /// What is published in the room that was found.
    pub open spec fn publishers(self) -> Seq<Publisher> {
        match self {
            Element::Room(room) => publishers(room.elements@),
            Element::Other => Seq::empty(),
        }
    }

    /// ID of the room that was found.
    pub open spec fn room_id(self) -> Seq<char> {
        match self {
            Element::Room(room) => room.id@,
            Element::Other => Seq::empty(),
        }
    }
}

// ---------------------------------------------------------------------------
// Requests
// ---------------------------------------------------------------------------
/// An endpoint that plays what another member publishes.
#[derive(Debug, PartialEq, Eq)]
pub struct PlayEndpoint {
    /// ID of the endpoint.
    pub id: String,
    /// What it plays.
    pub src: String,
}

/// View of a [`PlayEndpoint`].
pub struct PlayEndpointView {
    pub id: Seq<char>,
    pub src: Seq<char>,
}

impl View for PlayEndpoint {
    type V = PlayEndpointView;

    open spec fn view(&self) -> PlayEndpointView {
        PlayEndpointView { id: self.id@, src: self.src@ }
    }
}

/// Whether a published stream may go from member to member directly.
#[derive(Clone, Copy, Debug, PartialEq, Eq, Structural)]
pub enum P2pMode {
    Always,
    Never,
    IfPossible,
}

/// Request to create a room.
#[derive(Debug, PartialEq, Eq)]
pub struct RoomRequest {
    /// Where to create it; empty for the top.
    pub parent_fid: String,
    /// ID of the room.
    pub id: String,
}

/// Request to create a member that publishes one stream and plays others.
#[derive(Debug, PartialEq, Eq)]
pub struct MemberRequest {
    /// Where to create it.
    pub parent_fid: String,
    /// ID of the member.
    pub id: String,
    /// What the member proves its identity with.
    pub credential: String,
    /// What it plays.
    pub plays: Vec<PlayEndpoint>,
    /// ID of the endpoint that it publishes at.
    pub publish_id: String,
    /// How it publishes.
    pub p2p: P2pMode,
}

/// Request to create an endpoint of a member.
#[derive(Debug, PartialEq, Eq)]
pub struct EndpointRequest {
    /// Where to create it.
    pub parent_fid: String,
    /// The endpoint.
    pub play: PlayEndpoint,
}

/// View of an [`EndpointRequest`].
pub struct EndpointRequestView {
    pub parent_fid: Seq<char>,
    pub play: PlayEndpointView,
}

impl View for EndpointRequest {
    type V = EndpointRequestView;

    open spec fn view(&self) -> EndpointRequestView {
        EndpointRequestView { parent_fid: self.parent_fid@, play: self.play@ }
    }
}

/// What has to be created for a new member, in this order.
#[derive(Debug, PartialEq, Eq)]
pub struct MemberPlan {
    /// The member itself.
    pub member: MemberRequest,
    /// Endpoints of the others that play the new member.
    pub others: Vec<EndpointRequest>,
}

/// Name of the endpoint that plays `member`.
pub open spec fn play_id(member: Seq<char>) -> Seq<char> {
    "play-"@ + member
}

/// ID of the endpoint that every test member publishes at.
pub open spec fn publish_id() -> Seq<char> {
    "publish"@
}

/// Full ID of an element of a room.
pub open spec fn path(room: Seq<char>, member: Seq<char>) -> Seq<char> {
    room + "/"@ + member
}

/// Address of what `member` publishes at `endpoint`.
pub open spec fn local_uri(
    room: Seq<char>,
    member: Seq<char>,
    endpoint: Seq<char>,
) -> Seq<char> {
    "local://"@ + room + "/"@ + member + "/"@ + endpoint
}

/// The endpoint of the new member that plays `p`.
pub open spec fn plays_publisher(room: Seq<char>, p: Publisher) -> PlayEndpointView {
    PlayEndpointView { id: play_id(p.member), src: local_uri(room, p.member, p.endpoint) }
}

/// The endpoint of the member of `p`, found in the room `found`, that plays the
/// new member `member` of the room `room`.
pub open spec fn plays_newcomer(
    found: Seq<char>,
    p: Publisher,
    room: Seq<char>,
    member: Seq<char>,
) -> EndpointRequestView {
    EndpointRequestView {
        parent_fid: path(found, p.member),
        play: PlayEndpointView { id: play_id(member), src: local_uri(room, member, publish_id()) },
    }
}

fn play_id_text(member: &str) -> (s: String)
    ensures
        s@ == play_id(member@),
{
    let mut s: String = "play-".to_owned();
    s.append(member);
    s
}

fn path_text(room: &str, member: &str) -> (s: String)
    ensures
        s@ == path(room@, member@),
{
    let mut s: String = room.to_owned();
    s.append("/");
    s.append(member);
    s
}

fn local_uri_text(room: &str, member: &str, endpoint: &str) -> (s: String)
    ensures
        s@ == local_uri(room@, member@, endpoint@),
{
    let mut s: String = "local://".to_owned();
    s.append(room);
    s.append("/");
    s.append(member);
    s.append("/");
    s.append(endpoint);
    s
}

/// The request to create the room `room_id`.
pub fn create_room(room_id: String) -> (r: RoomRequest)
    ensures
        r.parent_fid@ == Seq::<char>::empty(),
        r.id@ == room_id@,
{
    RoomRequest { parent_fid: String::new(), id: room_id }
}

/// Whether `plan` lists what has to be created for the new member `member` of
/// the room `room`, under whose ID `found` was found.
pub open spec fn is_plan_for(
    plan: MemberPlan,
    found: Element,
    room: Seq<char>,
    member: Seq<char>,
) -> bool {
    &&& plan.member.parent_fid@ == room
    &&& plan.member.id@ == member
    &&& plan.member.credential@ == "test"@
    &&& plan.member.plays@.map_values(|e: PlayEndpoint| e@) == found.publishers().map_values(
        |p: Publisher| plays_publisher(found.room_id(), p),
    )
    &&& plan.member.publish_id@ == publish_id()
    &&& plan.member.p2p == P2pMode::Never
    &&& plan.others@.map_values(|e: EndpointRequest| e@) == found.publishers().map_values(
        |p: Publisher| plays_newcomer(found.room_id(), p, room, member),
    )
}

/// Lists what has to be created for the new member `member_id` of the room
/// `room_id`, under whose ID `found` was found.
pub fn create_member(found: &Element, room_id: String, member_id: String) -> (plan: MemberPlan)
    ensures
        is_plan_for(plan, *found, room_id@, member_id@),
{
    let mut plays: Vec<PlayEndpoint> = Vec::new();
    let mut others: Vec<EndpointRequest> = Vec::new();
    let ghost as_play = |p: Publisher| plays_publisher(found.room_id(), p);
    let ghost as_other = |p: Publisher|
        plays_newcomer(found.room_id(), p, room_id@, member_id@);
    match found {
        Element::Room(room) => {
            let mut i: usize = 0;
            assert(room.elements@.take(0) =~= Seq::empty());
            assert(publishers(room.elements@.take(0)) =~= Seq::empty());
            assert(plays@.map_values(|e: PlayEndpoint| e@) =~= Seq::empty());
            assert(others@.map_values(|e: EndpointRequest| e@) =~= Seq::empty());
            assert(Seq::<Publisher>::empty().map_values(as_play) =~= Seq::empty());
            assert(Seq::<Publisher>::empty().map_values(as_other) =~= Seq::empty());
            while i < room.elements.len()
                invariant
                    i <= room.elements@.len(),
                    found.room_id() == room.id@,
                    as_play == (|p: Publisher| plays_publisher(found.room_id(), p)),
                    as_other == (|p: Publisher|
                        plays_newcomer(found.room_id(), p, room_id@, member_id@)),
                    plays@.map_values(|e: PlayEndpoint| e@) == publishers(
                        room.elements@.take(i as int),
                    ).map_values(as_play),
                    others@.map_values(|e: EndpointRequest| e@) == publishers(
                        room.elements@.take(i as int),
                    ).map_values(as_other),
                decreases room.elements@.len() - i,
            {
                assert(room.elements@.take(i + 1).drop_last() =~= room.elements@.take(i as int));
                match &room.elements[i] {
                    RoomElement::Member(member) => {
                        add_publishers(
                            &mut plays,
                            &mut others,
                            room.id.as_str(),
                            member,
                            room_id.as_str(),
                            member_id.as_str(),
                        );
                        let ghost before = publishers(room.elements@.take(i as int));
                        let ghost more = published(member.id@, member.endpoints@);
                        assert((before + more).map_values(as_play) =~= before.map_values(as_play)
                            + more.map_values(as_play));
                        assert((before + more).map_values(as_other) =~= before.map_values(as_other)
                            + more.map_values(as_other));
                    },
                    RoomElement::Other => {},
                }
                i += 1;
            }
            assert(room.elements@.take(i as int) =~= room.elements@);
        },
        Element::Other => {
            assert(plays@.map_values(|e: PlayEndpoint| e@) =~= found.publishers().map_values(
                as_play,
            ));
            assert(others@.map_values(|e: EndpointRequest| e@) =~= found.publishers().map_values(
                as_other,
            ));
        },
    }
    MemberPlan {
        member: MemberRequest {
            parent_fid: room_id,
            id: member_id,
            credential: "test".to_owned(),
            plays,
            publish_id: "publish".to_owned(),
            p2p: P2pMode::Never,
        },
        others,
    }
}

/// Adds the endpoints that connect one member of the room `found` with the new
/// member `member_id` of the room `room_id`.
fn add_publishers(
    plays: &mut Vec<PlayEndpoint>,
    others: &mut Vec<EndpointRequest>,
    found: &str,
    member: &Member,
    room_id: &str,
    member_id: &str,
)
    ensures
        final(plays)@.map_values(|e: PlayEndpoint| e@) == old(plays)@.map_values(
            |e: PlayEndpoint| e@,
        ) + published(member.id@, member.endpoints@).map_values(
            |p: Publisher| plays_publisher(found@, p),
        ),
        final(others)@.map_values(|e: EndpointRequest| e@) == old(others)@.map_values(
            |e: EndpointRequest| e@,
        ) + published(member.id@, member.endpoints@).map_values(
            |p: Publisher| plays_newcomer(found@, p, room_id@, member_id@),
        ),
{
    let ghost as_play = |p: Publisher| plays_publisher(found@, p);
    let ghost as_other = |p: Publisher| plays_newcomer(found@, p, room_id@, member_id@);
    let mut j: usize = 0;
    assert(member.endpoints@.take(0) =~= Seq::empty());
    assert(published(member.id@, member.endpoints@.take(0)) =~= Seq::empty());
    assert(plays@.map_values(|e: PlayEndpoint| e@) + Seq::<Publisher>::empty().map_values(as_play)
        =~= plays@.map_values(|e: PlayEndpoint| e@));
    assert(others@.map_values(|e: EndpointRequest| e@) + Seq::<Publisher>::empty().map_values(
        as_other,
    ) =~= others@.map_values(|e: EndpointRequest| e@));
    while j < member.endpoints.len()
        invariant
            j <= member.endpoints@.len(),
            as_play == (|p: Publisher| plays_publisher(found@, p)),
            as_other == (|p: Publisher| plays_newcomer(found@, p, room_id@, member_id@)),
            plays@.map_values(|e: PlayEndpoint| e@) == old(plays)@.map_values(
                |e: PlayEndpoint| e@,
            ) + published(member.id@, member.endpoints@.take(j as int)).map_values(as_play),
            others@.map_values(|e: EndpointRequest| e@) == old(others)@.map_values(
                |e: EndpointRequest| e@,
            ) + published(member.id@, member.endpoints@.take(j as int)).map_values(as_other),
        decreases member.endpoints@.len() - j,
    {
        assert(member.endpoints@.take(j + 1).drop_last() =~= member.endpoints@.take(j as int));
        let ghost before = published(member.id@, member.endpoints@.take(j as int));
        match &member.endpoints[j] {
            Endpoint::Publish(endpoint) => {
                let ghost plays0 = plays@;
                let ghost others0 = others@;
                let ghost p = Publisher { member: member.id@, endpoint: endpoint@ };
                let play: PlayEndpoint = PlayEndpoint {
                    id: play_id_text(member.id.as_str()),
                    src: local_uri_text(found, member.id.as_str(), endpoint.as_str()),
                };
                let other: EndpointRequest = EndpointRequest {
                    parent_fid: path_text(found, member.id.as_str()),
                    play: PlayEndpoint {
                        id: play_id_text(member_id),
                        src: local_uri_text(room_id, member_id, "publish"),
                    },
                };
                assert(play@ == as_play(p));
                assert(other@ == as_other(p));
                plays.push(play);
                others.push(other);
                assert(plays@.map_values(|e: PlayEndpoint| e@) =~= plays0.map_values(
                    |e: PlayEndpoint| e@,
                ).push(as_play(p)));
                assert(others@.map_values(|e: EndpointRequest| e@) =~= others0.map_values(
                    |e: EndpointRequest| e@,
                ).push(as_other(p)));
                assert(before.push(p).map_values(as_play) =~= before.map_values(as_play).push(
                    as_play(p),
                ));
                assert(before.push(p).map_values(as_other) =~= before.map_values(as_other).push(
                    as_other(p),
                ));
                assert(plays@.map_values(|e: PlayEndpoint| e@) =~= old(plays)@.map_values(
                    |e: PlayEndpoint| e@,
                ) + before.push(p).map_values(as_play));
                assert(others@.map_values(|e: EndpointRequest| e@) =~= old(others)@.map_values(
                    |e: EndpointRequest| e@,
                ) + before.push(p).map_values(as_other));
            },
            Endpoint::Other => {},
        }
        j += 1;
    }
    assert(member.endpoints@.take(j as int) =~= member.endpoints@);
}

/// `i` is the first entry of the answer `sids` that is for `member`.
pub open spec fn is_first_sid(
    sids: Seq<(String, String)>,
    member: Seq<char>,
    i: int,
) -> bool {
    &&& 0 <= i < sids.len()
    &&& sids[i].0@ == member
    &&& forall|j: int| 0 <= j < i ==> (#[trigger] sids[j]).0@ != member
}

/// Picks what the new member connects with out of the answer to its
/// [`MemberRequest`], which lists IDs of members with what they connect with.
pub fn member_sid(sids: Vec<(String, String)>, member_id: &String) -> (r: Option<String>)
    ensures
        match r {
            Some(sid) => exists|i: int| #[trigger]
                is_first_sid(sids@, member_id@, i) && sids@[i].1@ == sid@,
            None => forall|i: int| !#[trigger] is_first_sid(sids@, member_id@, i),
        },
{
    let mut i: usize = 0;
    while i < sids.len()
        invariant
            i <= sids@.len(),
            forall|j: int| 0 <= j < i ==> (#[trigger] sids@[j]).0@ != member_id@,
        decreases sids@.len() - i,
    {
        if sids[i].0.eq(member_id) {
            assert(is_first_sid(sids@, member_id@, i as int));
            return Some(sids[i].1.clone());
        }
        i += 1;
    }
    None
}

/// What is published in two rows of elements is what is published in the one
/// followed by what is published in the other.
pub proof fn law_publishers_of_rows_add_up(a: Seq<RoomElement>, b: Seq<RoomElement>)
    ensures
        publishers(a + b) == publishers(a) + publishers(b),
    decreases b.len(),
{
    if b.len() == 0 {
        assert(a + b =~= a);
        assert(publishers(a) + publishers(b) =~= publishers(a));
    } else {
        law_publishers_of_rows_add_up(a, b.drop_last());
        assert((a + b).drop_last() =~= a + b.drop_last());
        assert((a + b).last() == b.last());
        assert(publishers(a + b) =~= publishers(a) + publishers(b));
    }
}

/// The same holds of two rows of endpoints of one member.
pub proof fn law_endpoints_add_up(member: Seq<char>, a: Seq<Endpoint>, b: Seq<Endpoint>)
    ensures
        published(member, a + b) == published(member, a) + published(member, b),
    decreases b.len(),
{
    if b.len() == 0 {
        assert(a + b =~= a);
        assert(published(member, a) + published(member, b) =~= published(member, a));
    } else {
        law_endpoints_add_up(member, a, b.drop_last());
        assert((a + b).drop_last() =~= a + b.drop_last());
        assert((a + b).last() == b.last());
        assert(published(member, a + b) =~= published(member, a) + published(member, b));
    }
}

/// A member alone publishes at its own endpoints, and an endpoint alone
/// publishes under its own ID, if it publishes. Nothing else publishes.
pub proof fn law_each_publisher_is_listed_once(
    element: RoomElement,
    endpoint: Endpoint,
    member: Seq<char>,
)
    ensures
        publishers(seq![element]) == (match element {
            RoomElement::Member(m) => published(m.id@, m.endpoints@),
            RoomElement::Other => Seq::empty(),
        }),
        published(member, seq![endpoint]) == (match endpoint {
            Endpoint::Publish(id) => seq![Publisher { member, endpoint: id@ }],
            Endpoint::Other => Seq::empty(),
        }),
        publishers(Seq::empty()).len() == 0,
        published(member, Seq::empty()).len() == 0,
{
    reveal_with_fuel(publishers, 2);
    reveal_with_fuel(published, 2);
    assert(seq![element].drop_last() =~= Seq::empty());
    assert(seq![endpoint].drop_last() =~= Seq::empty());
    assert(publishers(seq![element]) =~= (match element {
        RoomElement::Member(m) => published(m.id@, m.endpoints@),
        RoomElement::Other => Seq::empty(),
    }));
    assert(published(member, seq![endpoint]) =~= (match endpoint {
        Endpoint::Publish(id) => seq![Publisher { member, endpoint: id@ }],
        Endpoint::Other => Seq::empty(),
    }));
}

/// What was found is a room with its elements, or nothing.
pub proof fn law_found_rooms_are_looked_through(found: Element)
    ensures
        found matches Element::Room(room) ==> found.publishers() == publishers(room.elements@)
            && found.room_id() == room.id@,
        found is Other ==> found.publishers().len() == 0,
{
}

/// IDs and addresses are spelled out of their parts: `play-` and a member, a
/// room and a member with a slash between them, and `local://` with a room, a
/// member and an endpoint with slashes between them.
pub proof fn law_texts_are_spelled_out(room: Seq<char>, member: Seq<char>, endpoint: Seq<char>)
    ensures
        publish_id() == seq!['p', 'u', 'b', 'l', 'i', 's', 'h'],
        play_id(member).take(5) == seq!['p', 'l', 'a', 'y', '-'],
        play_id(member).skip(5) == member,
        path(room, member).take(room.len() as int) == room,
        path(room, member)[room.len() as int] == '/',
        path(room, member).skip(room.len() as int + 1) == member,
        ({
            let uri = local_uri(room, member, endpoint);
            let m = 8 + room.len() + 1;
            let e = m + member.len() + 1;
            &&& uri.len() == e + endpoint.len()
            &&& uri.take(8) == seq!['l', 'o', 'c', 'a', 'l', ':', '/', '/']
            &&& uri.subrange(8, m - 1) == room
            &&& uri[m - 1] == '/'
            &&& uri.subrange(m as int, e - 1) == member
            &&& uri[e - 1] == '/'
            &&& uri.skip(e as int) == endpoint
        }),
{
    reveal_strlit("publish");
    reveal_strlit("play-");
    reveal_strlit("/");
    reveal_strlit("local://");
    assert(publish_id() =~= seq!['p', 'u', 'b', 'l', 'i', 's', 'h']);
    assert(play_id(member).take(5) =~= seq!['p', 'l', 'a', 'y', '-']);
    assert(play_id(member).skip(5) =~= member);
    assert(path(room, member).take(room.len() as int) =~= room);
    assert(path(room, member).skip(room.len() as int + 1) =~= member);
    let uri = local_uri(room, member, endpoint);
    let m = 8 + room.len() + 1;
    let e = m + member.len() + 1;
    assert(uri.take(8) =~= seq!['l', 'o', 'c', 'a', 'l', ':', '/', '/']);
    assert(uri.subrange(8, m - 1) =~= room);
    assert(uri.subrange(m as int, e - 1) =~= member);
    assert(uri.skip(e as int) =~= endpoint);
}

/// A new member plays a publisher under the publisher's name and at the
/// publisher's address. The publisher, found at its place in the room, plays the
/// new member under the new member's name and at the address where every test
/// member publishes.
pub proof fn law_plays_name_the_other_side(
    found: Seq<char>,
    p: Publisher,
    room: Seq<char>,
    member: Seq<char>,
)
    ensures
        plays_publisher(found, p).id == play_id(p.member),
        plays_publisher(found, p).src == local_uri(found, p.member, p.endpoint),
        plays_newcomer(found, p, room, member).parent_fid == path(found, p.member),
        plays_newcomer(found, p, room, member).play.id == play_id(member),
        plays_newcomer(found, p, room, member).play.src == local_uri(room, member, publish_id()),
{
}

/// A plan asks for the member itself, in its room, and for two endpoints for
/// each publisher of the room, in the order in which they are listed: one of the
/// member, which plays the publisher, and one beside the publisher, which plays
/// the member.
pub proof fn law_plan_connects_every_publisher(
    plan: MemberPlan,
    found: Element,
    room: Seq<char>,
    member: Seq<char>,
    i: int,
)
    requires
        is_plan_for(plan, found, room, member),
    ensures
        plan.member.parent_fid@ == room,
        plan.member.id@ == member,
        plan.member.credential@ == seq!['t', 'e', 's', 't'],
        plan.member.publish_id@ == seq!['p', 'u', 'b', 'l', 'i', 's', 'h'],
        plan.member.p2p == P2pMode::Never,
        plan.member.plays@.len() == found.publishers().len(),
        plan.others@.len() == found.publishers().len(),
        0 <= i < found.publishers().len() ==> {
            let p = found.publishers()[i];
            &&& plan.member.plays@[i].id@ == play_id(p.member)
            &&& plan.member.plays@[i].src@ == local_uri(found.room_id(), p.member, p.endpoint)
            &&& plan.others@[i].parent_fid@ == path(found.room_id(), p.member)
            &&& plan.others@[i].play.id@ == play_id(member)
            &&& plan.others@[i].play.src@ == local_uri(room, member, publish_id())
        },
{
    reveal_strlit("test");
    assert("test"@ =~= seq!['t', 'e', 's', 't']);
    law_texts_are_spelled_out(room, member, member);
    let plays = plan.member.plays@.map_values(|e: PlayEndpoint| e@);
    let others = plan.others@.map_values(|e: EndpointRequest| e@);
    assert(plays.len() == plan.member.plays@.len());
    assert(others.len() == plan.others@.len());
    if 0 <= i < found.publishers().len() {
        let p = found.publishers()[i];
        assert(plays[i] == plan.member.plays@[i]@);
        assert(others[i] == plan.others@[i]@);
        assert(plays[i] == plays_publisher(found.room_id(), p));
        assert(others[i] == plays_newcomer(found.room_id(), p, room, member));
    }
}

/// Endpoints and requests for them are known by their views.
pub proof fn law_views_tell_endpoints_apart(a: EndpointRequest, b: EndpointRequest)
    ensures
        a.play@ == b.play@ ==> a.play.id@ == b.play.id@ && a.play.src@ == b.play.src@,
        a@ == b@ ==> a.parent_fid@ == b.parent_fid@ && a.play@ == b.play@,
{
}

/// The entry that is picked for a member is the member's, and there is one if
/// the member is listed at all. No earlier one is the member's.
pub proof fn law_sid_is_the_members_own(sids: Seq<(String, String)>, member: Seq<char>, j: int)
    requires
        0 <= j < sids.len(),
        sids[j].0@ == member,
    ensures
        exists|i: int| #[trigger] is_first_sid(sids, member, i) && i <= j,
        forall|i: int| #[trigger]
            is_first_sid(sids, member, i) ==> 0 <= i <= j && sids[i].0@ == member,
    decreases j,
{
    if !is_first_sid(sids, member, j) {
        let k = choose|k: int| 0 <= k < j && (#[trigger] sids[k]).0@ == member;
        law_sid_is_the_members_own(sids, member, k);
    }
}

/// Once the new member is listed with the endpoint that it publishes at, the
/// next new member plays it at the very address, and under the very name, that
/// the members before it were given.
pub proof fn law_members_play_each_other(
    elements: Seq<RoomElement>,
    member: Member,
    room: Seq<char>,
    earlier: Publisher,
)
    requires
        member.endpoints@.len() > 0,
        member.endpoints@.last() matches Endpoint::Publish(id) && id@ == publish_id(),
    ensures
        ({
            let listed = publishers(elements.push(RoomElement::Member(member)));
            &&& publishers(elements).is_prefix_of(listed)
            &&& listed.len() > 0
            &&& listed.last() == (Publisher { member: member.id@, endpoint: publish_id() })
            &&& plays_publisher(room, listed.last()) == plays_newcomer(
                room,
                earlier,
                room,
                member.id@,
            ).play
        }),
{
    assert(elements.push(RoomElement::Member(member)).drop_last() =~= elements);
    let listed = publishers(elements.push(RoomElement::Member(member)));
    assert(listed =~= publishers(elements) + published(member.id@, member.endpoints@));
}

} // verus!
