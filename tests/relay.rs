use relay::client::{handler as session_handler, Session, SessionAction, SessionEvent};
use relay::directory::{AuthorPolicy, Directory, Outbound};
use relay::error::Error;
use relay::message::{Author, IceCandidate, Sdp, WireMessage};
use relay::orchestrator::{handler, Envelope, Post, RelayMessage};
use relay::registry::{Delivery, Registry};

fn sorted(mut v: Vec<u64>) -> Vec<u64> {
    v.sort();
    v
}

fn three_sessions() -> Registry<&'static str> {
    let mut r = Registry::new();
    assert_eq!(r.register("a"), Some(0));
    assert_eq!(r.register("b"), Some(1));
    assert_eq!(r.register("c"), Some(2));
    r
}

fn sdp() -> Sdp {
    Sdp { kind: "offer".to_string(), sdp: "v=0".to_string() }
}

#[test]
fn registration_ids_are_sequential() {
    let mut r: Registry<u32> = Registry::new();
    for n in 0..50u64 {
        assert_eq!(r.register(n as u32), Some(n));
    }
    assert_eq!(sorted(r.ids()), (0..50).collect::<Vec<u64>>());
}

#[test]
fn ids_are_never_reused() {
    let mut r: Registry<()> = Registry::new();
    assert_eq!(r.register(()), Some(0));
    assert_eq!(r.register(()), Some(1));
    assert!(r.unregister(1));
    assert_eq!(r.register(()), Some(2));
    assert_eq!(sorted(r.ids()), vec![0, 2]);
}

#[test]
fn unregister_is_idempotent() {
    let mut r = three_sessions();
    assert!(r.unregister(1));
    assert!(!r.unregister(1));
    assert!(!r.unregister(42));
    assert_eq!(sorted(r.ids()), vec![0, 2]);
    assert!(!r.is_registered(1));
    assert!(r.is_registered(2));
}

#[test]
fn unicast_reaches_exactly_the_target() {
    let r = three_sessions();
    assert_eq!(r.route(0, Delivery::Unicast(2)), vec![2]);
    assert_eq!(r.route(0, Delivery::Unicast(0)), vec![0]);
    assert_eq!(r.route(0, Delivery::Unicast(7)), Vec::<u64>::new());
}

#[test]
fn broadcast_reaches_everyone_once() {
    let r = three_sessions();
    assert_eq!(sorted(r.route(0, Delivery::Broadcast)), vec![0, 1, 2]);
}

#[test]
fn exclude_self_skips_sender() {
    let r = three_sessions();
    assert_eq!(sorted(r.route(0, Delivery::ExcludeSelf)), vec![1, 2]);
}

#[test]
fn unicast_after_unregister_is_dropped() {
    let mut r = three_sessions();
    r.unregister(1);
    assert_eq!(r.route(2, Delivery::Unicast(1)), Vec::<u64>::new());
    assert_eq!(sorted(r.route(2, Delivery::Broadcast)), vec![0, 2]);
}

#[test]
fn mailbox_lookup() {
    let r = three_sessions();
    assert_eq!(r.mailbox(1), Some(&"b"));
    assert_eq!(r.mailbox(3), None);
}

#[test]
fn join_twice_is_join_once() {
    let mut d = Directory::new();
    let join = WireMessage::JoinVoiceChannel { room: "general".to_string() };
    let first = d.on_message(AuthorPolicy::ConnectionId, 4, join.clone());
    assert_eq!(
        first,
        vec![Outbound {
            mode: Delivery::Broadcast,
            message: WireMessage::JoinedVoiceChannel { room: "general".to_string(), id: 4 },
        }]
    );
    let second = d.on_message(AuthorPolicy::ConnectionId, 4, join);
    assert!(second.is_empty());
    assert!(d.is_member(4, &"general".to_string()));
    let replay = d.on_connected(9);
    let joined: Vec<&Outbound> = replay
        .iter()
        .filter(|o| matches!(o.message, WireMessage::JoinedVoiceChannel { .. }))
        .collect();
    assert_eq!(joined.len(), 1);
}

#[test]
fn leave_removes_member_and_announces() {
    let mut d = Directory::new();
    d.on_message(AuthorPolicy::ConnectionId, 1, WireMessage::JoinVoiceChannel { room: "r".to_string() });
    d.on_message(AuthorPolicy::ConnectionId, 2, WireMessage::JoinVoiceChannel { room: "r".to_string() });
    let out = d.on_message(AuthorPolicy::ConnectionId, 1, WireMessage::LeaveVoiceChannel { room: "r".to_string() });
    assert_eq!(
        out,
        vec![Outbound {
            mode: Delivery::Broadcast,
            message: WireMessage::LeftVoiceChannel { room: "r".to_string(), id: 1 },
        }]
    );
    assert!(!d.is_member(1, &"r".to_string()));
    assert!(d.is_member(2, &"r".to_string()));
}

#[test]
fn set_pubkey_broadcasts_and_replaces() {
    let mut d = Directory::new();
    let out = d.on_message(AuthorPolicy::ConnectionId, 3, WireMessage::SetPubkey { pubkey: "k1".to_string() });
    assert_eq!(
        out,
        vec![Outbound {
            mode: Delivery::Broadcast,
            message: WireMessage::PubkeySet { id: 3, pubkey: "k1".to_string() },
        }]
    );
    d.on_message(AuthorPolicy::ConnectionId, 3, WireMessage::SetPubkey { pubkey: "k2".to_string() });
    assert_eq!(d.pubkey(3), Some("k2".to_string()));
    assert_eq!(d.pubkey(4), None);
}

#[test]
fn replay_on_connect() {
    let mut d = Directory::new();
    d.on_message(AuthorPolicy::ConnectionId, 1, WireMessage::SetPubkey { pubkey: "pk1".to_string() });
    d.on_message(AuthorPolicy::ConnectionId, 2, WireMessage::JoinVoiceChannel { room: "general".to_string() });
    let out = d.on_connected(5);
    assert_eq!(out.len(), 3);
    assert_eq!(out[0], Outbound { mode: Delivery::Unicast(5), message: WireMessage::Connected { id: 5 } });
    let rest = &out[1..];
    assert_eq!(
        rest.iter()
            .filter(|o| **o
                == Outbound {
                    mode: Delivery::Unicast(5),
                    message: WireMessage::PubkeySet { id: 1, pubkey: "pk1".to_string() },
                })
            .count(),
        1
    );
    assert_eq!(
        rest.iter()
            .filter(|o| **o
                == Outbound {
                    mode: Delivery::Unicast(5),
                    message: WireMessage::JoinedVoiceChannel { room: "general".to_string(), id: 2 },
                })
            .count(),
        1
    );
}

#[test]
fn disconnect_prunes_and_announces() {
    let mut d = Directory::new();
    d.on_message(AuthorPolicy::ConnectionId, 1, WireMessage::SetPubkey { pubkey: "pk1".to_string() });
    d.on_message(AuthorPolicy::ConnectionId, 1, WireMessage::JoinVoiceChannel { room: "a".to_string() });
    d.on_message(AuthorPolicy::ConnectionId, 1, WireMessage::JoinVoiceChannel { room: "b".to_string() });
    d.on_message(AuthorPolicy::ConnectionId, 2, WireMessage::JoinVoiceChannel { room: "c".to_string() });
    let out = d.on_disconnected(1);
    assert_eq!(
        out,
        vec![
            Outbound { mode: Delivery::Broadcast, message: WireMessage::Disconnected { id: 1 } },
            Outbound {
                mode: Delivery::Broadcast,
                message: WireMessage::LeftVoiceChannel { room: "a".to_string(), id: 1 },
            },
            Outbound {
                mode: Delivery::Broadcast,
                message: WireMessage::LeftVoiceChannel { room: "b".to_string(), id: 1 },
            },
        ]
    );
    assert_eq!(d.pubkey(1), None);
    assert!(!d.is_member(1, &"a".to_string()));
    assert!(!d.is_member(1, &"b".to_string()));
    assert!(d.is_member(2, &"c".to_string()));
}

#[test]
fn chat_author_by_connection_id() {
    let mut d = Directory::new();
    let out = d.on_message(
        AuthorPolicy::ConnectionId,
        7,
        WireMessage::SendMessage { channel: "general".to_string(), content: "hi".to_string() },
    );
    assert_eq!(
        out,
        vec![Outbound {
            mode: Delivery::Broadcast,
            message: WireMessage::ReceiveMessage {
                author: Author::Id(7),
                channel: "general".to_string(),
                content: "hi".to_string(),
            },
        }]
    );
}

#[test]
fn chat_author_by_pubkey() {
    let mut d = Directory::new();
    let msg = WireMessage::SendMessage { channel: "g".to_string(), content: "x".to_string() };
    assert!(d.on_message(AuthorPolicy::Pubkey, 7, msg.clone()).is_empty());
    d.on_message(AuthorPolicy::Pubkey, 7, WireMessage::SetPubkey { pubkey: "key7".to_string() });
    let out = d.on_message(AuthorPolicy::Pubkey, 7, msg);
    assert_eq!(
        out,
        vec![Outbound {
            mode: Delivery::Broadcast,
            message: WireMessage::ReceiveMessage {
                author: Author::Pubkey("key7".to_string()),
                channel: "g".to_string(),
                content: "x".to_string(),
            },
        }]
    );
}

#[test]
fn change_status_is_broadcast() {
    let mut d = Directory::new();
    let out = d.on_message(AuthorPolicy::ConnectionId, 1, WireMessage::ChangeStatus { author: 1, afk: true });
    assert_eq!(
        out,
        vec![Outbound { mode: Delivery::Broadcast, message: WireMessage::ChangeStatus { author: 1, afk: true } }]
    );
}

#[test]
fn signaling_is_unicast_to_target() {
    let mut d = Directory::new();
    let out = d.on_message(AuthorPolicy::ConnectionId, 2, WireMessage::Answer { id: 5, data: sdp() });
    assert_eq!(
        out,
        vec![Outbound { mode: Delivery::Unicast(5), message: WireMessage::Answer { id: 2, data: sdp() } }]
    );
    let cand = IceCandidate {
        candidate: Some("candidate:1".to_string()),
        sdp_mline_index: Some(0),
        sdp_mid: None,
        username_fragment: Some("u".to_string()),
    };
    let out = d.on_message(AuthorPolicy::ConnectionId, 2, WireMessage::Candidate { id: 0, data: cand.clone() });
    assert_eq!(
        out,
        vec![Outbound { mode: Delivery::Unicast(0), message: WireMessage::Candidate { id: 2, data: cand } }]
    );
}

#[test]
fn server_kinds_from_clients_are_ignored() {
    let mut d = Directory::new();
    assert!(d.on_message(AuthorPolicy::ConnectionId, 1, WireMessage::Connected { id: 1 }).is_empty());
    assert!(d.on_message(AuthorPolicy::ConnectionId, 1, WireMessage::Disconnected { id: 3 }).is_empty());
}

fn deliveries_to(posts: &[Post], id: u64) -> Vec<WireMessage> {
    posts
        .iter()
        .filter(|p| p.targets.contains(&id))
        .filter_map(|p| match &p.message {
            Envelope::Deliver { payload, .. } => Some(payload.clone()),
            Envelope::Registered { .. } => None,
        })
        .collect()
}

#[test]
fn hub_scenario_chat_disconnect_and_offer() {
    let mut reg: Registry<u8> = Registry::new();
    let mut dir = Directory::new();
    let policy = AuthorPolicy::ConnectionId;
    for n in 0..3u8 {
        let posts = handler(&mut reg, &mut dir, policy, RelayMessage::Register(n));
        assert_eq!(posts[0], Post { targets: vec![n as u64], message: Envelope::Registered { id: n as u64 } });
    }
    let posts = handler(
        &mut reg,
        &mut dir,
        policy,
        RelayMessage::Submit {
            sender: 0,
            payload: WireMessage::SendMessage { channel: "general".to_string(), content: "hi".to_string() },
        },
    );
    let expected = WireMessage::ReceiveMessage {
        author: Author::Id(0),
        channel: "general".to_string(),
        content: "hi".to_string(),
    };
    for id in 0..3u64 {
        assert_eq!(deliveries_to(&posts, id), vec![expected.clone()]);
    }
    let posts = handler(&mut reg, &mut dir, policy, RelayMessage::Unregister { id: 1 });
    assert_eq!(deliveries_to(&posts, 0), vec![WireMessage::Disconnected { id: 1 }]);
    assert!(deliveries_to(&posts, 1).is_empty());
    let posts = handler(
        &mut reg,
        &mut dir,
        policy,
        RelayMessage::Submit { sender: 2, payload: WireMessage::Offer { id: 0, data: sdp() } },
    );
    assert_eq!(deliveries_to(&posts, 0), vec![WireMessage::Offer { id: 2, data: sdp() }]);
    assert!(deliveries_to(&posts, 1).is_empty());
    assert!(deliveries_to(&posts, 2).is_empty());
    let posts = handler(
        &mut reg,
        &mut dir,
        policy,
        RelayMessage::Submit { sender: 2, payload: WireMessage::Offer { id: 1, data: sdp() } },
    );
    assert_eq!(posts.len(), 1);
    assert!(posts[0].targets.is_empty());
}

#[test]
fn hub_replays_state_to_newcomer() {
    let mut reg: Registry<u8> = Registry::new();
    let mut dir = Directory::new();
    let policy = AuthorPolicy::ConnectionId;
    handler(&mut reg, &mut dir, policy, RelayMessage::Register(0));
    handler(&mut reg, &mut dir, policy, RelayMessage::Register(1));
    handler(&mut reg, &mut dir, policy, RelayMessage::Register(2));
    handler(&mut reg, &mut dir, policy, RelayMessage::Submit { sender: 1, payload: WireMessage::SetPubkey { pubkey: "pk1".to_string() } });
    handler(&mut reg, &mut dir, policy, RelayMessage::Submit { sender: 2, payload: WireMessage::JoinVoiceChannel { room: "general".to_string() } });
    let posts = handler(&mut reg, &mut dir, policy, RelayMessage::Register(3));
    assert_eq!(posts[0], Post { targets: vec![3], message: Envelope::Registered { id: 3 } });
    let got = deliveries_to(&posts, 3);
    assert_eq!(got.len(), 3);
    assert_eq!(got[0], WireMessage::Connected { id: 3 });
    assert!(got.contains(&WireMessage::PubkeySet { id: 1, pubkey: "pk1".to_string() }));
    assert!(got.contains(&WireMessage::JoinedVoiceChannel { room: "general".to_string(), id: 2 }));
    for other in 0..3u64 {
        assert!(deliveries_to(&posts, other).is_empty());
    }
}

#[test]
fn hub_ignores_unknown_senders_and_ids() {
    let mut reg: Registry<u8> = Registry::new();
    let mut dir = Directory::new();
    let policy = AuthorPolicy::ConnectionId;
    handler(&mut reg, &mut dir, policy, RelayMessage::Register(0));
    assert!(handler(&mut reg, &mut dir, policy, RelayMessage::Unregister { id: 9 }).is_empty());
    let posts = handler(
        &mut reg,
        &mut dir,
        policy,
        RelayMessage::Submit { sender: 9, payload: WireMessage::SetPubkey { pubkey: "x".to_string() } },
    );
    assert!(posts.is_empty());
    assert_eq!(dir.pubkey(9), None);
}

#[test]
fn session_learns_id_then_submits() {
    let mut s = Session::new();
    let hello = WireMessage::SendMessage { channel: "c".to_string(), content: "m".to_string() };
    assert_eq!(session_handler(&mut s, SessionEvent::Received(hello.clone())), SessionAction::Continue);
    assert_eq!(session_handler(&mut s, SessionEvent::Mail(Envelope::Registered { id: 4 })), SessionAction::Continue);
    assert_eq!(s.id, Some(4));
    assert_eq!(
        session_handler(&mut s, SessionEvent::Received(hello.clone())),
        SessionAction::Submit { sender: 4, payload: hello }
    );
}

#[test]
fn session_writes_deliveries_and_ignores_noise() {
    let mut s = Session::new();
    session_handler(&mut s, SessionEvent::Mail(Envelope::Registered { id: 1 }));
    let m = WireMessage::Connected { id: 1 };
    assert_eq!(
        session_handler(
            &mut s,
            SessionEvent::Mail(Envelope::Deliver { sender: 1, mode: Delivery::Unicast(1), payload: m.clone() })
        ),
        SessionAction::Write(m)
    );
    assert_eq!(session_handler(&mut s, SessionEvent::Malformed), SessionAction::Continue);
    assert_eq!(session_handler(&mut s, SessionEvent::Idle), SessionAction::Continue);
    assert!(s.open);
}

#[test]
fn session_finishes_on_close_or_write_failure() {
    let mut s = Session::new();
    session_handler(&mut s, SessionEvent::Mail(Envelope::Registered { id: 6 }));
    assert_eq!(session_handler(&mut s, SessionEvent::WriteFailed), SessionAction::Finish { unregister: Some(6) });
    assert!(!s.open);
    assert_eq!(session_handler(&mut s, SessionEvent::Closed), SessionAction::Continue);
    let mut t = Session::new();
    assert_eq!(session_handler(&mut t, SessionEvent::Closed), SessionAction::Finish { unregister: None });
}

#[test]
fn io_error_maps_to_io() {
    let e = std::io::Error::new(std::io::ErrorKind::Other, "boom");
    assert_eq!(Error::from(e), Error::Io);
}

#[test]
fn websocket_error_maps_to_tungstenite() {
    assert_eq!(Error::from(tungstenite::Error::ConnectionClosed), Error::Tungstenite);
    assert_eq!(Error::from(tungstenite::Error::AlreadyClosed), Error::Tungstenite);
}

#[test]
fn registrations_interleaved_with_removals_keep_counting() {
    let mut r: Registry<()> = Registry::new();
    let mut issued = Vec::new();
    for round in 0..10u64 {
        issued.push(r.register(()).unwrap());
        issued.push(r.register(()).unwrap());
        assert!(r.unregister(2 * round));
    }
    assert_eq!(issued, (0..20).collect::<Vec<u64>>());
    assert_eq!(sorted(r.ids()), (0..10).map(|k| 2 * k + 1).collect::<Vec<u64>>());
}
