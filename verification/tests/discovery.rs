use pppoe::addr::{AddrBuilder, LinkAddr};
use pppoe::discovery::{parse_request, Action, DiscoveryServer, AC_NAME};
use pppoe::payload::EthernetPayload;
use pppoe::rejection::Rejection;
use pppoe::session::list::Sessions;
use pppoe::tags::Tags;
use std::borrow::Cow;

const PEER: [u8; 6] = [0x02, 0x00, 0x5e, 0x10, 0x20, 0x30];

fn from(pkttype: u8) -> LinkAddr {
    LinkAddr {
        family: 17,
        protocol: [0x88, 0x63],
        ifindex: 4,
        hatype: 1,
        pkttype,
        halen: 6,
        addr: [PEER[0], PEER[1], PEER[2], PEER[3], PEER[4], PEER[5], 0, 0],
    }
}

fn tag(ty: u16, value: &[u8]) -> (u16, Cow<'static, [u8]>) {
    (ty, Cow::Owned(value.to_vec()))
}

fn frame(code: u8, session_id: u16, tags: Tags) -> Vec<u8> {
    EthernetPayload::new(code, session_id, tags).serialize()
}

fn server() -> DiscoveryServer {
    DiscoveryServer::new(AddrBuilder::new(4))
}

fn run<'a>(pkttype: u8, bytes: &'a [u8], table: &mut Sessions<u8>) -> Action<'a> {
    assert!(!DiscoveryServer::asks_session(pkttype, bytes) || table.next_id_unused());
    server().handle(&from(pkttype), bytes, table, 0)
}

fn rejection(a: Action) -> Rejection {
    match a {
        Action::Ignore(e) => e,
        _ => panic!("the frame was answered"),
    }
}

fn assert_to_peer(to: &LinkAddr) {
    assert_eq!(to.family, 17);
    assert_eq!(to.protocol, [0x88, 0x63]);
    assert_eq!(to.ifindex, 4);
    assert_eq!(to.pkttype, 0);
    assert_eq!(to.halen, 6);
    assert_eq!(to.addr, [0x02, 0x00, 0x5e, 0x10, 0x20, 0x30, 0, 0]);
}

#[test]
fn ac_name_is_the_advertised_text() {
    assert_eq!(&AC_NAME[..], "OBHQ Jailbreak 11.00".as_bytes());
}

#[test]
fn padi_with_service_name_yields_pado() {
    let mut table = Sessions::new();
    let bytes = frame(0x09, 0, vec![tag(0x0101, b"svc")]);
    match run(1, &bytes, &mut table) {
        Action::Offer { to, pado } => {
            assert_to_peer(&to);
            assert_eq!(pado.code(), 0x07);
            assert_eq!(pado.session_id(), 0x0000);
            assert_eq!(
                pado.payload(),
                &vec![
                    tag(0x0102, b"OBHQ Jailbreak 11.00"),
                    tag(0x0101, b"svc")
                ]
            );
            assert!(pado.payload().iter().all(|t| t.0 != 0x0103));
            let mut want = vec![0x11, 0x07, 0x00, 0x00, 0x00, 31, 0x01, 0x02, 0x00, 20];
            want.extend_from_slice(b"OBHQ Jailbreak 11.00");
            want.extend_from_slice(&[0x01, 0x01, 0x00, 0x03, b's', b'v', b'c']);
            assert_eq!(pado.serialize(), want);
        }
        _ => panic!("no offer"),
    }
    assert!(!table.is_active(1));
}

#[test]
fn padi_with_host_uniq_echoes_it_last() {
    let mut table = Sessions::new();
    let bytes = frame(
        0x09,
        0,
        vec![tag(0x0103, &[0xde, 0xad]), tag(0x0101, b"svc")],
    );
    match run(1, &bytes, &mut table) {
        Action::Offer { pado, .. } => assert_eq!(
            pado.payload(),
            &vec![
                tag(0x0102, b"OBHQ Jailbreak 11.00"),
                tag(0x0101, b"svc"),
                tag(0x0103, &[0xde, 0xad])
            ]
        ),
        _ => panic!("no offer"),
    }
}

#[test]
fn padr_with_service_name_and_host_uniq_yields_pads() {
    let mut table = Sessions::new();
    let bytes = frame(
        0x19,
        0,
        vec![tag(0x0101, b"svc"), tag(0x0103, &[0xde, 0xad])],
    );
    assert!(DiscoveryServer::asks_session(0, &bytes));
    match run(0, &bytes, &mut table) {
        Action::Confirm { to, pads, session } => {
            assert_to_peer(&to);
            assert_ne!(session.id(), 0);
            assert_eq!(session.id(), 1);
            assert!(table.is_active(session.id()));
            assert_eq!(pads.code(), 0x65);
            assert_eq!(pads.session_id(), session.id());
            assert_eq!(
                pads.payload(),
                &vec![tag(0x0101, b"svc"), tag(0x0103, &[0xde, 0xad])]
            );
            assert_eq!(
                pads.serialize(),
                vec![
                    0x11, 0x65, 0x00, 0x01, 0x00, 13, 0x01, 0x01, 0x00, 0x03, b's', b'v', b'c',
                    0x01, 0x03, 0x00, 0x02, 0xde, 0xad
                ]
            );
        }
        _ => panic!("no confirmation"),
    }
}

#[test]
fn each_padr_gets_a_fresh_session() {
    let mut table = Sessions::new();
    let bytes = frame(0x19, 0, vec![tag(0x0101, &[])]);
    let mut ids = Vec::new();
    for _ in 0..3 {
        match run(0, &bytes, &mut table) {
            Action::Confirm { pads, session, .. } => {
                assert_eq!(pads.session_id(), session.id());
                assert_eq!(pads.payload(), &vec![tag(0x0101, &[])]);
                ids.push(session.id());
            }
            _ => panic!("no confirmation"),
        }
    }
    assert_eq!(ids, vec![1, 2, 3]);
    table.free(2);
    match run(0, &bytes, &mut table) {
        Action::Confirm { session, .. } => assert_eq!(session.id(), 2),
        _ => panic!("no confirmation"),
    }
}

#[test]
fn padi_with_session_id_is_rejected() {
    let mut table = Sessions::new();
    let bytes = frame(0x09, 0x0001, vec![tag(0x0101, b"svc")]);
    assert_eq!(rejection(run(1, &bytes, &mut table)), Rejection::UnexpectedSessionId);
}

#[test]
fn padr_with_session_id_is_rejected_and_takes_no_session() {
    let mut table = Sessions::new();
    let bytes = frame(0x19, 0x0001, vec![tag(0x0101, b"svc")]);
    assert!(!DiscoveryServer::asks_session(0, &bytes));
    assert_eq!(rejection(run(0, &bytes, &mut table)), Rejection::UnexpectedSessionId);
    assert!(!table.is_active(1));
}

#[test]
fn two_service_names_are_rejected() {
    let mut table = Sessions::new();
    for code_and_type in [(0x09u8, 1u8), (0x19, 0)] {
        let bytes = frame(
            code_and_type.0,
            0,
            vec![tag(0x0101, b"svc"), tag(0x0101, b"svc")],
        );
        assert_eq!(
            rejection(run(code_and_type.1, &bytes, &mut table)),
            Rejection::MultipleServiceName
        );
        let bytes = frame(
            code_and_type.0,
            0,
            vec![tag(0x0101, &[]), tag(0x0103, &[1]), tag(0x0101, &[0xff])],
        );
        assert_eq!(
            rejection(run(code_and_type.1, &bytes, &mut table)),
            Rejection::MultipleServiceName
        );
    }
    assert!(!table.is_active(1));
}

#[test]
fn service_name_that_is_not_utf8_is_rejected() {
    let mut table = Sessions::new();
    for name in [vec![0xffu8], vec![b'a', 0xc3], vec![0xed, 0xa0, 0x80], vec![0xc0, 0x80]] {
        let bytes = frame(0x09, 0, vec![tag(0x0101, &name)]);
        assert_eq!(rejection(run(1, &bytes, &mut table)), Rejection::InvalidServiceName);
    }
    // The first name decides, also when a second one follows.
    let bytes = frame(0x19, 0, vec![tag(0x0101, &[0xff]), tag(0x0101, b"svc")]);
    assert_eq!(rejection(run(0, &bytes, &mut table)), Rejection::InvalidServiceName);
    let bytes = frame(0x09, 0, vec![tag(0x0101, "sérvice ✓".as_bytes())]);
    assert!(matches!(run(1, &bytes, &mut table), Action::Offer { .. }));
}

#[test]
fn missing_service_name_is_rejected() {
    let mut table = Sessions::new();
    let bytes = frame(0x09, 0, Vec::new());
    assert_eq!(rejection(run(1, &bytes, &mut table)), Rejection::NoServiceName);
    let bytes = frame(0x19, 0, vec![tag(0x0103, &[1]), tag(0x0102, b"svc")]);
    assert_eq!(rejection(run(0, &bytes, &mut table)), Rejection::NoServiceName);
}

#[test]
fn last_host_uniq_is_echoed() {
    let data = EthernetPayload::new(
        0x09,
        0,
        vec![
            tag(0x0103, &[1]),
            tag(0x0101, b"a"),
            tag(0x0110, &[7]),
            tag(0x0103, &[2, 3]),
        ],
    );
    let q = parse_request(&data).unwrap();
    assert_eq!(q.service_name, tag(0, b"a").1);
    assert_eq!(q.host_uniq, Some(tag(0, &[2, 3]).1));
    match server().parse_padi(PEER, &data) {
        Action::Offer { pado, .. } => assert_eq!(
            pado.payload(),
            &vec![
                tag(0x0102, b"OBHQ Jailbreak 11.00"),
                tag(0x0101, b"a"),
                tag(0x0103, &[2, 3])
            ]
        ),
        _ => panic!("no offer"),
    }
}

#[test]
fn parse_request_tells_each_rejection() {
    let check = |sid: u16, tags: Tags| parse_request(&EthernetPayload::new(0x09, sid, tags)).err();
    assert_eq!(check(5, Vec::new()), Some(Rejection::UnexpectedSessionId));
    assert_eq!(check(0, Vec::new()), Some(Rejection::NoServiceName));
    assert_eq!(check(0, vec![tag(0x0101, &[0x80])]), Some(Rejection::InvalidServiceName));
    assert_eq!(
        check(0, vec![tag(0x0101, &[]), tag(0x0101, &[])]),
        Some(Rejection::MultipleServiceName)
    );
    assert_eq!(check(0, vec![tag(0x0101, &[])]), None);
}

#[test]
fn codes_are_served_for_their_packet_type_only() {
    let mut table = Sessions::new();
    let padi = frame(0x09, 0, vec![tag(0x0101, b"svc")]);
    let padr = frame(0x19, 0, vec![tag(0x0101, b"svc")]);
    assert_eq!(rejection(run(0, &padi, &mut table)), Rejection::UnexpectedCode(0x09));
    assert_eq!(rejection(run(1, &padr, &mut table)), Rejection::UnexpectedCode(0x19));
    assert!(!DiscoveryServer::asks_session(1, &padr));
    let pado = frame(0x07, 0, vec![tag(0x0101, b"svc")]);
    assert_eq!(rejection(run(0, &pado, &mut table)), Rejection::UnexpectedCode(0x07));
    assert_eq!(rejection(run(1, &pado, &mut table)), Rejection::UnexpectedCode(0x07));
    for ty in [2u8, 3, 4, 255] {
        assert_eq!(rejection(run(ty, &padi, &mut table)), Rejection::UnexpectedPacketType);
        assert_eq!(rejection(run(ty, &padr, &mut table)), Rejection::UnexpectedPacketType);
    }
    assert!(!table.is_active(1));
}

#[test]
fn bytes_that_are_no_frame_are_dropped() {
    let mut table = Sessions::new();
    assert_eq!(rejection(run(1, &[], &mut table)), Rejection::Malformed);
    assert_eq!(rejection(run(0, &[0x11, 0x19, 0, 0, 0], &mut table)), Rejection::Malformed);
    assert_eq!(
        rejection(run(1, &[0x21, 0x09, 0, 0, 0, 0], &mut table)),
        Rejection::Malformed
    );
    // A tag that is cut short.
    assert_eq!(
        rejection(run(1, &[0x11, 0x09, 0, 0, 0, 6, 0x01, 0x01, 0, 3, b's', b'v'], &mut table)),
        Rejection::Malformed
    );
    // Bytes that are no frame are dropped before the packet type is looked at.
    assert_eq!(rejection(run(9, &[0x11], &mut table)), Rejection::Malformed);
}

#[test]
fn padr_without_a_free_id_is_dropped() {
    let mut table = Sessions::new();
    for _ in 0..65535u32 {
        assert!(table.spawn(0).is_some());
    }
    let bytes = frame(0x19, 0, vec![tag(0x0101, b"svc")]);
    assert_eq!(rejection(run(0, &bytes, &mut table)), Rejection::NoSessionLeft);
    table.free(9);
    match run(0, &bytes, &mut table) {
        Action::Confirm { pads, session, .. } => {
            assert_eq!(session.id(), 9);
            assert_eq!(pads.session_id(), 9);
        }
        _ => panic!("no confirmation"),
    }
}
