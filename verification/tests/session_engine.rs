use pppoe::addr::LinkAddr;
use pppoe::payload::EthernetPayload;
use pppoe::rejection::Rejection;
use pppoe::session::SessionServer;
use std::borrow::Cow;

fn raw(value: &[u8]) -> Cow<'static, [u8]> {
    Cow::Owned(value.to_vec())
}

fn peer(pkttype: u8) -> LinkAddr {
    LinkAddr {
        family: 17,
        protocol: [0x88, 0x64],
        ifindex: 4,
        hatype: 1,
        pkttype,
        halen: 6,
        addr: [2, 0, 0, 0, 0, 1, 0, 0],
    }
}

#[test]
fn session_data_is_accepted() {
    let bytes = EthernetPayload::new(0x00, 1, raw(&[0xc0, 0x21])).serialize();
    let data = SessionServer::new().handle(&peer(0), &bytes).ok().unwrap();
    assert_eq!(data.code(), 0x00);
    assert_eq!(data.session_id(), 1);
    assert_eq!(data.payload(), &raw(&[0xc0, 0x21]));
}

#[test]
fn session_frame_with_another_code_is_ignored() {
    let bytes = EthernetPayload::new(0x01, 1, raw(&[0xc0, 0x21])).serialize();
    assert_eq!(
        SessionServer::new().handle(&peer(0), &bytes).err(),
        Some(Rejection::UnexpectedCode(0x01))
    );
    let bytes = EthernetPayload::new(0x65, 1, raw(&[])).serialize();
    assert_eq!(
        SessionServer::new().handle(&peer(0), &bytes).err(),
        Some(Rejection::UnexpectedCode(0x65))
    );
}

#[test]
fn session_frame_that_is_not_unicast_is_ignored() {
    let bytes = EthernetPayload::new(0x00, 1, raw(&[1])).serialize();
    for ty in [1u8, 2, 4] {
        assert_eq!(
            SessionServer::new().handle(&peer(ty), &bytes).err(),
            Some(Rejection::UnexpectedPacketType)
        );
        // The packet type is looked at before the bytes.
        assert_eq!(
            SessionServer::new().handle(&peer(ty), &[0x11]).err(),
            Some(Rejection::UnexpectedPacketType)
        );
    }
}

#[test]
fn session_bytes_that_are_no_frame_are_ignored() {
    let server = SessionServer::new();
    assert_eq!(server.handle(&peer(0), &[]).err(), Some(Rejection::Malformed));
    assert_eq!(
        server.handle(&peer(0), &[0x12, 0x00, 0, 1, 0, 0]).err(),
        Some(Rejection::Malformed)
    );
    assert_eq!(
        server.handle(&peer(0), &[0x11, 0x00, 0, 1, 0, 2, 9]).err(),
        Some(Rejection::Malformed)
    );
}
