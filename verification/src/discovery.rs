//! The discovery stage: what the server answers to PADI and PADR.

use crate::addr::{
    is_built, AddrBuilder, LinkAddr, HW_ADDR_LEN, PACKET_BROADCAST, PACKET_UNICAST,
};
use crate::payload::{cow_bytes, cow_clone, decode_frame, EthernetPayload, Frame};
use crate::rejection::Rejection;
use crate::session::list::{Session, Sessions, SessionsView};
use crate::tags::{
    lemma_values_of_prefix, tags_model, values_of, TagModel, Tags, TAG_AC_NAME, TAG_HOST_UNIQ,
    TAG_SERVICE_NAME,
};
use std::borrow::Cow;
use vstd::prelude::*;
use vstd::slice::slice_to_vec;
use vstd::utf8::valid_utf8;

verus! {

/// Code of an Active Discovery Initiation.
pub const PADI: u8 = 0x09;

/// Code of an Active Discovery Offer.
pub const PADO: u8 = 0x07;

/// Code of an Active Discovery Request.
pub const PADR: u8 = 0x19;

/// Code of an Active Discovery Session-confirmation.
pub const PADS: u8 = 0x65;

/// The name under which this access concentrator offers itself:
/// "OBHQ Jailbreak 11.00".
pub const AC_NAME: [u8; 20] = [
    0x4f, 0x42, 0x48, 0x51, 0x20, 0x4a, 0x61, 0x69, 0x6c, 0x62,
    0x72, 0x65, 0x61, 0x6b, 0x20, 0x31, 0x31, 0x2e, 0x30, 0x30,
];

/// The protocol number of the discovery stage.
pub open spec fn discovery_protocol() -> u16 {
    0x8863
}

/// Trusted: hands out libc's constant `ETH_P_PPP_DISC`, the Ethernet
/// protocol number of PPPoE discovery, 0x8863.
#[verifier::external_body]
fn eth_p_ppp_disc() -> (r: u16)
    ensures
        r == discovery_protocol(),
{
    libc::ETH_P_PPP_DISC as u16
}

/// Trusted: `std::str::from_utf8` accepts a run of bytes exactly when it is
/// valid UTF-8.
#[verifier::external_body]
fn is_utf8(bytes: &[u8]) -> (r: bool)
    ensures
        r == valid_utf8(bytes@),
{
    std::str::from_utf8(bytes).is_ok()
}

/// What a peer asks with a PADI or PADR, in contracts.
pub ghost struct RequestView {
    pub service_name: Seq<u8>,
    pub host_uniq: Option<Seq<u8>>,
}

/// What a peer asks with a PADI or PADR: the service it names and, if it
/// sent one, the value it wants echoed.
pub struct Request<'a> {
    pub service_name: Cow<'a, [u8]>,
    pub host_uniq: Option<Cow<'a, [u8]>>,
}

impl<'a> View for Request<'a> {
    type V = RequestView;

    open spec fn view(&self) -> RequestView {
        RequestView {
            service_name: self.service_name@,
            host_uniq: match self.host_uniq {
                Some(v) => Some(v@),
                None => None,
            },
        }
    }
}

/// What a discovery frame asks, or why it is dropped. The session id must be
/// zero; there must be a Service-Name tag; the first one must be valid
/// UTF-8; there must be no second one. Of several Host-Uniq tags the last
/// one counts.
pub open spec fn check_request(f: Frame<Seq<TagModel>>) -> Result<RequestView, Rejection> {
    let names = values_of(f.payload, TAG_SERVICE_NAME);
    let uniqs = values_of(f.payload, TAG_HOST_UNIQ);
    if f.session_id != 0 {
        Err(Rejection::UnexpectedSessionId)
    } else if names.len() == 0 {
        Err(Rejection::NoServiceName)
    } else if !valid_utf8(names[0]) {
        Err(Rejection::InvalidServiceName)
    } else if names.len() > 1 {
        Err(Rejection::MultipleServiceName)
    } else {
        Ok(
            RequestView {
                service_name: names[0],
                host_uniq: if uniqs.len() > 0 {
                    Some(uniqs.last())
                } else {
                    None
                },
            },
        )
    }
}

/// A frame with two or more Service-Name tags is dropped, whatever the tags hold.
pub proof fn lemma_two_service_names_rejected(f: Frame<Seq<TagModel>>)
    requires
        values_of(f.payload, TAG_SERVICE_NAME).len() >= 2,
    ensures
        check_request(f) is Err,
{
}

/// Reads what a discovery frame asks.
pub fn parse_request<'a>(data: &EthernetPayload<Tags<'a>>) -> (r: Result<
    Request<'a>,
    Rejection,
>)
    ensures
        match r {
            Ok(q) => check_request(data@.model()) == Ok::<RequestView, Rejection>(q@),
            Err(e) => check_request(data@.model()) == Err::<RequestView, Rejection>(e),
        },
{
    if data.session_id() != 0x0000 {
        return Err(Rejection::UnexpectedSessionId);
    }
    // Process tags.
    let tags = data.payload();
    let ghost all = tags_model(tags@);
    let mut sn: Option<Cow<'a, [u8]>> = None;  // Service-Name
    let mut hu: Option<Cow<'a, [u8]>> = None;  // Host-Uniq
    let mut i: usize = 0;
    assert(all.take(0) =~= Seq::<TagModel>::empty());
    while i < tags.len()
        invariant
            i <= tags.len(),
            all == tags_model(tags@),
            all == data@.model().payload,
            data@.session_id == 0,
            match sn {
                Some(v) => values_of(all.take(i as int), TAG_SERVICE_NAME) == seq![v@]
                    && valid_utf8(v@),
                None => values_of(all.take(i as int), TAG_SERVICE_NAME).len() == 0,
            },
            match hu {
                Some(v) => values_of(all.take(i as int), TAG_HOST_UNIQ).len() > 0 && values_of(
                    all.take(i as int),
                    TAG_HOST_UNIQ,
                ).last() == v@,
                None => values_of(all.take(i as int), TAG_HOST_UNIQ).len() == 0,
            },
        decreases tags.len() - i,
    {
        let t: u16 = tags[i].0;
        let v: &Cow<'a, [u8]> = &tags[i].1;
        proof {
            assert(all.take(i + 1).drop_last() =~= all.take(i as int));
            assert(all.take(i + 1).last() == (t, v@));
            lemma_values_of_prefix(all, i + 1, TAG_SERVICE_NAME);
            if t == TAG_SERVICE_NAME {
                let seen = values_of(all.take(i + 1), TAG_SERVICE_NAME);
                assert(seen == values_of(all.take(i as int), TAG_SERVICE_NAME).push(v@));
                assert(seen[0] == values_of(all, TAG_SERVICE_NAME)[0]);
            }
        }
        if t == TAG_SERVICE_NAME {
            if sn.is_some() {
                return Err(Rejection::MultipleServiceName);
            }
            if !is_utf8(cow_bytes(v)) {
                return Err(Rejection::InvalidServiceName);
            }
            sn = Some(cow_clone(v));
        } else if t == TAG_HOST_UNIQ {
            hu = Some(cow_clone(v));
        }
        i += 1;
    }
    assert(all.take(i as int) =~= all);
    // Check Service-Name tag.
    match sn {
        Some(v) => Ok(Request { service_name: v, host_uniq: hu }),
        None => Err(Rejection::NoServiceName),
    }
}

/// The tags that answer a request: its Service-Name, then its Host-Uniq if
/// it has one.
pub open spec fn echo(q: RequestView) -> Seq<TagModel> {
    seq![(TAG_SERVICE_NAME, q.service_name)] + match q.host_uniq {
        Some(h) => seq![(TAG_HOST_UNIQ, h)],
        None => Seq::empty(),
    }
}

/// The PADO that answers a PADI: the AC-Name, then the echo of the request,
/// with session id zero.
pub open spec fn offer(q: RequestView) -> Frame<Seq<TagModel>> {
    Frame { code: PADO, session_id: 0, payload: seq![(TAG_AC_NAME, AC_NAME@)] + echo(q) }
}

/// The PADS that answers a PADR: the echo of the request, with the id of
/// the new session.
pub open spec fn confirmation(q: RequestView, id: u16) -> Frame<Seq<TagModel>> {
    Frame { code: PADS, session_id: id, payload: echo(q) }
}

/// Appends the echo of a request to `tags`.
fn push_echo<'a>(tags: &mut Tags<'a>, q: Request<'a>)
    ensures
        tags_model(final(tags)@) == tags_model(old(tags)@) + echo(q@),
{
    tags.push((TAG_SERVICE_NAME, q.service_name));
    if let Some(hu) = q.host_uniq {
        tags.push((TAG_HOST_UNIQ, hu));
    }
    assert(tags_model(tags@) =~= tags_model(old(tags)@) + echo(q@));
}

/// What the engine asks its caller to do with a frame, in contracts.
pub ghost enum ActionView {
    Ignore(Rejection),
    Offer { to: LinkAddr, pado: Frame<Seq<TagModel>> },
    Confirm { to: LinkAddr, pads: Frame<Seq<TagModel>>, session: u16 },
}

/// What the engine asks its caller to do with a frame.
pub enum Action<'a> {
    /// Drop the frame and go on.
    Ignore(Rejection),
    /// Send the PADO `pado` to `to`.
    Offer { to: LinkAddr, pado: EthernetPayload<Tags<'a>> },
    /// Send the PADS `pads` to `to`; once it is sent, run `session`, and if
    /// it cannot be sent, end `session`.
    Confirm { to: LinkAddr, pads: EthernetPayload<Tags<'a>>, session: Session },
}

impl<'a> View for Action<'a> {
    type V = ActionView;

    open spec fn view(&self) -> ActionView {
        match self {
            Action::Ignore(e) => ActionView::Ignore(*e),
            Action::Offer { to, pado } => ActionView::Offer { to: *to, pado: pado@.model() },
            Action::Confirm { to, pads, session } => ActionView::Confirm {
                to: *to,
                pads: pads@.model(),
                session: session@,
            },
        }
    }
}

/// Whether `r` is what a PADI `f` from `peer` is answered with: the offer
/// for what it asks, addressed to `peer`, or nothing if it is dropped.
pub open spec fn padi_answer(
    interface: i32,
    peer: Seq<u8>,
    f: Frame<Seq<TagModel>>,
    r: ActionView,
) -> bool {
    match check_request(f) {
        Err(e) => r == ActionView::Ignore(e),
        Ok(q) => r matches ActionView::Offer { to, pado } && pado == offer(q) && is_built(
            interface,
            discovery_protocol(),
            Some(peer),
            to,
        ),
    }
}

/// Whether `r` and the table `after` are what a PADR `f` from `peer` leads
/// to: a new session under the table's next id with the confirmation for
/// it, addressed to `peer`; or, if the frame is dropped or no id is left,
/// nothing, with the table as it was.
pub open spec fn padr_answer<H>(
    interface: i32,
    peer: Seq<u8>,
    f: Frame<Seq<TagModel>>,
    before: SessionsView<H>,
    handle: H,
    r: ActionView,
    after: SessionsView<H>,
) -> bool {
    match check_request(f) {
        Err(e) => r == ActionView::Ignore(e) && after == before,
        Ok(q) => match before.next_id() {
            None => r == ActionView::Ignore(Rejection::NoSessionLeft) && after == before,
            Some(id) => r matches ActionView::Confirm { to, pads, session } && pads
                == confirmation(q, id) && session == id && after == before.spawn(handle)
                && is_built(interface, discovery_protocol(), Some(peer), to),
        },
    }
}

/// Whether a frame that came with `pkt_type` is a PADR that is not dropped
/// for what it holds, so that a session is due.
pub open spec fn asks_session(pkt_type: u8, data: Seq<u8>) -> bool {
    pkt_type == PACKET_UNICAST && match decode_frame::<Tags>(data) {
        Some(f) => f.code == PADR && check_request(f) is Ok,
        None => false,
    }
}

/// Whether `r` and the table `after` are what the frame `data` from the
/// address `from` leads to. Bytes that are no frame are dropped. A unicast
/// frame is served if it is a PADR, a broadcast frame if it is a PADI; other
/// codes and other packet types are dropped.
pub open spec fn answered<H>(
    interface: i32,
    from: LinkAddr,
    data: Seq<u8>,
    before: SessionsView<H>,
    handle: H,
    r: ActionView,
    after: SessionsView<H>,
) -> bool {
    let peer = from.addr@.take(HW_ADDR_LEN as int);
    match decode_frame::<Tags>(data) {
        None => r == ActionView::Ignore(Rejection::Malformed) && after == before,
        Some(f) => if from.pkttype == PACKET_UNICAST {
            if f.code == PADR {
                padr_answer(interface, peer, f, before, handle, r, after)
            } else {
                r == ActionView::Ignore(Rejection::UnexpectedCode(f.code)) && after == before
            }
        } else if from.pkttype == PACKET_BROADCAST {
            if f.code == PADI {
                padi_answer(interface, peer, f, r) && after == before
            } else {
                r == ActionView::Ignore(Rejection::UnexpectedCode(f.code)) && after == before
            }
        } else {
            r == ActionView::Ignore(Rejection::UnexpectedPacketType) && after == before
        },
    }
}

/// A PADI or PADR with two or more Service-Name tags gets no reply and no
/// session, whatever the tags hold.
pub proof fn lemma_two_service_names_ignored<H>(
    interface: i32,
    from: LinkAddr,
    data: Seq<u8>,
    before: SessionsView<H>,
    handle: H,
    r: ActionView,
    after: SessionsView<H>,
)
    requires
        decode_frame::<Tags>(data) matches Some(f) && values_of(f.payload, TAG_SERVICE_NAME).len()
            >= 2,
        answered(interface, from, data, before, handle, r, after),
    ensures
        r is Ignore,
        after == before,
{
}

/// Server for the PPPoE discovery stage.
pub struct DiscoveryServer {
    ab: AddrBuilder,
}

impl View for DiscoveryServer {
    type V = i32;

    /// The index of the interface that the server answers on.
    closed spec fn view(&self) -> i32 {
        self.ab@
    }
}

impl DiscoveryServer {
    /// A server that answers on the interface of `ab`.
    pub fn new(ab: AddrBuilder) -> (r: Self)
        ensures
            r@ == ab@,
    {
        Self { ab }
    }

    /// Answers a PADI that came from `addr`.
    pub fn parse_padi<'a>(&self, addr: [u8; 6], data: &EthernetPayload<Tags<'a>>) -> (r: Action<
        'a,
    >)
        ensures
            padi_answer(self@, addr@, data@.model(), r@),
    {
        let q = match parse_request(data) {
            Ok(q) => q,
            Err(e) => {
                return Action::Ignore(e);
            },
        };
        // Send PPPoE Active Discovery Offer (PADO) packet.
        let mut tags: Tags<'a> = Vec::new();
        tags.push((TAG_AC_NAME, Cow::Owned(slice_to_vec(AC_NAME.as_slice()))));
        let mut pado = EthernetPayload::new(PADO, 0x0000, tags);
        push_echo(pado.payload_mut(), q);
        assert(pado@.model().payload =~= offer(q@).payload);
        Action::Offer { to: self.ab.build(eth_p_ppp_disc(), Some(addr)), pado }
    }

    /// Answers a PADR that came from `addr`, with a new session in
    /// `sessions` registered with `handle`.
    pub fn parse_padr<'a, H>(
        &self,
        addr: [u8; 6],
        data: &EthernetPayload<Tags<'a>>,
        sessions: &mut Sessions<H>,
        handle: H,
    ) -> (r: Action<'a>)
        requires
            old(sessions)@.wf(),
            check_request(data@.model()) is Ok ==> old(sessions)@.next_id_unused(),
        ensures
            padr_answer(self@, addr@, data@.model(), old(sessions)@, handle, r@, final(sessions)@),
            final(sessions)@.wf(),
    {
        let q = match parse_request(data) {
            Ok(q) => q,
            Err(e) => {
                return Action::Ignore(e);
            },
        };
        // Spawn a session.
        let session = match sessions.spawn(handle) {
            Some(v) => v,
            None => {
                return Action::Ignore(Rejection::NoSessionLeft);
            },
        };
        // Send PPPoE Active Discovery Session-confirmation (PADS) packet.
        let tags: Tags<'a> = Vec::new();
        let mut pads = EthernetPayload::new(PADS, session.id(), tags);
        push_echo(pads.payload_mut(), q);
        assert(pads@.model().payload =~= confirmation(q@, session@).payload);
        Action::Confirm { to: self.ab.build(eth_p_ppp_disc(), Some(addr)), pads, session }
    }

    /// Whether a frame that came with `pkt_type` asks for a session.
    pub fn asks_session(pkt_type: u8, frame: &[u8]) -> (r: bool)
        ensures
            r == asks_session(pkt_type, frame@),
    {
        if pkt_type != PACKET_UNICAST {
            return false;
        }
        match EthernetPayload::<Tags>::deserialize(frame) {
            Some(data) => data.code() == PADR && parse_request(&data).is_ok(),
            None => false,
        }
    }

    /// Decides what to do with the frame `frame` that came from `from`.
    pub fn handle<'a, H>(
        &self,
        from: &LinkAddr,
        frame: &'a [u8],
        sessions: &mut Sessions<H>,
        handle: H,
    ) -> (r: Action<'a>)
        requires
            from.halen == HW_ADDR_LEN,
            old(sessions)@.wf(),
            asks_session(from.pkttype, frame@) ==> old(sessions)@.next_id_unused(),
        ensures
            answered(self@, *from, frame@, old(sessions)@, handle, r@, final(sessions)@),
            final(sessions)@.wf(),
    {
        // Get source address.
        let ty: u8 = from.pkttype;
        let addr = from.hw_addr();
        // Deserialize the payload.
        let data = match EthernetPayload::<Tags>::deserialize(frame) {
            Some(v) => v,
            None => {
                return Action::Ignore(Rejection::Malformed);
            },
        };
        // Process the payload.
        if ty == PACKET_UNICAST {
            if data.code() == PADR {
                self.parse_padr(addr, &data, sessions, handle)
            } else {
                Action::Ignore(Rejection::UnexpectedCode(data.code()))
            }
        } else if ty == PACKET_BROADCAST {
            if data.code() == PADI {
                self.parse_padi(addr, &data)
            } else {
                Action::Ignore(Rejection::UnexpectedCode(data.code()))
            }
        } else {
            Action::Ignore(Rejection::UnexpectedPacketType)
        }
    }
}

} // verus!
