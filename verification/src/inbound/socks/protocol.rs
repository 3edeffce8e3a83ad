//! The SOCKS5 handshake, from the greeting to the reply.
//!
//! The handshake says how many bytes it wants, takes what has come, and says what to send.

use vstd::prelude::*;
use vstd::string::*;
use vstd::utf8::encode_utf8;

use crate::inbound::socks::codec::{
    connect_request, decode_greeting, decode_request, encode_method_selection, encode_reply,
    greeting_of, law_request_layout, law_request_names_its_destination, option_socket, reply_of,
    request_of, Command, ReplyCode, Request, SocksRequestView, NO_ACCEPTABLE_METHODS,
    NO_AUTHENTICATION, SOCKS_VERSION,
};
use crate::inbound::socks::error::{socks_error_text, SocksError, SocksErrorView};
use crate::types::{DestinationView, HostView, IpView, SocketAddr, SocketView};

verus! {

/// The stage a handshake is in.
#[derive(Clone, Copy, Debug, PartialEq, Eq, Structural)]
pub enum HandshakeStage {
    Greeting,
    MethodSelection,
    RequestDecode,
    RequestValidate,
}

/// The label of a stage.
pub open spec fn handshake_label(stage: HandshakeStage) -> Seq<char> {
    match stage {
        HandshakeStage::Greeting => "greeting"@,
        HandshakeStage::MethodSelection => "method_selection"@,
        HandshakeStage::RequestDecode => "request_decode"@,
        HandshakeStage::RequestValidate => "request_validate"@,
    }
}

impl HandshakeStage {
    /// The label of the stage.
    pub fn as_str(self) -> (r: &'static str)
        ensures
            r@ == handshake_label(self),
    {
        match self {
            HandshakeStage::Greeting => "greeting",
            HandshakeStage::MethodSelection => "method_selection",
            HandshakeStage::RequestDecode => "request_decode",
            HandshakeStage::RequestValidate => "request_validate",
        }
    }
}

/// A handshake that failed, with the stage it failed in.
#[derive(Debug, PartialEq, Eq)]
pub struct SocksProtocolError {
    pub stage: HandshakeStage,
    pub source: SocksError,
}

/// A failed handshake as mathematical values.
#[verifier::ext_equal]
pub struct ProtocolErrorView {
    pub stage: HandshakeStage,
    pub source: SocksErrorView,
}

impl View for SocksProtocolError {
    type V = ProtocolErrorView;

    open spec fn view(&self) -> ProtocolErrorView {
        ProtocolErrorView { stage: self.stage, source: self.source@ }
    }
}

impl SocksProtocolError {
    /// The text that describes the failure.
    pub fn message(&self) -> (r: String)
        ensures
            r@ == handshake_label(self.stage) + ": "@ + socks_error_text(self.source@),
    {
        self.stage.as_str().to_owned().concat(": ").concat(self.source.message().as_str())
    }

    /// A handshake that failed because its stream did.
    pub fn io(stage: HandshakeStage, cause: String) -> (r: Self)
        ensures
            r@ == (ProtocolErrorView { stage, source: SocksErrorView::Io(cause@) }),
    {
        SocksProtocolError { stage, source: SocksError::Io(cause) }
    }
}

/// How long the greeting is that starts with the bytes `received`, as far as they show.
pub open spec fn greeting_length(received: Seq<u8>) -> int {
    if received.len() < 2 {
        2
    } else {
        2 + received[1]
    }
}

/// How long the request is that starts with the bytes `received`, as far as they show. Behind an
/// address type that is not known two bytes are read.
pub open spec fn request_length(received: Seq<u8>) -> int {
    if received.len() < 4 {
        4
    } else if received[3] == 1 {
        10
    } else if received[3] == 4 {
        22
    } else if received[3] == 3 {
        if received.len() < 5 {
            5
        } else {
            7 + received[4]
        }
    } else {
        6
    }
}

/// The part of the handshake that is being read.
#[derive(Clone, Copy, Debug, PartialEq, Eq, Structural)]
pub enum HandshakePhase {
    ReadGreeting,
    ReadRequest,
    Finished,
}

/// A handshake.
#[derive(Debug)]
pub struct SocksHandshake {
    phase: HandshakePhase,
    received: Vec<u8>,
}

/// A handshake as mathematical values.
#[verifier::ext_equal]
pub struct HandshakeView {
    pub phase: HandshakePhase,
    pub received: Seq<u8>,
}

impl View for SocksHandshake {
    type V = HandshakeView;

    closed spec fn view(&self) -> HandshakeView {
        HandshakeView { phase: self.phase, received: self.received@ }
    }
}

impl HandshakeView {
    /// The number of bytes that have to come before the handshake goes on.
    pub open spec fn wanted(self) -> int {
        match self.phase {
            HandshakePhase::ReadGreeting => greeting_length(self.received) - self.received.len(),
            HandshakePhase::ReadRequest => request_length(self.received) - self.received.len(),
            HandshakePhase::Finished => 0,
        }
    }
}

/// What a handshake does next.
#[derive(Debug)]
pub enum HandshakeStep {
    /// Read more.
    Read,
    /// Send these bytes, then read the request.
    Select(Vec<u8>),
    /// Send these bytes; the request is granted.
    Grant { reply: Vec<u8>, request: Request },
    /// Send these bytes; the handshake has failed.
    Refuse { reply: Vec<u8>, error: SocksProtocolError },
    /// The handshake has failed and nothing is sent.
    Fail(SocksProtocolError),
}

/// The next step as mathematical values.
#[verifier::ext_equal]
pub enum StepView {
    Read,
    Select(Seq<u8>),
    Grant { reply: Seq<u8>, request: SocksRequestView },
    Refuse { reply: Seq<u8>, error: ProtocolErrorView },
    Fail(ProtocolErrorView),
}

impl View for HandshakeStep {
    type V = StepView;

    open spec fn view(&self) -> StepView {
        match self {
            HandshakeStep::Read => StepView::Read,
            HandshakeStep::Select(reply) => StepView::Select(reply@),
            HandshakeStep::Grant { reply, request } => StepView::Grant {
                reply: reply@,
                request: request@,
            },
            HandshakeStep::Refuse { reply, error } => StepView::Refuse {
                reply: reply@,
                error: error@,
            },
            HandshakeStep::Fail(error) => StepView::Fail(error@),
        }
    }
}

/// The stage in which a handshake fails whose answer cannot be sent.
pub open spec fn sending_stage(step: StepView) -> Option<HandshakeStage> {
    match step {
        StepView::Select(_) => Some(HandshakeStage::MethodSelection),
        StepView::Grant { .. } => Some(HandshakeStage::RequestValidate),
        StepView::Refuse { error, .. } => Some(error.stage),
        StepView::Read | StepView::Fail(_) => None,
    }
}

impl HandshakeStep {
    /// The stage in which the handshake fails where the bytes of this step cannot be sent; none
    /// where it sends nothing.
    pub fn write_stage(&self) -> (r: Option<HandshakeStage>)
        ensures
            r == sending_stage(self@),
    {
        match self {
            HandshakeStep::Select(_) => Some(HandshakeStage::MethodSelection),
            HandshakeStep::Grant { .. } => Some(HandshakeStage::RequestValidate),
            HandshakeStep::Refuse { error, .. } => Some(error.stage),
            HandshakeStep::Read => None,
            HandshakeStep::Fail(_) => None,
        }
    }
}

/// The answer to a whole greeting. Clients have to offer to go without authentication.
pub open spec fn answer_greeting(greeting: Seq<u8>) -> StepView {
    match greeting_of(greeting) {
        Err(e) => StepView::Fail(ProtocolErrorView { stage: HandshakeStage::Greeting, source: e }),
        Ok(methods) => if methods.contains(NO_AUTHENTICATION) {
            StepView::Select(seq![SOCKS_VERSION, NO_AUTHENTICATION])
        } else {
            StepView::Refuse {
                reply: seq![SOCKS_VERSION, NO_ACCEPTABLE_METHODS],
                error: ProtocolErrorView {
                    stage: HandshakeStage::MethodSelection,
                    source: SocksErrorView::UnsupportedAuthMethods,
                },
            }
        },
    }
}

/// The answer to a whole request: each fault has its own reply.
pub open spec fn answer_request(request: Seq<u8>, local: Option<SocketView>) -> StepView {
    match request_of(request) {
        Ok(found) => StepView::Grant {
            reply: reply_of(ReplyCode::Succeeded, local),
            request: found,
        },
        Err(e) => match e {
            SocksErrorView::UnsupportedCommand(_) => StepView::Refuse {
                reply: reply_of(ReplyCode::CommandNotSupported, None),
                error: ProtocolErrorView { stage: HandshakeStage::RequestValidate, source: e },
            },
            SocksErrorView::UnsupportedAddressType(_) => StepView::Refuse {
                reply: reply_of(ReplyCode::AddressTypeNotSupported, None),
                error: ProtocolErrorView { stage: HandshakeStage::RequestValidate, source: e },
            },
            _ => StepView::Refuse {
                reply: reply_of(ReplyCode::GeneralFailure, None),
                error: ProtocolErrorView { stage: HandshakeStage::RequestDecode, source: e },
            },
        },
    }
}

impl HandshakeView {
    /// The handshake and its next step after `bytes` have come.
    pub open spec fn advanced(self, bytes: Seq<u8>, local: Option<SocketView>) -> (
        StepView,
        HandshakeView,
    ) {
        let more = HandshakeView { received: self.received + bytes, ..self };
        if more.wanted() > 0 {
            (StepView::Read, more)
        } else {
            match self.phase {
                HandshakePhase::ReadGreeting => {
                    let step = answer_greeting(more.received);
                    (
                        step,
                        HandshakeView {
                            phase: if step is Select {
                                HandshakePhase::ReadRequest
                            } else {
                                HandshakePhase::Finished
                            },
                            received: seq![],
                        },
                    )
                },
                _ => (
                    answer_request(more.received, local),
                    HandshakeView { phase: HandshakePhase::Finished, received: seq![] },
                ),
            }
        }
    }
}

fn offers(methods: &Vec<u8>, method: u8) -> (r: bool)
    ensures
        r == methods@.contains(method),
{
    let mut i: usize = 0;
    while i < methods.len()
        invariant
            i <= methods@.len(),
            forall|j: int| 0 <= j < i ==> methods@[j] != method,
        decreases methods@.len() - i,
    {
        if methods[i] == method {
            return true;
        }
        i += 1;
    }
    false
}

impl SocksHandshake {
    /// A handshake that waits for the greeting.
    pub fn new() -> (r: Self)
        ensures
            r@ == (HandshakeView { phase: HandshakePhase::ReadGreeting, received: seq![] }),
            r@.wanted() == 2,
    {
        let r = SocksHandshake { phase: HandshakePhase::ReadGreeting, received: Vec::new() };
        assert(r@.received =~= seq![]);
        r
    }

    /// The number of bytes that have to come before the handshake goes on.
    pub fn wanted(&self) -> (r: usize)
        requires
            self@.wanted() >= 0,
        ensures
            r == self@.wanted(),
    {
        let have: usize = self.received.len();
        let need: usize = match self.phase {
            HandshakePhase::Finished => {
                return 0;
            },
            HandshakePhase::ReadGreeting => if have < 2 {
                2
            } else {
                2 + self.received[1] as usize
            },
            HandshakePhase::ReadRequest => if have < 4 {
                4
            } else if self.received[3] == 1 {
                10
            } else if self.received[3] == 4 {
                22
            } else if self.received[3] == 3 {
                if have < 5 {
                    5
                } else {
                    7 + self.received[4] as usize
                }
            } else {
                6
            },
        };
        need - have
    }

    /// The stage in which a stream that fails now fails: while the greeting or the request is
    /// read.
    pub fn read_stage(&self) -> (r: HandshakeStage)
        ensures
            r == if self@.phase is ReadGreeting {
                HandshakeStage::Greeting
            } else {
                HandshakeStage::RequestDecode
            },
    {
        match self.phase {
            HandshakePhase::ReadGreeting => HandshakeStage::Greeting,
            _ => HandshakeStage::RequestDecode,
        }
    }

    /// Takes bytes that have come, no more than are wanted. `local` is the address the connection
    /// is bound to, where it is known.
    pub fn on_bytes(&mut self, bytes: &[u8], local: Option<SocketAddr>) -> (r: HandshakeStep)
        requires
            !(old(self)@.phase is Finished),
            bytes@.len() <= old(self)@.wanted(),
        ensures
            r@ == old(self)@.advanced(bytes@, option_socket(local)).0,
            final(self)@ == old(self)@.advanced(bytes@, option_socket(local)).1,
            final(self)@.wanted() >= 0,
    {
        let ghost before = self@;
        self.received.extend_from_slice(bytes);
        let ghost more = HandshakeView { received: before.received + bytes@, ..before };
        assert(self@ =~= more);
        proof {
            lemma_wanted_stays(before, bytes@);
        }
        if self.wanted() > 0 {
            return HandshakeStep::Read;
        }
        let mut received: Vec<u8> = Vec::new();
        std::mem::swap(&mut received, &mut self.received);
        assert(received@ == more.received);
        assert(self.received@ =~= seq![]);
        match self.phase {
            HandshakePhase::ReadGreeting => {
                self.phase = HandshakePhase::Finished;
                match decode_greeting(received.as_slice()) {
                    Err(source) => HandshakeStep::Fail(
                        SocksProtocolError { stage: HandshakeStage::Greeting, source },
                    ),
                    Ok(greeting) => if offers(&greeting.methods, NO_AUTHENTICATION) {
                        self.phase = HandshakePhase::ReadRequest;
                        HandshakeStep::Select(encode_method_selection(NO_AUTHENTICATION))
                    } else {
                        HandshakeStep::Refuse {
                            reply: encode_method_selection(NO_ACCEPTABLE_METHODS),
                            error: SocksProtocolError {
                                stage: HandshakeStage::MethodSelection,
                                source: SocksError::UnsupportedAuthMethods,
                            },
                        }
                    },
                }
            },
            _ => {
                self.phase = HandshakePhase::Finished;
                match decode_request(received.as_slice()) {
                    Ok(request) => HandshakeStep::Grant {
                        reply: encode_reply(ReplyCode::Succeeded, local),
                        request,
                    },
                    Err(source) => {
                        let (code, stage) = match &source {
                            SocksError::UnsupportedCommand(_) => (
                                ReplyCode::CommandNotSupported,
                                HandshakeStage::RequestValidate,
                            ),
                            SocksError::UnsupportedAddressType(_) => (
                                ReplyCode::AddressTypeNotSupported,
                                HandshakeStage::RequestValidate,
                            ),
                            _ => (ReplyCode::GeneralFailure, HandshakeStage::RequestDecode),
                        };
                        HandshakeStep::Refuse {
                            reply: encode_reply(code, None),
                            error: SocksProtocolError { stage, source },
                        }
                    },
                }
            },
        }
    }
}

/// Taking no more than is wanted leaves the handshake waiting for what is left, or for more that
/// only now shows.
proof fn lemma_wanted_stays(before: HandshakeView, bytes: Seq<u8>)
    requires
        bytes.len() <= before.wanted(),
    ensures
        (HandshakeView { received: before.received + bytes, ..before }).wanted() >= 0,
{
    let all = before.received + bytes;
    if before.phase is ReadGreeting && before.received.len() >= 2 {
        assert(all[1] == before.received[1]);
    }
    if before.phase is ReadRequest && before.received.len() >= 4 {
        assert(all[3] == before.received[3]);
        if before.received.len() >= 5 {
            assert(all[4] == before.received[4]);
        }
    }
}

/// It does not matter in which pieces the bytes come: taking two pieces one after the other is
/// taking them at once, as long as the first does not complete what is wanted.
pub proof fn law_handshake_pieces_join(
    state: HandshakeView,
    first: Seq<u8>,
    second: Seq<u8>,
    local: Option<SocketView>,
)
    requires
        state.advanced(first, local).0 is Read,
    ensures
        state.advanced(first, local).1.advanced(second, local) == state.advanced(
            first + second,
            local,
        ),
{
    assert(state.received + first + second =~= state.received + (first + second));
}

/// A client that does not offer to go without authentication is refused, whatever else it offers,
/// and a client that does is not.
pub proof fn law_authentication_is_not_asked_for(greeting: Seq<u8>, methods: Seq<u8>)
    requires
        greeting_of(greeting) == Ok::<Seq<u8>, SocksErrorView>(methods),
    ensures
        answer_greeting(greeting) is Select <==> methods.contains(NO_AUTHENTICATION),
        answer_greeting(greeting) is Refuse <==> !methods.contains(NO_AUTHENTICATION),
{
}

/// A request that a client writes is read whole and granted. However much of it has come, the
/// handshake wants at least one more byte and never one beyond the request; with any further piece
/// short of the end it asks for more, and with the last byte it grants the destination the request
/// was written for and is finished.
pub proof fn law_request_is_read_whole_and_granted(
    destination: DestinationView,
    have: int,
    more: int,
    local: Option<SocketView>,
)
    requires
        match destination.host {
            HostView::Ip(IpView::V4(octets)) => octets.len() == 4,
            HostView::Ip(IpView::V6(octets)) => octets.len() == 16,
            HostView::Domain(domain) => 0 < encode_utf8(domain).len() <= 255,
        },
        0 <= have < connect_request(destination).len(),
        0 <= more <= connect_request(destination).len() - have,
    ensures
        ({
            let m = connect_request(destination);
            let state = HandshakeView {
                phase: HandshakePhase::ReadRequest,
                received: m.take(have),
            };
            let (step, after) = state.advanced(m.subrange(have, have + more), local);
            &&& have < request_length(m.take(have)) <= m.len()
            &&& request_length(m) == m.len()
            &&& 0 < state.wanted() <= m.len() - have
            &&& have + more < m.len() ==> step is Read && after == (HandshakeView {
                phase: HandshakePhase::ReadRequest,
                received: m.take(have + more),
            })
            &&& have + more == m.len() ==> after == (HandshakeView {
                phase: HandshakePhase::Finished,
                received: Seq::empty(),
            }) && step == (StepView::Grant {
                reply: reply_of(ReplyCode::Succeeded, local),
                request: SocksRequestView { command: Command::Connect, destination },
            })
        }),
{
    let m = connect_request(destination);
    law_request_layout(destination);
    law_request_names_its_destination(destination);
    let part = m.take(have);
    let piece = m.subrange(have, have + more);
    assert(part + piece =~= m.take(have + more));
    if have >= 4 {
        assert(part[3] == m[3]);
    }
    if have >= 5 {
        assert(part[4] == m[4]);
    }
    let joint = m.take(have + more);
    if have + more >= 4 {
        assert(joint[3] == m[3]);
    }
    if have + more >= 5 {
        assert(joint[4] == m[4]);
    }
    assert(m.take(m.len() as int) =~= m);
}

/// A greeting is read whole, and then answered: with the version and the method without
/// authentication where the client offers it, which leaves the handshake waiting for the request,
/// and otherwise with the version and the byte for no acceptable method, which ends it.
pub proof fn law_greeting_is_read_whole_and_answered(
    methods: Seq<u8>,
    have: int,
    more: int,
    local: Option<SocketView>,
)
    requires
        methods.len() <= 255,
        0 <= have,
        0 <= more,
        have + more <= 2 + methods.len(),
    ensures
        ({
            let m = seq![5u8, methods.len() as u8] + methods;
            let state = HandshakeView {
                phase: HandshakePhase::ReadGreeting,
                received: m.take(have),
            };
            let (step, after) = state.advanced(m.subrange(have, have + more), local);
            &&& have < m.len() ==> 0 < state.wanted() <= m.len() - have
            &&& have + more < m.len() ==> step is Read && after == (HandshakeView {
                phase: HandshakePhase::ReadGreeting,
                received: m.take(have + more),
            })
            &&& have + more == m.len() && methods.contains(0u8) ==> step == StepView::Select(
                seq![5u8, 0u8],
            ) && after == (HandshakeView {
                phase: HandshakePhase::ReadRequest,
                received: Seq::empty(),
            })
            &&& have + more == m.len() && !methods.contains(0u8) ==> step == (StepView::Refuse {
                reply: seq![5u8, 255u8],
                error: ProtocolErrorView {
                    stage: HandshakeStage::MethodSelection,
                    source: SocksErrorView::UnsupportedAuthMethods,
                },
            }) && after == (HandshakeView {
                phase: HandshakePhase::Finished,
                received: Seq::empty(),
            })
        }),
{
    let m = seq![5u8, methods.len() as u8] + methods;
    let part = m.take(have);
    let piece = m.subrange(have, have + more);
    let joint = m.take(have + more);
    assert(part + piece =~= joint);
    if have >= 2 {
        assert(part[1] == m[1]);
    }
    if have + more >= 2 {
        assert(joint[1] == m[1]);
    }
    assert(m.take(m.len() as int) =~= m);
    assert(m.skip(2) =~= methods);
}

/// A greeting of another version fails without an answer, once it has come as far as it says.
pub proof fn law_other_versions_are_not_greeted(greeting: Seq<u8>, local: Option<SocketView>)
    requires
        greeting.len() >= 2,
        greeting.len() == 2 + greeting[1],
        greeting[0] != 5,
    ensures
        ({
            let fresh = HandshakeView {
                phase: HandshakePhase::ReadGreeting,
                received: Seq::empty(),
            };
            let (step, after) = fresh.advanced(greeting, local);
            (step matches StepView::Fail(e) && e.stage == HandshakeStage::Greeting && e.source
                is Protocol) && after.phase is Finished
        }),
{
    assert(Seq::<u8>::empty() + greeting =~= greeting);
}

/// A request that can be read is granted with the reply that carries the local address. One that
/// cannot is refused with the reply for its fault, with no address in it: another command with the byte seven, another type of address with the
/// byte eight once two bytes behind the type have come, and everything else with the byte one.
/// Either way the handshake is over.
pub proof fn law_request_is_granted_or_refused(request: Seq<u8>, local: Option<SocketView>)
    requires
        request.len() >= 4,
    ensures
        ({
            let fresh = HandshakeView {
                phase: HandshakePhase::ReadRequest,
                received: Seq::empty(),
            };
            let (step, after) = fresh.advanced(request, local);
            let known = request[3] == 1 || request[3] == 3 || request[3] == 4;
            &&& !known ==> (step is Read <==> request.len() < 6)
            &&& !(step is Read) ==> after.phase is Finished
            &&& !(step is Read) ==> (request_of(request) matches Ok(found) ==> step == (
            StepView::Grant { reply: reply_of(ReplyCode::Succeeded, local), request: found }))
            &&& step is Read ==> after == (HandshakeView {
                phase: HandshakePhase::ReadRequest,
                received: request,
            })
            &&& !(step is Read) && request[0] != 5 ==> (step matches StepView::Refuse { reply, error }
                && reply == seq![5u8, 1u8, 0u8, 1u8, 0u8, 0u8, 0u8, 0u8, 0u8, 0u8] && error.stage
                == HandshakeStage::RequestDecode && error.source is Protocol)
            &&& !(step is Read) && request[0] == 5 && request[1] != 1 ==> (step matches
                StepView::Refuse { reply, error } && reply == seq![
                5u8,
                7u8,
                0u8,
                1u8,
                0u8,
                0u8,
                0u8,
                0u8,
                0u8,
                0u8,
            ] && error.stage == HandshakeStage::RequestValidate && error.source
                == SocksErrorView::UnsupportedCommand(request[1]))
            &&& !(step is Read) && request[0] == 5 && request[1] == 1 && !known ==> (step matches
                StepView::Refuse { reply, error } && reply == seq![
                5u8,
                8u8,
                0u8,
                1u8,
                0u8,
                0u8,
                0u8,
                0u8,
                0u8,
                0u8,
            ] && error.stage == HandshakeStage::RequestValidate && error.source
                == SocksErrorView::UnsupportedAddressType(request[3]))
            &&& !(step is Read) && request[0] == 5 && request[1] == 1 && known && request_of(
                request,
            ) is Err ==> (step matches StepView::Refuse { reply, error } && reply == seq![
                5u8,
                1u8,
                0u8,
                1u8,
                0u8,
                0u8,
                0u8,
                0u8,
                0u8,
                0u8,
            ] && error.stage == HandshakeStage::RequestDecode)
        }),
{
    assert(Seq::<u8>::empty() + request =~= request);
    assert(reply_of(ReplyCode::GeneralFailure, None) =~= seq![
        5u8,
        1u8,
        0u8,
        1u8,
        0u8,
        0u8,
        0u8,
        0u8,
        0u8,
        0u8,
    ]);
    assert(reply_of(ReplyCode::CommandNotSupported, None) =~= seq![
        5u8,
        7u8,
        0u8,
        1u8,
        0u8,
        0u8,
        0u8,
        0u8,
        0u8,
        0u8,
    ]);
    assert(reply_of(ReplyCode::AddressTypeNotSupported, None) =~= seq![
        5u8,
        8u8,
        0u8,
        1u8,
        0u8,
        0u8,
        0u8,
        0u8,
        0u8,
        0u8,
    ]);
}

/// A handshake whose answer cannot be sent fails in the stage the answer belongs to: the selection
/// of a method, the validation of a request that is granted, or the stage of the fault. A step that
/// sends nothing has no such stage.
pub proof fn law_unsent_answer_fails_in_its_stage(
    reply: Seq<u8>,
    request: SocksRequestView,
    error: ProtocolErrorView,
)
    ensures
        sending_stage(StepView::Select(reply)) == Some(HandshakeStage::MethodSelection),
        sending_stage(StepView::Grant { reply, request }) == Some(HandshakeStage::RequestValidate),
        sending_stage(StepView::Refuse { reply, error }) == Some(error.stage),
        sending_stage(StepView::Read) is None,
        sending_stage(StepView::Fail(error)) is None,
{
}

/// A request is complete once the bytes that its address needs have come: ten for an IPv4 address,
/// twenty-two for an IPv6 address, seven beside the name for a domain, and six where the type of the
/// address is not known. Until then the handshake reads on, whatever else the bytes say.
pub proof fn law_request_is_read_by_its_address(bytes: Seq<u8>, local: Option<SocketView>)
    ensures
        ({
            let state = HandshakeView { phase: HandshakePhase::ReadRequest, received: bytes };
            let fresh = HandshakeView {
                phase: HandshakePhase::ReadRequest,
                received: Seq::empty(),
            };
            let whole: int = if bytes.len() < 4 {
                4
            } else if bytes[3] == 1 {
                10
            } else if bytes[3] == 4 {
                22
            } else if bytes[3] != 3 {
                6
            } else if bytes.len() < 5 {
                5
            } else {
                7 + bytes[4]
            };
            &&& state.wanted() == whole - bytes.len()
            &&& fresh.advanced(bytes, local).0 is Read <==> bytes.len() < whole
        }),
{
    assert(Seq::<u8>::empty() + bytes =~= bytes);
}

/// A greeting is complete once the methods that it announces have come, whatever else the bytes say.
/// A finished handshake wants nothing more.
pub proof fn law_greeting_is_read_by_its_methods(bytes: Seq<u8>, local: Option<SocketView>)
    ensures
        ({
            let state = HandshakeView { phase: HandshakePhase::ReadGreeting, received: bytes };
            let fresh = HandshakeView {
                phase: HandshakePhase::ReadGreeting,
                received: Seq::empty(),
            };
            let over = HandshakeView { phase: HandshakePhase::Finished, received: bytes };
            let whole: int = if bytes.len() < 2 {
                2
            } else {
                2 + bytes[1]
            };
            &&& state.wanted() == whole - bytes.len()
            &&& fresh.advanced(bytes, local).0 is Read <==> bytes.len() < whole
            &&& over.wanted() == 0
        }),
{
    assert(Seq::<u8>::empty() + bytes =~= bytes);
}

/// A view shows every field of its value, and the stages are told apart by their labels.
pub proof fn law_handshake_views_show_everything(
    error: SocksProtocolError,
    step: HandshakeStep,
    stage: HandshakeStage,
)
    ensures
        error@.stage == error.stage,
        error@.source == error.source@,
        match step {
            HandshakeStep::Read => step@ is Read,
            HandshakeStep::Select(reply) => step@ == StepView::Select(reply@),
            HandshakeStep::Grant { reply, request } => step@ == (StepView::Grant {
                reply: reply@,
                request: request@,
            }),
            HandshakeStep::Refuse { reply, error: cause } => step@ == (StepView::Refuse {
                reply: reply@,
                error: cause@,
            }),
            HandshakeStep::Fail(cause) => step@ == StepView::Fail(cause@),
        },
        handshake_label(stage) == match stage {
            HandshakeStage::Greeting => "greeting"@,
            HandshakeStage::MethodSelection => "method_selection"@,
            HandshakeStage::RequestDecode => "request_decode"@,
            HandshakeStage::RequestValidate => "request_validate"@,
        },
{
}

} // verus!
