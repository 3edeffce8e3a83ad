//! The race of the candidate servers for an answer.

use vstd::prelude::*;
use vstd::string::*;

use crate::dns::wire::{ip_views, parse_response_ips, response_ips};
use crate::error::{config_error, error_of, ErrorKind, ErrorView, ProxyError, Result};
use crate::session::DnsResponse;
use crate::text::{clone_texts, join, joined, same_text, texts};
use crate::types::{IpAddr, IpView, SocketAddr, SocketView};

verus! {

/// What an answer is for.
#[derive(Clone, Copy, Debug, PartialEq, Eq, Structural)]
pub enum QueryKind {
    /// A client asked; every answer is passed on.
    ClientQuery,
    /// The runtime dials a domain on this port; an answer must hold an address.
    DialSideResolve(u16),
}

/// The label of a kind of query.
pub open spec fn kind_label(kind: QueryKind) -> Seq<char> {
    match kind {
        QueryKind::ClientQuery => "client_query"@,
        QueryKind::DialSideResolve(_) => "dial_side_resolve"@,
    }
}

impl QueryKind {
    /// The label of the kind.
    pub fn as_str(self) -> (r: &'static str)
        ensures
            r@ == kind_label(self),
    {
        match self {
            QueryKind::ClientQuery => "client_query",
            QueryKind::DialSideResolve(_) => "dial_side_resolve",
        }
    }
}

/// The addresses as mathematical values.
pub open spec fn socket_views(addresses: Seq<SocketAddr>) -> Seq<SocketView> {
    addresses.map_values(|a: SocketAddr| a@)
}

/// The addresses on one port.
pub open spec fn on_port(ips: Seq<IpView>, port: u16) -> Seq<SocketView> {
    ips.map_values(|ip: IpView| SocketView { ip, port })
}

/// The addresses on one port.
pub fn with_port(ips: &Vec<IpAddr>, port: u16) -> (r: Vec<SocketAddr>)
    ensures
        socket_views(r@) == on_port(ip_views(ips@), port),
{
    let mut out: Vec<SocketAddr> = Vec::new();
    let ghost all = on_port(ip_views(ips@), port);
    let mut i: usize = 0;
    while i < ips.len()
        invariant
            i <= ips@.len(),
            all == on_port(ip_views(ips@), port),
            socket_views(out@) == all.take(i as int),
        decreases ips@.len() - i,
    {
        let ghost before = socket_views(out@);
        out.push(SocketAddr::new(ips[i], port));
        assert(socket_views(out@) =~= before.push(all[i as int]));
        assert(all.take(i + 1) =~= all.take(i as int).push(all[i as int]));
        i += 1;
    }
    assert(all.take(i as int) =~= all);
    out
}

/// The addresses an answer is accepted with: none are looked for in the answer to a client.
pub open spec fn accepted(kind: QueryKind, message: Seq<u8>) -> core::result::Result<
    Seq<SocketView>,
    ErrorView,
> {
    match kind {
        QueryKind::ClientQuery => Ok(seq![]),
        QueryKind::DialSideResolve(port) => match response_ips(message) {
            Ok(ips) => Ok(on_port(ips, port)),
            Err(e) => Err(e),
        },
    }
}

/// Checks an answer and takes the addresses from it.
pub fn validate_response(kind: QueryKind, message: &[u8]) -> (r: Result<Vec<SocketAddr>>)
    ensures
        match accepted(kind, message@) {
            Ok(addresses) => r matches Ok(a) && socket_views(a@) == addresses,
            Err(e) => r matches Err(err) && err@ == e,
        },
{
    match kind {
        QueryKind::ClientQuery => {
            let none: Vec<SocketAddr> = Vec::new();
            assert(socket_views(none@) =~= seq![]);
            Ok(none)
        },
        QueryKind::DialSideResolve(port) => match parse_response_ips(message) {
            Ok(ips) => Ok(with_port(&ips, port)),
            Err(err) => Err(err),
        },
    }
}

/// The outcome of asking one server.
pub type UpstreamResult = core::result::Result<DnsResponse, ProxyError>;

/// The race of the candidates: those still running, and the failures so far.
#[derive(Debug)]
pub struct CandidateRace {
    kind: QueryKind,
    query_name: String,
    candidates: Vec<String>,
    pending: Vec<String>,
    failures: Vec<String>,
    last_error: Option<ProxyError>,
}

/// A race as mathematical values.
#[verifier::ext_equal]
pub struct RaceView {
    pub kind: QueryKind,
    pub query_name: Seq<char>,
    pub candidates: Seq<Seq<char>>,
    pub pending: Seq<Seq<char>>,
    pub failures: Seq<Seq<char>>,
    pub last_error: Option<ErrorView>,
}

impl View for CandidateRace {
    type V = RaceView;

    closed spec fn view(&self) -> RaceView {
        RaceView {
            kind: self.kind,
            query_name: self.query_name@,
            candidates: texts(self.candidates@),
            pending: texts(self.pending@),
            failures: texts(self.failures@),
            last_error: match self.last_error {
                Some(err) => Some(err@),
                None => None,
            },
        }
    }
}

/// What the race does after a server was heard of.
#[derive(Debug)]
pub enum RaceStep {
    /// Others are still to be heard of.
    Wait,
    /// The server's answer is taken and the servers still running are cancelled.
    Won {
        server_tag: String,
        response: DnsResponse,
        addresses: Vec<SocketAddr>,
        cancelled: Vec<String>,
    },
    /// No server is left that could answer.
    Lost(ProxyError),
}

/// The index of the first `tag`.
pub open spec fn index_of_tag(tags: Seq<Seq<char>>, tag: Seq<char>) -> int
    decreases tags.len(),
{
    if tags.len() == 0 || tags[0] == tag {
        0
    } else {
        1 + index_of_tag(tags.drop_first(), tag)
    }
}

/// The tags without the first `tag`.
pub open spec fn without_tag(tags: Seq<Seq<char>>, tag: Seq<char>) -> Seq<Seq<char>> {
    if tags.contains(tag) {
        tags.remove(index_of_tag(tags, tag))
    } else {
        tags
    }
}

proof fn lemma_index_of_tag(tags: Seq<Seq<char>>, tag: Seq<char>, i: int)
    requires
        0 <= i < tags.len(),
        tags[i] == tag,
        forall|j: int| 0 <= j < i ==> tags[j] != tag,
    ensures
        index_of_tag(tags, tag) == i,
    decreases tags.len(),
{
    if i > 0 {
        lemma_index_of_tag(tags.drop_first(), tag, i - 1);
    }
}

/// The kind of the error with which a race fails whose last failure is of kind `kind`.
pub open spec fn aggregate_kind(kind: ErrorKind) -> ErrorKind {
    match kind {
        ErrorKind::Io | ErrorKind::Shutdown => ErrorKind::Protocol,
        other => other,
    }
}

impl RaceView {
    /// The start of a race.
    pub open spec fn started(kind: QueryKind, query_name: Seq<char>, candidates: Seq<Seq<char>>) -> RaceView {
        RaceView {
            kind,
            query_name,
            candidates,
            pending: candidates,
            failures: seq![],
            last_error: None,
        }
    }

    /// The race after `server_tag` failed with `error`.
    pub open spec fn after_failure(self, server_tag: Seq<char>, error: ErrorView) -> RaceView {
        RaceView {
            pending: without_tag(self.pending, server_tag),
            failures: self.failures.push(server_tag + ": "@ + error.message),
            last_error: Some(error),
            ..self
        }
    }

    /// The error with which the race fails when no server is left: it lists the failures in the
    /// order in which they came and has the kind of the last one.
    pub open spec fn all_failed(self) -> ErrorView {
        let failures = if self.failures.len() == 0 {
            "no upstream failure details were captured"@
        } else {
            joined(self.failures, "; "@)
        };
        let message = "all dns upstream queries failed for "@ + kind_label(self.kind) + " '"@
            + self.query_name + "' across candidates ["@ + joined(self.candidates, ","@) + "]: "@
            + failures;
        match (self.last_error, self.kind) {
            (Some(error), _) => error_of(aggregate_kind(error.kind), message),
            (None, QueryKind::DialSideResolve(_)) => error_of(ErrorKind::Resolve, message),
            (None, QueryKind::ClientQuery) => error_of(ErrorKind::Protocol, message),
        }
    }
}

/// An error of the given kind; I/O failures and shutdown become protocol errors.
pub fn proxy_error_with_kind(kind: ErrorKind, message: String) -> (r: ProxyError)
    ensures
        r@ == error_of(aggregate_kind(kind), message@),
{
    match kind {
        ErrorKind::Config => ProxyError::Config(message),
        ErrorKind::Dial => ProxyError::Dial(message),
        ErrorKind::Resolve => ProxyError::Resolve(message),
        ErrorKind::Tls => ProxyError::Tls(message),
        ErrorKind::Protocol => ProxyError::Protocol(message),
        ErrorKind::Relay => ProxyError::Relay(message),
        ErrorKind::Timeout => ProxyError::Timeout(message),
        ErrorKind::Io | ErrorKind::Shutdown => ProxyError::Protocol(message),
    }
}

impl CandidateRace {
    /// Starts a race of the candidates; without any it fails.
    pub fn start(kind: QueryKind, query_name: &str, candidates: &Vec<String>) -> (r: Result<Self>)
        ensures
            if candidates@.len() == 0 {
                r matches Err(err) && err@ == config_error(
                    "dns selection produced no upstream candidates"@,
                )
            } else {
                r matches Ok(race) && race@ == RaceView::started(
                    kind,
                    query_name@,
                    texts(candidates@),
                )
            },
    {
        if candidates.len() == 0 {
            return Err(ProxyError::config("dns selection produced no upstream candidates"));
        }
        let race = CandidateRace {
            kind,
            query_name: query_name.to_owned(),
            candidates: clone_texts(candidates),
            pending: clone_texts(candidates),
            failures: Vec::new(),
            last_error: None,
        };
        assert(race@.failures =~= seq![]);
        Ok(race)
    }

    /// Takes the result of the server `server_tag`.
    ///
    /// The first answer that is accepted wins. A failure is noted and the race goes on while other
    /// servers are running. Where there was one candidate only, its failure is the outcome;
    /// otherwise the outcome names every failure.
    pub fn on_result(&mut self, server_tag: &str, result: UpstreamResult) -> (r: RaceStep)
        requires
            old(self)@.pending.contains(server_tag@),
        ensures
            match result {
                Err(err) => failed_step(*old(self), *final(self), r, server_tag@, err@),
                Ok(response) => match accepted(old(self)@.kind, response.raw_message@) {
                    Err(e) => failed_step(*old(self), *final(self), r, server_tag@, e),
                    Ok(found) => {
                        &&& r matches RaceStep::Won {
                            server_tag: tag,
                            response: answer,
                            addresses,
                            cancelled,
                        }
                        &&& tag@ == server_tag@
                        &&& answer.raw_message@ == response.raw_message@
                        &&& socket_views(addresses@) == found
                        &&& texts(cancelled@) == without_tag(old(self)@.pending, server_tag@)
                        &&& final(self)@ == (RaceView {
                            pending: without_tag(old(self)@.pending, server_tag@),
                            ..old(self)@
                        })
                    },
                },
            },
    {
        self.retire(server_tag);
        let err = match result {
            Ok(response) => match validate_response(self.kind, response.raw_message.as_slice()) {
                Ok(addresses) => {
                    return RaceStep::Won {
                        server_tag: server_tag.to_owned(),
                        response,
                        addresses,
                        cancelled: clone_texts(&self.pending),
                    };
                },
                Err(err) => err,
            },
            Err(err) => err,
        };
        let ghost failures = self@.failures;
        let failure = server_tag.to_owned().concat(": ").concat(err.message().as_str());
        let ghost text = failure@;
        self.failures.push(failure);
        assert(self@.failures =~= failures.push(text));
        if self.candidates.len() == 1 {
            self.last_error = Some(err.clone());
            return RaceStep::Lost(err);
        }
        self.last_error = Some(err);
        if self.pending.len() == 0 {
            return RaceStep::Lost(self.all_failed());
        }
        RaceStep::Wait
    }

    /// The outcome where the servers still running will not be heard of.
    pub fn all_failed(&self) -> (r: ProxyError)
        ensures
            r@ == self@.all_failed(),
    {
        let failures = if self.failures.len() == 0 {
            "no upstream failure details were captured".to_owned()
        } else {
            join(&self.failures, "; ")
        };
        let message = "all dns upstream queries failed for ".to_owned().concat(
            self.kind.as_str(),
        ).concat(" '").concat(self.query_name.as_str()).concat("' across candidates [").concat(
            join(&self.candidates, ",").as_str(),
        ).concat("]: ").concat(failures.as_str());
        match &self.last_error {
            Some(err) => proxy_error_with_kind(err.kind(), message),
            None => match self.kind {
                QueryKind::DialSideResolve(_) => ProxyError::Resolve(message),
                QueryKind::ClientQuery => ProxyError::Protocol(message),
            },
        }
    }

    /// Takes a server off the list of those still running.
    fn retire(&mut self, server_tag: &str)
        requires
            old(self)@.pending.contains(server_tag@),
        ensures
            final(self)@ == (RaceView {
                pending: without_tag(old(self)@.pending, server_tag@),
                ..old(self)@
            }),
            final(self).candidates == old(self).candidates,
    {
        let ghost pending = self@.pending;
        let count: usize = self.pending.len();
        let mut i: usize = 0;
        while !same_text(self.pending[i].as_str(), server_tag)
            invariant
                i < self.pending@.len(),
                count == self.pending@.len(),
                self == old(self),
                pending == texts(self.pending@),
                pending.contains(server_tag@),
                forall|j: int| 0 <= j < i ==> pending[j] != server_tag@,
            decreases self.pending@.len() - i,
        {
            proof {
                let k = choose|k: int| 0 <= k < pending.len() && pending[k] == server_tag@;
                assert(pending[i as int] != server_tag@);
                assert(k > i);
            }
            i += 1;
        }
        proof {
            lemma_index_of_tag(pending, server_tag@, i as int);
        }
        self.pending.remove(i);
        assert(texts(self.pending@) =~= pending.remove(i as int));
    }
}

/// What a failure of `server_tag` does to a race.
pub open spec fn failed_step(
    before: CandidateRace,
    after: CandidateRace,
    step: RaceStep,
    server_tag: Seq<char>,
    error: ErrorView,
) -> bool {
    &&& after@ == before@.after_failure(server_tag, error)
    &&& if before@.candidates.len() == 1 {
        step matches RaceStep::Lost(err) && err@ == error
    } else if after@.pending.len() == 0 {
        step matches RaceStep::Lost(err) && err@ == after@.all_failed()
    } else {
        step is Wait
    }
}

impl RaceView {
    /// The race after these servers failed, one after the other.
    pub open spec fn after_failures(self, failed: Seq<(Seq<char>, ErrorView)>) -> RaceView
        decreases failed.len(),
    {
        if failed.len() == 0 {
            self
        } else {
            self.after_failures(failed.drop_last()).after_failure(failed.last().0, failed.last().1)
        }
    }
}

/// Whatever servers failed, the error of the race names each failure, in the order in which they
/// came, and the last one gives it its kind.
pub proof fn law_all_failed_lists_every_failure(
    race: RaceView,
    failed: Seq<(Seq<char>, ErrorView)>,
)
    ensures
        race.after_failures(failed).failures == race.failures + failed.map_values(
            |f: (Seq<char>, ErrorView)| f.0 + ": "@ + f.1.message,
        ),
        failed.len() > 0 ==> race.after_failures(failed).all_failed().kind == aggregate_kind(
            failed.last().1.kind,
        ),
        race.after_failures(failed).candidates == race.candidates,
        race.after_failures(failed).kind == race.kind,
        race.after_failures(failed).query_name == race.query_name,
    decreases failed.len(),
{
    let line = |f: (Seq<char>, ErrorView)| f.0 + ": "@ + f.1.message;
    if failed.len() == 0 {
        assert(race.failures + failed.map_values(line) =~= race.failures);
    } else {
        law_all_failed_lists_every_failure(race, failed.drop_last());
        assert(race.failures + failed.map_values(line) =~= (race.failures
            + failed.drop_last().map_values(line)).push(line(failed.last())));
    }
}

/// A server that was heard of is no longer running, and the others still are.
pub proof fn law_heard_server_is_retired(tags: Seq<Seq<char>>, tag: Seq<char>, other: Seq<char>)
    requires
        forall|i: int, j: int| 0 <= i < j < tags.len() ==> tags[i] != tags[j],
        tags.contains(tag),
    ensures
        !without_tag(tags, tag).contains(tag),
        other != tag ==> (without_tag(tags, tag).contains(other) <==> tags.contains(other)),
        without_tag(tags, tag).len() == tags.len() - 1,
{
    let i = choose|i: int| 0 <= i < tags.len() && tags[i] == tag;
    lemma_index_of_tag(tags, tag, i);
    let rest = without_tag(tags, tag);
    assert forall|j: int| 0 <= j < rest.len() implies rest[j] == tags[if j < i {
        j
    } else {
        j + 1
    }] by {}
    if tags.contains(other) && other != tag {
        let k = choose|k: int| 0 <= k < tags.len() && tags[k] == other;
        assert(rest[if k < i {
            k
        } else {
            k - 1
        }] == other);
    }
}

/// Addresses are put on a port one by one, in order, and none is left out.
pub proof fn law_every_address_is_put_on_the_port(ips: Seq<IpView>, port: u16)
    ensures
        on_port(ips, port).len() == ips.len(),
        forall|i: int|
            0 <= i < ips.len() ==> (#[trigger] on_port(ips, port)[i]).ip == ips[i] && on_port(
                ips,
                port,
            )[i].port == port,
{
}

/// A client is passed on whatever came, without a look at the addresses in it. An answer to the
/// runtime's own resolution is accepted exactly where addresses can be read off it, and gives all of
/// them on the port that is dialed.
pub proof fn law_answer_is_judged_by_its_use(port: u16, message: Seq<u8>)
    ensures
        accepted(QueryKind::ClientQuery, message) == Ok::<Seq<SocketView>, ErrorView>(Seq::empty()),
        match response_ips(message) {
            Err(e) => accepted(QueryKind::DialSideResolve(port), message) == Err::<
                Seq<SocketView>,
                ErrorView,
            >(e),
            Ok(ips) => accepted(QueryKind::DialSideResolve(port), message) matches Ok(found)
                && found.len() == ips.len() && forall|i: int|
                0 <= i < ips.len() ==> (#[trigger] found[i]).ip == ips[i] && found[i].port == port,
        },
{
}

/// A race starts with every candidate running and no failure.
pub proof fn law_race_starts_with_every_candidate(
    kind: QueryKind,
    query_name: Seq<char>,
    candidates: Seq<Seq<char>>,
)
    ensures
        ({
            let race = RaceView::started(kind, query_name, candidates);
            &&& race.kind == kind
            &&& race.query_name == query_name
            &&& race.candidates == candidates
            &&& race.pending == candidates
            &&& race.failures.len() == 0
            &&& race.last_error is None
        }),
{
}

/// A server that was heard of leaves the list of those still running, the first time it stands
/// there; the others stay in their order. A server that is not on the list changes nothing.
pub proof fn law_retiring_keeps_the_order(
    first: Seq<Seq<char>>,
    tag: Seq<char>,
    second: Seq<Seq<char>>,
)
    requires
        !first.contains(tag),
    ensures
        without_tag(first + seq![tag] + second, tag) == first + second,
        without_tag(first, tag) == first,
{
    let all = first + seq![tag] + second;
    let i = first.len() as int;
    assert(all[i] == tag);
    assert forall|j: int| 0 <= j < i implies all[j] != tag by {
        assert(all[j] == first[j]);
        assert(first.contains(first[j]));
    }
    lemma_index_of_tag(all, tag, i);
    assert(all.remove(i) =~= first + second);
}

/// A failure is noted with the server's tag in front of the error's text, behind the failures that
/// came before, and gives the race its last error; nothing else of the race changes.
pub proof fn law_failure_is_noted(race: RaceView, server_tag: Seq<char>, error: ErrorView)
    ensures
        ({
            let after = race.after_failure(server_tag, error);
            &&& after.failures == race.failures.push(server_tag + ": "@ + error.message)
            &&& after.last_error == Some(error)
            &&& after.pending == without_tag(race.pending, server_tag)
            &&& after.kind == race.kind
            &&& after.query_name == race.query_name
            &&& after.candidates == race.candidates
        }),
{
}

/// A failure is noted, and ends the race of a single candidate with that very error. Among several candidates the
/// race goes on while one of them is running, and ends with the error that lists every failure when
/// none is.
pub proof fn law_race_ends_when_none_is_running(
    before: CandidateRace,
    after: CandidateRace,
    step: RaceStep,
    server_tag: Seq<char>,
    error: ErrorView,
)
    requires
        failed_step(before, after, step, server_tag, error),
    ensures
        after@ == before@.after_failure(server_tag, error),
        !(step is Won),
        before@.candidates.len() == 1 ==> (step matches RaceStep::Lost(err) && err@ == error),
        before@.candidates.len() != 1 ==> (step is Wait <==> without_tag(
            before@.pending,
            server_tag,
        ).len() > 0),
        before@.candidates.len() != 1 && step is Lost ==> (step matches RaceStep::Lost(err)
            && err@.message == after@.all_failed().message && err@.kind == aggregate_kind(
            error.kind,
        )),
{
}

/// The error of a race has the kind of its last failure, but for I/O failures and shutdown, which
/// count as protocol errors.
pub proof fn law_kind_of_a_lost_race(kind: ErrorKind)
    ensures
        kind == ErrorKind::Io || kind == ErrorKind::Shutdown ==> aggregate_kind(kind)
            == ErrorKind::Protocol,
        kind != ErrorKind::Io && kind != ErrorKind::Shutdown ==> aggregate_kind(kind) == kind,
{
}

/// The text of a lost race names what the query was for, the name, the candidates with commas
/// between them and the failures with semicolons between them.
pub proof fn law_text_of_a_lost_race(race: RaceView)
    ensures
        race.failures.len() > 0 ==> race.all_failed().message
            == "all dns upstream queries failed for "@ + match race.kind {
            QueryKind::ClientQuery => "client_query"@,
            QueryKind::DialSideResolve(_) => "dial_side_resolve"@,
        } + " '"@ + race.query_name + "' across candidates ["@ + joined(race.candidates, ","@)
            + "]: "@ + joined(race.failures, "; "@),
        race.last_error is None ==> race.all_failed().kind == match race.kind {
            QueryKind::ClientQuery => ErrorKind::Protocol,
            QueryKind::DialSideResolve(_) => ErrorKind::Resolve,
        },
{
}

/// A list of addresses shows each of them, in order.
pub proof fn law_socket_views_show_everything(addresses: Seq<SocketAddr>)
    ensures
        socket_views(addresses).len() == addresses.len(),
        forall|i: int|
            0 <= i < addresses.len() ==> (#[trigger] socket_views(addresses)[i]).ip
                == addresses[i].ip@ && socket_views(addresses)[i].port == addresses[i].port,
{
}

} // verus!
