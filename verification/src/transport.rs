//! The orchestrator: from a request description to one exchange on the wire,
//! with failover from node to node.
//!
//! The transport itself sends nothing.  It composes the request for a node
//! ([`Transport::begin`]), is told how the attempt ended ([`Outcome`]), and
//! decides what follows ([`Transport::advance`]): the response is handed to
//! the caller, the request is tried on the next node, or the call fails.
//! Whoever drives it performs the exchange between the two calls.
//!
//! Only a node that could not be reached is tried again.  A response is
//! handed on whatever its status; a rejected certificate and an expired
//! deadline end the call at once.

use vstd::prelude::*;
use crate::auth::{basic, basic_of, credential_headers};
use crate::cert::{settings_of, TlsSettings};
use crate::config::{defect_of, ProxyView, Settings, TransportConfig};
use crate::error::{CertificateError, ErrorView, Failure, TransportError};
use crate::headers::{header_views, lemma_overlay_members, merge, overlay, Header, HeaderView};
use crate::pool::{selected, valid_node, Cursor, Node, NodeView};
use crate::request::{
    body_view, url, url_of, DescriptorView, Method, RequestDescriptor, Response, ResponseView,
};
use crate::text::copy;

verus! {

/// How a request reaches its node.
#[derive(Debug)]
pub enum Route {
    /// Straight to the node.
    Direct,
    /// Through a forward proxy: by a tunnel (`CONNECT`) to a secure node, by
    /// the absolute address to a plain one.  `authorization` is the value of
    /// the `Proxy-Authorization` header, if the proxy asks for credentials.
    Proxy { proxy: Node, tunnel: bool, authorization: Option<Vec<u8>> },
}

/// A route, as plain values.
pub enum RouteView {
    Direct,
    Proxy { proxy: NodeView, tunnel: bool, authorization: Option<Seq<u8>> },
}

impl View for Route {
    type V = RouteView;

    open spec fn view(&self) -> RouteView {
        match self {
            Route::Direct => RouteView::Direct,
            Route::Proxy { proxy, tunnel, authorization } => RouteView::Proxy {
                proxy: proxy@,
                tunnel: *tunnel,
                authorization: body_view(*authorization),
            },
        }
    }
}

/// A request as it goes on the wire to one node.
#[derive(Debug)]
pub struct OutgoingRequest {
    pub method: Method,
    pub node: Node,
    pub url: Vec<u8>,
    pub headers: Vec<Header>,
    pub body: Option<Vec<u8>>,
    /// The deadline of the exchange, in milliseconds.
    pub timeout_ms: u64,
    /// What the TLS context checks, if the node is secure.
    pub tls: Option<TlsSettings>,
    pub route: Route,
}

/// An outgoing request, as plain values.
pub struct OutgoingView {
    pub method: Method,
    pub node: NodeView,
    pub url: Seq<u8>,
    pub headers: Seq<HeaderView>,
    pub body: Option<Seq<u8>>,
    pub timeout_ms: u64,
    pub tls: Option<TlsSettings>,
    pub route: RouteView,
}

impl View for OutgoingRequest {
    type V = OutgoingView;

    open spec fn view(&self) -> OutgoingView {
        OutgoingView {
            method: self.method,
            node: self.node@,
            url: self.url@,
            headers: header_views(self.headers@),
            body: body_view(self.body),
            timeout_ms: self.timeout_ms,
            tls: self.tls,
            route: self.route@,
        }
    }
}

/// The headers of a request: the credentials, overridden by the default
/// headers, overridden by the headers of the request itself.
pub open spec fn composed_headers(settings: Settings, descriptor: DescriptorView) -> Seq<
    HeaderView,
> {
    overlay(
        overlay(credential_headers(settings.credentials), settings.headers),
        descriptor.headers,
    )
}

/// The route to `node` under `proxy`.
pub open spec fn route_of(proxy: Option<ProxyView>, node: NodeView) -> RouteView {
    match proxy {
        None => RouteView::Direct,
        Some(p) => RouteView::Proxy {
            proxy: p.node,
            tunnel: node.scheme.secure(),
            authorization: match p.credentials {
                Some((user, password)) => Some(basic_of(user, password)),
                None => None,
            },
        },
    }
}

/// The request that `descriptor` becomes for `node` under `settings`.
pub open spec fn composed(settings: Settings, node: NodeView, descriptor: DescriptorView)
    -> OutgoingView {
    OutgoingView {
        method: descriptor.method,
        node,
        url: url_of(node, descriptor.path, descriptor.query),
        headers: composed_headers(settings, descriptor),
        body: descriptor.body,
        timeout_ms: match descriptor.timeout_ms {
            Some(t) => t,
            None => settings.timeout_ms,
        },
        tls: if node.scheme.secure() {
            Some(settings_of(settings.policy))
        } else {
            None
        },
        route: route_of(settings.proxy, node),
    }
}

/// How an attempt ended.
#[derive(Debug)]
pub enum Outcome {
    /// The node answered.
    Response(Response),
    /// The exchange failed before an answer was read in full.
    Failure(Failure),
}

/// The end of an attempt, as plain values.
pub enum OutcomeView {
    Response(ResponseView),
    Failure(Failure),
}

impl View for Outcome {
    type V = OutcomeView;

    open spec fn view(&self) -> OutcomeView {
        match self {
            Outcome::Response(response) => OutcomeView::Response(response@),
            Outcome::Failure(failure) => OutcomeView::Failure(*failure),
        }
    }
}

/// What follows an attempt.
pub enum Decision {
    /// Hand the response to the caller.
    Deliver(ResponseView),
    /// Try the next node.
    Retry,
    /// Fail with this error.
    Fail(ErrorView),
}

/// What follows attempt number `attempt` (from 1) on `node`, which asked for
/// an answer within `timeout_ms` and ended with `outcome`, when `limit`
/// attempts may be made.
pub open spec fn decision_of(
    limit: u32,
    attempt: u32,
    node: NodeView,
    timeout_ms: u64,
    outcome: OutcomeView,
) -> Decision {
    match outcome {
        OutcomeView::Response(response) => Decision::Deliver(response),
        OutcomeView::Failure(Failure::Connection(cause)) => if attempt < limit {
            Decision::Retry
        } else {
            Decision::Fail(ErrorView::Connection { cause, node, attempts: attempt })
        },
        OutcomeView::Failure(Failure::Certificate(reason)) => Decision::Fail(
            ErrorView::Certificate { cause: CertificateError::Rejected(reason), node: Some(node) },
        ),
        OutcomeView::Failure(Failure::Timeout) => Decision::Fail(
            ErrorView::Timeout { node, timeout_ms },
        ),
    }
}

/// The ticket that follows `ticket`.
pub open spec fn next_ticket(ticket: nat) -> nat {
    if ticket == u64::MAX {
        0
    } else {
        ticket + 1
    }
}

/// The ticket that comes `steps` selections after `ticket`.
pub open spec fn ticket_after(ticket: nat, steps: nat) -> nat
    decreases steps,
{
    if steps == 0 {
        ticket
    } else {
        ticket_after(next_ticket(ticket), (steps - 1) as nat)
    }
}

/// The result of a call, as plain values.
pub open spec fn result_view(r: Result<Response, TransportError>) -> Result<ResponseView, ErrorView> {
    match r {
        Ok(response) => Ok(response@),
        Err(e) => Err(e@),
    }
}

/// How a call ends whose attempt number `attempt` goes to the node for
/// `ticket` and whose attempts, from that one on, end with `outcomes` in
/// turn; nothing if the call is not over when the outcomes are used up.
pub open spec fn run(
    settings: Settings,
    descriptor: DescriptorView,
    ticket: nat,
    attempt: u32,
    outcomes: Seq<OutcomeView>,
) -> Option<Result<ResponseView, ErrorView>>
    decreases outcomes.len(),
{
    if outcomes.len() == 0 {
        None
    } else {
        let node = selected(settings.nodes, ticket);
        let request = composed(settings, node, descriptor);
        match decision_of(settings.max_attempts, attempt, node, request.timeout_ms, outcomes[0]) {
            Decision::Deliver(response) => Some(Ok(response)),
            Decision::Fail(e) => Some(Err(e)),
            Decision::Retry => run(
                settings,
                descriptor,
                next_ticket(ticket),
                (attempt + 1) as u32,
                outcomes.skip(1),
            ),
        }
    }
}

/// The ends of the attempts of `outcomes`, as plain values.
pub open spec fn outcome_views(outcomes: Seq<Outcome>) -> Seq<OutcomeView> {
    Seq::new(outcomes.len(), |i: int| outcomes[i]@)
}

/// Whether an attempt ended because the node could not be reached.
pub open spec fn unreachable(outcome: OutcomeView) -> bool {
    outcome matches OutcomeView::Failure(Failure::Connection(_))
}

/// The number of times that a call moves on to another node, when its
/// attempt number `attempt` and those that follow end with `outcomes`.
pub open spec fn retries(limit: u32, attempt: u32, outcomes: Seq<OutcomeView>) -> nat
    decreases outcomes.len(),
{
    if outcomes.len() > 0 && unreachable(outcomes[0]) && attempt < limit {
        1 + retries(limit, (attempt + 1) as u32, outcomes.skip(1))
    } else {
        0
    }
}

/// One attempt: its number, from 1, and the request to send.
#[derive(Debug)]
pub struct Attempt {
    pub number: u32,
    pub request: OutgoingRequest,
}

/// What the driver of a call does next.
#[derive(Debug)]
pub enum Step {
    /// Send this request and report how it ended.
    Send(Attempt),
    /// The call is over.
    Done(Result<Response, TransportError>),
}

/// Sends requests by the rules of one configuration.  It keeps nothing from
/// one call to the next.
#[derive(Debug)]
pub struct Transport {
    config: TransportConfig,
}

impl View for Transport {
    type V = Settings;

    closed spec fn view(&self) -> Settings {
        self.config@
    }
}

impl Transport {
    /// A transport over `config`.
    pub fn new(config: TransportConfig) -> (r: Transport)
        ensures
            r@ == config@,
            defect_of(r@).is_none(),
    {
        proof {
            use_type_invariant(&config);
        }
        Transport { config }
    }

    /// The configuration.
    pub fn config(&self) -> (r: &TransportConfig)
        ensures
            r@ == self@,
    {
        &self.config
    }

    /// The next node in turn.
    pub fn next_node(&self, cursor: &mut Cursor) -> (r: Node)
        ensures
            r@ == selected(self@.nodes, old(cursor)@),
            valid_node(r@),
            final(cursor)@ == next_ticket(old(cursor)@),
    {
        match self.config.pool().next_node(cursor) {
            Some(node) => node,
            None => unreached(),
        }
    }

    /// The request that `descriptor` becomes for `node`.  Nothing but the
    /// configuration, the node and the description goes into it.
    pub fn compose(&self, node: Node, descriptor: &RequestDescriptor) -> (r: OutgoingRequest)
        ensures
            r@ == composed(self@, node@, descriptor@),
    {
        let credentials: Vec<Header> = match self.config.credentials() {
            Some(c) => vec![c.header()],
            None => Vec::new(),
        };
        assert(header_views(credentials@) =~= credential_headers(self@.credentials));
        let defaults = merge(&credentials, self.config.headers());
        let headers = merge(&defaults, &descriptor.headers);
        let secure = node.scheme().is_secure();
        let route = match self.config.proxy() {
            None => Route::Direct,
            Some(p) => Route::Proxy {
                proxy: p.node.duplicate(),
                tunnel: secure,
                authorization: match &p.credentials {
                    Some((user, password)) => Some(basic(user.as_slice(), password.as_slice())),
                    None => None,
                },
            },
        };
        OutgoingRequest {
            method: descriptor.method,
            url: url(&node, descriptor.path.as_slice(), &descriptor.query),
            headers,
            body: match &descriptor.body {
                Some(bytes) => Some(copy(bytes.as_slice())),
                None => None,
            },
            timeout_ms: match descriptor.timeout_ms {
                Some(t) => t,
                None => self.config.timeout_ms(),
            },
            tls: if secure {
                Some(self.config.cert_validation().tls_settings())
            } else {
                None
            },
            route,
            node,
        }
    }

    /// The first attempt of a call: the request for the next node in turn.
    pub fn begin(&self, cursor: &mut Cursor, descriptor: &RequestDescriptor) -> (r: Attempt)
        ensures
            r.number == 1,
            r.request@ == composed(self@, selected(self@.nodes, old(cursor)@), descriptor@),
            final(cursor)@ == next_ticket(old(cursor)@),
    {
        let node = self.next_node(cursor);
        Attempt { number: 1, request: self.compose(node, descriptor) }
    }

    /// What follows `attempt`, which ended with `outcome`.  The cursor moves
    /// only if another node is tried.
    pub fn advance(
        &self,
        cursor: &mut Cursor,
        descriptor: &RequestDescriptor,
        attempt: Attempt,
        outcome: Outcome,
    ) -> (r: Step)
        ensures
            match decision_of(
                self@.max_attempts,
                attempt.number,
                attempt.request@.node,
                attempt.request@.timeout_ms,
                outcome@,
            ) {
                Decision::Deliver(response) => r matches Step::Done(Ok(given)) && given@
                    == response && final(cursor)@ == old(cursor)@,
                Decision::Fail(e) => r matches Step::Done(Err(given)) && given@ == e
                    && final(cursor)@ == old(cursor)@,
                Decision::Retry => r matches Step::Send(next) && next.number == attempt.number + 1
                    && next.request@ == composed(
                    self@,
                    selected(self@.nodes, old(cursor)@),
                    descriptor@,
                ) && final(cursor)@ == next_ticket(old(cursor)@),
            },
    {
        let Attempt { number, request } = attempt;
        match outcome {
            Outcome::Response(response) => Step::Done(Ok(response)),
            Outcome::Failure(Failure::Connection(cause)) => {
                if number < self.config.max_attempts() {
                    let node = self.next_node(cursor);
                    Step::Send(Attempt { number: number + 1, request: self.compose(node, descriptor) })
                } else {
                    Step::Done(Err(TransportError::Connection { cause, node: request.node, attempts: number }))
                }
            },
            Outcome::Failure(Failure::Certificate(reason)) => Step::Done(
                Err(
                    TransportError::Certificate {
                        cause: CertificateError::Rejected(reason),
                        node: Some(request.node),
                    },
                ),
            ),
            Outcome::Failure(Failure::Timeout) => Step::Done(
                Err(TransportError::Timeout { node: request.node, timeout_ms: request.timeout_ms }),
            ),
        }
    }

    /// Plays a whole call against attempts whose ends are already known:
    /// `outcomes` holds, in order, how the first attempt ends, how the second
    /// ends, and so on.  Gives the result of the call, or nothing if the
    /// call is not over when the outcomes are used up.
    pub fn replay(
        &self,
        cursor: &mut Cursor,
        descriptor: &RequestDescriptor,
        outcomes: Vec<Outcome>,
    ) -> (r: Option<Result<Response, TransportError>>)
        ensures
            match r {
                Some(result) => run(self@, descriptor@, old(cursor)@, 1, outcome_views(outcomes@))
                    == Some(result_view(result)),
                None => run(self@, descriptor@, old(cursor)@, 1, outcome_views(outcomes@))
                    .is_none(),
            },
            final(cursor)@ == ticket_after(
                old(cursor)@,
                1 + retries(self@.max_attempts, 1, outcome_views(outcomes@)),
            ),
    {
        let ghost all = outcome_views(outcomes@);
        let ghost mut ticket = cursor@;
        let mut attempt = self.begin(cursor, descriptor);
        let mut rest = outcomes;
        proof {
            reveal_with_fuel(ticket_after, 2);
        }
        while rest.len() > 0
            invariant
                all == outcome_views(outcomes@),
                attempt.number >= 1,
                attempt.request@ == composed(self@, selected(self@.nodes, ticket), descriptor@),
                cursor@ == next_ticket(ticket),
                run(self@, descriptor@, old(cursor)@, 1, all) == run(
                    self@,
                    descriptor@,
                    ticket,
                    attempt.number,
                    outcome_views(rest@),
                ),
                ticket_after(old(cursor)@, 1 + retries(self@.max_attempts, 1, all)) == ticket_after(
                    cursor@,
                    retries(self@.max_attempts, attempt.number, outcome_views(rest@)),
                ),
            decreases rest.len(),
        {
            let ghost before = outcome_views(rest@);
            let ghost number = attempt.number;
            let outcome = rest.remove(0);
            proof {
                assert(before[0] == outcome@);
                assert(outcome_views(rest@) =~= before.skip(1));
                ticket = cursor@;
            }
            match self.advance(cursor, descriptor, attempt, outcome) {
                Step::Done(result) => {
                    return Some(result);
                },
                Step::Send(next) => {
                    attempt = next;
                },
            }
        }
        None
    }
}

/// Every header of a composed request comes from the credentials or the
/// default headers of the configuration or from the description of that
/// very request, and every header of the description is in it; method,
/// body and address are those of the description.  Nothing of any other
/// request can get into it.
pub proof fn lemma_composed_from_own_parts(
    settings: Settings,
    node: NodeView,
    descriptor: DescriptorView,
)
    ensures
        forall|h: HeaderView| #[trigger]
            composed(settings, node, descriptor).headers.contains(h) ==> credential_headers(
                settings.credentials,
            ).contains(h) || settings.headers.contains(h) || descriptor.headers.contains(h),
        forall|h: HeaderView|
            descriptor.headers.contains(h) ==> #[trigger] composed(
                settings,
                node,
                descriptor,
            ).headers.contains(h),
        composed(settings, node, descriptor).method == descriptor.method,
        composed(settings, node, descriptor).body == descriptor.body,
        composed(settings, node, descriptor).url == url_of(node, descriptor.path, descriptor.query),
{
    let inner = overlay(credential_headers(settings.credentials), settings.headers);
    lemma_overlay_members(credential_headers(settings.credentials), settings.headers);
    lemma_overlay_members(inner, descriptor.headers);
    assert forall|h: HeaderView| #[trigger]
        composed(settings, node, descriptor).headers.contains(h) implies credential_headers(
        settings.credentials,
    ).contains(h) || settings.headers.contains(h) || descriptor.headers.contains(h) by {
        assert(overlay(inner, descriptor.headers).contains(h));
        if inner.contains(h) {
            assert(overlay(credential_headers(settings.credentials), settings.headers).contains(h));
        }
    }
}

/// Of two requests composed from one configuration neither gets a header
/// of the other: a header that only the second request names is not in the
/// first.
pub proof fn lemma_requests_do_not_mix(
    settings: Settings,
    node: NodeView,
    first: DescriptorView,
    second: DescriptorView,
    h: HeaderView,
)
    requires
        second.headers.contains(h),
        !first.headers.contains(h),
        !settings.headers.contains(h),
        !credential_headers(settings.credentials).contains(h),
    ensures
        !composed(settings, node, first).headers.contains(h),
        composed(settings, node, second).headers.contains(h),
{
    lemma_composed_from_own_parts(settings, node, first);
    lemma_composed_from_own_parts(settings, node, second);
}

/// A call whose first `failures` attempts find their node unreachable and
/// whose next attempt gets a response returns that response, provided the
/// attempt limit allows that many attempts.
pub proof fn lemma_failover_reaches_response(
    settings: Settings,
    descriptor: DescriptorView,
    ticket: nat,
    attempt: u32,
    outcomes: Seq<OutcomeView>,
    failures: nat,
)
    requires
        1 <= attempt,
        attempt + failures <= settings.max_attempts,
        failures < outcomes.len(),
        forall|i: int| 0 <= i < failures ==> unreachable(#[trigger] outcomes[i]),
        outcomes[failures as int] is Response,
    ensures
        run(settings, descriptor, ticket, attempt, outcomes) == Some(
            Ok::<ResponseView, ErrorView>(outcomes[failures as int]->Response_0),
        ),
    decreases failures,
{
    if failures > 0 {
        assert(unreachable(outcomes[0]));
        let rest = outcomes.skip(1);
        assert forall|i: int| 0 <= i < failures - 1 implies unreachable(#[trigger] rest[i]) by {
            assert(rest[i] == outcomes[i + 1]);
        }
        lemma_failover_reaches_response(
            settings,
            descriptor,
            next_ticket(ticket),
            (attempt + 1) as u32,
            rest,
            (failures - 1) as nat,
        );
    }
}

/// A call all of whose attempts find their node unreachable fails with one
/// connection error, which names the cause and the node of the last attempt
/// and counts as many attempts as the limit allows.
pub proof fn lemma_failover_exhausted(
    settings: Settings,
    descriptor: DescriptorView,
    ticket: nat,
    attempt: u32,
    outcomes: Seq<OutcomeView>,
)
    requires
        1 <= attempt <= settings.max_attempts,
        outcomes.len() > settings.max_attempts - attempt,
        forall|i: int|
            0 <= i <= settings.max_attempts - attempt ==> unreachable(#[trigger] outcomes[i]),
    ensures
        run(settings, descriptor, ticket, attempt, outcomes) == Some(
            Err::<ResponseView, ErrorView>(
                ErrorView::Connection {
                    cause: outcomes[settings.max_attempts - attempt]->Failure_0->Connection_0,
                    node: selected(
                        settings.nodes,
                        ticket_after(ticket, (settings.max_attempts - attempt) as nat),
                    ),
                    attempts: settings.max_attempts,
                },
            ),
        ),
    decreases settings.max_attempts - attempt,
{
    assert(unreachable(outcomes[0]));
    if attempt < settings.max_attempts {
        let rest = outcomes.skip(1);
        assert forall|i: int| 0 <= i <= settings.max_attempts - (attempt + 1) implies unreachable(
            #[trigger] rest[i],
        ) by {
            assert(rest[i] == outcomes[i + 1]);
        }
        lemma_failover_exhausted(
            settings,
            descriptor,
            next_ticket(ticket),
            (attempt + 1) as u32,
            rest,
        );
        assert(rest[settings.max_attempts - (attempt + 1)] == outcomes[settings.max_attempts
            - attempt]);
    }
}

/// A response ends the call at once, whatever its status: the transport
/// does not try again after an answer.  A rejected certificate and an
/// expired deadline end it at once too.
pub proof fn lemma_only_unreachable_nodes_are_retried(
    limit: u32,
    attempt: u32,
    node: NodeView,
    timeout_ms: u64,
    outcome: OutcomeView,
)
    ensures
        decision_of(limit, attempt, node, timeout_ms, outcome) is Retry <==> unreachable(outcome)
            && attempt < limit,
        outcome matches OutcomeView::Response(response) ==> decision_of(
            limit,
            attempt,
            node,
            timeout_ms,
            outcome,
        ) == Decision::Deliver(response),
{
}

} // verus!
