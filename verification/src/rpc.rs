//! What the client asks the synapse server for, as plain values.
use vstd::prelude::*;
use vstd::string::*;
use crate::utils::decimal_string;
use crate::utils::term::decimal;
use synapse_rpc::message::SMessage;
#[allow(deprecated)]
use std::error::Error;

verus! {

/// A message from the server, as `synapse_rpc` reads it; carried along, never looked into.
#[verifier::external_type_specification]
#[verifier::external_body]
pub struct ExSMessage<'a>(SMessage<'a>);

/// The kinds of resource that a subscription selects.
#[derive(Clone, Copy, PartialEq, Eq, Structural)]
pub enum ResourceKind {
    Server,
    Torrent,
    Tracker,
}

/// How a criterion compares a resource's field to its value.
#[derive(Clone, Copy, PartialEq, Eq, Structural)]
pub enum Operation {
    Eq,
    LT,
    LTE,
    GT,
    GTE,
    Has,
    Like,
    ILike,
}

/// What a number in a criterion is multiplied by.
#[derive(Clone, Copy, PartialEq, Eq, Structural)]
pub enum Scale {
    /// A hundredth: percent to fraction.
    Hundredth,
    /// 1024 * 1024: mebibytes to bytes.
    Mebi,
}

/// The value a criterion compares to: text, or the float that `number` reads as, scaled.
pub enum Value {
    S(String),
    F { number: String, scale: Scale },
}

/// The plain-value form of a `Value`.
pub enum ValueView {
    S(Seq<char>),
    F { number: Seq<char>, scale: Scale },
}

impl View for Value {
    type V = ValueView;

    open spec fn view(&self) -> ValueView {
        match self {
            Value::S(s) => ValueView::S(s@),
            Value::F { number, scale } => ValueView::F { number: number@, scale: *scale },
        }
    }
}

/// One condition of a filter subscription.
pub struct Criterion {
    pub field: String,
    pub op: Operation,
    pub value: Value,
}

/// The plain-value form of a `Criterion`.
pub struct CriterionView {
    pub field: Seq<char>,
    pub op: Operation,
    pub value: ValueView,
}

impl View for Criterion {
    type V = CriterionView;

    open spec fn view(&self) -> CriterionView {
        CriterionView { field: self.field@, op: self.op, value: self.value@ }
    }
}

/// A criterion, or one whose outcome waits on whether its number text reads as a float.
pub enum Term {
    /// A criterion as it stands.
    Ready(Criterion),
    /// A progress criterion on `number` percent, kept where it reads as a float and `op` is set.
    Progress { op: Option<Operation>, number: String },
    /// A size criterion on `number` mebibytes where it reads as a float (and `op` is set), else
    /// a status criterion (where `status` is set).
    SizeOrStatus { op: Option<Operation>, number: String, status: Option<String> },
}

/// The plain-value form of a `Term`.
pub enum TermView {
    Ready(CriterionView),
    Progress { op: Option<Operation>, number: Seq<char> },
    SizeOrStatus { op: Option<Operation>, number: Seq<char>, status: Option<Seq<char>> },
}

impl View for Term {
    type V = TermView;

    open spec fn view(&self) -> TermView {
        match self {
            Term::Ready(c) => TermView::Ready(c@),
            Term::Progress { op, number } => TermView::Progress { op: *op, number: number@ },
            Term::SizeOrStatus { op, number, status } => TermView::SizeOrStatus {
                op: *op,
                number: number@,
                status: match status {
                    Some(s) => Some(s@),
                    None => None,
                },
            },
        }
    }
}

/// The field names of criteria.
pub open spec fn progress_field() -> Seq<char> {
    seq!['p', 'r', 'o', 'g', 'r', 'e', 's', 's']
}

pub open spec fn size_field() -> Seq<char> {
    seq!['s', 'i', 'z', 'e']
}

pub open spec fn status_field() -> Seq<char> {
    seq!['s', 't', 'a', 't', 'u', 's']
}

/// The criteria `rest` followed by what `term` comes to, where `num` tells whether its number
/// text reads as a float.
pub open spec fn resolve_step(rest: Seq<CriterionView>, term: TermView, num: bool) -> Seq<
    CriterionView,
> {
    match term {
        TermView::Ready(c) => rest.push(c),
        TermView::Progress { op, number } => if num && op is Some {
            rest.push(
                CriterionView {
                    field: progress_field(),
                    op: op->0,
                    value: ValueView::F { number, scale: Scale::Hundredth },
                },
            )
        } else {
            rest
        },
        TermView::SizeOrStatus { op, number, status } => if num {
            if op is Some {
                rest.push(
                    CriterionView {
                        field: size_field(),
                        op: op->0,
                        value: ValueView::F { number, scale: Scale::Mebi },
                    },
                )
            } else {
                rest
            }
        } else if status is Some {
            rest.push(
                CriterionView {
                    field: status_field(),
                    op: Operation::Eq,
                    value: ValueView::S(status->0),
                },
            )
        } else {
            rest
        },
    }
}

/// The criteria that `terms` come to, where `numeric[i]` tells whether the number of term `i`
/// reads as a float.
pub open spec fn resolved(terms: Seq<TermView>, numeric: Seq<bool>) -> Seq<CriterionView>
    decreases terms.len(),
{
    if terms.len() == 0 {
        Seq::empty()
    } else {
        resolve_step(
            resolved(terms.drop_last(), numeric.take(terms.len() - 1)),
            terms.last(),
            numeric[terms.len() - 1],
        )
    }
}

/// The views of a sequence of criteria.
pub open spec fn criteria_view(v: Seq<Criterion>) -> Seq<CriterionView> {
    v.map_values(|c: Criterion| c@)
}

/// The views of a sequence of terms.
pub open spec fn terms_view(v: Seq<Term>) -> Seq<TermView> {
    v.map_values(|t: Term| t@)
}

/// Copies a string.
fn copy(s: &String) -> (r: String)
    ensures
        r@ == s@,
{
    s.clone()
}

impl Criterion {
    /// A copy of the criterion.
    pub fn duplicate(&self) -> (r: Criterion)
        ensures
            r@ == self@,
    {
        let value = match &self.value {
            Value::S(s) => Value::S(copy(s)),
            Value::F { number, scale } => Value::F { number: copy(number), scale: *scale },
        };
        Criterion { field: copy(&self.field), op: self.op, value }
    }
}

/// A subscription to the resources of `kind` that meet all criteria.
pub struct FilterRequest {
    pub serial: u64,
    pub kind: ResourceKind,
    pub terms: Vec<Term>,
}

/// The plain-value form of a `FilterRequest`.
pub struct RequestView {
    pub serial: u64,
    pub kind: ResourceKind,
    pub terms: Seq<TermView>,
}

impl View for FilterRequest {
    type V = RequestView;

    open spec fn view(&self) -> RequestView {
        RequestView { serial: self.serial, kind: self.kind, terms: terms_view(self.terms@) }
    }
}

/// The views of a sequence of requests.
pub open spec fn requests_view(v: Seq<FilterRequest>) -> Seq<RequestView> {
    v.map_values(|r: FilterRequest| r@)
}

impl FilterRequest {
    /// The criteria of the request, where `numeric[i]` tells whether the number text of term
    /// `i` reads as a float.
    pub fn resolve(&self, numeric: &Vec<bool>) -> (r: Vec<Criterion>)
        requires
            numeric@.len() == self.terms@.len(),
        ensures
            criteria_view(r@) == resolved(terms_view(self.terms@), numeric@),
    {
        let ghost t = terms_view(self.terms@);
        let mut r: Vec<Criterion> = Vec::new();
        let mut i: usize = 0;
        while i < self.terms.len()
            invariant
                t == terms_view(self.terms@),
                numeric@.len() == t.len(),
                i <= t.len(),
                criteria_view(r@) == resolved(t.take(i as int), numeric@.take(i as int)),
            decreases self.terms.len() - i,
        {
            proof {
                assert(t.take(i + 1).drop_last() =~= t.take(i as int));
                assert(numeric@.take(i + 1).take(i as int) =~= numeric@.take(i as int));
            }
            let num = numeric[i];
            let ghost old_r = criteria_view(r@);
            let ghost old_len = r@.len();
            let ghost prev = resolved(t.take(i as int), numeric@.take(i as int));
            assert(old_r == prev);
            assert(numeric@.take(i + 1)[i as int] == num);
            assert(t.take(i + 1).last() == self.terms@[i as int]@);
            match &self.terms[i] {
                Term::Ready(c) => {
                    r.push(c.duplicate());
                },
                Term::Progress { op, number } => {
                    if num {
                        if let Some(o) = op {
                            proof {
                                reveal_strlit("progress");
                            }
                            r.push(
                                Criterion {
                                    field: String::from_str("progress"),
                                    op: *o,
                                    value: Value::F { number: copy(number), scale: Scale::Hundredth },
                                },
                            );
                            assert(r@.last()@.field =~= progress_field());
                            assert(r@.last()@.value == ValueView::F { number: number@, scale: Scale::Hundredth });
                        }
                    }
                },
                Term::SizeOrStatus { op, number, status } => {
                    if num {
                        if let Some(o) = op {
                            proof {
                                reveal_strlit("size");
                            }
                            r.push(
                                Criterion {
                                    field: String::from_str("size"),
                                    op: *o,
                                    value: Value::F { number: copy(number), scale: Scale::Mebi },
                                },
                            );
                            assert(r@.last()@.field =~= size_field());
                        }
                    } else if let Some(s) = status {
                        proof {
                            reveal_strlit("status");
                        }
                        r.push(
                            Criterion {
                                field: String::from_str("status"),
                                op: Operation::Eq,
                                value: Value::S(copy(s)),
                            },
                        );
                        assert(r@.last()@.field =~= status_field());
                    }
                },
            }
            proof {
                if r@.len() > old_r.len() {
                    assert(criteria_view(r@) =~= old_r.push(r@.last()@));
                } else {
                    assert(criteria_view(r@) =~= old_r);
                }
                assert(criteria_view(r@) =~= resolve_step(prev, t[i as int], num));
                assert(resolved(t.take(i + 1), numeric@.take(i + 1)) == resolve_step(
                    resolved(t.take(i + 1).drop_last(), numeric@.take(i + 1).take(i as int)),
                    t.take(i + 1).last(),
                    numeric@.take(i + 1)[i as int],
                ));
            }
            i = i + 1;
        }
        proof {
            assert(t.take(i as int) =~= t);
            assert(numeric@.take(i as int) =~= numeric@);
        }
        r
    }
}


/// The protocol version that this client speaks, `synapse_rpc::MAJOR_VERSION` and
/// `synapse_rpc::MINOR_VERSION`: the crate's source defines them as 0 and 1.
#[verifier::external_body]
fn client_version() -> (r: (u16, u16))
    ensures
        r == (0u16, 1u16),
{
    (synapse_rpc::MAJOR_VERSION, synapse_rpc::MINOR_VERSION)
}

/// A server at protocol version `major.minor` can serve this client: the major versions
/// match, and while the major version is 0 the minor versions match too.
pub open spec fn compatible(major: u16, minor: u16) -> bool {
    major == 0 && minor == 1
}

/// The explanation given when the server's version is refused.
pub open spec fn mismatch_text(major: u16, minor: u16) -> Seq<char> {
    "Server version Version { major: "@ + decimal(major as nat) + ", minor: "@ + decimal(
        minor as nat,
    ) + " } incompatible with client 0.1"@
}

/// Whether a server at version `major.minor` is refused, and if so the error to report:
/// its source, `RPC`, and the explanation.
pub fn version_mismatch(major: u16, minor: u16) -> (r: Option<(String, String)>)
    ensures
        r is None <==> compatible(major, minor),
        r matches Some((source, text)) ==> source@ == "RPC"@ && text@ == mismatch_text(
            major,
            minor,
        ),
{
    let (client_major, client_minor) = client_version();
    if major != client_major || (minor != client_minor && client_major == 0) {
        let mut text = String::from_str("Server version Version { major: ");
        text.append(decimal_string(major as u64).as_str());
        text.append(", minor: ");
        text.append(decimal_string(minor as u64).as_str());
        text.append(" } incompatible with client ");
        text.append(decimal_string(client_major as u64).as_str());
        text.append(".");
        text.append(decimal_string(client_minor as u64).as_str());
        proof {
            reveal_strlit("Server version Version { major: ");
            reveal_strlit(", minor: ");
            reveal_strlit(" } incompatible with client ");
            reveal_strlit(".");
            reveal_strlit(" } incompatible with client 0.1");
            assert(decimal(0) =~= seq!['0']);
            assert(decimal(1) =~= seq!['1']);
            assert(text@ =~= mismatch_text(major, minor));
        }
        let source = String::from_str("RPC");
        Some((source, text))
    } else {
        None
    }
}

/// A message from the server, as far as the connection's handling tells messages apart.
pub enum Incoming {
    /// A websocket ping.
    Ping,
    /// A text frame that is not a server message; the parser's explanation.
    Malformed(String),
    /// Resources that now exist, by id.
    ResourcesExtant(Vec<String>),
    /// Resources that were removed, by id.
    ResourcesRemoved(Vec<String>),
    /// The server's protocol version.
    RpcVersion { major: u16, minor: u16 },
    /// Any other server message.
    Other,
}

/// What the connection sends back to the server for a message.
pub enum Reply {
    /// Nothing.
    Nothing,
    /// A pong with the ping's payload.
    Pong,
    /// A subscription to these resources.
    Subscribe(Vec<String>),
    /// The end of the subscription to these resources.
    Unsubscribe(Vec<String>),
}

/// What the connection hands on to the interface for a message.
pub enum Delivery {
    /// Nothing: the connection stays up.
    Idle,
    /// The message itself.
    Forward,
    /// The connection fails with this error: its source and explanation.
    Fail(String, String),
}

/// A message from the server as plain values (see `Incoming`).
pub enum IncomingView {
    Ping,
    Malformed(Seq<char>),
    ResourcesExtant(Seq<Seq<char>>),
    ResourcesRemoved(Seq<Seq<char>>),
    RpcVersion { major: u16, minor: u16 },
    Other,
}

impl View for Incoming {
    type V = IncomingView;

    open spec fn view(&self) -> IncomingView {
        match self {
            Incoming::Ping => IncomingView::Ping,
            Incoming::Malformed(e) => IncomingView::Malformed(e@),
            Incoming::ResourcesExtant(ids) => IncomingView::ResourcesExtant(crate::utils::views(ids@)),
            Incoming::ResourcesRemoved(ids) => IncomingView::ResourcesRemoved(
                crate::utils::views(ids@),
            ),
            Incoming::RpcVersion { major, minor } => IncomingView::RpcVersion {
                major: *major,
                minor: *minor,
            },
            Incoming::Other => IncomingView::Other,
        }
    }
}

/// Whether `reply` and `delivery` are how the connection answers the message `msg`:
/// resources that appear are subscribed to, resources that disappear are unsubscribed from and
/// reported, pings are answered, a server of an incompatible version ends the connection, as
/// does a frame that does not parse; everything else is handed on.
pub open spec fn answers(msg: IncomingView, reply: Reply, delivery: Delivery) -> bool {
    match msg {
        IncomingView::Ping => reply is Pong && delivery is Idle,
        IncomingView::Malformed(e) => reply is Nothing && (delivery matches Delivery::Fail(
            source,
            text,
        ) && source@ == "RPC"@ && text@ == e),
        IncomingView::ResourcesExtant(ids) => (reply matches Reply::Subscribe(s)
            && crate::utils::views(s@) == ids) && delivery is Idle,
        IncomingView::ResourcesRemoved(ids) => (reply matches Reply::Unsubscribe(s)
            && crate::utils::views(s@) == ids) && delivery is Forward,
        IncomingView::RpcVersion { major, minor } => reply is Nothing && if compatible(
            major,
            minor,
        ) {
            delivery is Forward
        } else {
            delivery matches Delivery::Fail(source, text) && source@ == "RPC"@ && text@
                == mismatch_text(major, minor)
        },
        IncomingView::Other => reply is Nothing && delivery is Forward,
    }
}

/// How the connection answers a message from the server (see `answers`).
pub fn handle_incoming(msg: Incoming) -> (r: (Reply, Delivery))
    ensures
        answers(msg@, r.0, r.1),
{
    match msg {
        Incoming::Ping => (Reply::Pong, Delivery::Idle),
        Incoming::Malformed(e) => {
            proof {
                reveal_strlit("RPC");
            }
            (Reply::Nothing, Delivery::Fail(String::from_str("RPC"), e))
        },
        Incoming::ResourcesExtant(ids) => (Reply::Subscribe(ids), Delivery::Idle),
        Incoming::ResourcesRemoved(ids) => (Reply::Unsubscribe(ids), Delivery::Forward),
        Incoming::RpcVersion { major, minor } => match version_mismatch(major, minor) {
            Some((source, text)) => (Reply::Nothing, Delivery::Fail(source, text)),
            None => (Reply::Nothing, Delivery::Forward),
        },
        Incoming::Other => (Reply::Nothing, Delivery::Forward),
    }
}


/// What `serde_json` reads of a text frame as a server message (`SMessage`): the message as
/// far as `Incoming` tells messages apart, or that the frame does not parse.
pub uninterp spec fn frame_reading(text: Seq<char>) -> IncomingView;

/// Parses a text frame as a server message (`serde_json::from_str::<SMessage>`) and tells the
/// message's kind apart. A frame that does not parse is `Malformed`, with the parse error's
/// `description()`, and comes with no message; any other comes with the message. Which
/// texts parse, and to what, is left to the name `frame_reading`.
#[verifier::external_body]
#[allow(deprecated)]
fn read_frame(text: &str) -> (r: (Incoming, Option<SMessage<'static>>))
    ensures
        r.0@ == frame_reading(text@),
        r.1 is Some <==> !(r.0 is Malformed),
{
    match serde_json::from_str::<SMessage<'static>>(text) {
        Err(e) => (Incoming::Malformed(e.description().to_string()), None),
        Ok(m) => (match &m {
            SMessage::ResourcesExtant { ids, .. } => Incoming::ResourcesExtant(ids.iter().map(|i| i.to_string()).collect()),
            SMessage::ResourcesRemoved { ids, .. } => Incoming::ResourcesRemoved(ids.clone()),
            SMessage::RpcVersion(v) => Incoming::RpcVersion { major: v.major, minor: v.minor },
            _ => Incoming::Other,
        }, Some(m)),
    }
}

/// How the connection answers the text frame `text`: it reads the frame as a server message
/// and answers it as `answers` says; the message comes along where it is to be handed on.
pub fn handle_frame(text: &str) -> (r: (Reply, Delivery, Option<SMessage<'static>>))
    ensures
        answers(frame_reading(text@), r.0, r.1),
        r.1 is Forward ==> r.2 is Some,
{
    let (msg, parsed) = read_frame(text);
    let (reply, delivery) = handle_incoming(msg);
    (reply, delivery, parsed)
}

/// The URL `base` with the query pair `key=value` appended, or the parser's explanation of
/// why `base` is no URL, as `url::Url::parse` and `query_pairs_mut().append_pair` give them.
pub uninterp spec fn url_with_pair(base: Seq<char>, key: Seq<char>, value: Seq<char>) -> Result<
    Seq<char>,
    Seq<char>,
>;

/// Parses `base` as a URL (`url::Url::parse`) and appends the query pair `key=value`
/// (`query_pairs_mut().append_pair`); what comes out, and which texts parse, is left to the
/// name `url_with_pair`.
#[verifier::external_body]
fn parse_url_with_pair(base: &str, key: &str, value: &str) -> (r: Result<String, String>)
    ensures
        match r {
            Ok(u) => url_with_pair(base@, key@, value@) == Ok::<Seq<char>, Seq<char>>(u@),
            Err(e) => url_with_pair(base@, key@, value@) == Err::<Seq<char>, Seq<char>>(e@),
        },
{
    match url::Url::parse(base) {
        Ok(mut u) => {
            u.query_pairs_mut().append_pair(key, value);
            Ok(u.into_string())
        },
        Err(e) => Err(e.to_string()),
    }
}

pub open spec fn password_key() -> Seq<char> {
    seq!['p', 'a', 's', 's', 'w', 'o', 'r', 'd']
}

/// The URL to connect to the server `server` with the password `password`: the server's URL
/// with the query pair `password=<password>`; where `server` is no URL, the error to report,
/// its source `Url` and the parser's explanation.
pub fn connection_url(server: &str, password: &str) -> (r: Result<String, (String, String)>)
    ensures
        match url_with_pair(server@, password_key(), password@) {
            Ok(u) => r matches Ok(s) && s@ == u,
            Err(e) => r matches Err((source, text)) && source@ == "Url"@ && text@ == e,
        },
{
    proof {
        reveal_strlit("password");
    }
    let key = "password";
    assert(key@ =~= password_key());
    match parse_url_with_pair(server, key, password) {
        Ok(u) => Ok(u),
        Err(e) => Err((String::from_str("Url"), e)),
    }
}

} // verus!
