//! The state of one connection as its operations see it: the settings that
//! apply to the next operation, and the bookkeeping of the requests in flight.

use std::time::Duration;
use vstd::prelude::*;
use vstd::utf8::encode_utf8;
use crate::controls::{control_views, ControlModel, RawControl};
use crate::filter::{filter_of, Parse};
use crate::exop_impl::DISCONNECT_OID;
use crate::messages::{
    encode_message, message_of, message_value, optional_controls, parse_message, parse_response,
    response_of, Message, EXTENDED_RESPONSE,
};
use crate::parse::{decode, parse, Decoded};
use crate::structure::{BerValue, StructureTag};
use crate::protocol::{
    abandoned, can_issue, disconnected, expired, expiry_of, id_set, initial, route_of, routed,
    submitted, well_formed, Abandon, Expiry, MuxModel, ProtoBundle, Route, SinkKind,
};
use crate::result::{texts, LdapError, LdapResult, RC_TIMEOUT};
use crate::search::{search_request, search_request_value, DerefAliases, Scope, SearchOptions};
use crate::structures::{tag_structure, Tag};
use crate::write::encoding;

verus! {

/// A request, by the way in which its responses are consumed, with the
/// controls that go with it.
#[derive(Debug, PartialEq)]
pub enum LdapOp {
    /// One response completes the operation.
    Single(Tag, Option<Vec<RawControl>>),
    /// The responses are passed on one by one.
    Multi(Tag, Option<Vec<RawControl>>),
    /// No response is awaited.
    Solo(Tag, Option<Vec<RawControl>>),
}

impl LdapOp {
    /// How the responses are consumed.
    pub open spec fn kind(self) -> SinkKind {
        match self {
            LdapOp::Single(..) => SinkKind::Single,
            LdapOp::Multi(..) => SinkKind::Streaming,
            LdapOp::Solo(..) => SinkKind::Solo,
        }
    }

    /// The request.
    pub open spec fn request(self) -> Tag {
        match self {
            LdapOp::Single(tag, _) => tag,
            LdapOp::Multi(tag, _) => tag,
            LdapOp::Solo(tag, _) => tag,
        }
    }

    /// The controls that go with the request.
    pub open spec fn controls(self) -> Option<Vec<RawControl>> {
        match self {
            LdapOp::Single(_, controls) => controls,
            LdapOp::Multi(_, controls) => controls,
            LdapOp::Solo(_, controls) => controls,
        }
    }
}

/// A response: the operation and the controls that came with it.
#[derive(Debug, PartialEq)]
pub struct LdapResponse(pub Tag, pub Vec<RawControl>);

impl LdapResponse {
    /// The response that a message carries.
    pub fn from_message(message: Message) -> (r: LdapResponse)
        ensures
            r.0 == Tag::StructureTag(message.op),
            r.1 == message.controls,
    {
        LdapResponse(Tag::StructureTag(message.op), message.controls)
    }
}

/// What the connection does with a request that was accepted: it writes
/// `bytes` in one piece, lets a sink of the given kind wait under `msgid`,
/// and starts the timer if there is one.
#[derive(Debug)]
pub struct Submission {
    pub msgid: i32,
    pub kind: SinkKind,
    pub bytes: Vec<u8>,
    pub timeout: Option<Duration>,
}

/// LDAP connection: the part of it that decides.
pub struct Ldap {
    bundle: ProtoBundle,
    next_search_options: Option<SearchOptions>,
    next_req_controls: Option<Vec<RawControl>>,
    next_timeout: Option<Duration>,
}

/// Mathematical content of the state of a connection.
pub struct LdapModel {
    pub mux: MuxModel,
    pub search_options: Option<SearchOptions>,
    pub controls: Option<Seq<ControlModel>>,
    pub timeout: Option<Duration>,
}

impl View for Ldap {
    type V = LdapModel;

    closed spec fn view(&self) -> LdapModel {
        LdapModel {
            mux: self.bundle@,
            search_options: self.next_search_options,
            controls: optional_controls(self.next_req_controls),
            timeout: self.next_timeout,
        }
    }
}

/// What the connection learns from the octets that it has read so far.
#[derive(Debug, PartialEq)]
pub enum Received {
    /// The octets hold no whole message yet.
    NeedMore,
    /// The octets are no message; the connection cannot go on.
    Fatal,
    /// A message of `used` octets, and what becomes of it.
    Message { used: usize, route: Route, message: Message },
}

/// What the connection does on a message that the server sent unasked.
#[derive(Debug, PartialEq, Eq)]
pub enum Notice {
    /// The server closes the connection: the operations with these
    /// identifiers fail, and the transport is to be closed.
    Disconnection(Vec<i32>),
    /// Nothing.
    Ignored,
}

impl Notice {
    /// The error with which the operations that waited fail.
    pub fn failure(&self) -> (r: Option<LdapError>)
        ensures
            r == if self is Disconnection {
                Some(LdapError::ServerDisconnect)
            } else {
                None
            },
    {
        match self {
            Notice::Disconnection(_) => Some(LdapError::ServerDisconnect),
            Notice::Ignored => None,
        }
    }
}

/// Whether a response is the notice by which a server announces that it
/// closes the connection: an extended response of that name.
pub open spec fn is_disconnection(op: BerValue) -> bool {
    &&& op.class == crate::common::TagClass::Application
    &&& op.id == EXTENDED_RESPONSE
    &&& response_of(op) matches Some(found)
    &&& found.1.name == Some(DISCONNECT_OID@)
}

/// The state with none of the settings for the next operation.
pub open spec fn unset(s: LdapModel) -> LdapModel {
    LdapModel { search_options: None, controls: None, timeout: None, ..s }
}

/// The bookkeeping of the requests in flight.
pub fn bundle(ldap: &Ldap) -> (r: &ProtoBundle)
    ensures
        r@ == ldap@.mux,
{
    &ldap.bundle
}

/// Takes the search options that were set for the next operation.
pub fn next_search_options(ldap: &mut Ldap) -> (r: Option<SearchOptions>)
    ensures
        r == old(ldap)@.search_options,
        final(ldap)@ == (LdapModel { search_options: None, ..old(ldap)@ }),
{
    ldap.next_search_options.take()
}

/// Takes the controls that were set for the next operation. The search
/// options that were set for it are dropped.
pub fn next_req_controls(ldap: &mut Ldap) -> (r: Option<Vec<RawControl>>)
    ensures
        optional_controls(r) == old(ldap)@.controls,
        final(ldap)@ == (LdapModel { search_options: None, controls: None, ..old(ldap)@ }),
{
    ldap.next_search_options.take();
    ldap.next_req_controls.take()
}

/// Takes the timeout that was set for the next operation.
pub fn next_timeout(ldap: &mut Ldap) -> (r: Option<Duration>)
    ensures
        r == old(ldap)@.timeout,
        final(ldap)@ == (LdapModel { timeout: None, ..old(ldap)@ }),
{
    ldap.next_timeout.take()
}

/// The result that the client makes up for a search whose deadline passed.
pub open spec fn timeout_result(r: LdapResult) -> bool {
    r.rc == RC_TIMEOUT && r.matched@.len() == 0 && r.text@.len() == 0 && r.refs@.len() == 0
}

impl Ldap {
    /// The state of a fresh connection: nothing is in flight, nothing is
    /// set for the next operation.
    pub fn new() -> (r: Ldap)
        ensures
            r@ == (LdapModel {
                mux: initial(),
                search_options: None,
                controls: None,
                timeout: None,
            }),
    {
        Ldap {
            bundle: ProtoBundle::new(),
            next_search_options: None,
            next_req_controls: None,
            next_timeout: None,
        }
    }

    /// Sets the search options of the next operation. What was set before is replaced.
    pub fn with_search_options(&mut self, opts: SearchOptions) -> (r: &mut Self)
        ensures
            r@ == (LdapModel { search_options: Some(opts), ..old(self)@ }),
            *final(self) == *final(r),
    {
        self.next_search_options = Some(opts);
        self
    }

    /// Sets the controls of the next operation. What was set before is replaced.
    pub fn with_controls(&mut self, ctrls: Vec<RawControl>) -> (r: &mut Self)
        ensures
            r@ == (LdapModel { controls: Some(control_views(ctrls@)), ..old(self)@ }),
            *final(self) == *final(r),
    {
        self.next_req_controls = Some(ctrls);
        self
    }

    /// Sets the timeout of the next operation. What was set before is replaced.
    pub fn with_timeout(&mut self, duration: Duration) -> (r: &mut Self)
        ensures
            r@ == (LdapModel { timeout: Some(duration), ..old(self)@ }),
            *final(self) == *final(r),
    {
        self.next_timeout = Some(duration);
        self
    }

    /// Submits a request. It gets the next message identifier and is
    /// encoded with it and its controls; unless it awaits nothing, it waits
    /// for responses under the identifier; the timeout that was set goes
    /// with it. Every setting for the next operation is used up. There is
    /// an input/output error, and nothing is in flight that was not before,
    /// if the connection has ended or all identifiers are spent.
    pub fn call(&mut self, req: LdapOp) -> (r: Result<Submission, LdapError>)
        ensures
            final(self)@ == (LdapModel {
                mux: submitted(old(self)@.mux, req.kind()),
                ..unset(old(self)@)
            }),
            well_formed(final(self)@.mux),
            match r {
                Ok(s) => can_issue(old(self)@.mux) && s.msgid == old(self)@.mux.next_id && s.msgid
                    >= 1 && s.kind == req.kind() && s.timeout == old(self)@.timeout && s.bytes@
                    == encoding(
                    message_value(
                        s.msgid as int,
                        tag_structure(req.request()),
                        optional_controls(req.controls()),
                    ),
                ),
                Err(e) => !can_issue(old(self)@.mux) && e == LdapError::Io,
            },
    {
        let timeout = self.next_timeout.take();
        self.next_search_options = None;
        self.next_req_controls = None;
        let (kind, tag, controls) = match req {
            LdapOp::Single(tag, controls) => (SinkKind::Single, tag, controls),
            LdapOp::Multi(tag, controls) => (SinkKind::Streaming, tag, controls),
            LdapOp::Solo(tag, controls) => (SinkKind::Solo, tag, controls),
        };
        match self.bundle.submit(kind) {
            Some(msgid) => {
                let bytes = encode_message(msgid, tag, controls);
                Ok(Submission { msgid, kind, bytes, timeout })
            },
            None => Err(LdapError::Io),
        }
    }

    /// The options of a search: those that were set for the next operation,
    /// or else the given alias policy and types-only mark without limits.
    pub open spec fn options_for(
        set: Option<SearchOptions>,
        deref: DerefAliases,
        typesonly: bool,
    ) -> SearchOptions {
        match set {
            Some(opts) => opts,
            None => SearchOptions { deref, typesonly, timelimit: 0, sizelimit: 0 },
        }
    }

    /// Builds the request of a search, whose responses are passed on one by
    /// one until the one that ends it, with the settings for the next
    /// operation: the search options that were set apply, or else the given
    /// alias policy and types-only mark without limits, and the controls that
    /// were set go with the request. Both are used up. A text that is no
    /// filter fails with the place and the reason, and then the timeout that
    /// was set is dropped as well.
    pub fn search_op(
        &mut self,
        base: &str,
        scope: Scope,
        deref: DerefAliases,
        typesonly: bool,
        filter: &str,
        attrs: &Vec<String>,
    ) -> (r: Result<LdapOp, LdapError>)
        ensures
            match filter_of(encode_utf8(filter@)) {
                Parse::Read { value, .. } => {
                    &&& final(self)@ == (LdapModel {
                        search_options: None,
                        controls: None,
                        ..old(self)@
                    })
                    &&& r matches Ok(op)
                    &&& op.kind() == SinkKind::Streaming
                    &&& optional_controls(op.controls()) == old(self)@.controls
                    &&& tag_structure(op.request()) == search_request_value(
                        base@,
                        scope,
                        Self::options_for(old(self)@.search_options, deref, typesonly),
                        value,
                        texts(attrs@),
                    )
                },
                Parse::Fail { position, reason } => {
                    &&& final(self)@ == unset(old(self)@)
                    &&& r matches Err(LdapError::FilterParse(e))
                    &&& e.position == position
                    &&& e.reason == reason
                },
            },
    {
        let opts = match self.next_search_options.take() {
            Some(opts) => opts,
            None => SearchOptions { deref, typesonly, timelimit: 0, sizelimit: 0 },
        };
        let controls = self.next_req_controls.take();
        match search_request(base, scope, opts, filter, attrs) {
            Ok(tag) => Ok(LdapOp::Multi(tag, controls)),
            Err(e) => {
                self.next_timeout = None;
                Err(LdapError::FilterParse(e))
            },
        }
    }

    /// Submits a search whose entries the caller gathers into one result.
    /// The entries and references arrive one by one under the identifier of
    /// the search, until the result that ends it. The search options that
    /// were set for the next operation apply, or else the given alias policy
    /// and types-only mark without limits. A text that is no filter fails the
    /// submission with the place and the reason, and nothing is written.
    pub fn search(
        &mut self,
        base: String,
        scope: Scope,
        deref: DerefAliases,
        typesonly: bool,
        filter: String,
        attrs: Vec<String>,
    ) -> (r: Result<Submission, LdapError>)
        ensures
            match filter_of(encode_utf8(filter@)) {
                Parse::Read { value, .. } => {
                    &&& well_formed(final(self)@.mux)
                    &&& final(self)@ == (LdapModel {
                        mux: submitted(old(self)@.mux, SinkKind::Streaming),
                        ..unset(old(self)@)
                    })
                    &&& match r {
                        Ok(s) => can_issue(old(self)@.mux) && s.msgid == old(self)@.mux.next_id
                            && s.msgid >= 1 && s.kind == SinkKind::Streaming && s.timeout == old(
                            self,
                        )@.timeout && s.bytes@ == encoding(
                            message_value(
                                s.msgid as int,
                                search_request_value(
                                    base@,
                                    scope,
                                    Self::options_for(
                                        old(self)@.search_options,
                                        deref,
                                        typesonly,
                                    ),
                                    value,
                                    texts(attrs@),
                                ),
                                old(self)@.controls,
                            ),
                        ),
                        Err(e) => !can_issue(old(self)@.mux) && e == LdapError::Io,
                    }
                },
                Parse::Fail { position, reason } => {
                    &&& final(self)@ == unset(old(self)@)
                    &&& r matches Err(LdapError::FilterParse(e))
                    &&& e.position == position
                    &&& e.reason == reason
                },
            },
    {
        match self.search_op(base.as_str(), scope, deref, typesonly, filter.as_str(), &attrs) {
            Ok(op) => self.call(op),
            Err(e) => Err(e),
        }
    }

    /// Submits a search whose entries the caller consumes as they arrive.
    /// The request, and what becomes of the responses, is that of `search`.
    pub fn streaming_search(
        &mut self,
        base: String,
        scope: Scope,
        deref: DerefAliases,
        typesonly: bool,
        filter: String,
        attrs: Vec<String>,
    ) -> (r: Result<Submission, LdapError>)
        ensures
            match filter_of(encode_utf8(filter@)) {
                Parse::Read { value, .. } => {
                    &&& well_formed(final(self)@.mux)
                    &&& final(self)@ == (LdapModel {
                        mux: submitted(old(self)@.mux, SinkKind::Streaming),
                        ..unset(old(self)@)
                    })
                    &&& match r {
                        Ok(s) => can_issue(old(self)@.mux) && s.msgid == old(self)@.mux.next_id
                            && s.msgid >= 1 && s.kind == SinkKind::Streaming && s.timeout == old(
                            self,
                        )@.timeout && s.bytes@ == encoding(
                            message_value(
                                s.msgid as int,
                                search_request_value(
                                    base@,
                                    scope,
                                    Self::options_for(
                                        old(self)@.search_options,
                                        deref,
                                        typesonly,
                                    ),
                                    value,
                                    texts(attrs@),
                                ),
                                old(self)@.controls,
                            ),
                        ),
                        Err(e) => !can_issue(old(self)@.mux) && e == LdapError::Io,
                    }
                },
                Parse::Fail { position, reason } => {
                    &&& final(self)@ == unset(old(self)@)
                    &&& r matches Err(LdapError::FilterParse(e))
                    &&& e.position == position
                    &&& e.reason == reason
                },
            },
    {
        match self.search_op(base.as_str(), scope, deref, typesonly, filter.as_str(), &attrs) {
            Ok(op) => self.call(op),
            Err(e) => Err(e),
        }
    }

    /// Decides what becomes of the response `op` that came under the
    /// identifier `msgid`, and retires the operation that it completes.
    pub fn route(&mut self, msgid: i32, op: u64) -> (r: Route)
        ensures
            r == route_of(old(self)@.mux, msgid as int, op),
            final(self)@ == (LdapModel {
                mux: routed(old(self)@.mux, msgid as int, op),
                ..old(self)@
            }),
            well_formed(final(self)@.mux),
    {
        self.bundle.route(msgid, op)
    }

    /// The bookkeeping is well-formed at any time.
    fn settled(&self)
        ensures
            well_formed(self@.mux),
    {
        let _ = self.bundle.next_id();
    }

    /// Looks for a message at the start of the octets read so far, and
    /// decides what becomes of it. Without a whole message, and on octets
    /// that are no message, nothing changes.
    pub fn receive(&mut self, bytes: &[u8], strict: bool) -> (r: Received)
        ensures
            well_formed(final(self)@.mux),
            match parse(bytes@, strict) {
                Decoded::Incomplete => r == Received::NeedMore && final(self)@ == old(self)@,
                Decoded::Invalid => r == Received::Fatal && final(self)@ == old(self)@,
                Decoded::Done { value, end } => match message_of(value) {
                    None => r == Received::Fatal && final(self)@ == old(self)@,
                    Some(m) => {
                        &&& r matches Received::Message { used, route, message }
                        &&& used == end
                        &&& message@ == m
                        &&& route == route_of(old(self)@.mux, m.msgid, m.op.id)
                        &&& final(self)@ == (LdapModel {
                            mux: routed(old(self)@.mux, m.msgid, m.op.id),
                            ..old(self)@
                        })
                    },
                },
            },
    {
        let ghost before = self@;
        let found = match decode(bytes, strict) {
            Ok(found) => Some(found),
            Err(crate::parse::DecodeError::Incomplete) => {
                self.settled();
                return Received::NeedMore;
            },
            Err(crate::parse::DecodeError::Invalid) => None,
        };
        let message = match found {
            Some((tag, used)) => match parse_message(tag) {
                Ok(message) => Some((message, used)),
                Err(_) => None,
            },
            None => None,
        };
        match message {
            Some((message, used)) => {
                let route = self.bundle.route(message.msgid, message.op.id);
                Received::Message { used, route, message }
            },
            None => {
                self.settled();
                Received::Fatal
            },
        }
    }

    /// Acts on a message that the server sent unasked. On the notice of
    /// disconnection the connection ends and every operation that waited
    /// fails; anything else is ignored.
    pub fn unsolicited(&mut self, op: StructureTag) -> (r: Notice)
        ensures
            if is_disconnection(op@) {
                &&& r matches Notice::Disconnection(ids)
                &&& id_set(ids@) == old(self)@.mux.pending.dom()
                &&& forall|i: int, j: int| 0 <= i < j < ids@.len() ==> ids@[i] < ids@[j]
                &&& final(self)@ == (LdapModel { mux: disconnected(old(self)@.mux), ..old(self)@ })
            } else {
                r == Notice::Ignored && final(self)@ == old(self)@
            },
    {
        if op.class != crate::common::TagClass::Application || op.id != EXTENDED_RESPONSE {
            return Notice::Ignored;
        }
        let named = match parse_response(op) {
            Ok((_, exop)) => match exop.name {
                Some(name) => name == DISCONNECT_OID.to_owned(),
                None => false,
            },
            Err(_) => false,
        };
        if named {
            Notice::Disconnection(self.bundle.disconnect())
        } else {
            Notice::Ignored
        }
    }

    /// Whether the transport may be replaced by a secured one: the
    /// connection lives and nothing is in flight.
    pub fn can_upgrade(&self) -> (r: bool)
        ensures
            r == (!self@.mux.terminal && self@.mux.pending.dom().len() == 0),
    {
        self.bundle.is_quiescent()
    }

    /// Decides what the operation `msgid` is told when its deadline passes:
    /// nothing if it had finished or awaited nothing, a timeout error if it
    /// is a single operation, the result that ends a search with the timeout
    /// code if it is a search. An operation that still waited is retired and
    /// remembered as given up.
    pub fn timed_out(&mut self, msgid: i32) -> (r: Option<Result<LdapResult, LdapError>>)
        ensures
            final(self)@ == (LdapModel { mux: expired(old(self)@.mux, msgid as int), ..old(self)@ }),
            well_formed(final(self)@.mux),
            match expiry_of(old(self)@.mux, msgid as int) {
                Expiry::Nothing => r.is_none(),
                Expiry::FailSingle => r == Some(
                    Err::<LdapResult, LdapError>(LdapError::Timeout),
                ),
                Expiry::SynthesizeDone => r matches Some(Ok(result)) && timeout_result(result),
            },
    {
        match self.bundle.timeout(msgid) {
            Expiry::Nothing => None,
            Expiry::FailSingle => Some(Err(LdapError::Timeout)),
            Expiry::SynthesizeDone => Some(
                Ok(
                    LdapResult {
                        rc: RC_TIMEOUT,
                        matched: String::new(),
                        text: String::new(),
                        refs: Vec::new(),
                    },
                ),
            ),
        }
    }

    /// Gives up the operation `msgid`. The abandon request is encoded under
    /// the next identifier if one is left; the sink of the operation is to
    /// be closed as cancelled if it still waited.
    pub fn abandon(&mut self, msgid: i32) -> (r: (Abandon, Option<Vec<u8>>))
        ensures
            final(self)@ == (LdapModel {
                mux: abandoned(old(self)@.mux, msgid as int),
                ..old(self)@
            }),
            well_formed(final(self)@.mux),
            r.0.close_sink == old(self)@.mux.pending.dom().contains(msgid as int),
            r.0.request_id == if can_issue(old(self)@.mux) {
                Some(old(self)@.mux.next_id as i32)
            } else {
                None
            },
            match r.0.request_id {
                Some(id) => r.1 matches Some(bytes) && bytes@ == encoding(
                    message_value(
                        id as int,
                        crate::filter::leaf(
                            crate::common::TagClass::Application,
                            crate::messages::ABANDON_REQUEST,
                            crate::structures::integer::int_octets(msgid as int),
                        ),
                        None,
                    ),
                ),
                None => r.1.is_none(),
            },
    {
        let decision = self.bundle.abandon(msgid);
        let bytes = match decision.request_id {
            Some(id) => Some(encode_message(id, crate::messages::abandon_request(msgid), None)),
            None => None,
        };
        (decision, bytes)
    }

    /// Ends the connection. The identifiers of the operations that waited
    /// come back in rising order: each of them fails.
    pub fn disconnect(&mut self) -> (ids: Vec<i32>)
        ensures
            final(self)@ == (LdapModel { mux: disconnected(old(self)@.mux), ..old(self)@ }),
            id_set(ids@) == old(self)@.mux.pending.dom(),
            forall|i: int, j: int| 0 <= i < j < ids@.len() ==> ids@[i] < ids@[j],
    {
        self.bundle.disconnect()
    }
}

/// Additional settings for an LDAP connection.
///
/// An instance with default values is constructed by `new()`, and all
/// available settings can be replaced through a builder-like interface.
#[derive(Clone, Copy, Debug)]
pub struct LdapConnSettings {
    conn_timeout: Option<Duration>,
    starttls: bool,
    no_tls_verify: bool,
}

impl LdapConnSettings {
    /// The timeout for establishing the connection; none means no limit.
    pub closed spec fn conn_timeout(self) -> Option<Duration> {
        self.conn_timeout
    }

    /// Whether the connection is secured by the StartTLS operation.
    pub closed spec fn starttls(self) -> bool {
        self.starttls
    }

    /// Whether the certificate of the server goes unverified.
    pub closed spec fn no_tls_verify(self) -> bool {
        self.no_tls_verify
    }

    /// Create an instance of the structure with default settings: no
    /// timeout, no StartTLS, certificates are verified.
    pub fn new() -> (r: LdapConnSettings)
        ensures
            r.conn_timeout().is_none(),
            !r.starttls(),
            !r.no_tls_verify(),
    {
        LdapConnSettings { conn_timeout: None, starttls: false, no_tls_verify: false }
    }

    /// Set the connection timeout.
    pub fn set_conn_timeout(self, timeout: Duration) -> (r: Self)
        ensures
            r.conn_timeout() == Some(timeout),
            r.starttls() == self.starttls(),
            r.no_tls_verify() == self.no_tls_verify(),
    {
        LdapConnSettings { conn_timeout: Some(timeout), ..self }
    }

    /// If `true`, use the StartTLS extended operation to establish a secure connection.
    pub fn set_starttls(self, starttls: bool) -> (r: Self)
        ensures
            r.starttls() == starttls,
            r.conn_timeout() == self.conn_timeout(),
            r.no_tls_verify() == self.no_tls_verify(),
    {
        LdapConnSettings { starttls, ..self }
    }

    /// If `true`, try to establish a TLS connection without certificate verification.
    pub fn set_no_tls_verify(self, no_tls_verify: bool) -> (r: Self)
        ensures
            r.no_tls_verify() == no_tls_verify,
            r.conn_timeout() == self.conn_timeout(),
            r.starttls() == self.starttls(),
    {
        LdapConnSettings { no_tls_verify, ..self }
    }

    /// The timeout for establishing the connection.
    pub fn get_conn_timeout(&self) -> (r: Option<Duration>)
        ensures
            r == self.conn_timeout(),
    {
        self.conn_timeout
    }

    /// Whether the certificate of the server goes unverified.
    pub fn get_no_tls_verify(&self) -> (r: bool)
        ensures
            r == self.no_tls_verify(),
    {
        self.no_tls_verify
    }
}

impl Default for LdapConnSettings {
    fn default() -> (r: LdapConnSettings)
        ensures
            r.conn_timeout().is_none(),
            !r.starttls(),
            !r.no_tls_verify(),
    {
        LdapConnSettings::new()
    }
}

/// Whether the connection is secured by the StartTLS operation.
pub fn is_starttls(settings: &LdapConnSettings) -> (r: bool)
    ensures
        r == settings.starttls(),
{
    settings.starttls
}

} // verus!
