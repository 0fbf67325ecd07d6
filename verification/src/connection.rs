//! One client connection of the proxy, as a state machine: the proxy reads a
//! message from the client or the outcome of an outside step, decides, and
//! answers with the actions to perform (sending to the client, forwarding to
//! the relays, ending the connection).

use vstd::prelude::*;
use vstd::string::StringExecFns;
use crate::cache::{EventCache, Entry, has_key, entries_after_get, entries_after_put, query_result,
    get_result, entries_wf};
use crate::event::{SignedEvent, EventFilter, EventView, FilterView, parsed_event, parsed_filter,
    event_submission_text, ok_message_text, event_message_text, req_message_text, cacheable_kind, strings_view,
    ok_message_json, event_message_json, req_message_json, event_submission_json};
use crate::frame::{WsFrame, WsFrameView, frame_text};
use crate::json::{JsonItem, JsonItemView, items_view, json_array_items, parse_json_array};

verus! {

/// The number of events each connection keeps in its cache.
pub const CACHE_CAPACITY: usize = 10000;

/// Why a connection ended with an error.
pub enum ProxyError {
    /// The WebSocket failed; the text is the WebSocket error's message.
    WsError(String),
    /// The client sent a command the proxy could not accept.
    ValidationError(String),
    ConnectionClosed,
}

pub enum ProxyErrorView {
    WsError(Seq<char>),
    ValidationError(Seq<char>),
    ConnectionClosed,
}

impl View for ProxyError {
    type V = ProxyErrorView;

    open spec fn view(&self) -> ProxyErrorView {
        match self {
            ProxyError::WsError(e) => ProxyErrorView::WsError(e@),
            ProxyError::ValidationError(m) => ProxyErrorView::ValidationError(m@),
            ProxyError::ConnectionClosed => ProxyErrorView::ConnectionClosed,
        }
    }
}

/// The message of an error, as the proxy displays it.
pub open spec fn error_text(e: ProxyErrorView) -> Seq<char> {
    match e {
        ProxyErrorView::WsError(m) => "WebSocket error: "@ + m,
        ProxyErrorView::ValidationError(m) => "Event validation failed: "@ + m,
        ProxyErrorView::ConnectionClosed => "Connection closed"@,
    }
}

impl ProxyError {
    /// The message of the error.
    pub fn message(&self) -> (r: String)
        ensures
            r@ == error_text(self@),
    {
        match self {
            ProxyError::WsError(e) => {
                let mut m = "WebSocket error: ".to_owned();
                m.append(e.as_str());
                m
            }
            ProxyError::ValidationError(e) => {
                let mut m = "Event validation failed: ".to_owned();
                m.append(e.as_str());
                m
            }
            ProxyError::ConnectionClosed => "Connection closed".to_owned(),
        }
    }
}

/// What the connection is waiting for.
pub enum Phase {
    /// The next message from the client.
    Ready,
    /// The relays' reply to the forwarded event with this id.
    AwaitingReply([u8; 32]),
    /// The outcome of sending a relay's reply to the client, for the event with this id.
    AwaitingSent([u8; 32]),
    /// Nothing: the connection has ended.
    Finished,
}

pub enum PhaseView {
    Ready,
    AwaitingReply(Seq<u8>),
    AwaitingSent(Seq<u8>),
    Finished,
}

impl View for Phase {
    type V = PhaseView;

    open spec fn view(&self) -> PhaseView {
        match self {
            Phase::Ready => PhaseView::Ready,
            Phase::AwaitingReply(id) => PhaseView::AwaitingReply(id@),
            Phase::AwaitingSent(id) => PhaseView::AwaitingSent(id@),
            Phase::Finished => PhaseView::Finished,
        }
    }
}

/// What happened outside the connection since its last step.
pub enum Input {
    /// The client sent a message.
    Client(WsFrame),
    /// Reading from the client failed with this WebSocket error.
    ClientError(String),
    /// The client's stream ended.
    ClientEnded,
    /// The first reply of a relay to the forwarded event, or nothing when no
    /// relay replied within the time allowed.
    RelayReply(Option<WsFrame>),
    /// The outcome of a `SendReport` action: nothing, or the WebSocket error.
    Sent(Option<String>),
    /// A `Send` action failed with this WebSocket error.
    SendFailed(String),
}

pub enum InputView {
    Client(WsFrameView),
    ClientError(Seq<char>),
    ClientEnded,
    RelayReply(Option<WsFrameView>),
    Sent(Option<Seq<char>>),
    SendFailed(Seq<char>),
}

impl View for Input {
    type V = InputView;

    open spec fn view(&self) -> InputView {
        match self {
            Input::Client(f) => InputView::Client(f@),
            Input::ClientError(e) => InputView::ClientError(e@),
            Input::ClientEnded => InputView::ClientEnded,
            Input::RelayReply(Some(f)) => InputView::RelayReply(Some(f@)),
            Input::RelayReply(None) => InputView::RelayReply(None),
            Input::Sent(Some(e)) => InputView::Sent(Some(e@)),
            Input::Sent(None) => InputView::Sent(None),
            Input::SendFailed(e) => InputView::SendFailed(e@),
        }
    }
}

/// What the connection asks to be done, in order.
pub enum Action {
    /// Send this message to the client; when that fails, the rest of the
    /// actions are dropped and the failure is reported with `Input::SendFailed`.
    Send(WsFrame),
    /// Send this message to the client and report the outcome with `Input::Sent`.
    SendReport(WsFrame),
    /// Send this text to every relay and report the first reply with `Input::RelayReply`.
    ForwardEvent(String),
    /// Send this `REQ` text to every relay and wait until the first has been sent.
    ForwardReq(String),
    /// The connection ends, with this outcome.
    Finish(Result<(), ProxyError>),
}

pub enum ActionView {
    Send(WsFrameView),
    SendReport(WsFrameView),
    ForwardEvent(Seq<char>),
    ForwardReq(Seq<char>),
    Finish(Result<(), ProxyErrorView>),
}

impl View for Action {
    type V = ActionView;

    open spec fn view(&self) -> ActionView {
        match self {
            Action::Send(f) => ActionView::Send(f@),
            Action::SendReport(f) => ActionView::SendReport(f@),
            Action::ForwardEvent(t) => ActionView::ForwardEvent(t@),
            Action::ForwardReq(t) => ActionView::ForwardReq(t@),
            Action::Finish(Ok(())) => ActionView::Finish(Ok(())),
            Action::Finish(Err(e)) => ActionView::Finish(Err(e@)),
        }
    }
}

pub open spec fn actions_view(v: Vec<Action>) -> Seq<ActionView> {
    v@.map_values(|a: Action| a@)
}

/// A client connection: the relays it forwards to, its event cache, and what it waits for.
pub struct Connection {
    pub relay_urls: Vec<String>,
    pub cache: EventCache,
    pub phase: Phase,
}

pub struct ConnectionView {
    pub relay_urls: Seq<Seq<char>>,
    pub entries: Seq<Entry>,
    pub capacity: nat,
    pub phase: PhaseView,
}

impl View for Connection {
    type V = ConnectionView;

    open spec fn view(&self) -> ConnectionView {
        ConnectionView {
            relay_urls: strings_view(self.relay_urls),
            entries: self.cache.entries(),
            capacity: self.cache.capacity(),
            phase: self.phase@,
        }
    }
}

impl Connection {
    pub open spec fn wf(&self) -> bool {
        self.cache.wf()
    }
}

// ------------------------------------------------------------------
// The specification of a step

impl ConnectionView {
    pub open spec fn with_entries(self, entries: Seq<Entry>) -> ConnectionView {
        ConnectionView { entries, ..self }
    }

    pub open spec fn with_phase(self, phase: PhaseView) -> ConnectionView {
        ConnectionView { phase, ..self }
    }

    /// The entries after storing `e` if its kind is cached.
    pub open spec fn entries_with(self, e: EventView) -> Seq<Entry> {
        if cacheable_kind(e.kind) {
            entries_after_put(self.entries, self.capacity, e.id, e)
        } else {
            self.entries
        }
    }
}

/// The answer to a duplicate event.
pub open spec fn duplicate_text() -> Seq<char> {
    "duplicate: event already known"@
}

/// Sending an `OK` answer for the event with this id.
pub open spec fn ok_action(id: Seq<u8>, status: bool, message: Seq<char>) -> ActionView {
    ActionView::Send(WsFrameView::Text(ok_message_text(id, status, message)))
}

/// Ending the connection with an error.
pub open spec fn fail(s: ConnectionView, e: ProxyErrorView) -> (ConnectionView, Seq<ActionView>) {
    (s.with_phase(PhaseView::Finished), seq![ActionView::Finish(Err(e))])
}

/// Ending the connection on a command the proxy rejects.
pub open spec fn reject(s: ConnectionView, message: Seq<char>) -> (ConnectionView, Seq<ActionView>) {
    fail(s, ProxyErrorView::ValidationError(message))
}

/// The filters of a `REQ` that parse, in order; the others are skipped.
pub open spec fn req_filters(items: Seq<JsonItemView>) -> Seq<FilterView>
    decreases items.len(),
{
    if items.len() == 0 {
        Seq::empty()
    } else {
        let rest = req_filters(items.drop_last());
        match parsed_filter(items.last().text) {
            Some(f) => rest.push(f),
            None => rest,
        }
    }
}

/// Sending each event on the subscription.
pub open spec fn event_sends(subscription: Seq<char>, events: Seq<EventView>) -> Seq<ActionView> {
    events.map_values(
        |e: EventView| ActionView::Send(WsFrameView::Text(event_message_text(subscription, e))),
    )
}

/// Sending the cached events of each filter, filter after filter.
pub open spec fn cached_sends(subscription: Seq<char>, es: Seq<Entry>, fs: Seq<FilterView>) -> Seq<
    ActionView,
>
    decreases fs.len(),
{
    if fs.len() == 0 {
        Seq::empty()
    } else {
        cached_sends(subscription, es, fs.drop_last()) + event_sends(
            subscription,
            query_result(es, fs.last()),
        )
    }
}

/// Forwarding a `REQ` for each filter to the relays.
pub open spec fn req_forwards(subscription: Seq<char>, fs: Seq<FilterView>) -> Seq<ActionView> {
    fs.map_values(|f: FilterView| ActionView::ForwardReq(req_message_text(subscription, f)))
}

/// `["EVENT", event]`: an event the proxy already knows is answered at once;
/// a new one is cached (when its kind is) and forwarded to the relays.
pub open spec fn event_step(s: ConnectionView, items: Seq<JsonItemView>) -> (ConnectionView, Seq<ActionView>) {
    if items.len() < 2 {
        reject(s, "Invalid EVENT command"@)
    } else {
        match parsed_event(items[1].text) {
            None => reject(s, "Invalid event format"@),
            Some(e) => if has_key(s.entries, e.id) {
                (
                    s.with_entries(entries_after_get(s.entries, e.id)),
                    seq![ok_action(e.id, true, duplicate_text())],
                )
            } else {
                (
                    s.with_entries(s.entries_with(e)).with_phase(PhaseView::AwaitingReply(e.id)),
                    seq![ActionView::ForwardEvent(event_submission_text(e))],
                )
            },
        }
    }
}

/// `["REQ", subscription, filter, ...]`: the cached events of each filter are
/// sent, then each filter is forwarded to the relays.
pub open spec fn req_step(s: ConnectionView, items: Seq<JsonItemView>) -> (ConnectionView, Seq<ActionView>) {
    if items.len() < 3 {
        reject(s, "REQ command requires at least 3 elements"@)
    } else {
        match items[1].string {
            None => reject(s, "Subscription ID must be a string"@),
            Some(sub) => {
                let fs = req_filters(items.skip(2));
                if fs.len() == 0 {
                    reject(s, "No valid filters found in REQ command"@)
                } else {
                    (s, cached_sends(sub, s.entries, fs) + req_forwards(sub, fs))
                }
            },
        }
    }
}

/// `["CLOSE", subscription]`: checked, nothing else.
pub open spec fn close_step(s: ConnectionView, items: Seq<JsonItemView>) -> (ConnectionView, Seq<ActionView>) {
    if items.len() < 2 {
        reject(s, "Invalid CLOSE command"@)
    } else if items[1].string is None {
        reject(s, "Subscription ID must be a string"@)
    } else {
        (s, seq![])
    }
}

/// A JSON array from the client: a Nostr command, chosen by its first element.
pub open spec fn command_step(s: ConnectionView, items: Seq<JsonItemView>) -> (ConnectionView, Seq<ActionView>) {
    if items.len() == 0 || items[0].string is None {
        reject(s, "Invalid command format"@)
    } else {
        let cmd = items[0].string->0;
        if cmd == "EVENT"@ {
            event_step(s, items)
        } else if cmd == "REQ"@ {
            req_step(s, items)
        } else if cmd == "CLOSE"@ {
            close_step(s, items)
        } else {
            (s, seq![])
        }
    }
}

/// A message from the client.
pub open spec fn message_step(s: ConnectionView, f: WsFrameView) -> (ConnectionView, Seq<ActionView>) {
    match f {
        WsFrameView::Text(t) => match json_array_items(t) {
            Some(items) => command_step(s, items),
            None => (s, seq![]),
        },
        WsFrameView::Ping(d) => (s, seq![ActionView::Send(WsFrameView::Pong(d))]),
        WsFrameView::Close(c) => (
            s.with_phase(PhaseView::Finished),
            seq![ActionView::Send(WsFrameView::Close(c)), ActionView::Finish(Ok(()))],
        ),
        _ => (s, seq![]),
    }
}

/// The relays' reply to a forwarded event: a reply that is an event is cached
/// (when its kind is), in place of any stored event with its id, and is passed
/// to the client only when the cache did not hold its id before, so that an
/// event is not sent twice. Then the client gets its `OK`.
pub open spec fn reply_step(s: ConnectionView, id: Seq<u8>, reply: Option<WsFrameView>) -> (
    ConnectionView,
    Seq<ActionView>,
) {
    let done = (s.with_phase(PhaseView::Ready), seq![ok_action(id, true, Seq::empty())]);
    match reply {
        None => done,
        Some(f) => match frame_text(f) {
            None => done,
            Some(t) => match parsed_event(t) {
                None => done,
                Some(e) => if has_key(s.entries, e.id) {
                    (
                        s.with_entries(s.entries_with(e)).with_phase(PhaseView::Ready),
                        seq![ok_action(id, true, Seq::empty())],
                    )
                } else {
                    (
                        s.with_entries(s.entries_with(e)).with_phase(PhaseView::AwaitingSent(id)),
                        seq![ActionView::SendReport(WsFrameView::Text(t))],
                    )
                },
            },
        },
    }
}

/// The outcome of passing a relay's reply on: the client's `OK` says whether it went through.
pub open spec fn sent_step(s: ConnectionView, id: Seq<u8>, outcome: Option<Seq<char>>) -> (
    ConnectionView,
    Seq<ActionView>,
) {
    (
        s.with_phase(PhaseView::Ready),
        seq![
            match outcome {
                None => ok_action(id, true, Seq::empty()),
                Some(e) => ok_action(id, false, error_text(ProxyErrorView::WsError(e))),
            },
        ],
    )
}

/// One step of the connection: the new state and the actions, for an input.
/// Inputs the connection does not wait for change nothing.
pub open spec fn step_spec(s: ConnectionView, input: InputView) -> (ConnectionView, Seq<ActionView>) {
    let ignore = (s, Seq::<ActionView>::empty());
    if s.phase is Finished {
        ignore
    } else {
        match input {
            InputView::SendFailed(e) => fail(s, ProxyErrorView::WsError(e)),
            InputView::Client(f) => if s.phase is Ready { message_step(s, f) } else { ignore },
            InputView::ClientError(e) => if s.phase is Ready {
                fail(s, ProxyErrorView::WsError(e))
            } else {
                ignore
            },
            InputView::ClientEnded => if s.phase is Ready {
                (s.with_phase(PhaseView::Finished), seq![ActionView::Finish(Ok(()))])
            } else {
                ignore
            },
            InputView::RelayReply(r) => match s.phase {
                PhaseView::AwaitingReply(id) => reply_step(s, id, r),
                _ => ignore,
            },
            InputView::Sent(o) => match s.phase {
                PhaseView::AwaitingSent(id) => sent_step(s, id, o),
                _ => ignore,
            },
        }
    }
}

// ------------------------------------------------------------------
// The steps

impl Connection {
    /// A new connection forwarding to these relays, with an empty cache.
    pub fn new(relay_urls: Vec<String>) -> (r: Connection)
        ensures
            r.wf(),
            r@.relay_urls == strings_view(relay_urls),
            r@.entries == Seq::<Entry>::empty(),
            r@.capacity == CACHE_CAPACITY,
            r@.phase == PhaseView::Ready,
    {
        Connection { relay_urls, cache: EventCache::new(CACHE_CAPACITY), phase: Phase::Ready }
    }

    /// Ends the connection with an error.
    fn finish(&mut self, e: ProxyError) -> (r: Vec<Action>)
        requires
            old(self).wf(),
        ensures
            final(self).wf(),
            (final(self)@, actions_view(r)) == fail(old(self)@, e@),
    {
        self.phase = Phase::Finished;
        let mut r = Vec::new();
        r.push(Action::Finish(Err(e)));
        proof {
            assert(actions_view(r) =~= seq![ActionView::Finish(Err(e@))]);
        }
        r
    }

    /// Ends the connection on a command it rejects.
    fn reject(&mut self, message: &str) -> (r: Vec<Action>)
        requires
            old(self).wf(),
        ensures
            final(self).wf(),
            (final(self)@, actions_view(r)) == reject(old(self)@, message@),
    {
        self.finish(ProxyError::ValidationError(message.to_owned()))
    }

    /// The `OK` answer for an event.
    fn send_ok_response(event_id: &[u8; 32], status: bool, message: &str) -> (r: Action)
        ensures
            r@ == ok_action(event_id@, status, message@),
    {
        Action::Send(WsFrame::text(ok_message_json(event_id, status, message)))
    }

    /// An event sent on a subscription.
    fn send_event(subscription: &str, event: &SignedEvent) -> (r: Action)
        requires
            event.wf(),
        ensures
            r@ == ActionView::Send(WsFrameView::Text(event_message_text(subscription@, event@))),
    {
        Action::Send(WsFrame::text(event_message_json(subscription, event)))
    }

    /// Stores the event when its kind is cached.
    fn cache_if_cacheable(&mut self, event: SignedEvent)
        requires
            old(self).wf(),
            event.wf(),
        ensures
            final(self).wf(),
            final(self)@ == old(self)@.with_entries(old(self)@.entries_with(event@)),
    {
        if EventCache::is_cacheable_event(&event) {
            self.cache.set(event);
        }
    }

    /// An `EVENT` command, given as the elements of its JSON array: a known event
    /// is answered as a duplicate; a new one is cached (when its kind is) and
    /// forwarded to the relays.
    pub fn handle_event_command(&mut self, command: &Vec<JsonItem>) -> (r: Vec<Action>)
        requires
            old(self).wf(),
        ensures
            final(self).wf(),
            (final(self)@, actions_view(r)) == event_step(old(self)@, items_view(*command)),
    {
        proof {
            assert(items_view(*command).len() == command@.len());
        }
        if command.len() < 2 {
            return self.reject("Invalid EVENT command");
        }
        proof {
            assert(items_view(*command)[1] == command@[1]@);
        }
        let event = match SignedEvent::from_json(command[1].text.as_str()) {
            Some(e) => e,
            None => {
                return self.reject("Invalid event format");
            },
        };
        let id = event.id;
        let known = self.cache.get(&id);
        if known.is_some() {
            let mut r = Vec::new();
            r.push(Self::send_ok_response(&id, true, "duplicate: event already known"));
            proof {
                assert(actions_view(r) =~= seq![ok_action(id@, true, duplicate_text())]);
            }
            return r;
        }
        let json = event_submission_json(&event);
        self.cache_if_cacheable(event);
        self.phase = Phase::AwaitingReply(id);
        let mut r = Vec::new();
        r.push(Action::ForwardEvent(json));
        proof {
            assert(actions_view(r) =~= seq![ActionView::ForwardEvent(json@)]);
        }
        r
    }

    /// A `REQ` command, given as the elements of its JSON array: the cached events
    /// that match each filter are sent, then the request goes to the relays.
    pub fn handle_req_command(&mut self, command: &Vec<JsonItem>) -> (r: Vec<Action>)
        requires
            old(self).wf(),
        ensures
            final(self).wf(),
            (final(self)@, actions_view(r)) == req_step(old(self)@, items_view(*command)),
    {
        let ghost items = items_view(*command);
        proof {
            assert(items.len() == command@.len());
        }
        if command.len() < 3 {
            return self.reject("REQ command requires at least 3 elements");
        }
        proof {
            assert(items[1] == command@[1]@);
        }
        let sub = match &command[1].string {
            Some(s) => s,
            None => {
                return self.reject("Subscription ID must be a string");
            },
        };
        let mut filters: Vec<EventFilter> = Vec::new();
        let mut i: usize = 2;
        while i < command.len()
            invariant
                2 <= i <= command@.len(),
                items == items_view(*command),
                items.len() == command@.len(),
                filters@.map_values(|f: EventFilter| f@) == req_filters(items.subrange(2, i as int)),
                forall|k: int| 0 <= k < filters@.len() ==> (#[trigger] filters@[k]).wf(),
            decreases command@.len() - i,
        {
            proof {
                assert(items[i as int] == command@[i as int]@);
                assert(items.subrange(2, i + 1).drop_last() =~= items.subrange(2, i as int));
            }
            match EventFilter::from_json(command[i].text.as_str()) {
                Some(f) => {
                    filters.push(f);
                    proof {
                        assert(filters@.map_values(|f: EventFilter| f@) =~= req_filters(
                            items.subrange(2, i as int),
                        ).push(f@));
                    }
                },
                None => {},
            }
            i = i + 1;
        }
        let ghost fs = filters@.map_values(|f: EventFilter| f@);
        proof {
            assert(items.subrange(2, command@.len() as int) =~= items.skip(2));
        }
        if filters.len() == 0 {
            return self.reject("No valid filters found in REQ command");
        }
        let ghost es = self@.entries;
        let mut actions: Vec<Action> = Vec::new();
        let mut j: usize = 0;
        while j < filters.len()
            invariant
                j <= filters@.len(),
                self.wf(),
                es == self@.entries,
                fs == filters@.map_values(|f: EventFilter| f@),
                forall|k: int| 0 <= k < filters@.len() ==> (#[trigger] filters@[k]).wf(),
                actions_view(actions) == cached_sends(sub@, es, fs.take(j as int)),
            decreases filters@.len() - j,
        {
            let cached = self.cache.query(&filters[j]);
            let ghost qs = cached@.map_values(|e: SignedEvent| e@);
            let ghost before = actions_view(actions);
            let mut k: usize = 0;
            while k < cached.len()
                invariant
                    k <= cached@.len(),
                    qs == cached@.map_values(|e: SignedEvent| e@),
                    forall|m: int| 0 <= m < cached@.len() ==> (#[trigger] cached@[m]).wf(),
                    actions_view(actions) == before + event_sends(sub@, qs.take(k as int)),
                decreases cached@.len() - k,
            {
                let a = Self::send_event(sub.as_str(), &cached[k]);
                let ghost prev = actions_view(actions);
                let ghost av = a@;
                actions.push(a);
                proof {
                    assert(actions_view(actions) =~= prev.push(av));
                    assert(qs[k as int] == cached@[k as int]@);
                    assert(qs.take(k + 1) =~= qs.take(k as int).push(qs[k as int]));
                    assert(event_sends(sub@, qs.take(k + 1)) =~= event_sends(sub@, qs.take(k as int)).push(av));
                }
                k = k + 1;
            }
            proof {
                assert(qs.take(cached@.len() as int) =~= qs);
                assert(fs.take(j + 1).drop_last() =~= fs.take(j as int));
                assert(fs.take(j + 1).last() == fs[j as int]);
            }
            j = j + 1;
        }
        proof {
            assert(fs.take(filters@.len() as int) =~= fs);
        }
        let ghost sends = actions_view(actions);
        let mut j: usize = 0;
        while j < filters.len()
            invariant
                j <= filters@.len(),
                fs == filters@.map_values(|f: EventFilter| f@),
                forall|k: int| 0 <= k < filters@.len() ==> (#[trigger] filters@[k]).wf(),
                actions_view(actions) == sends + req_forwards(sub@, fs.take(j as int)),
            decreases filters@.len() - j,
        {
            let a = Action::ForwardReq(req_message_json(sub.as_str(), &filters[j]));
            let ghost prev = actions_view(actions);
            let ghost av = a@;
            actions.push(a);
            proof {
                assert(actions_view(actions) =~= prev.push(av));
                assert(fs[j as int] == filters@[j as int]@);
                assert(fs.take(j + 1) =~= fs.take(j as int).push(fs[j as int]));
                assert(req_forwards(sub@, fs.take(j + 1)) =~= req_forwards(sub@, fs.take(j as int)).push(av));
            }
            j = j + 1;
        }
        proof {
            assert(fs.take(filters@.len() as int) =~= fs);
        }
        actions
    }

    /// A `CLOSE` command, given as the elements of its JSON array: checked, and
    /// otherwise nothing to do.
    pub fn handle_close_command(&mut self, command: &Vec<JsonItem>) -> (r: Vec<Action>)
        requires
            old(self).wf(),
        ensures
            final(self).wf(),
            (final(self)@, actions_view(r)) == close_step(old(self)@, items_view(*command)),
    {
        proof {
            assert(items_view(*command).len() == command@.len());
        }
        if command.len() < 2 {
            return self.reject("Invalid CLOSE command");
        }
        proof {
            assert(items_view(*command)[1] == command@[1]@);
        }
        if command[1].string.is_none() {
            return self.reject("Subscription ID must be a string");
        }
        let r = Vec::new();
        proof {
            assert(actions_view(r) =~= seq![]);
        }
        r
    }

    /// A Nostr command, given as the elements of its JSON array: chosen by its
    /// first element.
    pub fn handle_nostr_command(&mut self, command: &Vec<JsonItem>) -> (r: Vec<Action>)
        requires
            old(self).wf(),
        ensures
            final(self).wf(),
            (final(self)@, actions_view(r)) == command_step(old(self)@, items_view(*command)),
    {
        proof {
            assert(items_view(*command).len() == command@.len());
        }
        if command.len() == 0 {
            return self.reject("Invalid command format");
        }
        proof {
            assert(items_view(*command)[0] == command@[0]@);
        }
        let cmd_type = match &command[0].string {
            Some(s) => s,
            None => {
                return self.reject("Invalid command format");
            },
        };
        if cmd_type.eq(&"EVENT".to_owned()) {
            self.handle_event_command(command)
        } else if cmd_type.eq(&"REQ".to_owned()) {
            self.handle_req_command(command)
        } else if cmd_type.eq(&"CLOSE".to_owned()) {
            self.handle_close_command(command)
        } else {
            let r = Vec::new();
            proof {
                assert(actions_view(r) =~= seq![]);
            }
            r
        }
    }

    /// A frame from the client: a text that is a JSON array is a Nostr command, a
    /// ping is answered, a close ends the connection.
    pub fn handle_message(&mut self, msg: WsFrame) -> (r: Vec<Action>)
        requires
            old(self).wf(),
        ensures
            final(self).wf(),
            (final(self)@, actions_view(r)) == message_step(old(self)@, msg@),
    {
        let mut r = Vec::new();
        match msg {
            WsFrame::Text(text) => {
                match parse_json_array(text.as_str()) {
                    Some(items) => {
                        return self.handle_nostr_command(&items);
                    },
                    None => {},
                }
            },
            WsFrame::Ping(data) => {
                r.push(Action::Send(WsFrame::Pong(data)));
            },
            WsFrame::Close(frame) => {
                r.push(Action::Send(WsFrame::Close(frame)));
                r.push(Action::Finish(Ok(())));
                self.phase = Phase::Finished;
            },
            _ => {},
        }
        proof {
            assert(actions_view(r) =~= message_step(old(self)@, msg@).1);
        }
        r
    }

    /// The relays' reply (if any came) to the event with this id, as `reply_step` says.
    pub fn process_response(&mut self, event_id: [u8; 32], response: Option<WsFrame>) -> (r: Vec<Action>)
        requires
            old(self).wf(),
        ensures
            final(self).wf(),
            (final(self)@, actions_view(r)) == reply_step(old(self)@, event_id@, match response {
                Some(f) => Some(f@),
                None => None,
            }),
    {
        let mut r = Vec::new();
        if let Some(frame) = response {
            if let Some(text) = frame.to_text() {
                if let Some(event) = SignedEvent::from_json(text.as_str()) {
                    let known = self.cache.contains(&event.id);
                    self.cache_if_cacheable(event);
                    if known {
                        self.phase = Phase::Ready;
                        let empty = String::new();
                        r.push(Self::send_ok_response(&event_id, true, empty.as_str()));
                        proof {
                            assert(actions_view(r) =~= seq![ok_action(event_id@, true, Seq::empty())]);
                        }
                        return r;
                    }
                    self.phase = Phase::AwaitingSent(event_id);
                    let ghost t = text@;
                    r.push(Action::SendReport(WsFrame::Text(text)));
                    proof {
                        assert(actions_view(r) =~= seq![ActionView::SendReport(WsFrameView::Text(t))]);
                    }
                    return r;
                }
            }
        }
        self.phase = Phase::Ready;
        let empty = String::new();
        r.push(Self::send_ok_response(&event_id, true, empty.as_str()));
        proof {
            assert(actions_view(r) =~= seq![ok_action(event_id@, true, Seq::empty())]);
        }
        r
    }

    /// One step: takes what happened and returns what to do, as `step_spec` says.
    pub fn step(&mut self, input: Input) -> (r: Vec<Action>)
        requires
            old(self).wf(),
        ensures
            final(self).wf(),
            (final(self)@, actions_view(r)) == step_spec(old(self)@, input@),
    {
        let ready = match self.phase {
            Phase::Finished => {
                let r = Vec::new();
                proof {
                    assert(actions_view(r) =~= seq![]);
                }
                return r;
            },
            Phase::Ready => true,
            _ => false,
        };
        let mut r = Vec::new();
        match input {
            Input::SendFailed(e) => {
                return self.finish(ProxyError::WsError(e));
            },
            Input::Client(f) => {
                if ready {
                    return self.handle_message(f);
                }
            },
            Input::ClientError(e) => {
                if ready {
                    return self.finish(ProxyError::WsError(e));
                }
            },
            Input::ClientEnded => {
                if ready {
                    self.phase = Phase::Finished;
                    r.push(Action::Finish(Ok(())));
                }
            },
            Input::RelayReply(reply) => {
                if let Phase::AwaitingReply(id) = self.phase {
                    return self.process_response(id, reply);
                }
            },
            Input::Sent(outcome) => {
                if let Phase::AwaitingSent(id) = self.phase {
                    self.phase = Phase::Ready;
                    match outcome {
                        None => {
                            let empty = String::new();
                            r.push(Self::send_ok_response(&id, true, empty.as_str()));
                        },
                        Some(e) => {
                            let message = ProxyError::WsError(e).message();
                            r.push(Self::send_ok_response(&id, false, message.as_str()));
                        },
                    }
                }
            },
        }
        proof {
            assert(actions_view(r) =~= step_spec(old(self)@, input@).1);
        }
        r
    }
}

// ------------------------------------------------------------------
// Laws

/// The client text is `["EVENT", e, ...]`: a JSON array whose first element is
/// the string `EVENT` and whose second element parses as the event `e`.
pub open spec fn is_event_command(t: Seq<char>, e: EventView) -> bool {
    &&& json_array_items(t) is Some
    &&& json_array_items(t)->0.len() >= 2
    &&& json_array_items(t)->0[0].string == Some("EVENT"@)
    &&& parsed_event(json_array_items(t)->0[1].text) == Some(e)
}

/// Every cached event has a kind that is cached.
pub open spec fn all_cacheable(es: Seq<Entry>) -> bool {
    forall|i: int| 0 <= i < es.len() ==> cacheable_kind(#[trigger] es[i].1.kind)
}

/// Once a connection has ended, nothing changes it and it asks for nothing.
pub proof fn law_finished_is_final(s: ConnectionView, input: InputView)
    requires
        s.phase is Finished,
    ensures
        step_spec(s, input) == (s, Seq::<ActionView>::empty()),
{
}

/// No step changes the relays a connection forwards to or its cache's capacity.
pub proof fn law_fixed_relays_and_capacity(s: ConnectionView, input: InputView)
    ensures
        step_spec(s, input).0.relay_urls == s.relay_urls,
        step_spec(s, input).0.capacity == s.capacity,
{
}

/// A ping from the client is answered with a pong carrying the same data.
pub proof fn law_ping_answered(s: ConnectionView, data: Seq<u8>)
    requires
        s.phase is Ready,
    ensures
        step_spec(s, InputView::Client(WsFrameView::Ping(data))) == (
            s,
            seq![ActionView::Send(WsFrameView::Pong(data))],
        ),
{
}

/// A close from the client is echoed and ends the connection without error.
pub proof fn law_close_echoed(s: ConnectionView, c: Option<crate::frame::CloseFrameView>)
    requires
        s.phase is Ready,
    ensures
        step_spec(s, InputView::Client(WsFrameView::Close(c))) == (
            s.with_phase(PhaseView::Finished),
            seq![ActionView::Send(WsFrameView::Close(c)), ActionView::Finish(Ok(()))],
        ),
{
}

/// An event the cache already holds is not forwarded again: the client is told
/// at once that it is a duplicate.
pub proof fn law_known_event_is_duplicate(s: ConnectionView, t: Seq<char>, e: EventView)
    requires
        s.phase is Ready,
        is_event_command(t, e),
        has_key(s.entries, e.id),
    ensures
        step_spec(s, InputView::Client(WsFrameView::Text(t))) == (
            s.with_entries(entries_after_get(s.entries, e.id)),
            seq![ok_action(e.id, true, duplicate_text())],
        ),
{
}

/// A new event is forwarded to the relays, and the connection waits for their
/// reply; when its kind is cached, it is cached before forwarding, so that
/// looking its id up finds it.
pub proof fn law_new_event_cached_and_forwarded(s: ConnectionView, t: Seq<char>, e: EventView)
    requires
        s.phase is Ready,
        entries_wf(s.entries, s.capacity),
        e.wf(),
        is_event_command(t, e),
        !has_key(s.entries, e.id),
    ensures
        step_spec(s, InputView::Client(WsFrameView::Text(t))).1 == seq![ActionView::ForwardEvent(event_submission_text(e))],
        step_spec(s, InputView::Client(WsFrameView::Text(t))).0.phase == PhaseView::AwaitingReply(e.id),
        cacheable_kind(e.kind) ==> get_result(
            step_spec(s, InputView::Client(WsFrameView::Text(t))).0.entries,
            e.id,
        ) == Some(e),
        !cacheable_kind(e.kind) ==> step_spec(s, InputView::Client(WsFrameView::Text(t))).0.entries
            == s.entries,
{
    crate::cache::law_get_after_set(s.entries, s.capacity, e);
}

/// Duplicates are caught: an event of a cached kind that a client submits,
/// whatever the relays reply and however passing their reply on goes, is
/// answered as a duplicate when it is submitted again.
pub proof fn law_resubmitted_event_is_duplicate(
    s: ConnectionView,
    t: Seq<char>,
    e: EventView,
    reply: Option<WsFrameView>,
    outcome: Option<Seq<char>>,
)
    requires
        s.phase is Ready,
        s.capacity >= 2,
        is_event_command(t, e),
        cacheable_kind(e.kind),
    ensures
        ({
            let s1 = step_spec(s, InputView::Client(WsFrameView::Text(t))).0;
            let s2 = step_spec(s1, InputView::RelayReply(reply)).0;
            let s3 = step_spec(s2, InputView::Sent(outcome)).0;
            &&& s3.phase is Ready
            &&& step_spec(s3, InputView::Client(WsFrameView::Text(t))).1 == seq![
                ok_action(e.id, true, duplicate_text()),
            ]
        }),
{
    let s1 = step_spec(s, InputView::Client(WsFrameView::Text(t))).0;
    let s2 = step_spec(s1, InputView::RelayReply(reply)).0;
    let s3 = step_spec(s2, InputView::Sent(outcome)).0;
    if has_key(s.entries, e.id) {
        let i = crate::cache::key_index(s.entries, e.id);
        assert(s1.entries[0] == s.entries[i]);
        assert(s1.phase is Ready);
        assert(s3 == s1);
        assert(has_key(s1.entries, e.id));
    } else {
        assert(s1.entries[0].0 == e.id);
        assert(s1.entries.len() > 0);
        assert(has_key(s2.entries, e.id)) by {
            match reply {
                None => {},
                Some(f) => match frame_text(f) {
                    None => {},
                    Some(txt) => match parsed_event(txt) {
                        None => {},
                        Some(e2) => {
                            if has_key(s1.entries, e2.id) {
                                if cacheable_kind(e2.kind) {
                                    crate::cache::law_put_key_set(s1.entries, s1.capacity, e2.id, e2, e.id);
                                }
                            } else if cacheable_kind(e2.kind) {
                                crate::cache::law_front_survives_put(s1.entries, s1.capacity, e2.id, e2);
                            }
                        },
                    },
                },
            }
        }
        assert(s3.entries == s2.entries);
    }
}

proof fn lemma_put_all_cacheable(es: Seq<Entry>, cap: nat, k: Seq<u8>, v: EventView)
    requires
        all_cacheable(es),
        cacheable_kind(v.kind),
        cap > 0,
    ensures
        all_cacheable(entries_after_put(es, cap, k, v)),
{
    let r = entries_after_put(es, cap, k, v);
    assert forall|a: int| 0 <= a < r.len() implies cacheable_kind(#[trigger] r[a].1.kind) by {
        if a == 0 {
            assert(r[0] == (k, v));
        } else {
            if has_key(es, k) {
                let j = crate::cache::key_index(es, k);
                let b = if a - 1 < j { a - 1 } else { a };
                assert(r[a] == es[b]);
            } else if es.len() == cap {
                assert(r[a] == es.drop_last()[a - 1]);
            } else {
                assert(r[a] == es[a - 1]);
            }
        }
    }
}

proof fn lemma_get_all_cacheable(es: Seq<Entry>, k: Seq<u8>)
    requires
        all_cacheable(es),
    ensures
        all_cacheable(entries_after_get(es, k)),
{
    if has_key(es, k) {
        let i = crate::cache::key_index(es, k);
        let r = entries_after_get(es, k);
        assert forall|a: int| 0 <= a < r.len() implies cacheable_kind(#[trigger] r[a].1.kind) by {
            let b = if a == 0 { i } else if a - 1 < i { a - 1 } else { a };
            assert(r[a] == es[b]);
        }
    }
}

/// Only text notes, long-form text notes and metadata are ever cached, whether
/// they come from a client or from a relay's reply.
pub proof fn law_only_cacheable_kinds_cached(s: ConnectionView, input: InputView)
    requires
        all_cacheable(s.entries),
        s.capacity > 0,
    ensures
        all_cacheable(step_spec(s, input).0.entries),
{
    let es = s.entries;
    if !(s.phase is Finished) {
        match input {
            InputView::Client(WsFrameView::Text(t)) => {
                if s.phase is Ready && json_array_items(t) is Some {
                    let items = json_array_items(t)->0;
                    if items.len() >= 2 && parsed_event(items[1].text) is Some {
                        let e = parsed_event(items[1].text)->0;
                        lemma_get_all_cacheable(es, e.id);
                        if cacheable_kind(e.kind) {
                            lemma_put_all_cacheable(es, s.capacity, e.id, e);
                        }
                    }
                }
            },
            InputView::RelayReply(Some(f)) => {
                if frame_text(f) is Some && parsed_event(frame_text(f)->0) is Some {
                    let e = parsed_event(frame_text(f)->0)->0;
                    if cacheable_kind(e.kind) {
                        lemma_put_all_cacheable(es, s.capacity, e.id, e);
                    }
                }
            },
            _ => {},
        }
    }
}

/// The actions of a step hold at most one `Finish`, as the last action, and
/// exactly when the step ends a connection that had not ended.
pub proof fn law_finish_ends_connection(s: ConnectionView, input: InputView)
    ensures
        ({
            let (s2, acts) = step_spec(s, input);
            &&& (s2.phase is Finished && !(s.phase is Finished)) <==> (acts.len() > 0
                && acts.last() is Finish)
            &&& forall|i: int| 0 <= i < acts.len() - 1 ==> !(#[trigger] acts[i] is Finish)
        }),
{
    if !(s.phase is Finished) {
        match input {
            InputView::Client(WsFrameView::Text(t)) => {
                if s.phase is Ready && json_array_items(t) is Some {
                    let items = json_array_items(t)->0;
                    if items.len() >= 3 && items[1].string is Some {
                        let sub = items[1].string->0;
                        let fs = req_filters(items.skip(2));
                        lemma_req_actions_no_finish(sub, s.entries, fs);
                    }
                }
            },
            _ => {},
        }
    }
}

proof fn lemma_req_actions_no_finish(sub: Seq<char>, es: Seq<Entry>, fs: Seq<FilterView>)
    ensures
        forall|i: int| 0 <= i < (cached_sends(sub, es, fs) + req_forwards(sub, fs)).len()
            ==> !(#[trigger] (cached_sends(sub, es, fs) + req_forwards(sub, fs))[i] is Finish),
    decreases fs.len(),
{
    let a = cached_sends(sub, es, fs);
    let b = req_forwards(sub, fs);
    if fs.len() > 0 {
        lemma_req_actions_no_finish(sub, es, fs.drop_last());
        let prev = cached_sends(sub, es, fs.drop_last());
        let last = event_sends(sub, query_result(es, fs.last()));
        assert forall|i: int| 0 <= i < prev.len() implies !(#[trigger] prev[i] is Finish) by {
            assert((prev + req_forwards(sub, fs.drop_last()))[i] == prev[i]);
        }
        assert(a == prev + last);
    }
    assert forall|i: int| 0 <= i < (a + b).len() implies !(#[trigger] (a + b)[i] is Finish) by {
        if i < a.len() {
            assert((a + b)[i] == a[i]);
            if fs.len() > 0 {
                let prev = cached_sends(sub, es, fs.drop_last());
                if i >= prev.len() {
                    assert(a[i] == event_sends(sub, query_result(es, fs.last()))[i - prev.len()]);
                }
            }
        } else {
            assert((a + b)[i] == b[i - a.len()]);
        }
    }
}

/// Every new event a client submits is answered with exactly one `OK`, once the
/// relays have replied (or not) and their reply has been passed on: the `OK` is
/// the last action of the round, the only other being the passing on of the
/// relay's reply, and afterwards the connection waits for the client again.
pub proof fn law_event_answered_once(
    s: ConnectionView,
    t: Seq<char>,
    e: EventView,
    reply: Option<WsFrameView>,
    outcome: Option<Seq<char>>,
)
    requires
        s.phase is Ready,
        is_event_command(t, e),
        !has_key(s.entries, e.id),
    ensures
        ({
            let (s1, a1) = step_spec(s, InputView::Client(WsFrameView::Text(t)));
            let (s2, a2) = step_spec(s1, InputView::RelayReply(reply));
            let (s3, a3) = step_spec(s2, InputView::Sent(outcome));
            let answers = a2 + a3;
            &&& a1 == seq![ActionView::ForwardEvent(event_submission_text(e))]
            &&& s3.phase is Ready
            &&& answers.len() >= 1
            &&& exists|status: bool, m: Seq<char>| answers.last() == ok_action(e.id, status, m)
            &&& forall|i: int| 0 <= i < answers.len() - 1 ==> (#[trigger] answers[i]) is SendReport
        }),
{
    let (s1, a1) = step_spec(s, InputView::Client(WsFrameView::Text(t)));
    let (s2, a2) = step_spec(s1, InputView::RelayReply(reply));
    let (s3, a3) = step_spec(s2, InputView::Sent(outcome));
    let answers = a2 + a3;
    assert(s1.phase == PhaseView::AwaitingReply(e.id));
    if s2.phase is AwaitingSent {
        assert(answers[0] == a2[0]);
        match outcome {
            None => assert(answers.last() == ok_action(e.id, true, Seq::empty())),
            Some(m) => assert(answers.last() == ok_action(e.id, false, error_text(ProxyErrorView::WsError(m)))),
        }
    } else {
        assert(a3.len() == 0);
        assert(answers =~= a2);
        assert(answers.last() == ok_action(e.id, true, Seq::empty()));
    }
}

/// An event sent on a subscription, from the cache, that passes one of the filters.
pub open spec fn serves_cached_match(
    a: ActionView,
    subscription: Seq<char>,
    es: Seq<Entry>,
    fs: Seq<FilterView>,
) -> bool {
    exists|e: EventView, j: int|
        #![trigger crate::event::filter_accepts(fs[j], e)]
        0 <= j < fs.len() && crate::event::filter_accepts(fs[j], e) && a == ActionView::Send(
            WsFrameView::Text(event_message_text(subscription, e)),
        ) && exists|k: int| 0 <= k < es.len() && es[k].1 == e
}

proof fn lemma_cached_sends_sound(sub: Seq<char>, es: Seq<Entry>, fs: Seq<FilterView>)
    ensures
        forall|i: int| 0 <= i < cached_sends(sub, es, fs).len() ==> serves_cached_match(
            #[trigger] cached_sends(sub, es, fs)[i],
            sub,
            es,
            fs,
        ),
    decreases fs.len(),
{
    if fs.len() > 0 {
        let init = fs.drop_last();
        lemma_cached_sends_sound(sub, es, init);
        let prev = cached_sends(sub, es, init);
        let q = query_result(es, fs.last());
        crate::cache::law_query_sound(es, fs.last());
        let all = cached_sends(sub, es, fs);
        assert(all == prev + event_sends(sub, q));
        assert forall|i: int| 0 <= i < all.len() implies serves_cached_match(#[trigger] all[i], sub, es, fs) by {
            if i < prev.len() {
                assert(all[i] == prev[i]);
                assert(serves_cached_match(prev[i], sub, es, init));
                let (e, j) = choose|e: EventView, j: int|
                    #![trigger crate::event::filter_accepts(init[j], e)]
                    0 <= j < init.len() && crate::event::filter_accepts(init[j], e) && prev[i]
                        == ActionView::Send(WsFrameView::Text(event_message_text(sub, e))) && exists|k: int|
                        0 <= k < es.len() && es[k].1 == e;
                assert(init[j] == fs[j]);
                assert(crate::event::filter_accepts(fs[j], e));
            } else {
                let m = i - prev.len();
                assert(all[i] == event_sends(sub, q)[m]);
                let e = q[m];
                assert(crate::event::filter_accepts(fs.last(), e));
                assert(fs[fs.len() - 1] == fs.last());
                assert(crate::event::filter_accepts(fs[fs.len() - 1], e));
            }
        }
    }
}

/// A `REQ` changes nothing in the connection; it is answered with events from
/// the cache, each passing one of the request's filters, and then every filter
/// that parses is forwarded to the relays, in order.
pub proof fn law_req_serves_cached_matches(s: ConnectionView, t: Seq<char>)
    requires
        s.phase is Ready,
        json_array_items(t) is Some,
        json_array_items(t)->0.len() >= 3,
        json_array_items(t)->0[0].string == Some("REQ"@),
        json_array_items(t)->0[1].string is Some,
        req_filters(json_array_items(t)->0.skip(2)).len() > 0,
    ensures
        ({
            let items = json_array_items(t)->0;
            let sub = items[1].string->0;
            let fs = req_filters(items.skip(2));
            let (s2, acts) = step_spec(s, InputView::Client(WsFrameView::Text(t)));
            let n = cached_sends(sub, s.entries, fs).len();
            &&& s2 == s
            &&& acts.len() == n + fs.len()
            &&& forall|i: int| 0 <= i < n ==> serves_cached_match(#[trigger] acts[i], sub, s.entries, fs)
            &&& forall|j: int| 0 <= j < fs.len() ==> #[trigger] acts[n + j] == ActionView::ForwardReq(
                req_message_text(sub, fs[j]),
            )
        }),
{
    let items = json_array_items(t)->0;
    let sub = items[1].string->0;
    let fs = req_filters(items.skip(2));
    let (s2, acts) = step_spec(s, InputView::Client(WsFrameView::Text(t)));
    assert("REQ"@ != "EVENT"@) by {
        reveal_strlit("REQ");
        reveal_strlit("EVENT");
        assert("REQ"@.len() != "EVENT"@.len());
    }
    lemma_cached_sends_sound(sub, s.entries, fs);
    let c = cached_sends(sub, s.entries, fs);
    assert(acts == c + req_forwards(sub, fs));
    assert forall|i: int| 0 <= i < c.len() implies serves_cached_match(#[trigger] acts[i], sub, s.entries, fs) by {
        assert(acts[i] == c[i]);
    }
}

/// The cache keeps duplicates from the relays away from the client: a relay's
/// reply that is an event the cache already holds is not passed on; the client
/// only gets the `OK` for its own event. The relay's copy is stored (when its
/// kind is cached), and the cache still holds the same ids.
pub proof fn law_relay_duplicate_not_passed_on(
    s: ConnectionView,
    id: Seq<u8>,
    f: WsFrameView,
    e: EventView,
    k: Seq<u8>,
)
    requires
        s.phase == PhaseView::AwaitingReply(id),
        s.capacity > 0,
        frame_text(f) is Some,
        parsed_event(frame_text(f)->0) == Some(e),
        has_key(s.entries, e.id),
    ensures
        step_spec(s, InputView::RelayReply(Some(f))).1 == seq![ok_action(id, true, Seq::empty())],
        step_spec(s, InputView::RelayReply(Some(f))).0.phase == PhaseView::Ready,
        step_spec(s, InputView::RelayReply(Some(f))).0.entries == s.entries_with(e),
        has_key(step_spec(s, InputView::RelayReply(Some(f))).0.entries, k) == has_key(s.entries, k),
{
    if cacheable_kind(e.kind) {
        crate::cache::law_put_key_set(s.entries, s.capacity, e.id, e, k);
    }
}

/// A text from the client that is a JSON array is handled as a Nostr command,
/// chosen by its first element (`EVENT`, `REQ` or `CLOSE`, matched exactly);
/// any other text, and any other command name, is ignored.
pub proof fn law_command_dispatch(s: ConnectionView, t: Seq<char>)
    requires
        s.phase is Ready,
    ensures
        json_array_items(t) is None ==> step_spec(s, InputView::Client(WsFrameView::Text(t))) == (
            s,
            Seq::<ActionView>::empty(),
        ),
        json_array_items(t) matches Some(items) ==> {
            &&& step_spec(s, InputView::Client(WsFrameView::Text(t))) == command_step(s, items)
            &&& (items.len() > 0 && items[0].string is Some && items[0].string->0 != "EVENT"@
                && items[0].string->0 != "REQ"@ && items[0].string->0 != "CLOSE"@) ==> command_step(
                s,
                items,
            ) == (s, Seq::<ActionView>::empty())
            &&& (items.len() > 0 && items[0].string == Some("EVENT"@)) ==> command_step(s, items)
                == event_step(s, items)
            &&& (items.len() > 0 && items[0].string == Some("REQ"@)) ==> command_step(s, items)
                == req_step(s, items)
            &&& (items.len() > 0 && items[0].string == Some("CLOSE"@)) ==> command_step(s, items)
                == close_step(s, items)
        },
{
    assert("REQ"@ != "EVENT"@ && "CLOSE"@ != "EVENT"@ && "CLOSE"@ != "REQ"@) by {
        reveal_strlit("REQ");
        reveal_strlit("EVENT");
        reveal_strlit("CLOSE");
        assert("REQ"@.len() != "EVENT"@.len());
        assert("CLOSE"@.len() != "EVENT"@.len() || "CLOSE"@[0] != "EVENT"@[0]);
        assert("CLOSE"@.len() != "REQ"@.len());
    }
}

} // verus!
