//! Nostr events and subscription filters as plain values, and the calls into
//! the `nostr` crate that parse, serialise and match them.

use vstd::prelude::*;
use nostr::event::{EventId, Kind, Signature, Tag};
use nostr::filter::{MatchEventOptions, SingleLetterTag};
use nostr::key::PublicKey;
use nostr::message::{ClientMessage, RelayMessage, SubscriptionId};
use nostr::types::Timestamp;
use std::collections::{BTreeMap, BTreeSet};

verus! {

#[verifier::external_type_specification]
#[verifier::external_body]
pub struct ExNostrEvent(nostr::event::Event);

#[verifier::external_type_specification]
#[verifier::external_body]
pub struct ExNostrFilter(nostr::filter::Filter);

#[verifier::external_type_specification]
#[verifier::external_body]
pub struct ExSingleLetterTag(SingleLetterTag);

/// Kind number of a short text note.
pub const KIND_TEXT_NOTE: u16 = 1;
/// Kind number of a long-form text note.
pub const KIND_LONG_FORM_TEXT_NOTE: u16 = 30023;
/// Kind number of user metadata.
pub const KIND_METADATA: u16 = 0;

/// A signed Nostr event.
pub struct SignedEvent {
    pub id: [u8; 32],
    pub pubkey: [u8; 32],
    pub created_at: u64,
    pub kind: u16,
    pub tags: Vec<Vec<String>>,
    pub content: String,
    pub sig: [u8; 64],
}

/// The mathematical value of an [`SignedEvent`].
pub struct EventView {
    pub id: Seq<u8>,
    pub pubkey: Seq<u8>,
    pub created_at: u64,
    pub kind: u16,
    pub tags: Seq<Seq<Seq<char>>>,
    pub content: Seq<char>,
    pub sig: Seq<u8>,
}

pub open spec fn strings_view(v: Vec<String>) -> Seq<Seq<char>> {
    v@.map_values(|s: String| s@)
}

impl View for SignedEvent {
    type V = EventView;

    open spec fn view(&self) -> EventView {
        EventView {
            id: self.id@,
            pubkey: self.pubkey@,
            created_at: self.created_at,
            kind: self.kind,
            tags: self.tags@.map_values(|t: Vec<String>| strings_view(t)),
            content: self.content@,
            sig: self.sig@,
        }
    }
}

impl EventView {
    /// Every tag has a name, i.e. at least one element.
    pub open spec fn wf(self) -> bool {
        forall|i: int| 0 <= i < self.tags.len() ==> #[trigger] self.tags[i].len() > 0
    }
}

impl SignedEvent {
    pub open spec fn wf(&self) -> bool {
        self@.wf()
    }
}

/// A copy of a list of strings.
pub fn clone_strings(v: &Vec<String>) -> (r: Vec<String>)
    ensures
        r@ == v@,
{
    let mut r: Vec<String> = Vec::new();
    let mut i: usize = 0;
    while i < v.len()
        invariant
            i <= v@.len(),
            r@ == v@.take(i as int),
        decreases v@.len() - i,
    {
        r.push(v[i].clone());
        i = i + 1;
        assert(r@ =~= v@.take(i as int));
    }
    assert(v@.take(v@.len() as int) =~= v@);
    r
}

impl Clone for SignedEvent {
    fn clone(&self) -> (r: SignedEvent)
        ensures
            r@ == self@,
    {
        let mut tags: Vec<Vec<String>> = Vec::new();
        let mut i: usize = 0;
        while i < self.tags.len()
            invariant
                i <= self.tags@.len(),
                tags@.len() == i,
                forall|k: int| 0 <= k < i ==> (#[trigger] tags@[k])@ == self.tags@[k]@,
            decreases self.tags@.len() - i,
        {
            tags.push(clone_strings(&self.tags[i]));
            i = i + 1;
        }
        let r = SignedEvent {
            id: self.id,
            pubkey: self.pubkey,
            created_at: self.created_at,
            kind: self.kind,
            tags,
            content: self.content.clone(),
            sig: self.sig,
        };
        assert(r@.tags =~= self@.tags);
        r
    }
}

/// A subscription filter (NIP-01).
pub struct EventFilter {
    pub ids: Option<Vec<[u8; 32]>>,
    pub authors: Option<Vec<[u8; 32]>>,
    pub kinds: Option<Vec<u16>>,
    pub search: Option<String>,
    pub since: Option<u64>,
    pub until: Option<u64>,
    pub limit: Option<usize>,
    /// Generic tag queries: a tag letter and the values it may take.
    pub generic_tags: Vec<(char, Vec<String>)>,
}

/// The mathematical value of a [`EventFilter`].
pub struct FilterView {
    pub ids: Option<Seq<Seq<u8>>>,
    pub authors: Option<Seq<Seq<u8>>>,
    pub kinds: Option<Seq<u16>>,
    pub search: Option<Seq<char>>,
    pub since: Option<u64>,
    pub until: Option<u64>,
    pub limit: Option<usize>,
    pub generic_tags: Seq<(char, Seq<Seq<char>>)>,
}

pub open spec fn keys_view(v: Option<Vec<[u8; 32]>>) -> Option<Seq<Seq<u8>>> {
    match v {
        Some(v) => Some(v@.map_values(|k: [u8; 32]| k@)),
        None => None,
    }
}

impl View for EventFilter {
    type V = FilterView;

    open spec fn view(&self) -> FilterView {
        FilterView {
            ids: keys_view(self.ids),
            authors: keys_view(self.authors),
            kinds: match self.kinds { Some(k) => Some(k@), None => None },
            search: match self.search { Some(s) => Some(s@), None => None },
            since: self.since,
            until: self.until,
            limit: self.limit,
            generic_tags: self.generic_tags@.map_values(
                |p: (char, Vec<String>)| (p.0, strings_view(p.1)),
            ),
        }
    }
}

/// A tag letter of a generic tag query: an ASCII letter.
pub open spec fn is_tag_letter(c: char) -> bool {
    ('a' <= c && c <= 'z') || ('A' <= c && c <= 'Z')
}

impl FilterView {
    /// Tag letters are ASCII letters, each queried once (they key a map in `nostr`).
    pub open spec fn wf(self) -> bool {
        &&& forall|i: int| 0 <= i < self.generic_tags.len() ==> is_tag_letter(
            #[trigger] self.generic_tags[i].0,
        )
        &&& forall|i: int, j: int|
            0 <= i < self.generic_tags.len() && 0 <= j < self.generic_tags.len() && i != j
                ==> (#[trigger] self.generic_tags[i]).0 != (#[trigger] self.generic_tags[j]).0
    }
}

impl EventFilter {
    pub open spec fn wf(&self) -> bool {
        self@.wf()
    }
}

/// What `nostr::event::Event::from_json` gives for a JSON text: the event, or `None` when it fails.
pub uninterp spec fn parsed_event(json: Seq<char>) -> Option<EventView>;

/// What `nostr::filter::Filter::from_json` gives for a JSON text: the filter, or `None` when it fails.
pub uninterp spec fn parsed_filter(json: Seq<char>) -> Option<FilterView>;


/// What `ClientMessage::event(event).as_json()` gives: the event submitted to a relay.
pub uninterp spec fn event_submission_text(e: EventView) -> Seq<char>;

/// What `RelayMessage::ok(id, status, message).as_json()` gives.
pub uninterp spec fn ok_message_text(id: Seq<u8>, status: bool, message: Seq<char>) -> Seq<char>;

/// What `RelayMessage::event(subscription, event).as_json()` gives.
pub uninterp spec fn event_message_text(subscription: Seq<char>, e: EventView) -> Seq<char>;

/// What `ClientMessage::req(subscription, filter).as_json()` gives.
pub uninterp spec fn req_message_text(subscription: Seq<char>, f: FilterView) -> Seq<char>;

/// A list restriction of a filter (ids, authors, kinds): absent or empty, or holding the value.
pub open spec fn list_allows<A>(list: Option<Seq<A>>, value: A) -> bool {
    match list {
        Some(l) => l.len() == 0 || l.contains(value),
        None => true,
    }
}

/// The event has a tag named by the one letter `c` whose first value is `v`.
pub open spec fn has_letter_tag(e: EventView, c: char, v: Seq<char>) -> bool {
    exists|i: int|
        0 <= i < e.tags.len() && (#[trigger] e.tags[i]).len() >= 2 && e.tags[i][0] == seq![c]
            && e.tags[i][1] == v
}

/// Every generic tag query is met by some tag of the event with one of its values.
pub open spec fn tags_match(f: FilterView, e: EventView) -> bool {
    forall|i: int| 0 <= i < f.generic_tags.len() ==> exists|k: int|
        0 <= k < (#[trigger] f.generic_tags[i]).1.len() && has_letter_tag(
            e,
            f.generic_tags[i].0,
            f.generic_tags[i].1[k],
        )
}

/// A byte with ASCII upper case letters turned to lower case.
pub open spec fn ascii_lower(b: u8) -> u8 {
    if 65 <= b && b <= 90 { (b + 32) as u8 } else { b }
}

/// `needle` occurs in `hay` at position `i`, ignoring ASCII case.
pub open spec fn occurs_at(hay: Seq<u8>, needle: Seq<u8>, i: int) -> bool {
    &&& 0 <= i
    &&& i + needle.len() <= hay.len()
    &&& forall|k: int| 0 <= k < needle.len() ==> ascii_lower(#[trigger] hay[i + k]) == ascii_lower(needle[k])
}

/// The search text occurs in the content, ignoring ASCII case, byte by byte in UTF-8.
pub open spec fn search_matches(search: Option<Seq<char>>, content: Seq<char>) -> bool {
    match search {
        None => true,
        Some(q) => {
            let qb = vstd::utf8::encode_utf8(q);
            let cb = vstd::utf8::encode_utf8(content);
            qb.len() == 0 || exists|i: int| #[trigger] occurs_at(cb, qb, i)
        },
    }
}

/// `nostr::filter::Filter::match_event` with all checks enabled: the event's id,
/// author and kind are allowed, its time is within `since` and `until`, its tags
/// meet the generic tag queries and its content contains the search text.
pub open spec fn filter_accepts(f: FilterView, e: EventView) -> bool {
    &&& list_allows(f.ids, e.id)
    &&& list_allows(f.authors, e.pubkey)
    &&& list_allows(f.kinds, e.kind)
    &&& (f.since matches Some(t) ==> e.created_at >= t)
    &&& (f.until matches Some(t) ==> e.created_at <= t)
    &&& tags_match(f, e)
    &&& search_matches(f.search, e.content)
}

impl SignedEvent {
    /// Rebuilds the `nostr` event from the plain fields.
    #[verifier::external_body]
    fn to_nostr(&self) -> nostr::event::Event
        requires
            self.wf(),
    {
        nostr::event::Event::new(EventId::from_byte_array(self.id), PublicKey::from_byte_array(self.pubkey),
            Timestamp::from_secs(self.created_at), Kind::from_u16(self.kind),
            self.tags.iter().map(|t| Tag::parse(t.clone()).unwrap()), self.content.clone(),
            Signature::from_byte_array(self.sig))
    }

    /// `nostr::event::Event::from_json`: parses an event (the signature is not checked).
    /// Claims that the result is the named `parsed_event` of the text, and that a
    /// parsed event has no empty tag (`Tag` deserialisation rejects one).
    #[verifier::external_body]
    pub fn from_json(json: &str) -> (r: Option<SignedEvent>)
        ensures
            r is Some <==> parsed_event(json@) is Some,
            r matches Some(e) ==> e@ == parsed_event(json@)->0 && e.wf(),
    {
        nostr::event::Event::from_json(json).ok().map(|e| SignedEvent { id: e.id.to_bytes(),
            pubkey: e.pubkey.to_bytes(), created_at: e.created_at.as_secs(), kind: e.kind.as_u16(),
            tags: e.tags.to_vec().into_iter().map(|t| t.to_vec()).collect(), content: e.content,
            sig: e.sig.to_bytes() })
    }
}

impl EventFilter {
    /// Rebuilds the `nostr` filter from the plain fields.
    #[verifier::external_body]
    fn to_nostr(&self) -> nostr::filter::Filter
        requires
            self.wf(),
    {
        nostr::filter::Filter { ids: self.ids.as_ref().map(|v| v.iter().map(|b| EventId::from_byte_array(*b)).collect()),
            authors: self.authors.as_ref().map(|v| v.iter().map(|b| PublicKey::from_byte_array(*b)).collect()),
            kinds: self.kinds.as_ref().map(|v| v.iter().map(|k| Kind::from_u16(*k)).collect()),
            search: self.search.clone(), since: self.since.map(Timestamp::from_secs),
            until: self.until.map(Timestamp::from_secs), limit: self.limit,
            generic_tags: Self::tags_to_nostr(&self.generic_tags) }
    }

    /// Rebuilds the generic tag queries of a `nostr` filter.
    #[verifier::external_body]
    fn tags_to_nostr(tags: &Vec<(char, Vec<String>)>) -> BTreeMap<SingleLetterTag, BTreeSet<String>>
        requires
            forall|i: int| 0 <= i < tags@.len() ==> is_tag_letter(#[trigger] tags@[i].0),
    {
        tags.iter().map(|(c, vs)| (SingleLetterTag::from_char(*c).unwrap(), vs.iter().cloned().collect()))
            .collect()
    }

    /// `nostr::filter::Filter::from_json`: parses a filter; its sets are handed out
    /// as sorted lists. Claims that the result is the named `parsed_filter` of the
    /// text and that its tag letters are distinct ASCII letters (the keys of a map
    /// of `SingleLetterTag`, which holds only those).
    #[verifier::external_body]
    pub fn from_json(json: &str) -> (r: Option<EventFilter>)
        ensures
            r is Some <==> parsed_filter(json@) is Some,
            r matches Some(f) ==> f@ == parsed_filter(json@)->0 && f.wf(),
    {
        nostr::filter::Filter::from_json(json).ok().map(|f| EventFilter {
            ids: f.ids.map(|s| s.into_iter().map(EventId::to_bytes).collect()),
            authors: f.authors.map(|s| s.into_iter().map(PublicKey::to_bytes).collect()),
            kinds: f.kinds.map(|s| s.iter().map(Kind::as_u16).collect()), search: f.search,
            since: f.since.as_ref().map(Timestamp::as_secs), until: f.until.as_ref().map(Timestamp::as_secs),
            limit: f.limit,
            generic_tags: f.generic_tags.into_iter().map(|(t, vs)| (t.as_char(), vs.into_iter().collect()))
                .collect() })
    }

    /// `nostr::filter::Filter::match_event` with every check enabled (`MatchEventOptions::new`):
    /// whether the event passes the filter, as `filter_accepts` states it.
    #[verifier::external_body]
    pub fn match_event(&self, event: &SignedEvent) -> (r: bool)
        requires
            self.wf(),
            event.wf(),
        ensures
            r == filter_accepts(self@, event@),
    {
        self.to_nostr().match_event(&event.to_nostr(), MatchEventOptions::new())
    }
}

/// `RelayMessage::ok(id, status, message).as_json()`: the `OK` answer to an
/// `EVENT`, named `ok_message_text`.
#[verifier::external_body]
pub fn ok_message_json(id: &[u8; 32], status: bool, message: &str) -> (r: String)
    ensures
        r@ == ok_message_text(id@, status, message@),
{
    RelayMessage::ok(EventId::from_byte_array(*id), status, message).as_json()
}

/// `RelayMessage::event(subscription, event).as_json()`: an event sent on a
/// subscription, named `event_message_text`.
#[verifier::external_body]
pub fn event_message_json(subscription: &str, event: &SignedEvent) -> (r: String)
    requires
        event.wf(),
    ensures
        r@ == event_message_text(subscription@, event@),
{
    RelayMessage::event(SubscriptionId::new(subscription), event.to_nostr()).as_json()
}

/// `ClientMessage::event(event).as_json()`: the `EVENT` message that submits the
/// event to a relay, named `event_submission_text`.
#[verifier::external_body]
pub fn event_submission_json(event: &SignedEvent) -> (r: String)
    requires
        event.wf(),
    ensures
        r@ == event_submission_text(event@),
{
    ClientMessage::event(event.to_nostr()).as_json()
}

/// `ClientMessage::req(subscription, filter).as_json()`: a `REQ` for one filter,
/// named `req_message_text`.
#[verifier::external_body]
pub fn req_message_json(subscription: &str, filter: &EventFilter) -> (r: String)
    requires
        filter.wf(),
    ensures
        r@ == req_message_text(subscription@, filter@),
{
    ClientMessage::req(SubscriptionId::new(subscription), filter.to_nostr()).as_json()
}

/// Whether the proxy keeps events of this kind in its cache: text notes,
/// long-form text notes and metadata.
pub open spec fn cacheable_kind(kind: u16) -> bool {
    kind == KIND_TEXT_NOTE || kind == KIND_LONG_FORM_TEXT_NOTE || kind == KIND_METADATA
}

/// The kinds cached are exactly metadata (kind 0), text notes (kind 1) and
/// long-form text notes (kind 30023); reactions (kind 7) and all others are not.
pub proof fn law_cacheable_kinds(kind: u16)
    ensures
        cacheable_kind(kind) <==> (kind == 0 || kind == 1 || kind == 30023),
{
}

} // verus!
