//! The protocol with a running Chrome: requests, answers and events.
//!
//! A message is JSON ended by a zero byte, both ways. An answer carries the
//! number of the request it belongs to; whatever has no number is an event.
//! Each wait is a poll: the caller hands over the bytes that came, asks
//! whether what it waits for is there, and looks at the clock.

use crate::cdp;
use crate::cdp::{find_byte, VIEWPORT_H, VIEWPORT_W};
use crate::json;
use crate::json::{Json, JsonValue};
use crate::outside;
use crate::outside::{json_text, read_json, write_json};
use crate::text;
use crate::text::{decimal_text, same_text};
use vstd::prelude::*;
use vstd::slice::slice_subrange;

verus! {

/// How many events nobody has waited for are kept.
pub const MAX_EVENTS: usize = 512;

/// A tab: its target, and the session its commands go to.
#[derive(Debug, Clone)]
pub struct Page {
    pub target_id: String,
    pub session_id: String,
}

/// The state of the protocol, as a value.
pub struct ChromeState {
    /// Bytes that do not make a whole message yet.
    pub buf: Seq<u8>,
    /// The number of the last request.
    pub last_id: nat,
    /// Events that nobody has waited for yet, oldest first.
    pub events: Seq<JsonValue>,
    /// Answers that nobody has waited for yet, oldest first.
    pub answers: Seq<JsonValue>,
}

/// An event of this kind on this session.
pub open spec fn is_event(e: JsonValue, method: Seq<char>, session: Seq<char>) -> bool {
    e.at("method"@) == JsonValue::Str(method) && e.at("sessionId"@) == JsonValue::Str(session)
}

/// The first event of this kind on this session, at or after `from`.
pub open spec fn event_at(
    events: Seq<JsonValue>,
    method: Seq<char>,
    session: Seq<char>,
    from: int,
) -> Option<int>
    decreases events.len() - from,
{
    if from < 0 || from >= events.len() {
        None
    } else if is_event(events[from], method, session) {
        Some(from)
    } else {
        event_at(events, method, session, from + 1)
    }
}

/// The first answer to the request number `id`, at or after `from`.
pub open spec fn answer_at(answers: Seq<JsonValue>, id: nat, from: int) -> Option<int>
    decreases answers.len() - from,
{
    if from < 0 || from >= answers.len() {
        None
    } else if answers[from].at("id"@) == JsonValue::Unsigned(id) {
        Some(from)
    } else {
        answer_at(answers, id, from + 1)
    }
}

/// The events without those of this kind on this session.
pub open spec fn without_events(
    events: Seq<JsonValue>,
    method: Seq<char>,
    session: Seq<char>,
) -> Seq<JsonValue>
    decreases events.len(),
{
    if events.len() == 0 {
        seq![]
    } else {
        let rest = without_events(events.drop_last(), method, session);
        if is_event(events.last(), method, session) {
            rest
        } else {
            rest.push(events.last())
        }
    }
}

/// What an answer to a call of `method` comes to: its error, or its result.
pub open spec fn outcome(answer: JsonValue, method: Seq<char>) -> Result<JsonValue, Seq<char>> {
    match answer.member("error"@) {
        Some(err) => Err(
            method + ": "@ + match err.at("message"@) {
                JsonValue::Str(t) => t,
                _ => "error"@,
            },
        ),
        None => Ok(answer.at("result"@)),
    }
}

impl ChromeState {
    /// No byte of a whole message waits, and the events are bounded.
    pub open spec fn wf(self) -> bool {
        &&& forall|i: int| 0 <= i < self.buf.len() ==> #[trigger] self.buf[i] != 0
        &&& self.events.len() <= MAX_EVENTS
    }

    /// The state with one message sorted in: an answer, an event, which may
    /// push the oldest one out, or nothing where it is no JSON.
    pub open spec fn sort_in(self, message: Seq<u8>) -> ChromeState {
        match outside::json_value(message) {
            None => self,
            Some(v) => if v.member("id"@) is Some {
                ChromeState { answers: self.answers.push(v), ..self }
            } else {
                let events = self.events.push(v);
                ChromeState {
                    events: if events.len() > MAX_EVENTS {
                        events.skip(1)
                    } else {
                        events
                    },
                    ..self
                }
            },
        }
    }

    /// The state once the bytes `bytes` have been split into messages; what
    /// does not end yet waits.
    pub open spec fn absorb(self, bytes: Seq<u8>) -> ChromeState
        decreases bytes.len(),
    {
        let i = cdp::byte_upto(bytes, 0);
        if i < 0 || i >= bytes.len() {
            ChromeState { buf: bytes, ..self }
        } else {
            self.sort_in(bytes.take(i)).absorb(bytes.skip(i + 1))
        }
    }

    /// The state once the bytes `got` have come.
    pub open spec fn receive(self, got: Seq<u8>) -> ChromeState {
        self.absorb(self.buf + got)
    }
}

/// The message of a request: its number, its method, its parameters, and the
/// session it is for.
pub open spec fn request_value(
    id: nat,
    session: Option<Seq<char>>,
    method: Seq<char>,
    params: JsonValue,
) -> JsonValue {
    let always = seq![
        ("id"@, JsonValue::Unsigned(id)),
        ("method"@, JsonValue::Str(method)),
        ("params"@, params),
    ];
    JsonValue::Object(
        match session {
            Some(s) => always.push(("sessionId"@, JsonValue::Str(s))),
            None => always,
        },
    )
}

/// The protocol's side of a running Chrome.
#[derive(Debug)]
pub struct Chrome {
    buf: Vec<u8>,
    last_id: u64,
    events: Vec<Json>,
    answers: Vec<Json>,
}

impl View for Chrome {
    type V = ChromeState;

    closed spec fn view(&self) -> ChromeState {
        ChromeState {
            buf: self.buf@,
            last_id: self.last_id as nat,
            events: json::values(self.events@),
            answers: json::values(self.answers@),
        }
    }
}

fn is_event_of(e: &Json, method: &str, session: &str) -> (r: bool)
    ensures
        r == is_event(e@, method@, session@),
{
    let right_method = match e.text_at("method") {
        Some(t) => same_text(t, method),
        None => false,
    };
    let right_session = match e.text_at("sessionId") {
        Some(t) => same_text(t, session),
        None => false,
    };
    right_method && right_session
}

impl Chrome {
    /// A Chrome that nothing has been said to yet.
    pub fn new() -> (r: Chrome)
        ensures
            r@ == (ChromeState {
                buf: Seq::empty(),
                last_id: 0,
                events: Seq::empty(),
                answers: Seq::empty(),
            }),
            r@.wf(),
    {
        let r = Chrome { buf: Vec::new(), last_id: 0, events: Vec::new(), answers: Vec::new() };
        assert(json::values(r.events@) =~= Seq::empty());
        assert(json::values(r.answers@) =~= Seq::empty());
        r
    }

    /// Make a request: its number, and the bytes to send.
    pub fn request(&mut self, session: Option<&str>, method: &str, params: Json) -> (r: (u64, Vec<u8>))
        requires
            old(self)@.last_id < u64::MAX,
        ensures
            final(self)@ == (ChromeState { last_id: old(self)@.last_id + 1, ..old(self)@ }),
            r.0 == old(self)@.last_id + 1,
            r.1@ == outside::json_bytes(
                request_value(
                    r.0 as nat,
                    match session {
                        Some(s) => Some(s@),
                        None => None,
                    },
                    method@,
                    params@,
                ),
            ).push(0),
            forall|i: int| 0 <= i < r.1@.len() - 1 ==> #[trigger] r.1@[i] != 0,
    {
        self.last_id = self.last_id + 1;
        let id: u64 = self.last_id;
        let mut members: Vec<(String, Json)> = Vec::new();
        members.push(("id".to_owned(), Json::Unsigned(id)));
        members.push(("method".to_owned(), Json::Str(method.to_owned())));
        members.push(("params".to_owned(), params));
        if let Some(s) = session {
            members.push(("sessionId".to_owned(), Json::Str(s.to_owned())));
        }
        let message = Json::Object(members);
        let ghost want = request_value(
            id as nat,
            match session {
                Some(s) => Some(s@),
                None => None,
            },
            method@,
            params@,
        );
        proof {
            reveal_with_fuel(json::value, 2);
            assert(message@->Object_0 =~= want->Object_0);
        }
        let mut bytes = write_json(&message);
        bytes.push(0);
        (id, bytes)
    }

    fn sort_message(&mut self, message: &[u8])
        requires
            old(self)@.events.len() <= MAX_EVENTS,
        ensures
            final(self)@ == old(self)@.sort_in(message@),
            final(self)@.events.len() <= MAX_EVENTS,
            final(self).buf == old(self).buf,
    {
        if let Some(v) = read_json(message) {
            let ghost before = *self;
            let numbered = v.get("id").is_some();
            if numbered {
                self.answers.push(v);
                assert(json::values(self.answers@) =~= json::values(before.answers@).push(v@));
            } else {
                self.events.push(v);
                assert(json::values(self.events@) =~= json::values(before.events@).push(v@));
                if self.events.len() > MAX_EVENTS {
                    let ghost full = self.events@;
                    let oldest = self.events.remove(0);
                    assert(json::values(self.events@) =~= json::values(full).skip(1));
                }
            }
        }
    }

    /// Take in what Chrome sent, sorting answers from events. Returns whether
    /// there was anything.
    pub fn pump(&mut self, got: &[u8]) -> (r: bool)
        requires
            old(self)@.wf(),
        ensures
            r == (got@.len() > 0),
            final(self)@ == old(self)@.receive(got@),
            final(self)@.wf(),
    {
        if got.len() == 0 {
            proof {
                assert(self.buf@ + got@ =~= self.buf@);
                lemma_no_nul(self.buf@);
                assert(self@.receive(got@).buf =~= self.buf@);
            }
            return false;
        }
        let mut all: Vec<u8> = Vec::new();
        all.append(&mut self.buf);
        push_bytes(&mut all, got);
        let ghost bytes = old(self)@.buf + got@;
        let ghost want = old(self)@.absorb(bytes);
        let mut from: usize = 0;
        assert(bytes.skip(0) =~= bytes);
        proof {
            lemma_absorb_ignores_buf(old(self)@, self@.buf, bytes);
        }
        loop
            invariant
                from <= all.len(),
                all@ == bytes,
                want == self@.absorb(bytes.skip(from as int)),
                self@.events.len() <= MAX_EVENTS,
            ensures
                from <= all.len(),
                want == (ChromeState { buf: bytes.skip(from as int), ..self@ }),
                forall|i: int| from <= i < bytes.len() ==> #[trigger] bytes[i] != 0,
                self@.events.len() <= MAX_EVENTS,
                all@ == bytes,
            decreases all.len() - from,
        {
            let rest = slice_subrange(all.as_slice(), from, all.len());
            assert(rest@ =~= bytes.skip(from as int));
            let i: usize = find_byte(rest, 0);
            proof {
                lemma_byte_upto(rest@, 0);
            }
            if i == rest.len() {
                assert forall|k: int| from <= k < bytes.len() implies #[trigger] bytes[k] != 0 by {
                    assert(rest@[k - from] == bytes[k]);
                }
                break;
            }
            let message = slice_subrange(rest, 0, i);
            assert(message@ =~= rest@.take(i as int));
            self.sort_message(message);
            assert(rest@.skip(i + 1) =~= bytes.skip(from + i + 1));
            from = from + i + 1;
        }
        let tail = slice_subrange(all.as_slice(), from, all.len());
        assert(tail@ =~= bytes.skip(from as int));
        let mut buf: Vec<u8> = Vec::new();
        push_bytes(&mut buf, tail);
        self.buf = buf;
        assert(self.buf@ =~= bytes.skip(from as int));
        assert(self@ == want);
        true
    }

    /// The answer to the request number `id`, made with `method`, if it has
    /// come: its result, or its error.
    pub fn take_answer(&mut self, id: u64, method: &str) -> (r: Option<Result<Json, String>>)
        ensures
            match answer_at(old(self)@.answers, id as nat, 0) {
                None => r is None && final(self)@ == old(self)@,
                Some(i) => {
                    &&& final(self)@ == (ChromeState {
                        answers: old(self)@.answers.remove(i),
                        ..old(self)@
                    })
                    &&& match outcome(old(self)@.answers[i], method@) {
                        Ok(v) => r matches Some(Ok(j)) && j@ == v,
                        Err(e) => r matches Some(Err(t)) && t@ == e,
                    }
                },
            },
    {
        let ghost all = self@.answers;
        let mut i: usize = 0;
        while i < self.answers.len()
            invariant
                i <= self.answers.len(),
                *self == *old(self),
                all == json::values(self.answers@),
                all == old(self)@.answers,
                answer_at(all, id as nat, 0) == answer_at(all, id as nat, i as int),
            decreases self.answers.len() - i,
        {
            assert(all[i as int] == self.answers@[i as int]@);
            let mine = match self.answers[i].get("id") {
                Some(Json::Unsigned(n)) => *n == id,
                _ => false,
            };
            if mine {
                let answer = self.answers.remove(i);
                assert(json::values(self.answers@) =~= all.remove(i as int));
                let r = match answer.get("error") {
                    Some(err) => {
                        let mut text = method.to_owned();
                        text.append(": ");
                        match err.text_at("message") {
                            Some(t) => text.append(t),
                            None => text.append("error"),
                        }
                        Err(text)
                    },
                    None => match answer.get("result") {
                        Some(v) => Ok(v.copy()),
                        None => Ok(Json::Null),
                    },
                };
                return Some(r);
            }
            i = i + 1;
        }
        None
    }

    /// One look at a call that waits: its answer, the end of its time, or
    /// neither yet.
    pub fn poll_call(&mut self, id: u64, method: &str, past_deadline: bool) -> (r: Option<
        Result<Json, String>,
    >)
        ensures
            match answer_at(old(self)@.answers, id as nat, 0) {
                None => final(self)@ == old(self)@ && if past_deadline {
                    r matches Some(Err(t)) && t@ == method@ + " timed out"@
                } else {
                    r is None
                },
                Some(i) => {
                    &&& final(self)@ == (ChromeState {
                        answers: old(self)@.answers.remove(i),
                        ..old(self)@
                    })
                    &&& match outcome(old(self)@.answers[i], method@) {
                        Ok(v) => r matches Some(Ok(j)) && j@ == v,
                        Err(e) => r matches Some(Err(t)) && t@ == e,
                    }
                },
            },
    {
        match self.take_answer(id, method) {
            Some(r) => Some(r),
            None => if past_deadline {
                let mut t = method.to_owned();
                t.append(" timed out");
                Some(Err(t))
            } else {
                None
            },
        }
    }

    /// The oldest event of this kind on the tab, if it has come.
    pub fn take_event(&mut self, page: &Page, method: &str) -> (r: Option<Json>)
        ensures
            match event_at(old(self)@.events, method@, page.session_id@, 0) {
                None => r is None && final(self)@ == old(self)@,
                Some(i) => {
                    &&& final(self)@ == (ChromeState {
                        events: old(self)@.events.remove(i),
                        ..old(self)@
                    })
                    &&& r matches Some(e) && e@ == old(self)@.events[i]
                },
            },
            old(self)@.wf() ==> final(self)@.wf(),
    {
        let ghost all = self@.events;
        let mut i: usize = 0;
        while i < self.events.len()
            invariant
                i <= self.events.len(),
                *self == *old(self),
                all == json::values(self.events@),
                all == old(self)@.events,
                event_at(all, method@, page.session_id@, 0) == event_at(
                    all,
                    method@,
                    page.session_id@,
                    i as int,
                ),
            decreases self.events.len() - i,
        {
            assert(all[i as int] == self.events@[i as int]@);
            if is_event_of(&self.events[i], method, page.session_id.as_str()) {
                let e = self.events.remove(i);
                assert(json::values(self.events@) =~= all.remove(i as int));
                return Some(e);
            }
            i = i + 1;
        }
        None
    }

    /// One look at an event that is waited for: the event, the end of the wait,
    /// or neither yet. An event that has come is taken though the wait is over.
    pub fn poll_event(&mut self, page: &Page, method: &str, over: bool) -> (r: Option<Option<Json>>)
        ensures
            match event_at(old(self)@.events, method@, page.session_id@, 0) {
                None => final(self)@ == old(self)@ && if over {
                    r matches Some(None)
                } else {
                    r is None
                },
                Some(i) => {
                    &&& final(self)@ == (ChromeState {
                        events: old(self)@.events.remove(i),
                        ..old(self)@
                    })
                    &&& r matches Some(Some(e)) && e@ == old(self)@.events[i]
                },
            },
            old(self)@.wf() ==> final(self)@.wf(),
    {
        match self.take_event(page, method) {
            Some(e) => Some(Some(e)),
            None => if over {
                Some(None)
            } else {
                None
            },
        }
    }

    /// Forget the events of this kind on the tab: a load event of an earlier
    /// page must not end the wait for the next one.
    pub fn forget_events(&mut self, page: &Page, method: &str)
        ensures
            final(self)@ == (ChromeState {
                events: without_events(old(self)@.events, method@, page.session_id@),
                ..old(self)@
            }),
            old(self)@.wf() ==> final(self)@.wf(),
    {
        let ghost all = self@.events;
        let mut kept: Vec<Json> = Vec::new();
        let mut i: usize = 0;
        assert(json::values(kept@) =~= seq![]);
        while i < self.events.len()
            invariant
                i <= self.events.len(),
                *self == *old(self),
                all == json::values(self.events@),
                kept@.len() <= i,
                json::values(kept@) == without_events(all.take(i as int), method@, page.session_id@),
            decreases self.events.len() - i,
        {
            assert(all.take(i + 1).drop_last() =~= all.take(i as int));
            assert(all[i as int] == self.events@[i as int]@);
            if !is_event_of(&self.events[i], method, page.session_id.as_str()) {
                let ghost before = kept@;
                kept.push(self.events[i].copy());
                assert(json::values(kept@) =~= json::values(before).push(all[i as int]));
            }
            i = i + 1;
        }
        assert(all.take(all.len() as int) =~= all);
        self.events = kept;
    }
}

/// What to say of a call whose Chrome went away.
pub fn exited_error(method: &str) -> (r: String)
    ensures
        r@ == method@ + ": Chrome has exited"@,
{
    let mut t = method.to_owned();
    t.append(": Chrome has exited");
    t
}

fn push_bytes(v: &mut Vec<u8>, more: &[u8])
    ensures
        final(v)@ == old(v)@ + more@,
{
    let ghost before = v@;
    let mut i: usize = 0;
    while i < more.len()
        invariant
            i <= more.len(),
            v@ == before + more@.take(i as int),
        decreases more.len() - i,
    {
        v.push(more[i]);
        i = i + 1;
        assert(before + more@.take(i as int) =~= (before + more@.take(i - 1)).push(more@[i - 1]));
    }
    assert(more@.take(more@.len() as int) =~= more@);
}

proof fn lemma_byte_upto(s: Seq<u8>, b: u8)
    ensures
        0 <= cdp::byte_upto(s, b) <= s.len(),
        forall|j: int| 0 <= j < cdp::byte_upto(s, b) ==> s[j] != b,
        cdp::byte_upto(s, b) < s.len() ==> s[cdp::byte_upto(s, b)] == b,
    decreases s.len(),
{
    if s.len() > 0 && s[0] != b {
        lemma_byte_upto(s.skip(1), b);
        assert forall|j: int| 0 <= j < cdp::byte_upto(s, b) implies s[j] != b by {
            if j > 0 {
                assert(s[j] == s.skip(1)[j - 1]);
            }
        }
    }
}

proof fn lemma_no_nul(s: Seq<u8>)
    requires
        forall|i: int| 0 <= i < s.len() ==> #[trigger] s[i] != 0,
    ensures
        cdp::byte_upto(s, 0) == s.len(),
{
    lemma_byte_upto(s, 0);
}

proof fn lemma_absorb_ignores_buf(s: ChromeState, buf: Seq<u8>, bytes: Seq<u8>)
    ensures
        s.absorb(bytes) == (ChromeState { buf, ..s }).absorb(bytes),
    decreases bytes.len(),
{
    let i = cdp::byte_upto(bytes, 0);
    let t = ChromeState { buf, ..s };
    if 0 <= i < bytes.len() {
        let m = bytes.take(i);
        lemma_absorb_ignores_buf(s.sort_in(m), buf, bytes.skip(i + 1));
        assert(t.sort_in(m) == (ChromeState { buf, ..s.sort_in(m) }));
    }
}

// ---------------------------------------------------------------------------
// What is asked, and what the answers mean
// ---------------------------------------------------------------------------

/// The method that opens a tab.
pub const CREATE_TARGET: &'static str = "Target.createTarget";

/// The method that attaches to a tab.
pub const ATTACH_TO_TARGET: &'static str = "Target.attachToTarget";

/// The method that closes a tab.
pub const CLOSE_TARGET: &'static str = "Target.closeTarget";

/// The method that runs a script.
pub const EVALUATE: &'static str = "Runtime.evaluate";

/// The method that opens an address.
pub const NAVIGATE: &'static str = "Page.navigate";

/// The event of a page that has loaded.
pub const LOAD_EVENT: &'static str = "Page.loadEventFired";

/// The script that reads the document, its type included.
pub const CONTENT_JS: &'static str =
    "(() => { let r = ''; if (document.doctype) r = new XMLSerializer().serializeToString(document.doctype); if (document.documentElement) r += document.documentElement.outerHTML; return r; })()";

/// The script that reads the address of the tab.
pub const LOCATION_JS: &'static str = "window.location.href";

fn object1(key: &str, v: Json) -> (r: Json)
    ensures
        r@ == JsonValue::Object(seq![(key@, v@)]),
{
    let mut m: Vec<(String, Json)> = Vec::new();
    m.push((key.to_owned(), v));
    let r = Json::Object(m);
    assert(r@->Object_0 =~= seq![(key@, v@)]);
    r
}

/// No parameters.
pub fn no_params() -> (r: Json)
    ensures
        r@ == JsonValue::Object(Seq::empty()),
{
    let r = Json::Object(Vec::new());
    assert(r@->Object_0 =~= Seq::empty());
    r
}

/// The parameters of a new tab.
pub fn blank_tab_params() -> (r: Json)
    ensures
        r@ == JsonValue::Object(seq![("url"@, JsonValue::Str("about:blank"@))]),
{
    object1("url", Json::Str("about:blank".to_owned()))
}

/// The parameters of attaching to a tab, with a session of its own.
pub fn attach_params(target_id: &str) -> (r: Json)
    ensures
        r@ == JsonValue::Object(
            seq![("targetId"@, JsonValue::Str(target_id@)), ("flatten"@, JsonValue::Bool(true))],
        ),
{
    let mut m: Vec<(String, Json)> = Vec::new();
    m.push(("targetId".to_owned(), Json::Str(target_id.to_owned())));
    m.push(("flatten".to_owned(), Json::Bool(true)));
    let r = Json::Object(m);
    proof {
        reveal_with_fuel(json::value, 2);
        assert(r@->Object_0 =~= seq![
            ("targetId"@, JsonValue::Str(target_id@)),
            ("flatten"@, JsonValue::Bool(true)),
        ]);
    }
    r
}

/// The parameters of closing a tab.
pub fn close_params(page: &Page) -> (r: Json)
    ensures
        r@ == JsonValue::Object(seq![("targetId"@, JsonValue::Str(page.target_id@))]),
{
    object1("targetId", Json::Str(page.target_id.clone()))
}

/// The parameters of opening an address.
pub fn navigate_params(url: &str) -> (r: Json)
    ensures
        r@ == JsonValue::Object(seq![("url"@, JsonValue::Str(url@))]),
{
    object1("url", Json::Str(url.to_owned()))
}

/// The parameters of a script that runs in every document from now on.
pub fn script_params(source: &str) -> (r: Json)
    ensures
        r@ == JsonValue::Object(seq![("source"@, JsonValue::Str(source@))]),
{
    object1("source", Json::Str(source.to_owned()))
}

/// The parameters of running a script: its value is sent back, and a promise
/// is waited for.
pub fn evaluate_params(js: &str) -> (r: Json)
    ensures
        r@ == JsonValue::Object(
            seq![
                ("expression"@, JsonValue::Str(js@)),
                ("returnByValue"@, JsonValue::Bool(true)),
                ("awaitPromise"@, JsonValue::Bool(true)),
            ],
        ),
{
    let mut m: Vec<(String, Json)> = Vec::new();
    m.push(("expression".to_owned(), Json::Str(js.to_owned())));
    m.push(("returnByValue".to_owned(), Json::Bool(true)));
    m.push(("awaitPromise".to_owned(), Json::Bool(true)));
    let r = Json::Object(m);
    proof {
        reveal_with_fuel(json::value, 2);
        assert(r@->Object_0 =~= seq![
            ("expression"@, JsonValue::Str(js@)),
            ("returnByValue"@, JsonValue::Bool(true)),
            ("awaitPromise"@, JsonValue::Bool(true)),
        ]);
    }
    r
}

/// The parameters of a desktop layout, whatever the window is.
pub fn viewport_params() -> (r: Json)
    ensures
        r@ == JsonValue::Object(
            seq![
                ("width"@, JsonValue::Unsigned(VIEWPORT_W as nat)),
                ("height"@, JsonValue::Unsigned(VIEWPORT_H as nat)),
                ("deviceScaleFactor"@, JsonValue::Float("1.0"@)),
                ("mobile"@, JsonValue::Bool(false)),
            ],
        ),
{
    let mut m: Vec<(String, Json)> = Vec::new();
    m.push(("width".to_owned(), Json::Unsigned(VIEWPORT_W as u64)));
    m.push(("height".to_owned(), Json::Unsigned(VIEWPORT_H as u64)));
    m.push(("deviceScaleFactor".to_owned(), Json::Float("1.0".to_owned())));
    m.push(("mobile".to_owned(), Json::Bool(false)));
    let r = Json::Object(m);
    proof {
        reveal_with_fuel(json::value, 2);
        assert(r@->Object_0 =~= seq![
            ("width"@, JsonValue::Unsigned(VIEWPORT_W as nat)),
            ("height"@, JsonValue::Unsigned(VIEWPORT_H as nat)),
            ("deviceScaleFactor"@, JsonValue::Float("1.0"@)),
            ("mobile"@, JsonValue::Bool(false)),
        ]);
    }
    r
}

/// The target of a tab that was opened.
pub fn opened_target(answer: &Json) -> (r: Result<String, String>)
    ensures
        match answer@.at("targetId"@) {
            JsonValue::Str(t) => r matches Ok(s) && s@ == t,
            _ => r matches Err(e) && e@ == "Chrome opened no tab"@,
        },
{
    match answer.text_at("targetId") {
        Some(t) => Ok(t.to_owned()),
        None => Err("Chrome opened no tab".to_owned()),
    }
}

/// The tab once it is attached.
pub fn attached_page(target_id: String, answer: &Json) -> (r: Result<Page, String>)
    ensures
        match answer@.at("sessionId"@) {
            JsonValue::Str(t) => r matches Ok(p) && p.target_id@ == target_id@ && p.session_id@ == t,
            _ => r matches Err(e) && e@ == "Chrome did not attach to the tab"@,
        },
{
    match answer.text_at("sessionId") {
        Some(t) => Ok(Page { target_id, session_id: t.to_owned() }),
        None => Err("Chrome did not attach to the tab".to_owned()),
    }
}

/// The error of an address that could not be opened, if there is one.
pub fn navigation_error(answer: &Json) -> (r: Option<String>)
    ensures
        match answer@.at("errorText"@) {
            JsonValue::Str(t) => if t.len() > 0 {
                r matches Some(e) && e@ == t
            } else {
                r is None
            },
            _ => r is None,
        },
{
    match answer.text_at("errorText") {
        Some(t) => if t.is_empty() {
            None
        } else {
            Some(t.to_owned())
        },
        None => None,
    }
}

/// What to say of an address that did not load in time.
pub fn navigation_timeout(url: &str, seconds: u64) -> (r: String)
    ensures
        r@ == "navigation to "@ + url@ + " timed out after "@ + text::decimal(seconds as nat) + " s"@,
{
    let mut r = "navigation to ".to_owned();
    r.append(url);
    r.append(" timed out after ");
    r.append(decimal_text(seconds).as_str());
    r.append(" s");
    r
}

/// What went wrong in a script.
pub open spec fn script_failure(details: JsonValue) -> Seq<char> {
    match details.at("exception"@).at("description"@) {
        JsonValue::Str(t) => t,
        _ => match details.at("text"@) {
            JsonValue::Str(t) => t,
            _ => "script error"@,
        },
    }
}

/// What running a script came to: its value, or what went wrong in it.
pub fn evaluated(answer: &Json) -> (r: Result<Json, String>)
    ensures
        match answer@.member("exceptionDetails"@) {
            Some(details) => r matches Err(e) && e@ == script_failure(details),
            None => r matches Ok(v) && v@ == answer@.at("result"@).at("value"@),
        },
{
    if let Some(details) = answer.get("exceptionDetails") {
        if let Some(exception) = details.get("exception") {
            if let Some(t) = exception.text_at("description") {
                return Err(t.to_owned());
            }
        }
        return match details.text_at("text") {
            Some(t) => Err(t.to_owned()),
            None => Err("script error".to_owned()),
        };
    }
    match answer.get("result") {
        Some(result) => match result.get("value") {
            Some(v) => Ok(v.copy()),
            None => Ok(Json::Null),
        },
        None => Ok(Json::Null),
    }
}

/// The value of a script as a text; the error says what else it is.
pub fn evaluated_text(v: &Json) -> (r: Result<String, String>)
    ensures
        match r {
            Ok(t) => v@ == JsonValue::Str(t@),
            Err(_) => !(v@ is Str),
        },
{
    json_text(v)
}

// ---------------------------------------------------------------------------
// Laws
// ---------------------------------------------------------------------------

proof fn lemma_byte_upto_concat(a: Seq<u8>, b: Seq<u8>)
    requires
        cdp::byte_upto(a, 0) < a.len(),
    ensures
        cdp::byte_upto(a + b, 0) == cdp::byte_upto(a, 0),
    decreases a.len(),
{
    lemma_byte_upto(a, 0);
    if a.len() > 0 && a[0] != 0 {
        lemma_byte_upto_concat(a.skip(1), b);
        assert((a + b).skip(1) =~= a.skip(1) + b);
    }
    assert((a + b)[0] == a[0]);
}

proof fn lemma_absorb_concat(s: ChromeState, a: Seq<u8>, b: Seq<u8>)
    ensures
        s.absorb(a).absorb(s.absorb(a).buf + b) == s.absorb(a + b),
    decreases a.len(),
{
    let i = cdp::byte_upto(a, 0);
    lemma_byte_upto(a, 0);
    if i < a.len() {
        lemma_byte_upto_concat(a, b);
        lemma_absorb_concat(s.sort_in(a.take(i)), a.skip(i + 1), b);
        assert((a + b).take(i) =~= a.take(i));
        assert((a + b).skip(i + 1) =~= a.skip(i + 1) + b);
    } else {
        lemma_absorb_ignores_buf(s, a, a + b);
    }
}

/// It does not matter how the bytes are cut up on their way: two pieces come
/// to the same as one.
pub proof fn law_pieces_do_not_matter(s: ChromeState, a: Seq<u8>, b: Seq<u8>)
    ensures
        s.receive(a).receive(b) == s.receive(a + b),
{
    lemma_absorb_concat(s, s.buf + a, b);
    assert(s.buf + (a + b) =~= (s.buf + a) + b);
}

/// A message that holds no zero byte and is ended by one is taken whole, and
/// nothing is left over.
pub proof fn law_a_message_is_taken_whole(s: ChromeState, message: Seq<u8>)
    requires
        s.buf.len() == 0,
        forall|i: int| 0 <= i < message.len() ==> #[trigger] message[i] != 0,
    ensures
        s.receive(message.push(0)) == (ChromeState { buf: Seq::empty(), ..s.sort_in(message) }),
{
    let bytes = s.buf + message.push(0);
    assert(bytes =~= message.push(0));
    lemma_byte_upto(bytes, 0);
    let i = cdp::byte_upto(bytes, 0);
    assert(i == message.len()) by {
        if i < message.len() {
            assert(bytes[i] == message[i]);
        } else if i > message.len() {
            assert(bytes[message.len() as int] == 0);
        }
    }
    assert(bytes.take(i) =~= message);
    assert(bytes.skip(i + 1) =~= Seq::<u8>::empty());
    let t = s.sort_in(message);
    assert(cdp::byte_upto(Seq::<u8>::empty(), 0) == 0);
    assert(t.absorb(Seq::<u8>::empty()) == (ChromeState { buf: Seq::empty(), ..t }));
    assert(s.absorb(bytes) == t.absorb(bytes.skip(i + 1)));
}

proof fn lemma_answer_kept(answers: Seq<JsonValue>, v: JsonValue, id: nat, from: int)
    requires
        0 <= from <= answers.len(),
    ensures
        match answer_at(answers, id, from) {
            Some(i) => answer_at(answers.push(v), id, from) == Some(i),
            None => answer_at(answers.push(v), id, from) == if v.at("id"@) == JsonValue::Unsigned(id) {
                Some(answers.len() as int)
            } else {
                None
            },
        },
    decreases answers.len() - from,
{
    let more = answers.push(v);
    if from < answers.len() {
        assert(more[from] == answers[from]);
        if answers[from].at("id"@) != JsonValue::Unsigned(id) {
            lemma_answer_kept(answers, v, id, from + 1);
        }
    } else {
        assert(more[from] == v);
        assert(answer_at(more, id, from + 1) is None);
    }
}

/// An answer that came is not lost while another one is waited for: whatever
/// message comes next, the first answer to a request stays the first.
pub proof fn law_an_answer_is_not_lost(s: ChromeState, message: Seq<u8>, id: nat)
    requires
        answer_at(s.answers, id, 0) is Some,
    ensures
        answer_at(s.sort_in(message).answers, id, 0) == answer_at(s.answers, id, 0),
{
    if let Some(v) = outside::json_value(message) {
        lemma_answer_kept(s.answers, v, id, 0);
    }
}

/// A request says what is asked: its own number, the method, the parameters,
/// and the session it is for, where it is for one.
pub proof fn law_a_request_says_what_is_asked(
    id: nat,
    session: Seq<char>,
    method: Seq<char>,
    params: JsonValue,
)
    ensures
        ({
            let to_all = request_value(id, None, method, params);
            let to_one = request_value(id, Some(session), method, params);
            &&& to_all.at("id"@) == JsonValue::Unsigned(id)
            &&& to_all.at("method"@) == JsonValue::Str(method)
            &&& to_all.at("params"@) == params
            &&& to_all.member("sessionId"@) is None
            &&& to_one.at("id"@) == JsonValue::Unsigned(id)
            &&& to_one.at("method"@) == JsonValue::Str(method)
            &&& to_one.at("params"@) == params
            &&& to_one.at("sessionId"@) == JsonValue::Str(session)
        }),
{
    reveal_strlit("id");
    reveal_strlit("method");
    reveal_strlit("params");
    reveal_strlit("sessionId");
    assert("id"@[0] == 'i' && "method"@[0] == 'm' && "params"@[0] == 'p' && "sessionId"@[0] == 's');
    reveal_with_fuel(json::member_at, 6);
}

/// Every message goes where it belongs: one with a number is kept as an answer,
/// one without as the newest event, and neither disturbs the other. What is no
/// JSON is passed over. The oldest event goes only where there are too many.
pub proof fn law_messages_are_sorted(s: ChromeState, message: Seq<u8>)
    ensures
        match outside::json_value(message) {
            None => s.sort_in(message) == s,
            Some(v) => {
                let t = s.sort_in(message);
                &&& v.member("id"@) is Some ==> t.answers == s.answers.push(v) && t.events
                    == s.events
                &&& v.member("id"@) is None ==> {
                    &&& t.answers == s.answers
                    &&& t.events.len() > 0 && t.events.last() == v
                    &&& s.events.len() < 512 ==> t.events == s.events.push(v)
                    &&& s.events.len() >= 512 ==> t.events == s.events.skip(1).push(v)
                }
                &&& t.last_id == s.last_id && t.buf == s.buf
            },
        },
{
    if let Some(v) = outside::json_value(message) {
        if s.events.len() >= 512 {
            assert(s.events.push(v).skip(1) =~= s.events.skip(1).push(v));
        }
    }
}

/// A call gets its own answer: the first that carries its number, and none
/// where there is none.
pub proof fn law_a_call_gets_its_own_answer(answers: Seq<JsonValue>, id: nat, from: int)
    requires
        0 <= from,
    ensures
        match answer_at(answers, id, from) {
            Some(i) => {
                &&& from <= i < answers.len()
                &&& answers[i].at("id"@) == JsonValue::Unsigned(id)
                &&& forall|j: int|
                    from <= j < i ==> (#[trigger] answers[j]).at("id"@) != JsonValue::Unsigned(id)
            },
            None => forall|j: int|
                from <= j < answers.len() ==> (#[trigger] answers[j]).at("id"@)
                    != JsonValue::Unsigned(id),
        },
    decreases answers.len() - from,
{
    if from < answers.len() && answers[from].at("id"@) != JsonValue::Unsigned(id) {
        law_a_call_gets_its_own_answer(answers, id, from + 1);
    }
}

/// A wait gets the oldest event of its kind on its own tab, and none where
/// there is none.
pub proof fn law_a_wait_gets_the_oldest_event(
    events: Seq<JsonValue>,
    method: Seq<char>,
    session: Seq<char>,
    from: int,
)
    requires
        0 <= from,
    ensures
        match event_at(events, method, session, from) {
            Some(i) => {
                &&& from <= i < events.len()
                &&& events[i].at("method"@) == JsonValue::Str(method)
                &&& events[i].at("sessionId"@) == JsonValue::Str(session)
                &&& forall|j: int|
                    from <= j < i ==> (#[trigger] events[j]).at("method"@) != JsonValue::Str(method)
                        || events[j].at("sessionId"@) != JsonValue::Str(session)
            },
            None => forall|j: int|
                from <= j < events.len() ==> (#[trigger] events[j]).at("method"@) != JsonValue::Str(
                    method,
                ) || events[j].at("sessionId"@) != JsonValue::Str(session),
        },
    decreases events.len() - from,
{
    if from < events.len() && !is_event(events[from], method, session) {
        law_a_wait_gets_the_oldest_event(events, method, session, from + 1);
    }
}

/// Forgetting events forgets those of one kind on one tab, and keeps all others
/// in their order.
pub proof fn law_forgetting_keeps_the_other_events(
    events: Seq<JsonValue>,
    method: Seq<char>,
    session: Seq<char>,
)
    ensures
        without_events(events, method, session) == events.filter(
            |e: JsonValue|
                e.at("method"@) != JsonValue::Str(method) || e.at("sessionId"@) != JsonValue::Str(
                    session,
                ),
        ),
    decreases events.len(),
{
    reveal(Seq::filter);
    if events.len() > 0 {
        law_forgetting_keeps_the_other_events(events.drop_last(), method, session);
    } else {
        assert(without_events(events, method, session) =~= events.filter(
            |e: JsonValue|
                e.at("method"@) != JsonValue::Str(method) || e.at("sessionId"@) != JsonValue::Str(
                    session,
                ),
        ));
    }
}

/// An answer that says what went wrong is an error, which names the method and
/// says just that; any other is its result.
pub proof fn law_an_answer_is_its_error_or_its_result(
    answer: JsonValue,
    method: Seq<char>,
    message: Seq<char>,
)
    ensures
        answer.member("error"@) is None ==> outcome(answer, method) == Ok::<JsonValue, Seq<char>>(
            answer.at("result"@),
        ),
        answer.member("error"@) is Some ==> (outcome(answer, method) matches Err(e) && text::begins(
            e,
            method,
        )),
        answer.at("error"@).at("message"@) == JsonValue::Str(message) ==> outcome(answer, method)
            == Err::<JsonValue, Seq<char>>(method + ": "@ + message),
{
    if let Err(e) = outcome(answer, method) {
        assert(e.subrange(0, method.len() as int) =~= method);
    }
}

/// What went wrong in a script is told in the script's own words, where there
/// are any: those of the exception first.
pub proof fn law_a_script_error_is_told_in_its_own_words(details: JsonValue, words: Seq<char>)
    ensures
        details.at("exception"@).at("description"@) == JsonValue::Str(words) ==> script_failure(
            details,
        ) == words,
        !(details.at("exception"@).at("description"@) is Str) && details.at("text"@)
            == JsonValue::Str(words) ==> script_failure(details) == words,
        script_failure(JsonValue::Null).len() > 0,
{
    reveal_strlit("script error");
}

} // verus!
