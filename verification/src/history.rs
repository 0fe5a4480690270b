use vstd::prelude::*;

use crate::json::{items_view, jget, jremove, jset, jstr, obj2, str_field, Json, JsonView};
use crate::text::{owned, str_eq};
use crate::transform::{first_choice, response_id_from_chat_id, response_id_of};

verus! {

broadcast use vstd::std_specs::vec::group_vec_axioms;

/// How many answered responses the store keeps for `previous_response_id`.
pub const MAX_CACHED_RESPONSES: usize = 512;

/// Chat transcripts of earlier responses, so that a Responses request that
/// names `previous_response_id` can be sent to a chat provider with the whole
/// conversation.
pub struct ConversationHistoryStore {
    /// Response id and transcript, oldest first.
    responses: Vec<(String, Vec<Json>)>,
}

/// The first transcript stored under `id`.
pub open spec fn lookup(entries: Seq<(Seq<char>, Seq<JsonView>)>, id: Seq<char>) -> Option<
    Seq<JsonView>,
>
    decreases entries.len(),
{
    if entries.len() == 0 {
        None
    } else if entries[0].0 == id {
        Some(entries[0].1)
    } else {
        lookup(entries.drop_first(), id)
    }
}

pub open spec fn ids_unique(entries: Seq<(Seq<char>, Seq<JsonView>)>) -> bool {
    forall|i: int, j: int|
        0 <= i < entries.len() && 0 <= j < entries.len() && i != j ==> entries[i].0 != entries[j].0
}

pub open spec fn is_system(m: JsonView) -> bool {
    str_field(m, "role"@) == Some("system"@)
}

pub open spec fn systems(s: Seq<JsonView>) -> Seq<JsonView>
    decreases s.len(),
{
    if s.len() == 0 {
        Seq::empty()
    } else if is_system(s.last()) {
        systems(s.drop_last()).push(s.last())
    } else {
        systems(s.drop_last())
    }
}

pub open spec fn non_systems(s: Seq<JsonView>) -> Seq<JsonView>
    decreases s.len(),
{
    if s.len() == 0 {
        Seq::empty()
    } else if !is_system(s.last()) {
        non_systems(s.drop_last()).push(s.last())
    } else {
        non_systems(s.drop_last())
    }
}

/// The conversation sent upstream: the current system messages (or the
/// cached ones where the current request has none), then the cached
/// exchange, then the new messages.
pub open spec fn merged(cached: Seq<JsonView>, current: Seq<JsonView>) -> Seq<JsonView> {
    (if systems(current).len() > 0 {
        systems(current)
    } else {
        systems(cached)
    }) + non_systems(cached) + non_systems(current)
}

/// An assistant message as it is cached: an object with a role and a
/// content, whose reasoning is kept only next to tool calls.
pub open spec fn normalize_assistant(m: JsonView) -> JsonView {
    if !(m is Object) {
        obj2("role"@, jstr("assistant"@), "content"@, jstr(Seq::empty()))
    } else {
        let m1 = if str_field(m, "role"@) is None {
            jset(m, "role"@, jstr("assistant"@))
        } else {
            m
        };
        let m2 = if jget(m1, "content"@) is None {
            jset(m1, "content"@, JsonView::Null)
        } else {
            m1
        };
        if jget(m2, "tool_calls"@) is None {
            jremove(jremove(m2, "reasoning_content"@), "reasoning"@)
        } else {
            m2
        }
    }
}

pub open spec fn valid_message(m: JsonView) -> bool {
    str_field(m, "role"@) is Some
}

pub open spec fn valid_messages(s: Seq<JsonView>) -> Seq<JsonView>
    decreases s.len(),
{
    if s.len() == 0 {
        Seq::empty()
    } else if valid_message(s.last()) {
        valid_messages(s.drop_last()).push(s.last())
    } else {
        valid_messages(s.drop_last())
    }
}

/// The transcript cached for an answered request.
pub open spec fn transcript(request: Seq<JsonView>, assistant: JsonView) -> Seq<JsonView> {
    valid_messages(request).push(normalize_assistant(assistant))
}

/// The store after `id` is recorded with `t`: replaced in place where
/// present, else appended, and the oldest dropped beyond the limit.
pub open spec fn recorded(
    entries: Seq<(Seq<char>, Seq<JsonView>)>,
    id: Seq<char>,
    t: Seq<JsonView>,
) -> Seq<(Seq<char>, Seq<JsonView>)> {
    match entry_index(entries, id) {
        Some(i) => entries.update(i, (id, t)),
        None => {
            let grown = entries.push((id, t));
            if grown.len() > MAX_CACHED_RESPONSES {
                grown.drop_first()
            } else {
                grown
            }
        },
    }
}

pub open spec fn entry_index(entries: Seq<(Seq<char>, Seq<JsonView>)>, id: Seq<char>) -> Option<int>
    decreases entries.len(),
{
    if entries.len() == 0 {
        None
    } else if entries[0].0 == id {
        Some(0)
    } else {
        match entry_index(entries.drop_first(), id) {
            Some(i) => Some(i + 1),
            None => None,
        }
    }
}

/// The assistant message of a chat completion, as it is cached.
pub open spec fn assistant_of(response: JsonView) -> Option<JsonView> {
    match first_choice(response) {
        Some(c) => match jget(c, "message"@) {
            Some(m) => Some(normalize_assistant(m)),
            None => None,
        },
        None => None,
    }
}

/// The assistant message recorded for a streamed answer.
pub open spec fn streamed_assistant(text: Seq<char>, reasoning: Seq<char>, calls: Seq<JsonView>) -> JsonView {
    let m = obj2("role"@, jstr("assistant"@), "content"@, jstr(text));
    let m1 = if reasoning.len() > 0 {
        jset(m, "reasoning_content"@, jstr(reasoning))
    } else {
        m
    };
    if calls.len() > 0 {
        jset(m1, "tool_calls"@, JsonView::Array(calls))
    } else {
        m1
    }
}

/// The non-empty `previous_response_id` of a Responses request.
pub open spec fn previous_id(body: JsonView) -> Option<Seq<char>> {
    match str_field(body, "previous_response_id"@) {
        Some(id) => if id.len() > 0 {
            Some(id)
        } else {
            None
        },
        None => None,
    }
}

/// The chat request after the cached conversation of the Responses
/// request's `previous_response_id` is put in front of its messages.
pub open spec fn enriched(
    entries: Seq<(Seq<char>, Seq<JsonView>)>,
    responses_body: JsonView,
    chat_request: JsonView,
) -> JsonView {
    match previous_id(responses_body) {
        Some(id) => match lookup(entries, id) {
            Some(cached) => match crate::json::as_array(jget(chat_request, "messages"@)) {
                Some(current) => jset(chat_request, "messages"@, JsonView::Array(merged(cached, current))),
                None => chat_request,
            },
            None => chat_request,
        },
        None => chat_request,
    }
}

/// The store after a streamed answer is recorded: unchanged where nothing
/// was streamed.
pub open spec fn stream_recorded(
    entries: Seq<(Seq<char>, Seq<JsonView>)>,
    id: Seq<char>,
    request: Seq<JsonView>,
    text: Seq<char>,
    reasoning: Seq<char>,
    calls: Seq<JsonView>,
) -> Seq<(Seq<char>, Seq<JsonView>)> {
    if text.len() == 0 && reasoning.len() == 0 && calls.len() == 0 {
        entries
    } else {
        recorded(entries, id, transcript(request, streamed_assistant(text, reasoning, calls)))
    }
}

/// What is recorded under an id is what a lookup of that id then finds.
pub proof fn law_record_then_lookup(
    entries: Seq<(Seq<char>, Seq<JsonView>)>,
    id: Seq<char>,
    t: Seq<JsonView>,
)
    requires
        ids_unique(entries),
    ensures
        lookup(recorded(entries, id, t), id) == Some(t),
        ids_unique(recorded(entries, id, t)),
{
    lemma_entry_index(entries, id);
    let r = recorded(entries, id, t);
    match entry_index(entries, id) {
        Some(i) => {
            assert(ids_unique(r)) by {
                assert forall|a: int, b: int|
                    0 <= a < r.len() && 0 <= b < r.len() && a != b implies r[a].0 != r[b].0 by {
                    assert(r[a].0 == entries[a].0);
                    assert(r[b].0 == entries[b].0);
                }
            }
            lemma_lookup_unique(r, i);
        },
        None => {
            let grown = entries.push((id, t));
            assert(ids_unique(grown));
            if grown.len() > MAX_CACHED_RESPONSES {
                let g = grown.drop_first();
                assert(ids_unique(g)) by {
                    assert forall|a: int, b: int|
                        0 <= a < g.len() && 0 <= b < g.len() && a != b implies g[a].0 != g[b].0 by {
                        assert(g[a] == grown[a + 1]);
                        assert(g[b] == grown[b + 1]);
                    }
                }
                assert(g[g.len() - 1] == (id, t));
                lemma_lookup_unique(g, g.len() - 1);
            } else {
                lemma_lookup_unique(grown, grown.len() - 1);
            }
        },
    }
}

/// A request that continues a recorded answer (its `previous_response_id`
/// names it) gets the recorded transcript merged in front of its messages.
pub proof fn law_continue_recorded(
    entries: Seq<(Seq<char>, Seq<JsonView>)>,
    id: Seq<char>,
    t: Seq<JsonView>,
    responses_body: JsonView,
    chat_request: JsonView,
    current: Seq<JsonView>,
)
    requires
        ids_unique(entries),
        previous_id(responses_body) == Some(id),
        jget(chat_request, "messages"@) == Some(JsonView::Array(current)),
    ensures
        enriched(recorded(entries, id, t), responses_body, chat_request) == jset(
            chat_request,
            "messages"@,
            JsonView::Array(merged(t, current)),
        ),
{
    law_record_then_lookup(entries, id, t);
}

/// Recording under one id leaves what another id finds unchanged, unless
/// the store was full and its oldest entry gave way.
pub proof fn law_record_keeps_others(
    entries: Seq<(Seq<char>, Seq<JsonView>)>,
    id: Seq<char>,
    t: Seq<JsonView>,
    other: Seq<char>,
)
    requires
        ids_unique(entries),
        other != id,
        entry_index(entries, id) is Some || entries.len() < MAX_CACHED_RESPONSES,
    ensures
        lookup(recorded(entries, id, t), other) == lookup(entries, other),
{
    lemma_entry_index(entries, id);
    lemma_entry_index(entries, other);
    law_record_then_lookup(entries, id, t);
    let r = recorded(entries, id, t);
    match entry_index(entries, other) {
        Some(k) => {
            assert(r[k] == entries[k]);
            lemma_lookup_unique(r, k);
        },
        None => {
            assert forall|j: int| 0 <= j < r.len() implies r[j].0 != other by {
                if j < entries.len() {
                    assert(r[j].0 == entries[j].0);
                }
            }
            lemma_lookup_absent(r, other);
        },
    }
}

proof fn lemma_entry_index(entries: Seq<(Seq<char>, Seq<JsonView>)>, id: Seq<char>)
    ensures
        match entry_index(entries, id) {
            Some(i) => 0 <= i < entries.len() && entries[i].0 == id && lookup(entries, id) == Some(
                entries[i].1,
            ) && forall|j: int| 0 <= j < i ==> entries[j].0 != id,
            None => lookup(entries, id) is None && forall|j: int|
                0 <= j < entries.len() ==> entries[j].0 != id,
        },
    decreases entries.len(),
{
    if entries.len() > 0 && entries[0].0 != id {
        lemma_entry_index(entries.drop_first(), id);
        match entry_index(entries.drop_first(), id) {
            Some(i) => {
                assert forall|j: int| 0 <= j < i + 1 implies entries[j].0 != id by {
                    if j > 0 {
                        assert(entries[j] == entries.drop_first()[j - 1]);
                    }
                }
            },
            None => {
                assert forall|j: int| 0 <= j < entries.len() implies entries[j].0 != id by {
                    if j > 0 {
                        assert(entries[j] == entries.drop_first()[j - 1]);
                    }
                }
            },
        }
    }
}

/// With unique ids, the entry at `i` is what `lookup` finds for its id.
pub proof fn lemma_lookup_unique(entries: Seq<(Seq<char>, Seq<JsonView>)>, i: int)
    requires
        ids_unique(entries),
        0 <= i < entries.len(),
    ensures
        lookup(entries, entries[i].0) == Some(entries[i].1),
    decreases i,
{
    if i > 0 {
        let rest = entries.drop_first();
        assert(ids_unique(rest)) by {
            assert forall|a: int, b: int|
                0 <= a < rest.len() && 0 <= b < rest.len() && a != b implies rest[a].0 != rest[b].0 by {
                assert(rest[a] == entries[a + 1]);
                assert(rest[b] == entries[b + 1]);
            }
        }
        assert(entries[0].0 != entries[i].0);
        assert(rest[i - 1] == entries[i]);
        lemma_lookup_unique(rest, i - 1);
    }
}

/// Without an entry for `id`, `lookup` finds nothing.
pub proof fn lemma_lookup_absent(entries: Seq<(Seq<char>, Seq<JsonView>)>, id: Seq<char>)
    requires
        forall|j: int| 0 <= j < entries.len() ==> entries[j].0 != id,
    ensures
        lookup(entries, id) is None,
    decreases entries.len(),
{
    if entries.len() > 0 {
        lemma_lookup_absent(entries.drop_first(), id);
    }
}

/// Where `lookup` finds a transcript, some entry holds it.
pub proof fn lemma_lookup_some(entries: Seq<(Seq<char>, Seq<JsonView>)>, id: Seq<char>)
    ensures
        lookup(entries, id) matches Some(t) ==> exists|i: int|
            0 <= i < entries.len() && entries[i] == (id, t),
    decreases entries.len(),
{
    if entries.len() > 0 && entries[0].0 != id {
        lemma_lookup_some(entries.drop_first(), id);
        if let Some(t) = lookup(entries, id) {
            let i = choose|i: int| 0 <= i < entries.drop_first().len() && entries.drop_first()[i] == (id, t);
            assert(entries[i + 1] == (id, t));
        }
    }
}

impl ConversationHistoryStore {
    pub closed spec fn view(&self) -> Seq<(Seq<char>, Seq<JsonView>)> {
        Seq::new(self.responses@.len(), |i: int| (self.responses@[i].0@, items_view(self.responses@[i].1@)))
    }

    #[verifier::type_invariant]
    closed spec fn well_formed(&self) -> bool {
        &&& ids_unique(self.view())
        &&& self.responses@.len() <= MAX_CACHED_RESPONSES
    }

    /// How many responses are cached; the store holds each id once and never
    /// more than the limit.
    pub fn len(&self) -> (n: usize)
        ensures
            n == self@.len(),
            ids_unique(self@),
            self@.len() <= MAX_CACHED_RESPONSES,
    {
        proof {
            use_type_invariant(self);
        }
        self.responses.len()
    }

    /// An empty store.
    pub fn new() -> (r: Self)
        ensures
            r@ == Seq::<(Seq<char>, Seq<JsonView>)>::empty(),
    {
        let r = ConversationHistoryStore { responses: Vec::new() };
        assert(r@ =~= Seq::<(Seq<char>, Seq<JsonView>)>::empty());
        r
    }

    /// The transcript cached for `id`.
    pub fn cached(&self, id: &str) -> (r: Option<Vec<Json>>)
        ensures
            match r {
                Some(t) => lookup(self@, id@) == Some(items_view(t@)),
                None => lookup(self@, id@) is None,
            },
    {
        let ghost es = self@;
        let mut i: usize = 0;
        assert(es.subrange(0, es.len() as int) =~= es);
        while i < self.responses.len()
            invariant
                i <= self.responses@.len(),
                es == self@,
                es.len() == self.responses@.len(),
                lookup(es, id@) == lookup(es.subrange(i as int, es.len() as int), id@),
            decreases self.responses@.len() - i,
        {
            let ghost rest = es.subrange(i as int, es.len() as int);
            assert(rest[0] == es[i as int]);
            if str_eq(self.responses[i].0.as_str(), id) {
                let messages = clone_messages(&self.responses[i].1);
                return Some(messages);
            }
            assert(rest.drop_first() =~= es.subrange(i + 1, es.len() as int));
            i = i + 1;
        }
        None
    }

    /// Stores `t` under `id`, as `recorded` says.
    fn record_messages(&mut self, response_id: String, request_messages: Vec<Json>, assistant: Json)
        ensures
            final(self)@ == recorded(
                old(self)@,
                response_id@,
                transcript(items_view(request_messages@), assistant.view()),
            ),
    {
        proof {
            use_type_invariant(&*self);
        }
        let ghost rv = items_view(request_messages@);
        let ghost target = transcript(rv, assistant.view());
        let ghost before_store = self@;
        let mut transcript_msgs: Vec<Json> = Vec::new();
        let mut k: usize = 0;
        while k < request_messages.len()
            invariant
                k <= request_messages@.len(),
                rv == items_view(request_messages@),
                items_view(transcript_msgs@) == valid_messages(rv.take(k as int)),
            decreases request_messages@.len() - k,
        {
            proof {
                assert(rv.take(k + 1).drop_last() =~= rv.take(k as int));
                assert(rv.take(k + 1).last() == request_messages@[k as int].view());
            }
            if request_messages[k].get_str("role").is_some() {
                let m = request_messages[k].deep_clone();
                let ghost mv = m.view();
                let ghost before = items_view(transcript_msgs@);
                transcript_msgs.push(m);
                assert(items_view(transcript_msgs@) =~= before.push(mv));
            }
            k = k + 1;
        }
        assert(rv.take(request_messages@.len() as int) =~= rv);
        let n = normalize_assistant_message(assistant);
        let ghost nv = n.view();
        let ghost before = items_view(transcript_msgs@);
        transcript_msgs.push(n);
        assert(items_view(transcript_msgs@) =~= before.push(nv));
        let ghost t = items_view(transcript_msgs@);
        let ghost es = self@;
        proof {
            lemma_entry_index(es, response_id@);
        }
        let mut i: usize = 0;
        while i < self.responses.len()
            invariant
                i <= self.responses@.len(),
                es == self@,
                es.len() == self.responses@.len(),
                ids_unique(es),
                es.len() <= MAX_CACHED_RESPONSES,
                t == items_view(transcript_msgs@),
                t == target,
                es == before_store,
                before_store == old(self)@,
                target == transcript(items_view(request_messages@), assistant.view()),
                forall|j: int| 0 <= j < i ==> es[j].0 != response_id@,
            decreases self.responses@.len() - i,
        {
            if str_eq(self.responses[i].0.as_str(), response_id.as_str()) {
                proof {
                    assert(es[i as int].0 == response_id@);
                    lemma_entry_index(es, response_id@);
                    assert(entry_index(es, response_id@) == Some(i as int)) by {
                        match entry_index(es, response_id@) {
                            Some(x) => {
                                if x < i {
                                } else if x > i {
                                }
                            },
                            None => {},
                        }
                    }
                }
                let ghost new_view = es.update(i as int, (response_id@, t));
                let ghost old_responses = self.responses@;
                let mut responses = Vec::new();
                std::mem::swap(&mut responses, &mut self.responses);
                responses.set(i, (response_id, transcript_msgs));
                proof {
                    let v = Seq::new(responses@.len(), |j: int| (responses@[j].0@, items_view(responses@[j].1@)));
                    assert forall|j: int| 0 <= j < v.len() implies v[j] == new_view[j] by {
                        if j != i {
                            assert(es[j] == (old_responses[j].0@, items_view(old_responses[j].1@)));
                        }
                    }
                    assert(v =~= new_view);
                    assert(ids_unique(new_view)) by {
                        assert forall|a: int, b: int|
                            0 <= a < new_view.len() && 0 <= b < new_view.len() && a != b implies new_view[a].0 != new_view[b].0 by {
                            assert(new_view[a].0 == es[a].0);
                            assert(new_view[b].0 == es[b].0);
                        }
                    }
                }
                self.responses = responses;
                assert(self@ =~= new_view);
                return;
            }
            i = i + 1;
        }
        proof {
            lemma_entry_index(es, response_id@);
        }
        let mut responses = Vec::new();
        std::mem::swap(&mut responses, &mut self.responses);
        responses.push((response_id, transcript_msgs));
        let ghost grown = es.push((response_id@, t));
        proof {
            let v = Seq::new(responses@.len(), |j: int| (responses@[j].0@, items_view(responses@[j].1@)));
            assert(v =~= grown);
        }
        if responses.len() > MAX_CACHED_RESPONSES {
            responses.remove(0);
            proof {
                let v = Seq::new(responses@.len(), |j: int| (responses@[j].0@, items_view(responses@[j].1@)));
                assert(v =~= grown.drop_first());
                assert(ids_unique(grown.drop_first())) by {
                    let g = grown.drop_first();
                    assert forall|a: int, b: int|
                        0 <= a < g.len() && 0 <= b < g.len() && a != b implies g[a].0 != g[b].0 by {
                        assert(g[a] == grown[a + 1]);
                        assert(g[b] == grown[b + 1]);
                    }
                }
            }
            self.responses = responses;
            assert(self@ =~= grown.drop_first());
        } else {
            proof {
                assert(ids_unique(grown)) by {
                    assert forall|a: int, b: int|
                        0 <= a < grown.len() && 0 <= b < grown.len() && a != b implies grown[a].0 != grown[b].0 by {
                    }
                }
            }
            self.responses = responses;
            assert(self@ =~= grown);
        }
    }

    /// Puts the cached conversation of `previous_response_id` in front of the
    /// chat request's messages; returns how many messages that added.
    pub fn enrich_chat_request(&self, responses_body: &Json, chat_request: &mut Json) -> (added: usize)
        ensures
            final(chat_request).view() == enriched(self@, responses_body.view(), old(chat_request).view()),
            match previous_id(responses_body.view()) {
                Some(id) => match lookup(self@, id) {
                    Some(cached) => match crate::json::as_array(jget(old(chat_request).view(), "messages"@)) {
                        Some(current) => final(chat_request).view() == jset(
                            old(chat_request).view(),
                            "messages"@,
                            JsonView::Array(merged(cached, current)),
                        ) && added == if merged(cached, current).len() >= current.len() {
                            merged(cached, current).len() - current.len()
                        } else {
                            0
                        },
                        None => *final(chat_request) == *old(chat_request) && added == 0,
                    },
                    None => *final(chat_request) == *old(chat_request) && added == 0,
                },
                None => *final(chat_request) == *old(chat_request) && added == 0,
            },
    {
        let previous = match responses_body.get_str("previous_response_id") {
            Some(id) => if id.as_str().is_empty() {
                return 0;
            } else {
                id
            },
            None => return 0,
        };
        let cached = match self.cached(previous.as_str()) {
            Some(c) => c,
            None => return 0,
        };
        let current = match chat_request.get_array("messages") {
            Some(m) => clone_messages(m),
            None => return 0,
        };
        assert(chat_request.view() is Object);
        let merged_msgs = merge_cached_messages(&cached, &current);
        let added = if merged_msgs.len() >= current.len() {
            merged_msgs.len() - current.len()
        } else {
            0
        };
        chat_request.set("messages", Json::from_items(merged_msgs));
        added
    }

    /// Caches the transcript of a non-streamed chat answer; returns the
    /// Responses id it is stored under, or `None` without an answer message.
    pub fn record_chat_response(&mut self, request_messages: Vec<Json>, chat_response: &Json) -> (r:
        Option<String>)
        ensures
            match assistant_of(chat_response.view()) {
                Some(m) => {
                    let id = response_id_of(str_field(chat_response.view(), "id"@));
                    r matches Some(x) && x@ == id && final(self)@ == recorded(
                        old(self)@,
                        id,
                        transcript(items_view(request_messages@), m),
                    )
                },
                None => r is None && final(self)@ == old(self)@,
            },
    {
        let message = match assistant_message_from_chat_response(chat_response) {
            Some(m) => m,
            None => return None,
        };
        let response_id = match chat_response.get_str("id") {
            Some(id) => response_id_from_chat_id(Some(id.as_str())),
            None => response_id_from_chat_id(None),
        };
        let id = response_id.clone();
        self.record_messages(response_id, request_messages, message);
        Some(id)
    }

    /// Caches the transcript of a streamed answer without tool calls.
    pub fn record_stream_response(
        &mut self,
        response_id: &str,
        request_messages: Vec<Json>,
        text: &str,
        reasoning: &str,
    ) -> (r: Option<String>)
        ensures
            if text@.len() == 0 && reasoning@.len() == 0 {
                r is None && final(self)@ == old(self)@
            } else {
                r matches Some(x) && x@ == response_id@ && final(self)@ == recorded(
                    old(self)@,
                    response_id@,
                    transcript(
                        items_view(request_messages@),
                        streamed_assistant(text@, reasoning@, Seq::empty()),
                    ),
                )
            },
    {
        let none: Vec<Json> = Vec::new();
        assert(items_view(none@) =~= Seq::<JsonView>::empty());
        self.record_stream_response_with_tool_calls(
            response_id,
            request_messages,
            text,
            reasoning,
            none,
        )
    }

    /// Caches the transcript of a streamed answer, tool calls included.
    pub fn record_stream_response_with_tool_calls(
        &mut self,
        response_id: &str,
        request_messages: Vec<Json>,
        text: &str,
        reasoning: &str,
        tool_calls: Vec<Json>,
    ) -> (r: Option<String>)
        ensures
            final(self)@ == stream_recorded(
                old(self)@,
                response_id@,
                items_view(request_messages@),
                text@,
                reasoning@,
                items_view(tool_calls@),
            ),
            if text@.len() == 0 && reasoning@.len() == 0 && tool_calls@.len() == 0 {
                r is None && final(self)@ == old(self)@
            } else {
                r matches Some(x) && x@ == response_id@ && final(self)@ == recorded(
                    old(self)@,
                    response_id@,
                    transcript(
                        items_view(request_messages@),
                        streamed_assistant(text@, reasoning@, items_view(tool_calls@)),
                    ),
                )
            },
    {
        if text.is_empty() && reasoning.is_empty() && tool_calls.len() == 0 {
            return None;
        }
        let mut message = Json::obj2("role", Json::string("assistant"), "content", Json::string(text));
        if !reasoning.is_empty() {
            message.set("reasoning_content", Json::string(reasoning));
        }
        if tool_calls.len() > 0 {
            message.set("tool_calls", Json::from_items(tool_calls));
        }
        self.record_messages(owned(response_id), request_messages, message);
        Some(owned(response_id))
    }
}

impl Default for ConversationHistoryStore {
    fn default() -> (r: Self)
        ensures
            r@ == Seq::<(Seq<char>, Seq<JsonView>)>::empty(),
    {
        ConversationHistoryStore::new()
    }
}

pub(crate) fn clone_messages(messages: &Vec<Json>) -> (r: Vec<Json>)
    ensures
        items_view(r@) == items_view(messages@),
{
    let mut r: Vec<Json> = Vec::new();
    let mut i: usize = 0;
    while i < messages.len()
        invariant
            i <= messages@.len(),
            items_view(r@) == items_view(messages@).take(i as int),
        decreases messages@.len() - i,
    {
        let c = messages[i].deep_clone();
        let ghost cv = c.view();
        let ghost before = items_view(r@);
        r.push(c);
        assert(items_view(r@) =~= before.push(cv));
        assert(items_view(messages@).take(i + 1) =~= items_view(messages@).take(i as int).push(cv));
        i = i + 1;
    }
    assert(items_view(messages@).take(messages@.len() as int) =~= items_view(messages@));
    r
}

fn is_system_message(message: &Json) -> (r: bool)
    ensures
        r == is_system(message.view()),
{
    match message.get_str("role") {
        Some(r) => str_eq(r.as_str(), "system"),
        None => false,
    }
}

/// Appends the system (or non-system) messages of `from` to `out`.
fn extend_filtered(out: &mut Vec<Json>, from: &Vec<Json>, want_system: bool)
    ensures
        items_view(final(out)@) == items_view(old(out)@) + if want_system {
            systems(items_view(from@))
        } else {
            non_systems(items_view(from@))
        },
{
    let ghost fv = items_view(from@);
    let ghost start = items_view(out@);
    let mut i: usize = 0;
    while i < from.len()
        invariant
            i <= from@.len(),
            fv == items_view(from@),
            items_view(out@) == start + if want_system {
                systems(fv.take(i as int))
            } else {
                non_systems(fv.take(i as int))
            },
        decreases from@.len() - i,
    {
        proof {
            assert(fv.take(i + 1).drop_last() =~= fv.take(i as int));
            assert(fv.take(i + 1).last() == from@[i as int].view());
        }
        if is_system_message(&from[i]) == want_system {
            let c = from[i].deep_clone();
            let ghost cv = c.view();
            let ghost before = items_view(out@);
            out.push(c);
            assert(items_view(out@) =~= before.push(cv));
        }
        i = i + 1;
    }
    assert(fv.take(from@.len() as int) =~= fv);
}

proof fn lemma_systems_empty(s: Seq<JsonView>)
    ensures
        systems(s).len() == 0 <==> forall|i: int| 0 <= i < s.len() ==> !is_system(#[trigger] s[i]),
    decreases s.len(),
{
    if s.len() > 0 {
        lemma_systems_empty(s.drop_last());
        assert forall|i: int| 0 <= i < s.len() - 1 implies s.drop_last()[i] == s[i] by {}
    }
}

/// `merged(cached, current)`.
fn merge_cached_messages(cached: &Vec<Json>, current: &Vec<Json>) -> (r: Vec<Json>)
    ensures
        items_view(r@) == merged(items_view(cached@), items_view(current@)),
{
    let mut current_has_system = false;
    let mut i: usize = 0;
    while i < current.len()
        invariant
            i <= current@.len(),
            current_has_system == exists|j: int| 0 <= j < i && is_system(#[trigger] items_view(current@)[j]),
        decreases current@.len() - i,
    {
        if is_system_message(&current[i]) {
            assert(is_system(items_view(current@)[i as int]));
            current_has_system = true;
        }
        i = i + 1;
    }
    proof {
        lemma_systems_empty(items_view(current@));
    }
    let mut merged_msgs: Vec<Json> = Vec::new();
    assert(items_view(merged_msgs@) =~= Seq::<JsonView>::empty());
    if current_has_system {
        extend_filtered(&mut merged_msgs, current, true);
    } else {
        extend_filtered(&mut merged_msgs, cached, true);
    }
    extend_filtered(&mut merged_msgs, cached, false);
    extend_filtered(&mut merged_msgs, current, false);
    merged_msgs
}

/// `normalize_assistant(message)`.
fn normalize_assistant_message(message: Json) -> (r: Json)
    ensures
        r.view() == normalize_assistant(message.view()),
{
    if !message.is_object() {
        return Json::obj2("role", Json::string("assistant"), "content", Json::from_string(String::new()));
    }
    let mut message = message;
    if message.get_str("role").is_none() {
        message.set("role", Json::string("assistant"));
    }
    if message.get("content").is_none() {
        message.set("content", Json::null());
    }
    if message.get("tool_calls").is_none() {
        message.remove("reasoning_content");
        message.remove("reasoning");
    }
    message
}

fn assistant_message_from_chat_response(response: &Json) -> (r: Option<Json>)
    ensures
        match r {
            Some(m) => assistant_of(response.view()) == Some(m.view()),
            None => assistant_of(response.view()) is None,
        },
{
    match response.get_array("choices") {
        Some(choices) => {
            if choices.len() == 0 {
                return None;
            }
            assert(choices@[0].view() == items_view(choices@)[0]);
            match choices[0].get("message") {
                Some(m) => Some(normalize_assistant_message(m.deep_clone())),
                None => None,
            }
        },
        None => None,
    }
}

proof fn lemma_filters_concat(a: Seq<JsonView>, b: Seq<JsonView>)
    ensures
        systems(a + b) == systems(a) + systems(b),
        non_systems(a + b) == non_systems(a) + non_systems(b),
    decreases b.len(),
{
    if b.len() == 0 {
        assert(a + b =~= a);
        assert(systems(a) + systems(b) =~= systems(a));
        assert(non_systems(a) + non_systems(b) =~= non_systems(a));
    } else {
        lemma_filters_concat(a, b.drop_last());
        assert((a + b).drop_last() =~= a + b.drop_last());
        assert((a + b).last() == b.last());
        if is_system(b.last()) {
            assert(systems(a) + systems(b) =~= (systems(a) + systems(b.drop_last())).push(b.last()));
        } else {
            assert(non_systems(a) + non_systems(b) =~= (non_systems(a) + non_systems(b.drop_last())).push(b.last()));
        }
    }
}

proof fn lemma_filters_of_filters(a: Seq<JsonView>)
    ensures
        systems(systems(a)) == systems(a),
        non_systems(systems(a)) == Seq::<JsonView>::empty(),
        systems(non_systems(a)) == Seq::<JsonView>::empty(),
        non_systems(non_systems(a)) == non_systems(a),
        forall|i: int| 0 <= i < systems(a).len() ==> is_system(#[trigger] systems(a)[i]),
        forall|i: int| 0 <= i < non_systems(a).len() ==> !is_system(#[trigger] non_systems(a)[i]),
    decreases a.len(),
{
    if a.len() > 0 {
        lemma_filters_of_filters(a.drop_last());
        let x = a.last();
        if is_system(x) {
            assert(systems(a).drop_last() =~= systems(a.drop_last()));
        } else {
            assert(non_systems(a).drop_last() =~= non_systems(a.drop_last()));
        }
    }
}

/// Continuing a conversation keeps its parts in their places: the system
/// messages sent are those of the new request, or, where it has none, those
/// of the cached conversation, and they come first; after them come the
/// cached exchange and then the new messages, none of them lost.
pub proof fn law_merged_keeps_conversation(cached: Seq<JsonView>, current: Seq<JsonView>)
    ensures
        ({
            let m = merged(cached, current);
            let lead = if systems(current).len() > 0 {
                systems(current)
            } else {
                systems(cached)
            };
            &&& systems(m) == lead
            &&& m.take(lead.len() as int) == lead
            &&& forall|i: int| lead.len() <= i < m.len() ==> !is_system(#[trigger] m[i])
            &&& non_systems(m) == non_systems(cached) + non_systems(current)
            &&& (forall|i: int| 0 <= i < current.len() ==> !is_system(#[trigger] current[i])) ==> systems(m) == systems(
                cached,
            )
        }),
{
    let lead = if systems(current).len() > 0 {
        systems(current)
    } else {
        systems(cached)
    };
    let rest = non_systems(cached) + non_systems(current);
    lemma_filters_of_filters(cached);
    lemma_filters_of_filters(current);
    lemma_filters_concat(non_systems(cached), non_systems(current));
    lemma_filters_concat(lead, rest);
    lemma_systems_empty(current);
    let m = merged(cached, current);
    assert(m == lead + rest);
    assert(systems(lead) == lead);
    assert(non_systems(lead) == Seq::<JsonView>::empty());
    assert(systems(rest) =~= Seq::<JsonView>::empty());
    assert(systems(m) =~= lead);
    assert(non_systems(m) =~= rest);
    assert(m.take(lead.len() as int) =~= lead);
    assert forall|i: int| lead.len() <= i < m.len() implies !is_system(#[trigger] m[i]) by {
        assert(m[i] == rest[i - lead.len()]);
        if i - lead.len() < non_systems(cached).len() {
            assert(rest[i - lead.len()] == non_systems(cached)[i - lead.len()]);
        } else {
            assert(rest[i - lead.len()] == non_systems(current)[i - lead.len() - non_systems(cached).len()]);
        }
    }
}

} // verus!
