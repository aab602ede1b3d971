//! The line to the host for model calls: the quota that a root query spends,
//! the request for one completion, what its reply means, and the JSON in a
//! chatty completion.
use vstd::prelude::*;
use vstd::string::*;

use crate::json;
use crate::json::Json;
use crate::text;

verus! {

/// How many completions may be in flight at once. The quota of the provider is
/// shared with everything else that runs on the node.
pub const MAX_IN_FLIGHT: usize = 8;

/// The loopback port the service listens on where none is configured.
pub const DEFAULT_PORT: u16 = 8014;

/// Which of the two configured models a call should use.
#[derive(Clone, Copy, Debug, PartialEq, Eq)]
pub enum Tier {
    /// The planner. Sees outlines, findings and its own notes, never the
    /// corpus.
    Root,
    /// The reader. Sees one chunk and one instruction.
    Leaf,
}

/// The settings key of a tier.
pub open spec fn pref_key_of(tier: Tier) -> Seq<char> {
    match tier {
        Tier::Root => "rlm-root-model"@,
        Tier::Leaf => "rlm-leaf-model"@,
    }
}

impl Tier {
    /// The settings key that the host resolves to a model.
    pub fn pref_key(self) -> (r: &'static str)
        ensures
            r@ == pref_key_of(self),
    {
        match self {
            Tier::Root => "rlm-root-model",
            Tier::Leaf => "rlm-leaf-model",
        }
    }
}

/// The two tiers are configured apart: no key serves both.
pub proof fn law_the_tiers_have_keys_of_their_own(a: Tier, b: Tier)
    ensures
        pref_key_of(a) == pref_key_of(b) <==> a == b,
{
    reveal_strlit("rlm-root-model");
    reveal_strlit("rlm-leaf-model");
    assert("rlm-root-model"@[4] != "rlm-leaf-model"@[4]);
}

// -------------------------------------------------------------------- errors
/// Why a completion did not run. What a budget refused is told apart from what
/// the host could not do.
#[derive(Debug, PartialEq)]
pub enum CompleteError {
    CallBudget,
    Deadline,
    Host(String),
}

/// What an error holds.
pub enum ErrorView {
    CallBudget,
    Deadline,
    Host(Seq<char>),
}

impl View for CompleteError {
    type V = ErrorView;

    open spec fn view(&self) -> ErrorView {
        match *self {
            CompleteError::CallBudget => ErrorView::CallBudget,
            CompleteError::Deadline => ErrorView::Deadline,
            CompleteError::Host(s) => ErrorView::Host(s@),
        }
    }
}

impl ErrorView {
    /// The error in words.
    pub open spec fn message(self) -> Seq<char> {
        match self {
            ErrorView::CallBudget => "root model-call budget exhausted"@,
            ErrorView::Deadline => "root wall-clock deadline exhausted"@,
            ErrorView::Host(s) => s,
        }
    }
}

impl CompleteError {
    /// The error in words.
    pub fn message(&self) -> (r: String)
        ensures
            r@ == self@.message(),
    {
        match self {
            CompleteError::CallBudget => "root model-call budget exhausted".to_owned(),
            CompleteError::Deadline => "root wall-clock deadline exhausted".to_owned(),
            CompleteError::Host(s) => s.clone(),
        }
    }
}

/// What a completion gave: its text, or why there is none.
pub open spec fn reply_view(r: Result<String, CompleteError>) -> Result<Seq<char>, ErrorView> {
    match r {
        Ok(s) => Ok(s@),
        Err(e) => Err(e@),
    }
}

// --------------------------------------------------------------------- quota
/// The one quota of a root query. Every planner turn, every nested run and
/// every leaf spends from this same value, so that nothing nested can start a
/// count of its own.
#[derive(Debug)]
pub struct RunQuota {
    remaining_calls: usize,
    reserved_calls: usize,
    prompt_chars: u64,
    deadline_ms: u64,
}

/// What a quota holds.
pub struct QuotaView {
    /// Model calls that may still be claimed.
    pub remaining: nat,
    /// Model calls that were claimed.
    pub calls: nat,
    /// Characters sent to models, counted as the machine counts.
    pub prompt_chars: u64,
    /// When the query must be over.
    pub deadline_ms: u64,
}

impl View for RunQuota {
    type V = QuotaView;

    closed spec fn view(&self) -> QuotaView {
        QuotaView {
            remaining: self.remaining_calls as nat,
            calls: self.reserved_calls as nat,
            prompt_chars: self.prompt_chars,
            deadline_ms: self.deadline_ms,
        }
    }
}

impl QuotaView {
    /// Nothing is left of the time.
    pub open spec fn elapsed(self, now_ms: u64) -> bool {
        now_ms >= self.deadline_ms
    }

    /// Why no call can be claimed, or nothing where one can.
    pub open spec fn refusal(self, now_ms: u64) -> Option<ErrorView> {
        if self.elapsed(now_ms) {
            Some(ErrorView::Deadline)
        } else if self.remaining == 0 {
            Some(ErrorView::CallBudget)
        } else {
            None
        }
    }

    /// The quota after a call was asked for.
    pub open spec fn claimed(self, now_ms: u64) -> QuotaView {
        match self.refusal(now_ms) {
            Some(_) => self,
            None => QuotaView {
                remaining: (self.remaining - 1) as nat,
                calls: self.calls + 1,
                ..self
            },
        }
    }

    /// The quota after a prompt was sent.
    pub open spec fn sent(self, system: Seq<char>, prompt: Seq<char>) -> QuotaView {
        QuotaView {
            prompt_chars: (self.prompt_chars.wrapping_add(system.len() as u64)).wrapping_add(
                prompt.len() as u64,
            ),
            ..self
        }
    }
}

impl RunQuota {
    #[verifier::type_invariant]
    spec fn counts_fit(self) -> bool {
        self.remaining_calls + self.reserved_calls <= usize::MAX
    }

    /// A quota of calls and of time from now on.
    pub fn new(max_model_calls: usize, wall_ms: u64, now_ms: u64) -> (q: RunQuota)
        requires
            now_ms + wall_ms <= u64::MAX,
        ensures
            q@ == (QuotaView {
                remaining: max_model_calls as nat,
                calls: 0,
                prompt_chars: 0,
                deadline_ms: (now_ms + wall_ms) as u64,
            }),
    {
        RunQuota {
            remaining_calls: max_model_calls,
            reserved_calls: 0,
            prompt_chars: 0,
            deadline_ms: now_ms + wall_ms,
        }
    }

    /// Claims one model call. This comes before any waiting, so that a wide
    /// `map` cannot queue more work than the root query may spend.
    pub fn reserve_call(&mut self, now_ms: u64) -> (r: Result<(), CompleteError>)
        ensures
            final(self)@ == old(self)@.claimed(now_ms),
            match r {
                Ok(_) => old(self)@.refusal(now_ms) is None,
                Err(e) => old(self)@.refusal(now_ms) == Some(e@),
            },
    {
        proof {
            use_type_invariant(&*self);
        }
        if self.remaining_time(now_ms).is_none() {
            return Err(CompleteError::Deadline);
        }
        if self.remaining_calls == 0 {
            return Err(CompleteError::CallBudget);
        }
        *self = RunQuota {
            remaining_calls: self.remaining_calls - 1,
            reserved_calls: self.reserved_calls + 1,
            prompt_chars: self.prompt_chars,
            deadline_ms: self.deadline_ms,
        };
        Ok(())
    }

    /// The time that is left, if any is.
    pub fn remaining_time(&self, now_ms: u64) -> (r: Option<u64>)
        ensures
            r == (if self@.elapsed(now_ms) {
                None
            } else {
                Some((self@.deadline_ms - now_ms) as u64)
            }),
    {
        if now_ms >= self.deadline_ms {
            None
        } else {
            Some(self.deadline_ms - now_ms)
        }
    }

    /// Opens one completion: claims a call, and says how long it may wait for
    /// its turn.
    pub fn enter(&mut self, now_ms: u64) -> (r: Result<u64, CompleteError>)
        ensures
            final(self)@ == old(self)@.claimed(now_ms),
            match r {
                Ok(ms) => old(self)@.refusal(now_ms) is None && ms == old(self)@.deadline_ms
                    - now_ms,
                Err(e) => old(self)@.refusal(now_ms) == Some(e@),
            },
    {
        match self.reserve_call(now_ms) {
            Err(e) => Err(e),
            Ok(_) => match self.remaining_time(now_ms) {
                Some(ms) => Ok(ms),
                None => Err(CompleteError::Deadline),
            },
        }
    }

    /// Sends the prompt of a completion whose turn has come: counts it, and
    /// says how long the reply may take.
    pub fn dispatch(&mut self, now_ms: u64, system: &str, prompt: &str) -> (r: Result<
        u64,
        CompleteError,
    >)
        ensures
            final(self)@ == old(self)@.sent(system@, prompt@),
            match r {
                Ok(ms) => !old(self)@.elapsed(now_ms) && ms == old(self)@.deadline_ms - now_ms,
                Err(e) => old(self)@.elapsed(now_ms) && e@ == ErrorView::Deadline,
            },
    {
        proof {
            use_type_invariant(&*self);
        }
        let sent: u64 = self.prompt_chars.wrapping_add(system.unicode_len() as u64);
        *self = RunQuota {
            remaining_calls: self.remaining_calls,
            reserved_calls: self.reserved_calls,
            prompt_chars: sent.wrapping_add(prompt.unicode_len() as u64),
            deadline_ms: self.deadline_ms,
        };
        match self.remaining_time(now_ms) {
            Some(ms) => Ok(ms),
            None => Err(CompleteError::Deadline),
        }
    }

    /// Calls claimed so far.
    pub fn calls(&self) -> (n: usize)
        ensures
            n == self@.calls,
    {
        self.reserved_calls
    }

    /// Calls that may still be claimed.
    pub fn calls_remaining(&self) -> (n: usize)
        ensures
            n == self@.remaining,
    {
        self.remaining_calls
    }

    /// Characters sent to models so far.
    pub fn prompt_chars(&self) -> (n: u64)
        ensures
            n == self@.prompt_chars,
    {
        self.prompt_chars
    }

    /// Whether the time is up.
    pub fn deadline_elapsed(&self, now_ms: u64) -> (b: bool)
        ensures
            b == self@.elapsed(now_ms),
    {
        self.remaining_time(now_ms).is_none()
    }
}

/// A quota after calls were asked for at the given times.
pub open spec fn after_asking(q: QuotaView, times: Seq<u64>) -> QuotaView
    decreases times.len(),
{
    if times.len() == 0 {
        q
    } else {
        after_asking(q, times.drop_last()).claimed(times.last())
    }
}

/// How many of the calls asked for at the given times were granted.
pub open spec fn granted(q: QuotaView, times: Seq<u64>) -> nat
    decreases times.len(),
{
    if times.len() == 0 {
        0
    } else {
        granted(q, times.drop_last()) + (if after_asking(q, times.drop_last()).refusal(
            times.last(),
        ) is None {
            1nat
        } else {
            0
        })
    }
}

/// However many calls are asked for, and by whomever, a quota grants no more
/// than it held; what it grants it counts, and its deadline stands.
pub proof fn law_a_quota_is_never_exceeded(q: QuotaView, times: Seq<u64>)
    ensures
        granted(q, times) <= q.remaining,
        after_asking(q, times).calls == q.calls + granted(q, times),
        after_asking(q, times).calls + after_asking(q, times).remaining == q.calls + q.remaining,
        after_asking(q, times).deadline_ms == q.deadline_ms,
    decreases times.len(),
{
    if times.len() > 0 {
        law_a_quota_is_never_exceeded(q, times.drop_last());
    }
}

// ---------------------------------------------------------------- completion
/// The body of a completion request.
pub open spec fn request_body(tier: Tier, system: Seq<char>, prompt: Seq<char>) -> json::JsonView {
    json::JsonView::Object(
        seq![
            ("system"@, json::JsonView::Str(system)),
            ("prompt"@, json::JsonView::Str(prompt)),
            ("model_pref_key"@, json::JsonView::Str(pref_key_of(tier))),
        ],
    )
}

/// The body of the request for one completion.
pub fn completion_request(tier: Tier, system: &str, prompt: &str) -> (r: Json)
    ensures
        r@ == request_body(tier, system@, prompt@),
{
    let mut f: Vec<(String, Json)> = Vec::new();
    json::put(&mut f, "system", Json::str(system));
    json::put(&mut f, "prompt", Json::str(prompt));
    json::put(&mut f, "model_pref_key", Json::str(tier.pref_key()));
    assert(json::field_views(f@) =~= request_body(tier, system@, prompt@)->Object_0);
    Json::Object(f)
}

/// A looked-up value is one of the fields.
proof fn lemma_lookup_at(fields: Seq<(Seq<char>, json::JsonView)>, key: Seq<char>) -> (i: int)
    requires
        json::lookup(fields, key) is Some,
    ensures
        0 <= i < fields.len(),
        fields[i].1 == json::lookup(fields, key)->0,
    decreases fields.len(),
{
    if fields[0].0 == key {
        0
    } else {
        1 + lemma_lookup_at(fields.skip(1), key)
    }
}

/// The value of a field is smaller than the value that has the field.
pub proof fn lemma_field_is_smaller(j: json::JsonView, key: Seq<char>)
    requires
        j.field(key) is Some,
    ensures
        decreases_to!(j => j.field(key)->0),
{
    let fields = j->Object_0;
    let i = lemma_lookup_at(fields, key);
    assert(decreases_to!(j => j->Object_0));
    assert(decreases_to!(fields => fields[i]));
    assert(decreases_to!(fields[i] => fields[i].1));
}

/// The text field of a completion result.
pub open spec fn text_part(j: json::JsonView) -> Option<json::JsonView> {
    if j.field("text"@) is Some {
        j.field("text"@)
    } else if j.field("content"@) is Some {
        j.field("content"@)
    } else {
        j.field("output"@)
    }
}

/// The text in a completion result: providers hand it over bare, under one of
/// three names, or in parts.
pub open spec fn rendered(j: json::JsonView) -> Seq<char>
    decreases j,
{
    match j {
        json::JsonView::Str(s) => s,
        json::JsonView::Object(_) => match text_part(j) {
            Some(part) => {
                proof {
                    if j.field("text"@) is Some {
                        lemma_field_is_smaller(j, "text"@);
                    } else if j.field("content"@) is Some {
                        lemma_field_is_smaller(j, "content"@);
                    } else {
                        lemma_field_is_smaller(j, "output"@);
                    }
                }
                rendered(part)
            },
            None => seq![],
        },
        json::JsonView::Array(items) => rendered_parts(items),
        _ => seq![],
    }
}

/// The texts of several results, one after the other.
pub open spec fn rendered_parts(items: Seq<json::JsonView>) -> Seq<char>
    decreases items,
{
    if items.len() == 0 {
        seq![]
    } else {
        rendered_parts(items.drop_last()) + rendered(items[items.len() - 1])
    }
}

/// The text in a completion result.
pub fn render_result(value: &Json) -> (r: String)
    ensures
        r@ == rendered(value@),
    decreases value@,
{
    match value {
        Json::Str(s) => s.clone(),
        Json::Object(_) => {
            proof {
                if value@.field("text"@) is Some {
                    lemma_field_is_smaller(value@, "text"@);
                }
                if value@.field("content"@) is Some {
                    lemma_field_is_smaller(value@, "content"@);
                }
                if value@.field("output"@) is Some {
                    lemma_field_is_smaller(value@, "output"@);
                }
            }
            match value.get("text") {
                Some(v) => render_result(v),
                None => match value.get("content") {
                    Some(v) => render_result(v),
                    None => match value.get("output") {
                        Some(v) => render_result(v),
                        None => String::new(),
                    },
                },
            }
        },
        Json::Array(items) => {
            let ghost v = json::item_views(items@);
            let mut out = String::new();
            let mut i: usize = 0;
            proof {
                json::lemma_item_views(items@);
                assert(v.take(0) =~= seq![]);
                assert(out@ =~= seq![]);
            }
            while i < items.len()
                invariant
                    i <= items@.len(),
                    v == json::item_views(items@),
                    v.len() == items@.len(),
                    value@ == json::JsonView::Array(v),
                    forall|k: int|
                        0 <= k < items@.len() ==> #[trigger] v[k] == json::json_view(items@[k]),
                    out@ == rendered_parts(v.take(i as int)),
                decreases items@.len() - i,
            {
                assert(v.take(i as int + 1).drop_last() =~= v.take(i as int));
                assert(decreases_to!(value@ => value@->Array_0));
                assert(decreases_to!(v => v[i as int]));
                let part = render_result(&items[i]);
                out.append(part.as_str());
                i = i + 1;
            }
            assert(v.take(i as int) =~= v);
            out
        },
        _ => String::new(),
    }
}

/// What the reply to a completion request means: the HTTP status as a number
/// and in words, and the body where it is JSON.
pub open spec fn reply_of(code: u16, status: Seq<char>, body: Option<json::JsonView>) -> Result<
    Seq<char>,
    ErrorView,
> {
    match body {
        None => Err(ErrorView::Host("host model callback returned a non-JSON body"@)),
        Some(body) => if !(200 <= code < 300) {
            let told = match body.field("error"@) {
                Some(json::JsonView::Str(s)) => s,
                _ => "host model callback failed"@,
            };
            Err(ErrorView::Host(told + " (HTTP "@ + status + ")"@))
        } else {
            let text = match body.field("result"@) {
                Some(v) => rendered(v),
                None => seq![],
            };
            if text::is_blank(text) {
                Err(ErrorView::Host("the model returned an empty completion"@))
            } else {
                Ok(text)
            }
        },
    }
}

/// Reads the reply to a completion request.
pub fn read_reply(code: u16, status: &str, body: Option<&Json>) -> (r: Result<
    String,
    CompleteError,
>)
    ensures
        reply_view(r) == reply_of(code, status@, json::opt_view(body)),
{
    match body {
        None => Err(
            CompleteError::Host("host model callback returned a non-JSON body".to_owned()),
        ),
        Some(body) => {
            if code < 200 || code >= 300 {
                let mut told = match body.get("error") {
                    Some(Json::Str(s)) => s.clone(),
                    _ => "host model callback failed".to_owned(),
                };
                told.append(" (HTTP ");
                told.append(status);
                told.append(")");
                return Err(CompleteError::Host(told));
            }
            let got = match body.get("result") {
                Some(v) => render_result(v),
                None => {
                    let none = String::new();
                    assert(none@ =~= seq![]);
                    none
                },
            };
            if text::blank(got.as_str()) {
                Err(CompleteError::Host("the model returned an empty completion".to_owned()))
            } else {
                Ok(got)
            }
        },
    }
}

/// A completion that is handed on is never blank.
pub proof fn law_a_completion_says_something(
    code: u16,
    status: Seq<char>,
    body: Option<json::JsonView>,
)
    requires
        reply_of(code, status, body) is Ok,
    ensures
        !text::is_blank(reply_of(code, status, body)->Ok_0),
        200 <= code < 300,
{
}

/// A result is read the same bare, under any of its three names, and as a list
/// of one.
pub proof fn law_a_wrapped_result_renders_as_the_bare_one(
    j: json::JsonView,
    fields: Seq<(Seq<char>, json::JsonView)>,
)
    requires
        text_part(json::JsonView::Object(fields)) == Some(j),
    ensures
        rendered(json::JsonView::Object(fields)) == rendered(j),
        rendered(json::JsonView::Array(seq![j])) == rendered(j),
{
    let one = seq![j];
    assert(one.drop_last() =~= seq![]);
    assert(rendered_parts(one.drop_last()) =~= seq![]);
    assert(rendered_parts(one) =~= rendered(j));
}

// ------------------------------------------------------------ JSON in a reply
/// Where the bracket that was opened closes: the position at which the depth
/// is back to nothing, counted from `i` on, where `depth` brackets of the kind
/// are open. Inside a string nothing counts but its end.
pub open spec fn closing(
    s: Seq<char>,
    i: int,
    opener: char,
    closer: char,
    depth: nat,
    in_string: bool,
    escaped: bool,
) -> Option<int>
    decreases s.len() - i,
{
    if i < 0 || i >= s.len() {
        None
    } else if in_string {
        if escaped {
            closing(s, i + 1, opener, closer, depth, true, false)
        } else if s[i] == '\\' {
            closing(s, i + 1, opener, closer, depth, true, true)
        } else if s[i] == '"' {
            closing(s, i + 1, opener, closer, depth, false, false)
        } else {
            closing(s, i + 1, opener, closer, depth, true, false)
        }
    } else if s[i] == '"' {
        closing(s, i + 1, opener, closer, depth, true, false)
    } else if s[i] == opener {
        closing(s, i + 1, opener, closer, depth + 1, false, false)
    } else if s[i] == closer {
        if depth == 1 {
            Some(i)
        } else {
            closing(s, i + 1, opener, closer, (depth - 1) as nat, false, false)
        }
    } else {
        closing(s, i + 1, opener, closer, depth, false, false)
    }
}

/// The bracket that closes an opening one, if the character opens one.
pub open spec fn closer_of(c: char) -> Option<char> {
    if c == '{' {
        Some('}')
    } else if c == '[' {
        Some(']')
    } else {
        None
    }
}

/// Where the object or array that starts at `start` ends, if one starts there
/// and ends.
pub open spec fn span_end(s: Seq<char>, start: int) -> Option<int> {
    match closer_of(s[start]) {
        None => None,
        Some(closer) => closing(s, start, s[start], closer, 0, false, false),
    }
}

/// The value of the balanced span that starts at `start`.
pub open spec fn span_value(s: Seq<char>, start: int) -> Option<json::JsonView> {
    match span_end(s, start) {
        None => None,
        Some(end) => json::json_value(s.subrange(start, end + 1)),
    }
}

/// The value of the first balanced span from `start` on that is JSON.
pub open spec fn first_value(s: Seq<char>, start: int) -> Option<json::JsonView>
    decreases s.len() - start,
{
    if start < 0 || start >= s.len() {
        None
    } else if span_value(s, start) is Some {
        span_value(s, start)
    } else {
        first_value(s, start + 1)
    }
}

/// A span ends at or after its start, inside the text.
proof fn lemma_closing_bounds(
    s: Seq<char>,
    i: int,
    opener: char,
    closer: char,
    depth: nat,
    in_string: bool,
    escaped: bool,
)
    ensures
        match closing(s, i, opener, closer, depth, in_string, escaped) {
            Some(e) => i <= e < s.len(),
            None => true,
        },
    decreases s.len() - i,
{
    if 0 <= i < s.len() {
        lemma_closing_bounds(s, i + 1, opener, closer, depth, true, false);
        lemma_closing_bounds(s, i + 1, opener, closer, depth, true, true);
        lemma_closing_bounds(s, i + 1, opener, closer, depth, false, false);
        lemma_closing_bounds(s, i + 1, opener, closer, depth + 1, false, false);
        lemma_closing_bounds(s, i + 1, opener, closer, (depth - 1) as nat, false, false);
    }
}

/// What a position is, where there is one.
pub open spec fn opt_place(i: Option<usize>) -> Option<int> {
    match i {
        Some(i) => Some(i as int),
        None => None,
    }
}

/// Where the object or array that starts at `start` ends.
pub fn balanced_end(chars: &Vec<char>, start: usize) -> (r: Option<usize>)
    requires
        start < chars@.len(),
    ensures
        opt_place(r) == span_end(chars@, start as int),
        r is Some ==> start <= r->0 < chars@.len(),
{
    let opener: char = chars[start];
    let closer: char = if opener == '{' {
        '}'
    } else if opener == '[' {
        ']'
    } else {
        return None;
    };
    let mut depth: usize = 0;
    let mut in_string = false;
    let mut escaped = false;
    let mut i: usize = start;
    while i < chars.len()
        invariant
            start <= i <= chars@.len(),
            depth <= i - start,
            opener == '{' && closer == '}' || opener == '[' && closer == ']',
            i == start ==> chars@[i as int] == opener && !in_string,
            i > start && !in_string ==> depth > 0,
            in_string ==> depth > 0,
            escaped ==> in_string,
            span_end(chars@, start as int) == closing(
                chars@,
                i as int,
                opener,
                closer,
                depth as nat,
                in_string,
                escaped,
            ),
        decreases chars@.len() - i,
    {
        let c: char = chars[i];
        if in_string {
            if escaped {
                escaped = false;
            } else if c == '\\' {
                escaped = true;
            } else if c == '"' {
                in_string = false;
            }
        } else if c == '"' {
            in_string = true;
        } else if c == opener {
            depth = depth + 1;
        } else if c == closer {
            if depth == 1 {
                return Some(i);
            }
            depth = depth - 1;
        }
        i = i + 1;
    }
    None
}

/// Pulls the first balanced JSON object or array out of a completion. Models
/// wrap JSON in prose or a fence often enough that a strict reading would waste
/// a planning call per step.
pub fn extract_json(text: &str) -> (r: Option<Json>)
    ensures
        json::tree_view(r) == first_value(text@, 0),
{
    let chars = text::chars_of(text);
    let mut start: usize = 0;
    while start < chars.len()
        invariant
            start <= chars@.len(),
            chars@ == text@,
            first_value(text@, 0) == first_value(text@, start as int),
        decreases chars@.len() - start,
    {
        if let Some(end) = balanced_end(&chars, start) {
            let span = text::string_of(&chars, start, end + 1);
            if let Some(v) = json::parse(span.as_str()) {
                return Some(v);
            }
        }
        start = start + 1;
    }
    None
}

/// What is recovered from a completion stands in it, as one span between an
/// opening bracket and the bracket that closes it.
pub proof fn law_recovered_json_stands_in_the_text(s: Seq<char>) -> (span: (int, int))
    requires
        first_value(s, 0) is Some,
    ensures
        0 <= span.0 <= span.1 < s.len(),
        s[span.0] == '{' || s[span.0] == '[',
        span_end(s, span.0) == Some(span.1),
        json::json_value(s.subrange(span.0, span.1 + 1)) == first_value(s, 0),
        forall|k: int| 0 <= k < span.0 ==> #[trigger] span_value(s, k) is None,
{
    lemma_first_value(s, 0)
}

proof fn lemma_first_value(s: Seq<char>, start: int) -> (span: (int, int))
    requires
        0 <= start,
        first_value(s, start) is Some,
    ensures
        start <= span.0 <= span.1 < s.len(),
        s[span.0] == '{' || s[span.0] == '[',
        span_end(s, span.0) == Some(span.1),
        json::json_value(s.subrange(span.0, span.1 + 1)) == first_value(s, start),
        forall|k: int| start <= k < span.0 ==> #[trigger] span_value(s, k) is None,
    decreases s.len() - start,
{
    if span_value(s, start) is Some {
        let closer = closer_of(s[start])->0;
        lemma_closing_bounds(s, start, s[start], closer, 0, false, false);
        (start, span_end(s, start)->0)
    } else {
        lemma_first_value(s, start + 1)
    }
}

/// Nothing is recovered from a text without an opening bracket.
pub proof fn law_no_bracket_no_json(s: Seq<char>, start: int)
    requires
        0 <= start,
        forall|k: int| start <= k < s.len() ==> #[trigger] s[k] != '{' && s[k] != '[',
    ensures
        first_value(s, start) is None,
    decreases s.len() - start,
{
    if start < s.len() {
        law_no_bracket_no_json(s, start + 1);
    }
}

/// Where a bracket closes does not depend on what stands before its span or
/// after it.
proof fn lemma_closing_inside(
    p: Seq<char>,
    s: Seq<char>,
    q: Seq<char>,
    i: int,
    opener: char,
    closer: char,
    depth: nat,
    in_string: bool,
    escaped: bool,
)
    requires
        closing(s, i, opener, closer, depth, in_string, escaped) is Some,
    ensures
        closing(p + s + q, p.len() + i, opener, closer, depth, in_string, escaped) == Some(
            p.len() + closing(s, i, opener, closer, depth, in_string, escaped)->0,
        ),
    decreases s.len() - i,
{
    let c = s[i];
    assert((p + s + q)[p.len() + i] == c);
    if in_string {
        lemma_closing_inside(
            p,
            s,
            q,
            i + 1,
            opener,
            closer,
            depth,
            escaped || c != '"',
            !escaped && c == '\\',
        );
    } else if c == '"' {
        lemma_closing_inside(p, s, q, i + 1, opener, closer, depth, true, false);
    } else if c == opener {
        lemma_closing_inside(p, s, q, i + 1, opener, closer, depth + 1, false, false);
    } else if c == closer {
        if depth != 1 {
            lemma_closing_inside(
                p,
                s,
                q,
                i + 1,
                opener,
                closer,
                (depth - 1) as nat,
                false,
                false,
            );
        }
    } else {
        lemma_closing_inside(p, s, q, i + 1, opener, closer, depth, false, false);
    }
}

/// Characters that open no bracket are passed over.
proof fn lemma_prose_is_passed_over(s: Seq<char>, start: int, end: int)
    requires
        0 <= start <= end <= s.len(),
        forall|k: int| start <= k < end ==> #[trigger] s[k] != '{' && s[k] != '[',
    ensures
        first_value(s, start) == first_value(s, end),
    decreases end - start,
{
    if start < end {
        assert(span_value(s, start) is None);
        lemma_prose_is_passed_over(s, start + 1, end);
    }
}

/// A JSON object or array is recovered whatever prose stands before it, as long
/// as no bracket opens there, and whatever stands after it.
pub proof fn law_json_is_recovered_from_prose(p: Seq<char>, s: Seq<char>, q: Seq<char>)
    requires
        forall|k: int| 0 <= k < p.len() ==> #[trigger] p[k] != '{' && p[k] != '[',
        span_end(s, 0) == Some(s.len() - 1),
        json::json_value(s) is Some,
    ensures
        first_value(p + s + q, 0) == json::json_value(s),
{
    let all = p + s + q;
    let n = p.len() as int;
    let closer = closer_of(s[0])->0;
    lemma_closing_bounds(s, 0, s[0], closer, 0, false, false);
    lemma_closing_inside(p, s, q, 0, s[0], closer, 0, false, false);
    assert(all[n] == s[0]);
    assert(all.subrange(n, n + s.len()) =~= s);
    assert(span_value(all, n) == json::json_value(s));
    assert forall|k: int| 0 <= k < n implies #[trigger] all[k] != '{' && all[k] != '[' by {
        assert(all[k] == p[k]);
    }
    lemma_prose_is_passed_over(all, 0, n);
}

/// What was written as JSON, an object or an array, is recovered as it was from
/// any text that has it after prose without an opening bracket.
pub proof fn law_what_was_written_is_recovered(
    j: json::JsonView,
    p: Seq<char>,
    s: Seq<char>,
    q: Seq<char>,
)
    requires
        json::well_written(j, s),
        json::reads_back(j, json::MAX_DEPTH as nat),
        j is Array || j is Object,
        forall|k: int| 0 <= k < p.len() ==> #[trigger] p[k] != '{' && p[k] != '[',
    ensures
        first_value(p + s + q, 0) == Some(j),
{
    law_json_is_recovered_from_prose(p, s, q);
}

/// A quoted stretch does not throw the count off: brackets between two quotes,
/// with no quote or backslash between them, change nothing.
pub proof fn law_a_quoted_stretch_does_not_count(
    s: Seq<char>,
    at: int,
    end: int,
    opener: char,
    closer: char,
    depth: nat,
)
    requires
        0 <= at < end < s.len(),
        s[at] == '"',
        s[end] == '"',
        forall|k: int| at < k < end ==> #[trigger] s[k] != '"' && s[k] != '\\',
    ensures
        closing(s, at, opener, closer, depth, false, false) == closing(
            s,
            end + 1,
            opener,
            closer,
            depth,
            false,
            false,
        ),
{
    lemma_inside_a_string(s, at + 1, end, opener, closer, depth);
}

proof fn lemma_inside_a_string(
    s: Seq<char>,
    i: int,
    end: int,
    opener: char,
    closer: char,
    depth: nat,
)
    requires
        0 <= i <= end < s.len(),
        s[end] == '"',
        forall|k: int| i <= k < end ==> #[trigger] s[k] != '"' && s[k] != '\\',
    ensures
        closing(s, i, opener, closer, depth, true, false) == closing(
            s,
            end + 1,
            opener,
            closer,
            depth,
            false,
            false,
        ),
    decreases end - i,
{
    if i < end {
        lemma_inside_a_string(s, i + 1, end, opener, closer, depth);
    }
}

// ------------------------------------------------------------- configuration
/// The port that a text stands for: decimal digits, with a plus before them or
/// without.
pub open spec fn port_of(s: Seq<char>) -> Option<u16> {
    let digits = if s.len() > 0 && s[0] == '+' {
        s.skip(1)
    } else {
        s
    };
    match text::number(digits) {
        Some(n) => if n <= u16::MAX {
            Some(n as u16)
        } else {
            None
        },
        None => None,
    }
}

/// Reads a port.
pub fn parse_port(s: &str) -> (r: Option<u16>)
    ensures
        r == port_of(s@),
{
    let n = s.unicode_len();
    let digits = if n > 0 && s.get_char(0) == '+' {
        s.substring_char(1, n)
    } else {
        s
    };
    proof {
        if s@.len() > 0 && s@[0] == '+' {
            assert(digits@ =~= s@.skip(1));
        }
    }
    match text::parse_u64(digits) {
        Some(p) => if p <= u16::MAX as u64 {
            Some(p as u16)
        } else {
            None
        },
        None => None,
    }
}

/// The port to listen on, from what is configured.
pub fn listen_port(var: Option<&str>) -> (p: u16)
    ensures
        p == match var {
            Some(s) => match port_of(s@) {
                Some(p) => p,
                None => DEFAULT_PORT,
            },
            None => DEFAULT_PORT,
        },
{
    match var {
        Some(s) => match parse_port(s) {
            Some(p) => p,
            None => DEFAULT_PORT,
        },
        None => DEFAULT_PORT,
    }
}

/// A setting that is there and not empty.
pub open spec fn set_text(v: Option<String>) -> Option<Seq<char>> {
    match v {
        Some(s) => if s@.len() > 0 {
            Some(s@)
        } else {
            None
        },
        None => None,
    }
}

/// A setting, where it is there and not empty.
pub fn when_set(v: Option<String>) -> (r: Option<String>)
    ensures
        match r {
            Some(s) => set_text(v) == Some(s@),
            None => set_text(v) is None,
        },
{
    match v {
        Some(s) => if s.as_str().unicode_len() == 0 {
            None
        } else {
            Some(s)
        },
        None => None,
    }
}

/// Where the host is, and who is calling it.
pub struct HostConfig {
    pub base: String,
    pub plugin_id: String,
    pub token: String,
}

impl HostConfig {
    /// The line to the host from the settings that it hands a process it
    /// starts: a token, a plugin id and a port. Without all three there is
    /// none.
    pub fn from_vars(
        token: Option<String>,
        plugin_id: Option<String>,
        port: Option<String>,
    ) -> (r: Option<HostConfig>)
        ensures
            r is Some <==> set_text(token) is Some && set_text(plugin_id) is Some && port is Some
                && port_of(port->0@) is Some,
            match r {
                Some(c) => c.token@ == token->0@ && c.plugin_id@ == plugin_id->0@ && c.base@
                    == "http://127.0.0.1:"@ + text::decimal(port_of(port->0@)->0 as nat),
                None => true,
            },
    {
        match (when_set(token), when_set(plugin_id), port) {
            (Some(token), Some(plugin_id), Some(port)) => match parse_port(port.as_str()) {
                Some(p) => {
                    let mut base = "http://127.0.0.1:".to_owned();
                    base.append(text::show_u64(p as u64).as_str());
                    Some(HostConfig { base, plugin_id, token })
                },
                None => None,
            },
            _ => None,
        }
    }

    /// The address that completions are asked at.
    pub fn complete_url(&self) -> (r: String)
        ensures
            r@ == self.base@ + "/api/host/model/complete"@,
    {
        let mut url = self.base.clone();
        url.append("/api/host/model/complete");
        url
    }
}

// ----------------------------------------------------------------------- laws
/// A call is refused for a cause, and for no other: the time is up, or else no
/// call is left. What is granted takes one call and counts it, and what is
/// refused changes nothing.
pub proof fn law_a_quota_grants_what_it_holds(q: QuotaView, now: u64)
    ensures
        now >= q.deadline_ms ==> q.refusal(now) == Some(ErrorView::Deadline),
        now < q.deadline_ms && q.remaining == 0 ==> q.refusal(now) == Some(ErrorView::CallBudget),
        now < q.deadline_ms && q.remaining > 0 ==> q.refusal(now) is None && q.claimed(now) == (
        QuotaView {
            remaining: (q.remaining - 1) as nat,
            calls: q.calls + 1,
            prompt_chars: q.prompt_chars,
            deadline_ms: q.deadline_ms,
        }),
        q.refusal(now) is Some ==> q.claimed(now) == q,
{
}

/// As many calls as are asked for in time are granted, up to as many as there
/// are.
pub proof fn law_every_call_that_is_held_is_granted(q: QuotaView, times: Seq<u64>)
    requires
        forall|i: int| 0 <= i < times.len() ==> #[trigger] times[i] < q.deadline_ms,
    ensures
        granted(q, times) == (if times.len() <= q.remaining {
            times.len()
        } else {
            q.remaining
        }),
    decreases times.len(),
{
    if times.len() > 0 {
        let front = times.drop_last();
        assert forall|i: int| 0 <= i < front.len() implies #[trigger] front[i] < q.deadline_ms by {
            assert(front[i] == times[i]);
        }
        law_every_call_that_is_held_is_granted(q, front);
        law_a_quota_is_never_exceeded(q, front);
        assert(times[times.len() - 1] < q.deadline_ms);
    }
}

/// What is sent is counted by its characters, those of the instructions and
/// those of the prompt, and by nothing else.
pub proof fn law_what_is_sent_is_counted(q: QuotaView, system: Seq<char>, prompt: Seq<char>)
    requires
        q.prompt_chars + system.len() + prompt.len() <= u64::MAX,
    ensures
        q.sent(system, prompt).prompt_chars == q.prompt_chars + system.len() + prompt.len(),
        q.sent(system, prompt).remaining == q.remaining,
        q.sent(system, prompt).calls == q.calls,
        q.sent(system, prompt).deadline_ms == q.deadline_ms,
{
}

/// Each tier has its own setting.
pub proof fn law_a_tier_is_asked_by_its_key()
    ensures
        pref_key_of(Tier::Root) == "rlm-root-model"@,
        pref_key_of(Tier::Leaf) == "rlm-leaf-model"@,
{
}

/// A request carries the instructions and the prompt as they are, and the key of
/// its tier.
pub proof fn law_a_request_carries_what_is_asked(
    tier: Tier,
    system: Seq<char>,
    prompt: Seq<char>,
)
    ensures
        request_body(tier, system, prompt).field("system"@) == Some(json::JsonView::Str(system)),
        request_body(tier, system, prompt).field("prompt"@) == Some(json::JsonView::Str(prompt)),
        request_body(tier, system, prompt).field("model_pref_key"@) == Some(
            json::JsonView::Str(
                match tier {
                    Tier::Root => "rlm-root-model"@,
                    Tier::Leaf => "rlm-leaf-model"@,
                },
            ),
        ),
{
    reveal_strlit("system");
    reveal_strlit("prompt");
    reveal_strlit("model_pref_key");
    let fields = request_body(tier, system, prompt)->Object_0;
    assert("system"@[0] == 's' && "prompt"@[0] == 'p' && "model_pref_key"@[0] == 'm');
    assert(fields.skip(1)[0] == fields[1]);
    assert(fields.skip(1).skip(1)[0] == fields[2]);
    reveal_with_fuel(json::lookup, 4);
}

/// A completion result is rendered as the text that it is or that it has: a text
/// as it is, an object by the first that it has of `text`, `content` and
/// `output`, a list part by part, and anything else as nothing.
pub proof fn law_a_result_is_rendered_as_its_text(
    s: Seq<char>,
    fields: Seq<(Seq<char>, json::JsonView)>,
    a: Seq<json::JsonView>,
    b: Seq<json::JsonView>,
)
    ensures
        rendered(json::JsonView::Str(s)) == s,
        json::lookup(fields, "text"@) matches Some(v) ==> rendered(json::JsonView::Object(fields))
            == rendered(v),
        json::lookup(fields, "text"@) is None ==> (json::lookup(fields, "content"@) matches Some(v)
            ==> rendered(json::JsonView::Object(fields)) == rendered(v)),
        json::lookup(fields, "text"@) is None && json::lookup(fields, "content"@) is None ==> (
        json::lookup(fields, "output"@) matches Some(v) ==> rendered(json::JsonView::Object(fields))
            == rendered(v)),
        json::lookup(fields, "text"@) is None && json::lookup(fields, "content"@) is None
            && json::lookup(fields, "output"@) is None ==> rendered(json::JsonView::Object(fields))
            == Seq::<char>::empty(),
        rendered(json::JsonView::Array(a + b)) == rendered(json::JsonView::Array(a)) + rendered(
            json::JsonView::Array(b),
        ),
        a.len() == 1 ==> rendered(json::JsonView::Array(a)) == rendered(a[0]),
        rendered(json::JsonView::Null) == Seq::<char>::empty(),
        rendered(json::JsonView::Bool(true)) == Seq::<char>::empty(),
    decreases b.len(),
{
    if b.len() == 0 {
        assert(a + b =~= a);
        assert(rendered_parts(b) =~= seq![]);
        assert(rendered_parts(a) + rendered_parts(b) =~= rendered_parts(a));
    } else {
        law_a_result_is_rendered_as_its_text(s, fields, a, b.drop_last());
        assert((a + b).drop_last() =~= a + b.drop_last());
        assert(rendered_parts(a + b) =~= rendered_parts(a) + rendered_parts(b));
    }
    if a.len() == 1 {
        assert(rendered_parts(a.drop_last()) =~= seq![]);
        assert(rendered_parts(a) =~= rendered(a[0]));
    }
}

/// A reply is a completion if and only if it is JSON, its status is one of
/// success, and the text of its `result` is not blank; and the completion is
/// that text. A reply with another status is told by its `error` and the status.
pub proof fn law_a_reply_is_the_text_of_its_result(
    code: u16,
    status: Seq<char>,
    body: json::JsonView,
)
    ensures
        reply_of(code, status, None) is Err,
        200 <= code <= 299 ==> (body.field("result"@) matches Some(v) ==> (!text::is_blank(
            rendered(v),
        ) ==> reply_of(code, status, Some(body)) == Ok::<Seq<char>, ErrorView>(rendered(v)))),
        200 <= code <= 299 ==> (body.field("result"@) matches Some(v) ==> (text::is_blank(
            rendered(v),
        ) ==> reply_of(code, status, Some(body)) is Err)),
        body.field("result"@) is None ==> reply_of(code, status, Some(body)) is Err,
        !(200 <= code <= 299) ==> (body.field("error"@) matches Some(json::JsonView::Str(e))
            ==> reply_of(code, status, Some(body)) == Err::<Seq<char>, ErrorView>(
            ErrorView::Host(e + " (HTTP "@ + status + ")"@),
        )),
        !(200 <= code <= 299) ==> reply_of(code, status, Some(body)) is Err,
        reply_of(code, status, Some(body)) matches Err(e) ==> e is Host,
{
}

/// A port is read from its digits, with a plus before them or without, and a
/// number too great for one is none.
pub proof fn law_a_port_is_read_from_its_digits(n: nat)
    ensures
        n <= 65_535 ==> port_of(text::decimal(n)) == Some(n as u16) && port_of(
            seq!['+'] + text::decimal(n),
        ) == Some(n as u16),
        n > 65_535 ==> port_of(text::decimal(n)) is None,
        port_of(Seq::<char>::empty()) is None,
{
    text::law_a_number_is_shown_by_its_digits(n);
    let d = text::decimal(n);
    assert(text::is_digit(d[0]));
    assert((seq!['+'] + d).skip(1) =~= d);
}

// ---------------------------------------------------------------- what a span is
/// Does a string run at a place, and is the character there escaped? Counted
/// from a start outside of any string: a quote begins one, and the next quote
/// without a backslash of its own before it ends it.
pub open spec fn quoted(s: Seq<char>, start: int, k: int) -> (bool, bool)
    decreases k - start,
{
    if k <= start {
        (false, false)
    } else {
        let before = quoted(s, start, k - 1);
        let c = s[k - 1];
        if !before.0 {
            (c == '"', false)
        } else if before.1 {
            (true, false)
        } else if c == '"' {
            (false, false)
        } else {
            (true, c == '\\')
        }
    }
}

/// How many brackets of a kind are open before a place, counted from a start:
/// those that were opened outside of strings, less those that were closed.
pub open spec fn nesting(s: Seq<char>, start: int, k: int, opener: char, closer: char) -> int
    decreases k - start,
{
    if k <= start {
        0
    } else {
        let below = nesting(s, start, k - 1, opener, closer);
        if quoted(s, start, k - 1).0 {
            below
        } else if s[k - 1] == opener {
            below + 1
        } else if s[k - 1] == closer {
            below - 1
        } else {
            below
        }
    }
}

/// The bracket that opens at a start is closed at an end, and not before.
pub open spec fn closes_at(
    s: Seq<char>,
    start: int,
    end: int,
    opener: char,
    closer: char,
) -> bool {
    &&& start <= end < s.len()
    &&& nesting(s, start, end + 1, opener, closer) == 0
    &&& forall|k: int| start < k <= end ==> #[trigger] nesting(s, start, k, opener, closer) > 0
}

proof fn lemma_closing_is_where_none_is_open(
    s: Seq<char>,
    start: int,
    i: int,
    opener: char,
    closer: char,
)
    requires
        0 <= start < i <= s.len(),
        opener != closer,
        opener != '"',
        closer != '"',
        nesting(s, start, i, opener, closer) > 0,
    ensures
        ({
            let depth = nesting(s, start, i, opener, closer) as nat;
            let at = quoted(s, start, i);
            match closing(s, i, opener, closer, depth, at.0, at.1) {
                Some(e) => {
                    &&& i <= e < s.len()
                    &&& nesting(s, start, e + 1, opener, closer) == 0
                    &&& forall|k: int|
                        i <= k <= e ==> #[trigger] nesting(s, start, k, opener, closer) > 0
                },
                None => forall|k: int|
                    i <= k <= s.len() ==> #[trigger] nesting(s, start, k, opener, closer) > 0,
            }
        }),
    decreases s.len() - i,
{
    if i < s.len() {
        let next = nesting(s, start, i + 1, opener, closer);
        assert(quoted(s, start, i + 1 - 1) == quoted(s, start, i));
        if next > 0 {
            lemma_closing_is_where_none_is_open(s, start, i + 1, opener, closer);
        }
    }
}

/// A span of a text is what stands between a bracket and the one that closes it:
/// from a curly or a square bracket to the first place where as many of its kind
/// were closed as were opened. What stands in strings does not count. Where no
/// bracket opens there is no span, and none where it is never closed.
pub proof fn law_a_span_runs_to_the_bracket_that_closes_it(s: Seq<char>, start: int, end: int)
    requires
        0 <= start < s.len(),
    ensures
        s[start] == '{' ==> (span_end(s, start) == Some(end) <==> closes_at(
            s,
            start,
            end,
            '{',
            '}',
        )),
        s[start] == '[' ==> (span_end(s, start) == Some(end) <==> closes_at(
            s,
            start,
            end,
            '[',
            ']',
        )),
        s[start] != '{' && s[start] != '[' ==> span_end(s, start) is None,
{
    if s[start] == '{' || s[start] == '[' {
        let opener = s[start];
        let closer = if s[start] == '{' {
            '}'
        } else {
            ']'
        };
        assert(nesting(s, start, start, opener, closer) == 0);
        assert(nesting(s, start, start + 1, opener, closer) == 1);
        assert(quoted(s, start, start) == (false, false));
        assert(quoted(s, start, start + 1) == (false, false));
        lemma_closing_is_where_none_is_open(s, start, start + 1, opener, closer);
        if closes_at(s, start, end, opener, closer) {
            assert(end != start);
            let found = span_end(s, start);
            assert(nesting(s, start, end + 1, opener, closer) == 0);
            if let Some(e) = found {
                assert(nesting(s, start, e + 1, opener, closer) == 0);
            }
        }
    }
}

/// A span that is JSON is not missed: where one stands in a text, something is
/// recovered, and the first of them is what is recovered, however many brackets
/// before it come to nothing.
pub proof fn law_a_span_that_is_json_is_not_missed(s: Seq<char>, start: int, end: int)
    requires
        0 <= start < s.len(),
        span_end(s, start) == Some(end),
        json::json_value(s.subrange(start, end + 1)) is Some,
    ensures
        first_value(s, 0) is Some,
        (forall|k: int, e: int|
            0 <= k < start && #[trigger] span_end(s, k) == Some(e) ==> json::json_value(
                #[trigger] s.subrange(k, e + 1),
            ) is None) ==> first_value(s, 0) == json::json_value(s.subrange(start, end + 1)),
{
    lemma_value_from(s, 0, start);
    if forall|k: int, e: int|
        0 <= k < start && #[trigger] span_end(s, k) == Some(e) ==> json::json_value(
            #[trigger] s.subrange(k, e + 1),
        ) is None {
        assert forall|k: int| 0 <= k < start implies #[trigger] span_value(s, k) is None by {
            if let Some(e) = span_end(s, k) {
                let part = s.subrange(k, e + 1);
            }
        }
    }
}

proof fn lemma_value_from(s: Seq<char>, from: int, at: int)
    requires
        0 <= from <= at < s.len(),
        span_value(s, at) is Some,
    ensures
        first_value(s, from) is Some,
        (forall|k: int| from <= k < at ==> #[trigger] span_value(s, k) is None) ==> first_value(
            s,
            from,
        ) == span_value(s, at),
    decreases at - from,
{
    if from < at {
        lemma_value_from(s, from + 1, at);
    }
}

} // verus!
