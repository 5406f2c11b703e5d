//! LLM transport. What is sent, and what the retry and trim decisions are once an attempt
//! has come back; the network itself is left to the program, so all of it runs without one.

use vstd::prelude::*;
use vstd::utf8::{encode_utf8, is_char_boundary};

use crate::json::{Json, JsonView, NumView};
use crate::provider::Provider;
use crate::text::{contains, decimal, decimal_text, has};

verus! {

// ── Where the model is ─────────────────────────────────────────────────────────

/// The endpoint where none is configured.
pub open spec fn default_llm_url() -> Seq<char> {
    "http://llm.aispec-system.svc.cluster.local/anthropic/v1/messages"@
}

/// The endpoint, given what `LLM_URL` is set to.
pub fn llm_url(configured: Option<String>) -> (r: String)
    ensures
        r@ == match configured {
            Some(u) => u@,
            None => default_llm_url(),
        },
        configured is None ==> r@
            == "http://llm.aispec-system.svc.cluster.local/anthropic/v1/messages"@,
{
    match configured {
        Some(u) => u,
        None => "http://llm.aispec-system.svc.cluster.local/anthropic/v1/messages".to_owned(),
    }
}

/// The model, given what `LLM_MODEL` is set to and which model is the default.
pub fn llm_model(configured: Option<String>, default: &str) -> (r: String)
    ensures
        r@ == match configured {
            Some(m) => m@,
            None => default@,
        },
{
    match configured {
        Some(m) => m,
        None => default.to_owned(),
    }
}

/// The headers of a request, given what `LLM_API_KEY` is set to.
pub open spec fn headers(key: Option<Seq<char>>) -> Seq<(Seq<char>, Seq<char>)> {
    let always = seq![("Content-Type"@, "application/json"@)];
    match key {
        Some(k) => always.push(("Authorization"@, "Bearer "@ + k)),
        None => always,
    }
}

/// The headers of a list, by their characters.
pub open spec fn header_views(s: Seq<(String, String)>) -> Seq<(Seq<char>, Seq<char>)> {
    s.map_values(|h: (String, String)| (h.0@, h.1@))
}

/// The headers of a request to the model.
pub fn llm_request(key: Option<String>) -> (r: Vec<(String, String)>)
    ensures
        header_views(r@) == headers(
            match key {
                Some(k) => Some(k@),
                None => None,
            },
        ),
{
    let mut out: Vec<(String, String)> = Vec::new();
    out.push(("Content-Type".to_owned(), "application/json".to_owned()));
    assert(header_views(out@) =~= seq![("Content-Type"@, "application/json"@)]);
    if let Some(k) = key {
        let ghost before = header_views(out@);
        out.push(("Authorization".to_owned(), "Bearer ".to_owned().concat(k.as_str())));
        assert(header_views(out@) =~= before.push(("Authorization"@, "Bearer "@ + k@)));
    }
    out
}

// ── One attempt ────────────────────────────────────────────────────────────────

/// Outcome of a single HTTP attempt (network abstracted so `decide` is pure).
#[derive(Debug)]
pub enum Attempt {
    Answer(Json),
    Status(u16, String),
    Network(String),
}

/// What an attempt came to.
#[verifier::ext_equal]
pub enum AttemptView {
    Answer(JsonView),
    Status(u16, Seq<char>),
    Network(Seq<char>),
}

impl View for Attempt {
    type V = AttemptView;

    open spec fn view(&self) -> AttemptView {
        match *self {
            Attempt::Answer(v) => AttemptView::Answer(v@),
            Attempt::Status(code, body) => AttemptView::Status(code, body@),
            Attempt::Network(msg) => AttemptView::Network(msg@),
        }
    }
}

/// What the retry loop should do next given one attempt's outcome.
#[derive(Debug)]
pub enum Next {
    /// Response ready (carried separately).
    Done,
    Retry(String),
    TrimRetry(String),
    Fail(String),
}

/// What a decision is.
#[verifier::ext_equal]
pub enum NextView {
    Done,
    Retry(Seq<char>),
    TrimRetry(Seq<char>),
    Fail(Seq<char>),
}

impl View for Next {
    type V = NextView;

    open spec fn view(&self) -> NextView {
        match *self {
            Next::Done => NextView::Done,
            Next::Retry(m) => NextView::Retry(m@),
            Next::TrimRetry(m) => NextView::TrimRetry(m@),
            Next::Fail(m) => NextView::Fail(m@),
        }
    }
}

/// How many bytes of a body are kept.
pub open spec fn clip_length(body: Seq<char>) -> int {
    if encode_utf8(body).len() < 300 {
        encode_utf8(body).len() as int
    } else {
        300
    }
}

/// The bytes that are kept of a body end where a character ends.
pub open spec fn clippable(body: Seq<char>) -> bool {
    is_char_boundary(encode_utf8(body), clip_length(body))
}

/// `short` is what is kept of a body: its first 300 bytes.
pub open spec fn clips_to(body: Seq<char>, short: Seq<char>) -> bool {
    encode_utf8(short) == encode_utf8(body).take(clip_length(body))
}

/// What is kept of a body.
pub open spec fn clipped(body: Seq<char>) -> Seq<char> {
    choose|short: Seq<char>| clips_to(body, short)
}

/// A text is told by its bytes.
proof fn bytes_tell(a: Seq<char>, b: Seq<char>)
    requires
        encode_utf8(a) == encode_utf8(b),
    ensures
        a == b,
{
    vstd::utf8::encode_utf8_decode_utf8(a);
    vstd::utf8::encode_utf8_decode_utf8(b);
}

/// Only one text is what is kept of a body.
pub proof fn clipped_once(body: Seq<char>, short: Seq<char>)
    requires
        clips_to(body, short),
    ensures
        clipped(body) == short,
{
    bytes_tell(clipped(body), short);
}

/// A short body is kept whole.
pub proof fn short_bodies_stay(body: Seq<char>)
    requires
        encode_utf8(body).len() <= 300,
    ensures
        clipped(body) == body,
{
    assert(encode_utf8(body).take(clip_length(body)) =~= encode_utf8(body));
    clipped_once(body, body);
}

/// The first 300 bytes of a body.
pub fn clip(body: &str) -> (r: String)
    requires
        clippable(body@),
    ensures
        clips_to(body@, r@),
        r@ == clipped(body@),
{
    let n = body.as_bytes().len();
    let end: usize = if n < 300 {
        n
    } else {
        300
    };
    let r = body.split_at(end).0.to_owned();
    proof {
        assert(encode_utf8(r@) =~= encode_utf8(body@).take(clip_length(body@)));
        clipped_once(body@, r@);
    }
    r
}

/// An error of the network that is likely to pass.
pub open spec fn transient(msg: Seq<char>) -> bool {
    has(msg, "NetworkError"@) || has(msg, "Connection"@)
}

/// What an attempt leads to.
pub open spec fn decision(attempt: AttemptView) -> NextView {
    match attempt {
        AttemptView::Answer(_) => NextView::Done,
        AttemptView::Status(code, body) => if code == 400 {
            if has(body, "prompt is too long"@) {
                NextView::TrimRetry("context trimmed after prompt-too-long"@)
            } else {
                NextView::Fail("HTTP 400: "@ + clipped(body))
            }
        } else if code == 502 {
            NextView::Retry("HTTP 502: "@ + clipped(body))
        } else {
            NextView::Fail("HTTP "@ + decimal(code as nat) + ": "@ + clipped(body))
        },
        AttemptView::Network(msg) => if transient(msg) {
            NextView::Retry("HTTP error: "@ + msg)
        } else {
            NextView::Fail("HTTP error: "@ + msg)
        },
    }
}

/// The attempt's body, where it is quoted, can be clipped.
pub open spec fn quotable(attempt: AttemptView) -> bool {
    match attempt {
        AttemptView::Status(code, body) => (code == 400 && has(body, "prompt is too long"@))
            || clippable(body),
        _ => true,
    }
}

fn is_transient(msg: &str) -> (r: bool)
    ensures
        r == transient(msg@),
{
    contains(msg, "NetworkError") || contains(msg, "Connection")
}

/// What to do next given one attempt's outcome.
pub fn decide(attempt: &Attempt) -> (r: Next)
    requires
        quotable(attempt@),
    ensures
        r@ == decision(attempt@),
{
    match attempt {
        Attempt::Answer(_) => Next::Done,
        Attempt::Status(code, body) => {
            if *code == 400 {
                if contains(body.as_str(), "prompt is too long") {
                    Next::TrimRetry("context trimmed after prompt-too-long".to_owned())
                } else {
                    Next::Fail("HTTP 400: ".to_owned().concat(clip(body.as_str()).as_str()))
                }
            } else if *code == 502 {
                Next::Retry("HTTP 502: ".to_owned().concat(clip(body.as_str()).as_str()))
            } else {
                Next::Fail(
                    "HTTP ".to_owned().concat(decimal_text(*code as usize).as_str()).concat(
                        ": ",
                    ).concat(clip(body.as_str()).as_str()),
                )
            }
        },
        Attempt::Network(msg) => {
            let text = "HTTP error: ".to_owned().concat(msg.as_str());
            if is_transient(msg.as_str()) {
                Next::Retry(text)
            } else {
                Next::Fail(text)
            }
        },
    }
}

/// What a response that is no JSON is answered with.
pub fn parse_error(e: &str) -> (r: String)
    ensures
        r@ == "Parse error: "@ + e@,
{
    "Parse error: ".to_owned().concat(e)
}

// ── A call with retries ────────────────────────────────────────────────────────

/// How often an attempt is made.
pub open spec fn max_attempts() -> int {
    3
}

/// A call to the model between two attempts.
#[derive(Debug)]
pub struct Calling {
    /// Attempts made so far.
    pub attempts: usize,
    /// What the last of them failed with.
    pub last_err: String,
}

/// What a call ends with, by its model.
pub open spec fn call_shown(r: Option<Result<Json, String>>) -> Option<
    Result<JsonView, Seq<char>>,
> {
    match r {
        Some(Ok(v)) => Some(Ok(v@)),
        Some(Err(e)) => Some(Err(e@)),
        None => None,
    }
}

/// What a call ends with after an attempt; `None` where another attempt is to be made.
pub open spec fn call_end(attempts: int, attempt: AttemptView) -> Option<
    Result<JsonView, Seq<char>>,
> {
    match decision(attempt) {
        NextView::Done => Some(Ok(attempt->Answer_0)),
        NextView::Fail(msg) => Some(Err(msg)),
        NextView::Retry(msg) => if attempts + 1 < max_attempts() {
            None
        } else {
            Some(Err(msg))
        },
        NextView::TrimRetry(msg) => if attempts + 1 < max_attempts() {
            None
        } else {
            Some(Err(msg))
        },
    }
}

/// The history after an attempt.
pub open spec fn history_after<P: Provider + ?Sized>(
    p: &P,
    messages: JsonView,
    attempt: AttemptView,
) -> JsonView {
    if decision(attempt) is TrimRetry {
        p.trimmed_of(messages)
    } else {
        messages
    }
}

impl Calling {
    /// Another attempt may be made.
    pub open spec fn open(&self) -> bool {
        self.attempts < max_attempts()
    }

    /// A call that has not been tried yet.
    pub fn new() -> (r: Calling)
        ensures
            r.open(),
            r.attempts == 0,
            r.last_err@ == Seq::<char>::empty(),
    {
        Calling { attempts: 0, last_err: String::new() }
    }

    /// True iff there is to be a pause before the next attempt.
    pub fn pauses(&self) -> (r: bool)
        ensures
            r == (self.attempts > 0),
    {
        self.attempts > 0
    }

    /// Takes the outcome of an attempt: what the call ends with, or `None` where another
    /// attempt is to be made. After an over-long prompt the history is trimmed; otherwise it
    /// stays as it is. No call makes more than three attempts.
    pub fn next<P: Provider + ?Sized>(
        &mut self,
        provider: &P,
        messages: &mut Json,
        attempt: Attempt,
    ) -> (r: Option<Result<Json, String>>)
        requires
            old(self).open(),
            quotable(attempt@),
        ensures
            call_shown(r) == call_end(old(self).attempts as int, attempt@),
            final(self).attempts == old(self).attempts + 1,
            r is None ==> final(self).open(),
            r is None ==> final(self).attempts < 3,
            final(messages)@ == if decision(attempt@) is TrimRetry {
                provider.trimmed_of(old(messages)@)
            } else {
                old(messages)@
            },
            final(messages)@ == history_after(provider, old(messages)@, attempt@),
            final(self).last_err@ == match decision(attempt@) {
                NextView::Retry(msg) => msg,
                NextView::TrimRetry(msg) => msg,
                _ => old(self).last_err@,
            },
            old(messages)@ is Array ==> final(messages)@ is Array,
            old(messages)@ is Array && provider.sendable(old(messages)@) ==> provider.sendable(
                final(messages)@,
            ),
    {
        let next = decide(&attempt);
        self.attempts = self.attempts + 1;
        match next {
            Next::Done => match attempt {
                Attempt::Answer(v) => {
                    return Some(Ok(v));
                },
                _ => {},
            },
            Next::TrimRetry(msg) => {
                proof {
                    if messages@ is Array {
                        provider.trimming_keeps(messages@->Array_0, seq![]);
                    }
                }
                provider.trim_last_tool_result(messages);
                self.last_err = msg;
            },
            Next::Retry(msg) => {
                self.last_err = msg;
            },
            Next::Fail(msg) => {
                return Some(Err(msg));
            },
        }
        if self.attempts < 3 {
            None
        } else {
            Some(Err(self.last_err.clone()))
        }
    }
}

// ── A single question ──────────────────────────────────────────────────────────

/// The request that asks one question about one block.
pub open spec fn question_request(
    model: Seq<char>,
    block: JsonView,
    question: Seq<char>,
) -> JsonView {
    JsonView::object().with("model"@, JsonView::Str(model)).with(
        "max_tokens"@,
        JsonView::count(4096),
    ).with(
        "messages"@,
        JsonView::array().item(
            JsonView::object().with("role"@, JsonView::Str("user"@)).with(
                "content"@,
                JsonView::array().item(block).item(
                    JsonView::object().with("type"@, JsonView::Str("text"@)).with(
                        "text"@,
                        JsonView::Str(question),
                    ),
                ),
            ),
        ),
    )
}

/// The request of a single, stateless model call that extracts information from a content
/// block.
pub fn single_call(model: &str, content_block: Json, question: &str) -> (r: Json)
    ensures
        r@ == question_request(model@, content_block@, question@),
{
    Json::object().with("model", Json::text(model)).with("max_tokens", Json::count(4096)).with(
        "messages",
        Json::array().item(
            Json::object().with("role", Json::text("user")).with(
                "content",
                Json::array().item(content_block).item(
                    Json::object().with("type", Json::text("text")).with(
                        "text",
                        Json::text(question),
                    ),
                ),
            ),
        ),
    )
}

/// Outcome of one attempt at a single question.
#[derive(Debug)]
pub enum Reply {
    /// A response that is JSON.
    Answer(Json),
    /// A response that is none, and why.
    Unreadable(String),
    /// Status 502, and its body.
    BadGateway(String),
    /// Any other error.
    Error(String),
}

/// What a reply is.
#[verifier::ext_equal]
pub enum ReplyView {
    Answer(JsonView),
    Unreadable(Seq<char>),
    BadGateway(Seq<char>),
    Error(Seq<char>),
}

impl View for Reply {
    type V = ReplyView;

    open spec fn view(&self) -> ReplyView {
        match *self {
            Reply::Answer(v) => ReplyView::Answer(v@),
            Reply::Unreadable(e) => ReplyView::Unreadable(e@),
            Reply::BadGateway(b) => ReplyView::BadGateway(b@),
            Reply::Error(m) => ReplyView::Error(m@),
        }
    }
}

/// The text of a response's first block.
pub open spec fn answer_text(v: JsonView) -> Seq<char> {
    match v.at("content"@).nth(0).at("text"@) {
        JsonView::Str(s) => s,
        _ => "No response"@,
    }
}

/// What a question is answered with after a reply; `None` where another attempt is to be
/// made.
pub open spec fn answer(attempts: int, reply: ReplyView) -> Option<Seq<char>> {
    let last = attempts + 1 >= max_attempts();
    match reply {
        ReplyView::Answer(v) => Some(answer_text(v)),
        ReplyView::Unreadable(e) => Some("Parse error: "@ + e),
        ReplyView::BadGateway(body) => if last {
            Some("HTTP error: 502 "@ + clipped(body))
        } else {
            None
        },
        ReplyView::Error(msg) => if last || !transient(msg) {
            Some("HTTP error: "@ + msg)
        } else {
            None
        },
    }
}

/// A question's answer, by its characters.
pub open spec fn answer_shown(r: Option<String>) -> Option<Seq<char>> {
    match r {
        Some(s) => Some(s@),
        None => None,
    }
}

/// A single question between two attempts.
#[derive(Debug)]
pub struct Asking {
    /// Attempts made so far.
    pub attempts: usize,
}

impl Asking {
    /// Another attempt may be made.
    pub open spec fn open(&self) -> bool {
        self.attempts < max_attempts()
    }

    /// A question that has not been asked yet.
    pub fn new() -> (r: Asking)
        ensures
            r.open(),
            r.attempts == 0,
    {
        Asking { attempts: 0 }
    }

    /// True iff there is to be a pause before the next attempt.
    pub fn pauses(&self) -> (r: bool)
        ensures
            r == (self.attempts > 0),
    {
        self.attempts > 0
    }

    /// Takes the outcome of an attempt: what the question is answered with, or `None` where
    /// another attempt is to be made. No question is asked more than three times.
    pub fn next(&mut self, reply: Reply) -> (r: Option<String>)
        requires
            old(self).open(),
            reply@ matches ReplyView::BadGateway(body) ==> clippable(body),
        ensures
            answer_shown(r) == answer(old(self).attempts as int, reply@),
            final(self).attempts == old(self).attempts + 1,
            r is None ==> final(self).open(),
            r is None ==> final(self).attempts < 3,
    {
        self.attempts = self.attempts + 1;
        let last = self.attempts >= 3;
        match reply {
            Reply::Answer(v) => match v.copy_at("content").copy_nth(0).text_at("text") {
                Some(s) => Some(s.to_owned()),
                None => Some("No response".to_owned()),
            },
            Reply::Unreadable(e) => Some(parse_error(e.as_str())),
            Reply::BadGateway(body) => {
                let text = "HTTP error: 502 ".to_owned().concat(clip(body.as_str()).as_str());
                if last {
                    Some(text)
                } else {
                    None
                }
            },
            Reply::Error(msg) => {
                let text = "HTTP error: ".to_owned().concat(msg.as_str());
                if last || !is_transient(msg.as_str()) {
                    Some(text)
                } else {
                    None
                }
            },
        }
    }
}

// ── Laws ───────────────────────────────────────────────────────────────────────

/// A request names JSON as its content, and the key, where there is one, as its bearer.
pub proof fn headers_carry_key(key: Seq<char>)
    ensures
        headers(None).len() == 1,
        headers(None)[0].0 == "Content-Type"@,
        headers(None)[0].1 == "application/json"@,
        headers(Some(key)).len() == 2,
        headers(Some(key))[0] == headers(None)[0],
        headers(Some(key))[1].0 == "Authorization"@,
        headers(Some(key))[1].1 == "Bearer "@ + key,
{
}

/// What is kept of a body that is longer than 300 bytes is the text of its first 300.
pub proof fn long_bodies_are_cut(body: Seq<char>, short: Seq<char>)
    requires
        encode_utf8(body).len() > 300,
        encode_utf8(short) == encode_utf8(body).take(300),
    ensures
        clipped(body) == short,
        clippable(body) <==> is_char_boundary(encode_utf8(body), 300),
{
    clipped_once(body, short);
}

/// An attempt that is answered is done. After a status it is the body of a bad request that
/// asks for a shorter prompt, and nothing else, that leads to trimming; a bad gateway is tried
/// again; and any other status fails. An error of the network is tried again exactly where it
/// is one that passes. What is reported is the status and the body, or the error.
pub proof fn outcomes_lead_to(code: u16, body: Seq<char>, v: JsonView)
    ensures
        decision(AttemptView::Answer(v)) is Done,
        decision(AttemptView::Status(code, body)) is TrimRetry <==> code == 400 && has(
            body,
            "prompt is too long"@,
        ),
        decision(AttemptView::Status(code, body)) is Retry <==> code == 502,
        !(decision(AttemptView::Status(code, body)) is Done),
        decision(AttemptView::Status(code, body)) matches NextView::Retry(m) ==> m == "HTTP "@
            + decimal(code as nat) + ": "@ + clipped(body),
        decision(AttemptView::Status(code, body)) matches NextView::Fail(m) ==> m == "HTTP "@
            + decimal(code as nat) + ": "@ + clipped(body),
        decision(AttemptView::Network(body)) == NextView::Retry("HTTP error: "@ + body) <==> has(
            body,
            "NetworkError"@,
        ) || has(body, "Connection"@),
        decision(AttemptView::Network(body)) == NextView::Retry("HTTP error: "@ + body)
            || decision(AttemptView::Network(body)) == NextView::Fail("HTTP error: "@ + body),
{
    reveal_strlit("HTTP ");
    reveal_strlit(": ");
    reveal_strlit("HTTP 400: ");
    reveal_strlit("HTTP 502: ");
    reveal_with_fuel(decimal, 3);
    assert(decimal(400) =~= seq!['4', '0', '0']);
    assert(decimal(502) =~= seq!['5', '0', '2']);
    assert("HTTP "@ + decimal(400) + ": "@ =~= "HTTP 400: "@);
    assert("HTTP "@ + decimal(502) + ": "@ =~= "HTTP 502: "@);
    assert("HTTP "@ + decimal(400) + ": "@ + clipped(body) =~= "HTTP 400: "@ + clipped(body));
    assert("HTTP "@ + decimal(502) + ": "@ + clipped(body) =~= "HTTP 502: "@ + clipped(body));
}

/// A call ends with the answer as soon as there is one, and with the error as soon as the
/// outcome is final; one that may pass is tried again, but after the third attempt the call
/// ends with it.
pub proof fn calls_end(attempts: int, attempt: AttemptView)
    ensures
        attempt matches AttemptView::Answer(v) ==> call_end(attempts, attempt) == Some(
            Ok::<JsonView, Seq<char>>(v),
        ),
        decision(attempt) matches NextView::Fail(m) ==> call_end(attempts, attempt) == Some(
            Err::<JsonView, Seq<char>>(m),
        ),
        decision(attempt) matches NextView::Retry(m) ==> call_end(attempts, attempt) == if attempts
            < 2 {
            None
        } else {
            Some(Err::<JsonView, Seq<char>>(m))
        },
        decision(attempt) matches NextView::TrimRetry(m) ==> call_end(attempts, attempt)
            == if attempts < 2 {
            None
        } else {
            Some(Err::<JsonView, Seq<char>>(m))
        },
{
}

/// A single question is sent to the model with the block before it, in one message of the
/// user's.
pub proof fn question_is_sent_with_block(model: Seq<char>, block: JsonView, question: Seq<char>)
    ensures
        ({
            let req = question_request(model, block, question);
            &&& req.at("model"@) == JsonView::Str(model)
            &&& req.at("max_tokens"@) == JsonView::Number(NumView::Int(4096))
            &&& req.at("messages"@) matches JsonView::Array(m) && m.len() == 1 && m[0].at("role"@)
                == JsonView::Str("user"@) && (m[0].at("content"@) matches JsonView::Array(b)
                && b.len() == 2 && b[0] == block && b[1].at("type"@) == JsonView::Str("text"@)
                && b[1].at("text"@) == JsonView::Str(question))
        }),
{
    reveal_strlit("model");
    reveal_strlit("max_tokens");
    reveal_strlit("messages");
    reveal_strlit("role");
    reveal_strlit("content");
    reveal_strlit("type");
    reveal_strlit("text");
    assert("model"@.len() == 5 && "max_tokens"@.len() == 10 && "messages"@.len() == 8);
    assert("role"@.len() == 4 && "content"@.len() == 7);
    assert("type"@[1] == 'y' && "text"@[1] == 'e');
}

/// A question is answered with the text of the response's first block, and where that has none
/// the answer says so; with why, where the response is no JSON; and with the error, where it
/// does not pass or has not passed by the third attempt. Otherwise it is asked again.
pub proof fn questions_are_answered(attempts: int, v: JsonView, msg: Seq<char>)
    ensures
        v.at("content"@).nth(0).at("text"@) matches JsonView::Str(t) ==> answer(
            attempts,
            ReplyView::Answer(v),
        ) == Some(t),
        !(v.at("content"@).nth(0).at("text"@) is Str) ==> answer(attempts, ReplyView::Answer(v))
            == Some("No response"@),
        answer(attempts, ReplyView::Unreadable(msg)) == Some("Parse error: "@ + msg),
        answer(attempts, ReplyView::BadGateway(msg)) == if attempts < 2 {
            None
        } else {
            Some("HTTP error: 502 "@ + clipped(msg))
        },
        answer(attempts, ReplyView::Error(msg)) == if attempts < 2 && (has(msg, "NetworkError"@)
            || has(msg, "Connection"@)) {
            None
        } else {
            Some("HTTP error: "@ + msg)
        },
{
}

/// The history is trimmed after a bad request that asks for a shorter prompt, and after nothing
/// else.
pub proof fn history_changes_only_when_too_long<P: Provider + ?Sized>(
    p: &P,
    messages: JsonView,
    attempt: AttemptView,
)
    ensures
        (attempt matches AttemptView::Status(code, body) && code == 400 && has(
            body,
            "prompt is too long"@,
        )) ==> history_after(p, messages, attempt) == p.trimmed_of(messages),
        !(attempt matches AttemptView::Status(code, body) && code == 400 && has(
            body,
            "prompt is too long"@,
        )) ==> history_after(p, messages, attempt) == messages,
{
}

} // verus!
