//! Provider adapters: translate a neutral message/tool history into a concrete
//! request for either an Anthropic-style or OpenAI-compatible endpoint, and parse
//! the response back into a neutral shape.
//!
//! Provider is inferred from the endpoint URL:
//!   contains `/v1/chat/completions`  -> OpenAI-compatible
//!   anything else                    -> Anthropic (default)

use vstd::prelude::*;

use crate::json::{as_object, parsed, printed, views, Json, JsonView, NumView};
use crate::text::{contains, has, texts};

verus! {

// ── The neutral shape ──────────────────────────────────────────────────────────

/// A model turn parsed into a neutral shape.
pub struct ParsedResponse {
    pub text_parts: Vec<String>,
    pub tool_calls: Vec<ToolCall>,
    /// Raw assistant message to push into history (provider-shaped).
    pub assistant_msg: Json,
}

/// A call that the model asks for.
pub struct ToolCall {
    pub id: String,
    pub name: String,
    pub input: Json,
}

/// The answer to a call.
pub struct ToolResult {
    pub tool_use_id: String,
    pub content: String,
}

/// What a call is.
#[verifier::ext_equal]
pub struct ToolCallView {
    pub id: Seq<char>,
    pub name: Seq<char>,
    pub input: JsonView,
}

/// What an answer is.
#[verifier::ext_equal]
pub struct ToolResultView {
    pub tool_use_id: Seq<char>,
    pub content: Seq<char>,
}

/// What a parsed turn is.
#[verifier::ext_equal]
pub struct ParsedView {
    pub text_parts: Seq<Seq<char>>,
    pub tool_calls: Seq<ToolCallView>,
    pub assistant_msg: JsonView,
}

impl View for ToolCall {
    type V = ToolCallView;

    open spec fn view(&self) -> ToolCallView {
        ToolCallView { id: self.id@, name: self.name@, input: self.input@ }
    }
}

impl View for ToolResult {
    type V = ToolResultView;

    open spec fn view(&self) -> ToolResultView {
        ToolResultView { tool_use_id: self.tool_use_id@, content: self.content@ }
    }
}

impl View for ParsedResponse {
    type V = ParsedView;

    open spec fn view(&self) -> ParsedView {
        ParsedView {
            text_parts: texts(self.text_parts@),
            tool_calls: call_views(self.tool_calls@),
            assistant_msg: self.assistant_msg@,
        }
    }
}

/// The calls of a list, by their models.
pub open spec fn call_views(s: Seq<ToolCall>) -> Seq<ToolCallView> {
    s.map_values(|c: ToolCall| c@)
}

/// The answers of a list, by their models.
pub open spec fn result_views(s: Seq<ToolResult>) -> Seq<ToolResultView> {
    s.map_values(|r: ToolResult| r@)
}

/// What a parse gave, by its model.
pub open spec fn parse_view(r: Result<ParsedResponse, String>) -> Result<ParsedView, Seq<char>> {
    match r {
        Ok(p) => Ok(p@),
        Err(e) => Err(e@),
    }
}

/// One of the answers is for the call `id`.
pub open spec fn answered(rs: Seq<ToolResultView>, id: Seq<char>) -> bool {
    exists|i: int| 0 <= i < rs.len() && (#[trigger] rs[i]).tool_use_id == id
}

/// One of the answers has the content.
pub open spec fn carried(rs: Seq<ToolResultView>, content: Seq<char>) -> bool {
    exists|i: int| 0 <= i < rs.len() && (#[trigger] rs[i]).content == content
}

/// The message that opens a run, in the neutral shape both providers take.
pub open spec fn task_message(text: Seq<char>) -> JsonView {
    JsonView::object().with("role"@, JsonView::Str("user"@)).with(
        "content"@,
        JsonView::array().item(
            JsonView::object().with("type"@, JsonView::Str("text"@)).with(
                "text"@,
                JsonView::Str(text),
            ).with("cache_control"@, ephemeral()),
        ),
    )
}

/// The cache breakpoint.
pub open spec fn ephemeral() -> JsonView {
    JsonView::object().with("type"@, JsonView::Str("ephemeral"@))
}

/// What a tool result that was too large is replaced by.
pub open spec fn removed_note() -> JsonView {
    JsonView::Str(
        "[output removed — too large for context. The data was saved to disk; query it there.]"@,
    )
}

/// What a provider makes of a history. The functions named `..._of` say what each method
/// gives; the proofs say what every provider keeps.
pub trait Provider {
    /// The tool list in the provider's request format.
    spec fn tools_of(&self, base: JsonView) -> JsonView;

    /// The tool lists that can be shaped.
    spec fn shapeable(&self, base: JsonView) -> bool;

    /// The request for one turn.
    spec fn request_of(
        &self,
        model: Seq<char>,
        system: Seq<char>,
        tools: JsonView,
        messages: JsonView,
    ) -> JsonView;

    /// The histories that a request can be built from.
    spec fn sendable(&self, messages: JsonView) -> bool;

    /// The turn that a response holds, or why it holds none.
    spec fn turn_of(&self, resp: JsonView) -> Result<ParsedView, Seq<char>>;

    /// The messages that carry the given answers.
    spec fn results_of(&self, results: Seq<ToolResultView>) -> Seq<JsonView>;

    /// The history after one large result was taken out.
    spec fn trimmed_of(&self, messages: JsonView) -> JsonView;

    /// The assistant message that makes one call.
    spec fn call_of(&self, id: Seq<char>, name: Seq<char>, input: JsonView) -> JsonView;

    /// The history holds an answer to the call `id`.
    spec fn answers(&self, messages: JsonView, id: Seq<char>) -> bool;

    /// The history holds an answer with the content, to whichever call.
    spec fn holds(&self, messages: JsonView, content: Seq<char>) -> bool;

    /// A history holds what one of its parts holds.
    proof fn holds_of_parts(&self, a: Seq<JsonView>, b: Seq<JsonView>, content: Seq<char>)
        ensures
            self.holds(JsonView::Array(a + b), content) == (self.holds(JsonView::Array(a), content)
                || self.holds(JsonView::Array(b), content)),
    ;

    /// The messages that carry answers hold exactly the contents of the answers.
    proof fn holds_of_results(&self, rs: Seq<ToolResultView>, content: Seq<char>)
        ensures
            self.holds(JsonView::Array(self.results_of(rs)), content) == carried(rs, content),
    ;

    /// A call holds no answer.
    proof fn holds_of_call(
        &self,
        id: Seq<char>,
        name: Seq<char>,
        input: JsonView,
        content: Seq<char>,
    )
        ensures
            !self.holds(JsonView::Array(seq![self.call_of(id, name, input)]), content),
    ;

    /// A history answers what one of its parts answers.
    proof fn answers_of_parts(&self, a: Seq<JsonView>, b: Seq<JsonView>, id: Seq<char>)
        ensures
            self.answers(JsonView::Array(a + b), id) == (self.answers(JsonView::Array(a), id)
                || self.answers(JsonView::Array(b), id)),
    ;

    /// The messages that carry answers answer exactly the calls that the answers are for.
    proof fn answers_of_results(&self, rs: Seq<ToolResultView>, id: Seq<char>)
        ensures
            self.answers(JsonView::Array(self.results_of(rs)), id) == answered(rs, id),
    ;

    /// A call answers nothing.
    proof fn answers_of_call(
        &self,
        id: Seq<char>,
        name: Seq<char>,
        input: JsonView,
        other: Seq<char>,
    )
        ensures
            !self.answers(JsonView::Array(seq![self.call_of(id, name, input)]), other),
    ;

    /// A task message answers nothing.
    proof fn answers_of_task(&self, text: Seq<char>, id: Seq<char>)
        ensures
            !self.answers(JsonView::Array(seq![task_message(text)]), id),
    ;

    /// Trimming keeps the number of messages and which calls are answered.
    proof fn trimming_keeps(&self, messages: Seq<JsonView>, id: Seq<char>)
        ensures
            self.trimmed_of(JsonView::Array(messages)) matches JsonView::Array(t) && t.len()
                == messages.len(),
            self.answers(self.trimmed_of(JsonView::Array(messages)), id) == self.answers(
                JsonView::Array(messages),
                id,
            ),
            self.sendable(JsonView::Array(messages)) ==> self.sendable(
                self.trimmed_of(JsonView::Array(messages)),
            ),
    ;

    /// A history that ends in a task message can be sent.
    proof fn sendable_after_task(&self, messages: Seq<JsonView>, text: Seq<char>)
        ensures
            self.sendable(JsonView::Array(messages.push(task_message(text)))),
    ;

    /// A history that ends in answers can be sent.
    proof fn sendable_after_results(&self, messages: Seq<JsonView>, rs: Seq<ToolResultView>)
        ensures
            self.sendable(JsonView::Array(messages + self.results_of(rs))),
    ;

    /// A list of objects can be shaped.
    proof fn shapeable_objects(&self, base: Seq<JsonView>)
        requires
            forall|i: int| 0 <= i < base.len() ==> (#[trigger] base[i]) is Object,
        ensures
            self.shapeable(JsonView::Array(base)),
    ;

    /// Shape the neutral tool list into the provider's request format.
    fn shape_tools(&self, base: &Json) -> (r: Json)
        requires
            self.shapeable(base@),
        ensures
            r@ == self.tools_of(base@),
    ;

    /// The request that asks the model for its next turn.
    fn build_request(&self, model: &str, system: &str, tools: &Json, messages: &Json) -> (r: Json)
        requires
            self.sendable(messages@),
        ensures
            r@ == self.request_of(model@, system@, tools@, messages@),
    ;

    /// Parse the response to a request.
    fn parse_response(&self, resp: Json) -> (r: Result<ParsedResponse, String>)
        ensures
            parse_view(r) == self.turn_of(resp@),
    ;

    /// One or more messages to append to history for the given tool results.
    fn wrap_tool_results(&self, results: Vec<ToolResult>) -> (r: Vec<Json>)
        ensures
            views(r@) == self.results_of(result_views(results@)),
    ;

    /// Shrink the largest tool result in history to recover from an over-long prompt.
    fn trim_last_tool_result(&self, messages: &mut Json)
        ensures
            final(messages)@ == self.trimmed_of(old(messages)@),
    ;

    /// Build an assistant message that issues a single tool call. Used to rebuild a
    /// round when resuming persisted work.
    fn tool_call_message(&self, id: &str, name: &str, input: &Json) -> (r: Json)
        ensures
            r@ == self.call_of(id@, name@, input@),
    ;

    /// True iff `messages` already contains a tool result answering `tool_use_id`.
    fn has_tool_result(&self, messages: &Json, tool_use_id: &str) -> (r: bool)
        ensures
            r == self.answers(messages@, tool_use_id@),
    ;

    /// True iff `messages` already contains a tool result with the content.
    fn holds_result(&self, messages: &Json, content: &str) -> (r: bool)
        ensures
            r == self.holds(messages@, content@),
    ;
}

// ── Pieces ─────────────────────────────────────────────────────────────────────

/// An object that has the key "content".
pub open spec fn with_content(m: JsonView) -> JsonView {
    let o = as_object(m);
    if o is Object && o->Object_0.contains_key("content"@) {
        o
    } else {
        o.with("content"@, JsonView::Null)
    }
}

/// Something that a member can be put into.
pub open spec fn fillable(v: JsonView) -> bool {
    v is Object || v is Null
}

/// A block with the cache breakpoint on it.
pub open spec fn marked(v: JsonView) -> JsonView {
    as_object(v).with("cache_control"@, ephemeral())
}

/// A list with the cache breakpoint on its last item.
pub open spec fn last_marked(s: Seq<JsonView>) -> Seq<JsonView> {
    if s.len() > 0 {
        s.update(s.len() - 1, marked(s.last()))
    } else {
        s
    }
}

/// The bytes of a string; none for any other value.
pub open spec fn weight(v: JsonView) -> nat {
    match v {
        JsonView::Str(s) => vstd::utf8::encode_utf8(s).len(),
        _ => 0,
    }
}

/// The position of the heaviest content among the items that say `word` under `key`; the
/// last of them where several are equally heavy.
pub open spec fn heaviest(s: Seq<JsonView>, key: Seq<char>, word: Seq<char>) -> Option<int>
    decreases s.len(),
{
    if s.len() == 0 {
        None
    } else {
        let before = heaviest(s.drop_last(), key, word);
        if s.last().at(key) != JsonView::Str(word) {
            before
        } else {
            match before {
                Some(p) if weight(s[p].at("content"@)) > weight(s.last().at("content"@)) => Some(p),
                _ => Some(s.len() - 1),
            }
        }
    }
}

/// A list with the heaviest content of the items that say `word` under `key` taken out.
pub open spec fn lightened(s: Seq<JsonView>, key: Seq<char>, word: Seq<char>) -> Seq<JsonView> {
    match heaviest(s, key, word) {
        Some(p) => s.update(p, s[p].with("content"@, removed_note())),
        None => s,
    }
}

/// `heaviest` finds what it says.
pub proof fn heaviest_is_heaviest(s: Seq<JsonView>, key: Seq<char>, word: Seq<char>)
    ensures
        match heaviest(s, key, word) {
            Some(p) => {
                &&& 0 <= p < s.len()
                &&& s[p].at(key) == JsonView::Str(word)
                &&& forall|i: int|
                    0 <= i < s.len() && (#[trigger] s[i]).at(key) == JsonView::Str(word) ==> {
                        &&& weight(s[i].at("content"@)) <= weight(s[p].at("content"@))
                        &&& i > p ==> weight(s[i].at("content"@)) < weight(s[p].at("content"@))
                    }
            },
            None => forall|i: int|
                0 <= i < s.len() ==> (#[trigger] s[i]).at(key) != JsonView::Str(word),
        },
    decreases s.len(),
{
    if s.len() > 0 {
        heaviest_is_heaviest(s.drop_last(), key, word);
        assert forall|i: int| 0 <= i < s.len() - 1 implies s.drop_last()[i] == #[trigger] s[i] by {}
    }
}

fn weight_of(j: &Json) -> (r: usize)
    ensures
        r == weight(j@.at("content"@)),
{
    match j.text_at("content") {
        Some(s) => s.as_bytes().len(),
        None => 0,
    }
}

fn find_heaviest(v: &Vec<Json>, key: &str, word: &str) -> (r: Option<usize>)
    ensures
        match r {
            Some(p) => heaviest(views(v@), key@, word@) == Some(p as int) && p < v@.len(),
            None => heaviest(views(v@), key@, word@) is None,
        },
{
    let mut best: Option<usize> = None;
    let mut i: usize = 0;
    let ghost all = views(v@);
    while i < v.len()
        invariant
            all == views(v@),
            i <= v@.len(),
            match best {
                Some(p) => heaviest(all.take(i as int), key@, word@) == Some(p as int) && p < i,
                None => heaviest(all.take(i as int), key@, word@) is None,
            },
        decreases v@.len() - i,
    {
        assert(all.take(i + 1).drop_last() =~= all.take(i as int));
        assert(all.take(i + 1).last() == v@[i as int]@);
        if v[i].says(key, word) {
            best = match best {
                Some(p) => if weight_of(&v[p]) > weight_of(&v[i]) {
                    Some(p)
                } else {
                    Some(i)
                },
                None => Some(i),
            };
        }
        i += 1;
    }
    assert(all.take(all.len() as int) =~= all);
    best
}

/// Takes the heaviest content out.
fn lighten(v: &mut Vec<Json>, key: &str, word: &str)
    ensures
        views(final(v)@) == lightened(views(old(v)@), key@, word@),
{
    let found = find_heaviest(v, key, word);
    proof {
        heaviest_is_heaviest(views(v@), key@, word@);
    }
    if let Some(p) = found {
        let ghost before = v@;
        let mut m = v[p].clone();
        m.set(
            "content",
            Json::text(
                "[output removed — too large for context. The data was saved to disk; query it there.]",
            ),
        );
        v.set(p, m);
        assert(views(v@) =~= lightened(views(before), key@, word@));
    }
}

fn breakpoint() -> (r: Json)
    ensures
        r@ == ephemeral(),
{
    Json::object().with("type", Json::text("ephemeral"))
}

// ── Anthropic ──────────────────────────────────────────────────────────────────

/// The Anthropic Messages API.
pub struct Anthropic;

/// The texts of the text blocks, in order.
pub open spec fn block_texts(s: Seq<JsonView>) -> Seq<Seq<char>>
    decreases s.len(),
{
    if s.len() == 0 {
        seq![]
    } else {
        let before = block_texts(s.drop_last());
        let b = s.last();
        if b.at("type"@) == JsonView::Str("text"@) && b.at("text"@) is Str {
            before.push(b.at("text"@)->Str_0)
        } else {
            before
        }
    }
}

/// The characters of a string; none for any other value.
pub open spec fn text_or_empty(v: JsonView) -> Seq<char> {
    match v {
        JsonView::Str(s) => s,
        _ => seq![],
    }
}

/// The calls of the call blocks, in order.
pub open spec fn block_calls(s: Seq<JsonView>) -> Seq<ToolCallView>
    decreases s.len(),
{
    if s.len() == 0 {
        seq![]
    } else {
        let before = block_calls(s.drop_last());
        let b = s.last();
        if b.at("type"@) == JsonView::Str("tool_use"@) {
            before.push(
                ToolCallView {
                    id: text_or_empty(b.at("id"@)),
                    name: text_or_empty(b.at("name"@)),
                    input: b.at("input"@),
                },
            )
        } else {
            before
        }
    }
}

/// The block that carries one answer.
pub open spec fn result_block(r: ToolResultView) -> JsonView {
    JsonView::object().with("type"@, JsonView::Str("tool_result"@)).with(
        "tool_use_id"@,
        JsonView::Str(r.tool_use_id),
    ).with("content"@, JsonView::Str(r.content))
}

/// The block answers the call `id`.
pub open spec fn block_answers(b: JsonView, id: Seq<char>) -> bool {
    b.at("type"@) == JsonView::Str("tool_result"@) && b.at("tool_use_id"@) == JsonView::Str(id)
}

/// One of the blocks answers the call `id`.
pub open spec fn blocks_answer(blocks: Seq<JsonView>, id: Seq<char>) -> bool {
    exists|i: int| 0 <= i < blocks.len() && block_answers(#[trigger] blocks[i], id)
}

/// The message holds a block that answers the call `id`.
pub open spec fn message_answers(m: JsonView, id: Seq<char>) -> bool {
    match m.at("content"@) {
        JsonView::Array(blocks) => blocks_answer(blocks, id),
        _ => false,
    }
}

/// One of the messages holds a block that answers the call `id`.
pub open spec fn messages_answer(s: Seq<JsonView>, id: Seq<char>) -> bool {
    exists|i: int| 0 <= i < s.len() && message_answers(#[trigger] s[i], id)
}

/// The block is a tool result with the content.
pub open spec fn block_holds(b: JsonView, content: Seq<char>) -> bool {
    b.at("type"@) == JsonView::Str("tool_result"@) && b.at("content"@) == JsonView::Str(content)
}

/// One of the blocks is a tool result with the content.
pub open spec fn blocks_hold(blocks: Seq<JsonView>, content: Seq<char>) -> bool {
    exists|i: int| 0 <= i < blocks.len() && block_holds(#[trigger] blocks[i], content)
}

/// The message has a block that is a tool result with the content.
pub open spec fn message_holds(m: JsonView, content: Seq<char>) -> bool {
    match m.at("content"@) {
        JsonView::Array(blocks) => blocks_hold(blocks, content),
        _ => false,
    }
}

/// One of the messages has a block that is a tool result with the content.
pub open spec fn messages_hold(s: Seq<JsonView>, content: Seq<char>) -> bool {
    exists|i: int| 0 <= i < s.len() && message_holds(#[trigger] s[i], content)
}

/// A message with the cache breakpoint on its last block.
pub open spec fn stamped_message(m: JsonView) -> JsonView {
    let c = with_content(m);
    match c.at("content"@) {
        JsonView::Array(blocks) => if blocks.len() > 0 {
            c.with("content"@, JsonView::Array(last_marked(blocks)))
        } else {
            c
        },
        _ => c,
    }
}

/// A history with the cache breakpoint on the last block of its last message.
pub open spec fn stamped(messages: JsonView) -> JsonView {
    match messages {
        JsonView::Array(s) => if s.len() > 0 {
            JsonView::Array(s.update(s.len() - 1, stamped_message(s.last())))
        } else {
            messages
        },
        _ => messages,
    }
}

/// The message's last block can take the cache breakpoint.
pub open spec fn stampable(m: JsonView) -> bool {
    &&& fillable(m)
    &&& match m.at("content"@) {
        JsonView::Array(blocks) => blocks.len() > 0 ==> fillable(blocks.last()),
        _ => true,
    }
}

/// The bytes of the heaviest tool result of a message, where it holds one.
pub open spec fn heaviest_result(m: JsonView) -> Option<nat> {
    match m.at("content"@) {
        JsonView::Array(blocks) => match heaviest(blocks, "type"@, "tool_result"@) {
            Some(q) => Some(weight(blocks[q].at("content"@))),
            None => None,
        },
        _ => None,
    }
}

/// The position of the message that holds the heaviest tool result of a history; the last of
/// them where several are equally heavy.
pub open spec fn heaviest_message(s: Seq<JsonView>) -> Option<int>
    decreases s.len(),
{
    if s.len() == 0 {
        None
    } else {
        let before = heaviest_message(s.drop_last());
        match heaviest_result(s.last()) {
            None => before,
            Some(w) => match before {
                Some(u) if heaviest_result(s[u])->0 > w => Some(u),
                _ => Some(s.len() - 1),
            },
        }
    }
}

/// A message with the heaviest of its results taken out.
pub open spec fn lightened_message(m: JsonView) -> JsonView {
    match m.at("content"@) {
        JsonView::Array(blocks) => m.with(
            "content"@,
            JsonView::Array(lightened(blocks, "type"@, "tool_result"@)),
        ),
        _ => m,
    }
}

/// `heaviest_message` finds what it says: no tool result of the history is heavier than the
/// heaviest of that message, and those behind it are all lighter.
pub proof fn heaviest_message_is_heaviest(s: Seq<JsonView>)
    ensures
        match heaviest_message(s) {
            Some(u) => {
                &&& 0 <= u < s.len()
                &&& heaviest_result(s[u]) is Some
                &&& forall|i: int|
                    0 <= i < s.len() && heaviest_result(#[trigger] s[i]) is Some ==> {
                        &&& heaviest_result(s[i])->0 <= heaviest_result(s[u])->0
                        &&& i > u ==> heaviest_result(s[i])->0 < heaviest_result(s[u])->0
                    }
            },
            None => forall|i: int|
                0 <= i < s.len() ==> heaviest_result(#[trigger] s[i]) is None,
        },
    decreases s.len(),
{
    if s.len() > 0 {
        heaviest_message_is_heaviest(s.drop_last());
        assert forall|i: int| 0 <= i < s.len() - 1 implies s.drop_last()[i] == #[trigger] s[i] by {}
    }
}

/// The keys and words of the messages, apart from one another.
proof fn words_apart()
    ensures
        "role"@.len() == 4 && "role"@[0] == 'r',
        "type"@.len() == 4 && "type"@[0] == 't' && "type"@[1] == 'y',
        "text"@.len() == 4 && "text"@[0] == 't' && "text"@[1] == 'e',
        "content"@.len() == 7,
        "tool_use_id"@.len() == 11,
        "tool_call_id"@.len() == 12,
        "cache_control"@.len() == 13,
        "tool_calls"@.len() == 10,
        "tool_result"@.len() == 11 && "tool_result"@[5] == 'r',
        "tool_use"@.len() == 8,
        "user"@.len() == 4 && "user"@[0] == 'u',
        "tool"@.len() == 4 && "tool"@[0] == 't',
        "assistant"@.len() == 9,
{
    reveal_strlit("role");
    reveal_strlit("type");
    reveal_strlit("text");
    reveal_strlit("content");
    reveal_strlit("tool_use_id");
    reveal_strlit("tool_call_id");
    reveal_strlit("cache_control");
    reveal_strlit("tool_calls");
    reveal_strlit("tool_result");
    reveal_strlit("tool_use");
    reveal_strlit("user");
    reveal_strlit("tool");
    reveal_strlit("assistant");
}

fn mark(block: &Json) -> (r: Json)
    requires
        fillable(block@),
    ensures
        r@ == marked(block@),
{
    let mut b = block.clone();
    b.set("cache_control", breakpoint());
    b
}

/// A copy of a list with the cache breakpoint on its last item.
fn mark_last(v: &Vec<Json>) -> (r: Vec<Json>)
    requires
        v@.len() > 0 ==> fillable(v@.last()@),
    ensures
        views(r@) == last_marked(views(v@)),
{
    let mut out: Vec<Json> = Vec::new();
    let mut i: usize = 0;
    while i < v.len()
        invariant
            v@.len() > 0 ==> fillable(v@.last()@),
            i <= v@.len(),
            out@.len() == i,
            forall|k: int|
                0 <= k < i ==> (#[trigger] out@[k])@ == (if k == v@.len() - 1 {
                    marked(v@[k]@)
                } else {
                    v@[k]@
                }),
        decreases v@.len() - i,
    {
        if i == v.len() - 1 {
            out.push(mark(&v[i]));
        } else {
            out.push(v[i].clone());
        }
        i += 1;
    }
    assert(views(out@) =~= last_marked(views(v@)));
    out
}

fn add_content(m: &Json) -> (r: Json)
    requires
        fillable(m@),
    ensures
        r@ == with_content(m@),
{
    let mut c = m.clone();
    if m.get("content").is_none() {
        c.set("content", Json::Null);
    }
    c
}

fn stamp_message(m: &Json) -> (r: Json)
    requires
        stampable(m@),
    ensures
        r@ == stamped_message(m@),
{
    let mut c = add_content(m);
    let blocks = match c.items_at("content") {
        Some(v) => if v.len() > 0 {
            Some(mark_last(v))
        } else {
            None
        },
        None => None,
    };
    if let Some(b) = blocks {
        c.set("content", Json::Array(b));
    }
    c
}

/// Taking a content out leaves who answers what as it is.
proof fn lightening_keeps_answers(m: JsonView, id: Seq<char>)
    ensures
        message_answers(lightened_message(m), id) == message_answers(m, id),
        stampable(m) ==> stampable(lightened_message(m)),
{
    words_apart();
    if let JsonView::Array(blocks) = m.at("content"@) {
        let t = lightened(blocks, "type"@, "tool_result"@);
        heaviest_is_heaviest(blocks, "type"@, "tool_result"@);
        assert(t.len() == blocks.len());
        assert forall|i: int| 0 <= i < blocks.len() implies block_answers(#[trigger] t[i], id)
            == block_answers(blocks[i], id) by {
            assert(t[i].at("type"@) == blocks[i].at("type"@));
            assert(t[i].at("tool_use_id"@) == blocks[i].at("tool_use_id"@));
        }
        assert(lightened_message(m).at("content"@) == JsonView::Array(t));
        if message_answers(m, id) {
            let i = choose|i: int| 0 <= i < blocks.len() && block_answers(#[trigger] blocks[i], id);
            assert(block_answers(t[i], id));
        }
        if message_answers(lightened_message(m), id) {
            let i = choose|i: int| 0 <= i < t.len() && block_answers(#[trigger] t[i], id);
            assert(block_answers(blocks[i], id));
        }
    }
}

fn lighten_message(m: &Json) -> (r: Json)
    ensures
        r@ == lightened_message(m@),
{
    let mut c = m.clone();
    if let Json::Array(mut blocks) = m.copy_at("content") {
        lighten(&mut blocks, "type", "tool_result");
        c.set("content", Json::Array(blocks));
    }
    c
}

fn result_weight(m: &Json) -> (r: Option<usize>)
    ensures
        match r {
            Some(w) => heaviest_result(m@) == Some(w as nat),
            None => heaviest_result(m@) is None,
        },
{
    match m.items_at("content") {
        Some(blocks) => match find_heaviest(blocks, "type", "tool_result") {
            Some(q) => Some(weight_of(&blocks[q])),
            None => None,
        },
        None => None,
    }
}

fn find_heaviest_message(v: &Vec<Json>) -> (r: Option<usize>)
    ensures
        match r {
            Some(u) => heaviest_message(views(v@)) == Some(u as int) && u < v@.len(),
            None => heaviest_message(views(v@)) is None,
        },
{
    let mut best: Option<(usize, usize)> = None;
    let mut i: usize = 0;
    let ghost all = views(v@);
    while i < v.len()
        invariant
            all == views(v@),
            i <= v@.len(),
            match best {
                Some((u, w)) => heaviest_message(all.take(i as int)) == Some(u as int) && u < i
                    && heaviest_result(all[u as int]) == Some(w as nat),
                None => heaviest_message(all.take(i as int)) is None,
            },
        decreases v@.len() - i,
    {
        assert(all.take(i + 1).drop_last() =~= all.take(i as int));
        assert(all.take(i + 1).last() == v@[i as int]@);
        if let Some(w) = result_weight(&v[i]) {
            best = match best {
                Some((u, most)) => if most > w {
                    Some((u, most))
                } else {
                    Some((i, w))
                },
                None => Some((i, w)),
            };
        }
        i += 1;
    }
    assert(all.take(all.len() as int) =~= all);
    match best {
        Some((u, _)) => Some(u),
        None => None,
    }
}

impl Provider for Anthropic {
    open spec fn tools_of(&self, base: JsonView) -> JsonView {
        match base {
            JsonView::Array(s) => JsonView::Array(last_marked(s)),
            _ => base,
        }
    }

    open spec fn shapeable(&self, base: JsonView) -> bool {
        match base {
            JsonView::Array(s) => s.len() > 0 ==> fillable(s.last()),
            _ => true,
        }
    }

    open spec fn request_of(
        &self,
        model: Seq<char>,
        system: Seq<char>,
        tools: JsonView,
        messages: JsonView,
    ) -> JsonView {
        JsonView::object().with("model"@, JsonView::Str(model)).with(
            "max_tokens"@,
            JsonView::count(16000),
        ).with(
            "system"@,
            JsonView::array().item(
                JsonView::object().with("type"@, JsonView::Str("text"@)).with(
                    "text"@,
                    JsonView::Str(system),
                ).with("cache_control"@, ephemeral()),
            ),
        ).with("tools"@, tools).with("messages"@, stamped(messages))
    }

    open spec fn sendable(&self, messages: JsonView) -> bool {
        match messages {
            JsonView::Array(s) => s.len() > 0 ==> stampable(s.last()),
            _ => true,
        }
    }

    open spec fn turn_of(&self, resp: JsonView) -> Result<ParsedView, Seq<char>> {
        match resp.at("content"@) {
            JsonView::Array(blocks) => Ok(
                ParsedView {
                    text_parts: block_texts(blocks),
                    tool_calls: block_calls(blocks),
                    assistant_msg: JsonView::object().with(
                        "role"@,
                        JsonView::Str("assistant"@),
                    ).with("content"@, JsonView::Array(blocks)),
                },
            ),
            _ => Err("no content in response"@),
        }
    }

    open spec fn results_of(&self, results: Seq<ToolResultView>) -> Seq<JsonView> {
        seq![
            JsonView::object().with("role"@, JsonView::Str("user"@)).with(
                "content"@,
                JsonView::Array(results.map_values(|r: ToolResultView| result_block(r))),
            ),
        ]
    }

    open spec fn trimmed_of(&self, messages: JsonView) -> JsonView {
        match messages {
            JsonView::Array(s) => match heaviest_message(s) {
                Some(u) => JsonView::Array(s.update(u, lightened_message(s[u]))),
                None => messages,
            },
            _ => messages,
        }
    }

    open spec fn call_of(&self, id: Seq<char>, name: Seq<char>, input: JsonView) -> JsonView {
        JsonView::object().with("role"@, JsonView::Str("assistant"@)).with(
            "content"@,
            JsonView::array().item(
                JsonView::object().with("type"@, JsonView::Str("tool_use"@)).with(
                    "id"@,
                    JsonView::Str(id),
                ).with("name"@, JsonView::Str(name)).with("input"@, input),
            ),
        )
    }

    open spec fn answers(&self, messages: JsonView, id: Seq<char>) -> bool {
        match messages {
            JsonView::Array(s) => messages_answer(s, id),
            _ => false,
        }
    }

    open spec fn holds(&self, messages: JsonView, content: Seq<char>) -> bool {
        match messages {
            JsonView::Array(s) => messages_hold(s, content),
            _ => false,
        }
    }

    proof fn holds_of_parts(&self, a: Seq<JsonView>, b: Seq<JsonView>, content: Seq<char>) {
        if self.holds(JsonView::Array(a), content) {
            let i = choose|i: int| 0 <= i < a.len() && message_holds(#[trigger] a[i], content);
            assert(message_holds((a + b)[i], content));
        }
        if self.holds(JsonView::Array(b), content) {
            let i = choose|i: int| 0 <= i < b.len() && message_holds(#[trigger] b[i], content);
            assert(message_holds((a + b)[a.len() + i], content));
        }
    }

    proof fn holds_of_results(&self, rs: Seq<ToolResultView>, content: Seq<char>) {
        words_apart();
        let m = self.results_of(rs)[0];
        let blocks = rs.map_values(|r: ToolResultView| result_block(r));
        assert(m.at("content"@) == JsonView::Array(blocks));
        assert forall|i: int| 0 <= i < rs.len() implies block_holds(#[trigger] blocks[i], content)
            == (rs[i].content == content) by {
            assert(blocks[i] == result_block(rs[i]));
        }
        if carried(rs, content) {
            let i = choose|i: int| 0 <= i < rs.len() && (#[trigger] rs[i]).content == content;
            assert(block_holds(blocks[i], content));
            assert(message_holds(self.results_of(rs)[0], content));
        }
    }

    proof fn holds_of_call(
        &self,
        id: Seq<char>,
        name: Seq<char>,
        input: JsonView,
        content: Seq<char>,
    ) {
        words_apart();
        reveal_strlit("id");
        reveal_strlit("name");
        reveal_strlit("input");
        assert("name"@.len() == 4 && "name"@[0] == 'n');
        assert("id"@.len() == 2);
        assert("input"@.len() == 5);
        let b = JsonView::object().with("type"@, JsonView::Str("tool_use"@)).with(
            "id"@,
            JsonView::Str(id),
        ).with("name"@, JsonView::Str(name)).with("input"@, input);
        assert(b.at("type"@) == JsonView::Str("tool_use"@));
        assert(self.call_of(id, name, input).at("content"@) == JsonView::array().item(b));
    }

    proof fn answers_of_parts(&self, a: Seq<JsonView>, b: Seq<JsonView>, id: Seq<char>) {
        if self.answers(JsonView::Array(a), id) {
            let i = choose|i: int| 0 <= i < a.len() && message_answers(#[trigger] a[i], id);
            assert(message_answers((a + b)[i], id));
        }
        if self.answers(JsonView::Array(b), id) {
            let i = choose|i: int| 0 <= i < b.len() && message_answers(#[trigger] b[i], id);
            assert(message_answers((a + b)[a.len() + i], id));
        }
    }

    proof fn answers_of_results(&self, rs: Seq<ToolResultView>, id: Seq<char>) {
        words_apart();
        let m = self.results_of(rs)[0];
        let blocks = rs.map_values(|r: ToolResultView| result_block(r));
        assert(m.at("content"@) == JsonView::Array(blocks));
        assert forall|i: int| 0 <= i < rs.len() implies block_answers(#[trigger] blocks[i], id) == (
        rs[i].tool_use_id == id) by {
            assert(blocks[i] == result_block(rs[i]));
        }
        if answered(rs, id) {
            let i = choose|i: int| 0 <= i < rs.len() && (#[trigger] rs[i]).tool_use_id == id;
            assert(block_answers(blocks[i], id));
            assert(message_answers(self.results_of(rs)[0], id));
        }
    }

    proof fn answers_of_call(
        &self,
        id: Seq<char>,
        name: Seq<char>,
        input: JsonView,
        other: Seq<char>,
    ) {
        words_apart();
        reveal_strlit("id");
        reveal_strlit("name");
        reveal_strlit("input");
        assert("name"@.len() == 4 && "name"@[0] == 'n');
        assert("id"@.len() == 2);
        assert("input"@.len() == 5);
        let b = JsonView::object().with("type"@, JsonView::Str("tool_use"@)).with(
            "id"@,
            JsonView::Str(id),
        ).with("name"@, JsonView::Str(name)).with("input"@, input);
        assert(b.at("type"@) == JsonView::Str("tool_use"@));
        assert(self.call_of(id, name, input).at("content"@) == JsonView::array().item(b));
    }

    proof fn answers_of_task(&self, text: Seq<char>, id: Seq<char>) {
        words_apart();
        let b = JsonView::object().with("type"@, JsonView::Str("text"@)).with(
            "text"@,
            JsonView::Str(text),
        ).with("cache_control"@, ephemeral());
        assert(b.at("type"@) == JsonView::Str("text"@));
        assert(task_message(text).at("content"@) == JsonView::array().item(b));
    }

    proof fn trimming_keeps(&self, messages: Seq<JsonView>, id: Seq<char>) {
        heaviest_message_is_heaviest(messages);
        if let Some(u) = heaviest_message(messages) {
            let t = messages.update(u, lightened_message(messages[u]));
            lightening_keeps_answers(messages[u], id);
            assert forall|i: int| 0 <= i < messages.len() implies message_answers(
                #[trigger] t[i],
                id,
            ) == message_answers(messages[i], id) by {}
            if self.answers(JsonView::Array(messages), id) {
                let i = choose|i: int|
                    0 <= i < messages.len() && message_answers(#[trigger] messages[i], id);
                assert(message_answers(t[i], id));
            }
            if self.answers(JsonView::Array(t), id) {
                let i = choose|i: int| 0 <= i < t.len() && message_answers(#[trigger] t[i], id);
                assert(message_answers(messages[i], id));
            }
        }
    }

    proof fn sendable_after_task(&self, messages: Seq<JsonView>, text: Seq<char>) {
        words_apart();
    }

    proof fn sendable_after_results(&self, messages: Seq<JsonView>, rs: Seq<ToolResultView>) {
        words_apart();
        let all = messages + self.results_of(rs);
        assert(all.last() == self.results_of(rs)[0]);
        let blocks = rs.map_values(|r: ToolResultView| result_block(r));
        assert(all.last().at("content"@) == JsonView::Array(blocks));
        if rs.len() > 0 {
            assert(blocks.last() == result_block(rs.last()));
        }
    }

    proof fn shapeable_objects(&self, base: Seq<JsonView>) {
        if base.len() > 0 {
            assert(base[base.len() - 1] is Object);
        }
    }

    fn shape_tools(&self, base: &Json) -> (r: Json) {
        match base.as_items() {
            // Stable cache breakpoint on the last tool.
            Some(v) => Json::Array(mark_last(v)),
            None => base.clone(),
        }
    }

    fn build_request(&self, model: &str, system: &str, tools: &Json, messages: &Json) -> (r: Json) {
        // Stamp cache_control on the last content block of the last message so the
        // growing conversation tail is cached incrementally: each turn the previous
        // tail becomes a cache hit and the breakpoint moves forward. The task message
        // keeps its own permanent breakpoint; together with the system and tools
        // breakpoints this holds at the four-breakpoint maximum. Stamping happens on
        // this per-request copy only, so it never accumulates on the stored history.
        let mut req_msgs = messages.clone();
        if let Json::Array(v) = &mut req_msgs {
            let ghost before = v@;
            let n = v.len();
            if n > 0 {
                let last = stamp_message(&v[n - 1]);
                v.set(n - 1, last);
                assert(views(v@) =~= views(before).update(n - 1, stamped_message(before.last()@)));
            }
        }
        Json::object().with("model", Json::text(model)).with("max_tokens", Json::count(16000)).with(
            "system",
            Json::array().item(
                Json::object().with("type", Json::text("text")).with(
                    "text",
                    Json::text(system),
                ).with("cache_control", breakpoint()),
            ),
        ).with("tools", tools.clone()).with("messages", req_msgs)
    }

    fn parse_response(&self, resp: Json) -> (r: Result<ParsedResponse, String>) {
        let content = match resp.items_at("content") {
            Some(v) => v,
            None => return Err("no content in response".to_owned()),
        };
        let ghost all = views(content@);
        let mut text_parts: Vec<String> = Vec::new();
        let mut tool_calls: Vec<ToolCall> = Vec::new();
        let mut i: usize = 0;
        assert(texts(text_parts@) =~= block_texts(all.take(0)));
        assert(call_views(tool_calls@) =~= block_calls(all.take(0)));
        proof {
            words_apart();
        }
        while i < content.len()
            invariant
                all == views(content@),
                i <= content@.len(),
                texts(text_parts@) == block_texts(all.take(i as int)),
                call_views(tool_calls@) == block_calls(all.take(i as int)),
                "text"@ != "tool_use"@,
            decreases content@.len() - i,
        {
            let block = &content[i];
            let ghost parts_before = text_parts@;
            let ghost calls_before = tool_calls@;
            assert(all.take(i + 1).drop_last() =~= all.take(i as int));
            assert(all.take(i + 1).last() == block@);
            if block.says("type", "text") {
                if let Some(t) = block.text_at("text") {
                    text_parts.push(t.to_owned());
                    assert(texts(text_parts@) =~= texts(parts_before).push(t@));
                }
            } else if block.says("type", "tool_use") {
                let call = ToolCall {
                    id: text_at_or_empty(block, "id"),
                    name: text_at_or_empty(block, "name"),
                    input: block.copy_at("input"),
                };
                tool_calls.push(call);
                assert(call_views(tool_calls@) =~= call_views(calls_before).push(call@));
            }
            i += 1;
        }
        assert(all.take(all.len() as int) =~= all);
        Ok(
            ParsedResponse {
                text_parts,
                tool_calls,
                assistant_msg: Json::object().with("role", Json::text("assistant")).with(
                    "content",
                    resp.copy_at("content"),
                ),
            },
        )
    }

    fn wrap_tool_results(&self, results: Vec<ToolResult>) -> (r: Vec<Json>) {
        let mut blocks: Vec<Json> = Vec::new();
        let mut i: usize = 0;
        while i < results.len()
            invariant
                i <= results@.len(),
                blocks@.len() == i,
                forall|k: int| 0 <= k < i ==> (#[trigger] blocks@[k])@ == result_block(results@[k]@),
            decreases results@.len() - i,
        {
            let r = &results[i];
            blocks.push(
                Json::object().with("type", Json::text("tool_result")).with(
                    "tool_use_id",
                    Json::text(r.tool_use_id.as_str()),
                ).with("content", Json::text(r.content.as_str())),
            );
            i += 1;
        }
        assert(views(blocks@) =~= result_views(results@).map_values(
            |r: ToolResultView| result_block(r),
        ));
        let mut out: Vec<Json> = Vec::new();
        out.push(
            Json::object().with("role", Json::text("user")).with("content", Json::Array(blocks)),
        );
        assert(views(out@) =~= self.results_of(result_views(results@)));
        out
    }

    fn trim_last_tool_result(&self, messages: &mut Json) {
        if let Json::Array(v) = messages {
            let ghost all = views(v@);
            let found = find_heaviest_message(v);
            proof {
                heaviest_message_is_heaviest(all);
            }
            if let Some(u) = found {
                let m = lighten_message(&v[u]);
                v.set(u, m);
                assert(views(v@) =~= all.update(u as int, lightened_message(all[u as int])));
            }
        }
    }

    fn tool_call_message(&self, id: &str, name: &str, input: &Json) -> (r: Json) {
        Json::object().with("role", Json::text("assistant")).with(
            "content",
            Json::array().item(
                Json::object().with("type", Json::text("tool_use")).with("id", Json::text(id)).with(
                    "name",
                    Json::text(name),
                ).with("input", input.clone()),
            ),
        )
    }

    fn holds_result(&self, messages: &Json, content: &str) -> (r: bool) {
        if let Some(v) = messages.as_items() {
            let ghost all = views(v@);
            let mut i: usize = 0;
            while i < v.len()
                invariant
                    all == views(v@),
                    messages@ == JsonView::Array(all),
                    i <= v@.len(),
                    forall|k: int| 0 <= k < i ==> !message_holds(#[trigger] all[k], content@),
                decreases v@.len() - i,
            {
                assert(all[i as int] == v@[i as int]@);
                if has_result_block(&v[i], content) {
                    return true;
                }
                i += 1;
            }
        }
        false
    }

    fn has_tool_result(&self, messages: &Json, tool_use_id: &str) -> (r: bool) {
        if let Some(v) = messages.as_items() {
            let ghost all = views(v@);
            let mut i: usize = 0;
            while i < v.len()
                invariant
                    all == views(v@),
                    messages@ == JsonView::Array(all),
                    i <= v@.len(),
                    forall|k: int| 0 <= k < i ==> !message_answers(#[trigger] all[k], tool_use_id@),
                decreases v@.len() - i,
            {
                assert(all[i as int] == v@[i as int]@);
                if has_answer_block(&v[i], tool_use_id) {
                    return true;
                }
                i += 1;
            }
        }
        false
    }
}

fn has_result_block(m: &Json, content: &str) -> (r: bool)
    ensures
        r == message_holds(m@, content@),
{
    if let Some(blocks) = m.items_at("content") {
        let ghost all = views(blocks@);
        let mut i: usize = 0;
        while i < blocks.len()
            invariant
                all == views(blocks@),
                m@.at("content"@) == JsonView::Array(all),
                i <= blocks@.len(),
                forall|k: int| 0 <= k < i ==> !block_holds(#[trigger] all[k], content@),
            decreases blocks@.len() - i,
        {
            assert(all[i as int] == blocks@[i as int]@);
            if blocks[i].says("type", "tool_result") && blocks[i].says("content", content) {
                return true;
            }
            i += 1;
        }
    }
    false
}

fn text_at_or_empty(j: &Json, key: &str) -> (r: String)
    ensures
        r@ == text_or_empty(j@.at(key@)),
{
    match j.text_at(key) {
        Some(s) => s.to_owned(),
        None => String::new(),
    }
}

fn has_answer_block(m: &Json, id: &str) -> (r: bool)
    ensures
        r == message_answers(m@, id@),
{
    if let Some(blocks) = m.items_at("content") {
        let ghost all = views(blocks@);
        let mut i: usize = 0;
        while i < blocks.len()
            invariant
                all == views(blocks@),
                m@.at("content"@) == JsonView::Array(all),
                i <= blocks@.len(),
                forall|k: int| 0 <= k < i ==> !block_answers(#[trigger] all[k], id@),
            decreases blocks@.len() - i,
        {
            assert(all[i as int] == blocks@[i as int]@);
            if blocks[i].says("type", "tool_result") && blocks[i].says("tool_use_id", id) {
                return true;
            }
            i += 1;
        }
    }
    false
}

// ── OpenAI-compatible ───────────────────────────────────────────────────────────

/// An OpenAI-compatible chat completions API.
pub struct OpenAI;

/// One tool as a function that the model can call.
pub open spec fn function_tool(t: JsonView) -> JsonView {
    JsonView::object().with("type"@, JsonView::Str("function"@)).with(
        "function"@,
        JsonView::object().with("name"@, t.at("name"@)).with(
            "description"@,
            t.at("description"@),
        ).with("parameters"@, t.at("input_schema"@)),
    )
}

/// The text of a call's arguments; that of an empty object where there is none.
pub open spec fn arguments_text(tc: JsonView) -> Seq<char> {
    match tc.at("function"@).at("arguments"@) {
        JsonView::Str(s) => s,
        _ => "{}"@,
    }
}

/// A call, given what its arguments' text holds.
pub open spec fn function_call(tc: JsonView, input: Option<JsonView>) -> ToolCallView {
    ToolCallView {
        id: text_or_empty(tc.at("id"@)),
        name: text_or_empty(tc.at("function"@).at("name"@)),
        input: match input {
            Some(v) => v,
            None => JsonView::object(),
        },
    }
}

/// The calls of a message, in order.
pub open spec fn function_calls(calls: JsonView) -> Seq<ToolCallView> {
    match calls {
        JsonView::Array(s) => s.map_values(
            |tc: JsonView| function_call(tc, parsed(arguments_text(tc))),
        ),
        _ => seq![],
    }
}

/// The message that carries one answer.
pub open spec fn tool_message(r: ToolResultView) -> JsonView {
    JsonView::object().with("role"@, JsonView::Str("tool"@)).with(
        "tool_call_id"@,
        JsonView::Str(r.tool_use_id),
    ).with("content"@, JsonView::Str(r.content))
}

/// The message answers the call `id`.
pub open spec fn tool_message_answers(m: JsonView, id: Seq<char>) -> bool {
    m.at("role"@) == JsonView::Str("tool"@) && m.at("tool_call_id"@) == JsonView::Str(id)
}

/// One of the messages answers the call `id`.
pub open spec fn tool_messages_answer(s: Seq<JsonView>, id: Seq<char>) -> bool {
    exists|i: int| 0 <= i < s.len() && tool_message_answers(#[trigger] s[i], id)
}

/// The message is a tool result with the content.
pub open spec fn tool_message_holds(m: JsonView, content: Seq<char>) -> bool {
    m.at("role"@) == JsonView::Str("tool"@) && m.at("content"@) == JsonView::Str(content)
}

/// One of the messages is a tool result with the content.
pub open spec fn tool_messages_hold(s: Seq<JsonView>, content: Seq<char>) -> bool {
    exists|i: int| 0 <= i < s.len() && tool_message_holds(#[trigger] s[i], content)
}

/// A call, given what its arguments' text holds: an object without members stands in for
/// arguments that are no JSON.
pub fn call_with_input(tc: &Json, input: Option<Json>) -> (r: ToolCall)
    ensures
        r@ == function_call(tc@, crate::json::shown(input)),
{
    ToolCall {
        id: text_at_or_empty(tc, "id"),
        name: text_at_or_empty(&tc.copy_at("function"), "name"),
        input: match input {
            Some(v) => v,
            None => Json::object(),
        },
    }
}

fn read_call(tc: &Json) -> (r: ToolCall)
    ensures
        r@ == function_call(tc@, parsed(arguments_text(tc@))),
{
    let function = tc.copy_at("function");
    let args = match function.text_at("arguments") {
        Some(s) => s,
        None => "{}",
    };
    call_with_input(tc, Json::parse(args))
}

impl Provider for OpenAI {
    open spec fn tools_of(&self, base: JsonView) -> JsonView {
        match base {
            JsonView::Array(s) => JsonView::Array(s.map_values(|t: JsonView| function_tool(t))),
            _ => JsonView::array(),
        }
    }

    open spec fn shapeable(&self, base: JsonView) -> bool {
        true
    }

    open spec fn request_of(
        &self,
        model: Seq<char>,
        system: Seq<char>,
        tools: JsonView,
        messages: JsonView,
    ) -> JsonView {
        let first = JsonView::object().with("role"@, JsonView::Str("system"@)).with(
            "content"@,
            JsonView::Str(system),
        );
        let rest = match messages {
            JsonView::Array(s) => s,
            _ => seq![],
        };
        JsonView::object().with("model"@, JsonView::Str(model)).with(
            "max_tokens"@,
            JsonView::count(16000),
        ).with("tools"@, tools).with("messages"@, JsonView::Array(seq![first] + rest))
    }

    open spec fn sendable(&self, messages: JsonView) -> bool {
        true
    }

    open spec fn turn_of(&self, resp: JsonView) -> Result<ParsedView, Seq<char>> {
        let msg = resp.at("choices"@).nth(0).at("message"@);
        if msg is Null {
            Err("no choices[0].message in response"@)
        } else {
            Ok(
                ParsedView {
                    text_parts: match msg.at("content"@) {
                        JsonView::Str(t) => if t.len() > 0 {
                            seq![t]
                        } else {
                            seq![]
                        },
                        _ => seq![],
                    },
                    tool_calls: function_calls(msg.at("tool_calls"@)),
                    assistant_msg: JsonView::object().with(
                        "role"@,
                        JsonView::Str("assistant"@),
                    ).with("content"@, msg.at("content"@)).with(
                        "tool_calls"@,
                        msg.at("tool_calls"@),
                    ),
                },
            )
        }
    }

    open spec fn results_of(&self, results: Seq<ToolResultView>) -> Seq<JsonView> {
        results.map_values(|r: ToolResultView| tool_message(r))
    }

    open spec fn trimmed_of(&self, messages: JsonView) -> JsonView {
        match messages {
            JsonView::Array(s) => JsonView::Array(lightened(s, "role"@, "tool"@)),
            _ => messages,
        }
    }

    open spec fn call_of(&self, id: Seq<char>, name: Seq<char>, input: JsonView) -> JsonView {
        JsonView::object().with("role"@, JsonView::Str("assistant"@)).with(
            "content"@,
            JsonView::Null,
        ).with(
            "tool_calls"@,
            JsonView::array().item(
                JsonView::object().with("id"@, JsonView::Str(id)).with(
                    "type"@,
                    JsonView::Str("function"@),
                ).with(
                    "function"@,
                    JsonView::object().with("name"@, JsonView::Str(name)).with(
                        "arguments"@,
                        JsonView::Str(printed(input)),
                    ),
                ),
            ),
        )
    }

    open spec fn answers(&self, messages: JsonView, id: Seq<char>) -> bool {
        match messages {
            JsonView::Array(s) => tool_messages_answer(s, id),
            _ => false,
        }
    }

    open spec fn holds(&self, messages: JsonView, content: Seq<char>) -> bool {
        match messages {
            JsonView::Array(s) => tool_messages_hold(s, content),
            _ => false,
        }
    }

    proof fn holds_of_parts(&self, a: Seq<JsonView>, b: Seq<JsonView>, content: Seq<char>) {
        if self.holds(JsonView::Array(a), content) {
            let i = choose|i: int| 0 <= i < a.len() && tool_message_holds(#[trigger] a[i], content);
            assert(tool_message_holds((a + b)[i], content));
        }
        if self.holds(JsonView::Array(b), content) {
            let i = choose|i: int| 0 <= i < b.len() && tool_message_holds(#[trigger] b[i], content);
            assert(tool_message_holds((a + b)[a.len() + i], content));
        }
    }

    proof fn holds_of_results(&self, rs: Seq<ToolResultView>, content: Seq<char>) {
        words_apart();
        let ms = self.results_of(rs);
        assert forall|i: int| 0 <= i < rs.len() implies tool_message_holds(
            #[trigger] ms[i],
            content,
        ) == (rs[i].content == content) by {
            assert(ms[i] == tool_message(rs[i]));
        }
        if carried(rs, content) {
            let i = choose|i: int| 0 <= i < rs.len() && (#[trigger] rs[i]).content == content;
            assert(tool_message_holds(ms[i], content));
        }
    }

    proof fn holds_of_call(
        &self,
        id: Seq<char>,
        name: Seq<char>,
        input: JsonView,
        content: Seq<char>,
    ) {
        words_apart();
        assert(self.call_of(id, name, input).at("role"@) == JsonView::Str("assistant"@));
    }

    proof fn answers_of_parts(&self, a: Seq<JsonView>, b: Seq<JsonView>, id: Seq<char>) {
        if self.answers(JsonView::Array(a), id) {
            let i = choose|i: int| 0 <= i < a.len() && tool_message_answers(#[trigger] a[i], id);
            assert(tool_message_answers((a + b)[i], id));
        }
        if self.answers(JsonView::Array(b), id) {
            let i = choose|i: int| 0 <= i < b.len() && tool_message_answers(#[trigger] b[i], id);
            assert(tool_message_answers((a + b)[a.len() + i], id));
        }
    }

    proof fn answers_of_results(&self, rs: Seq<ToolResultView>, id: Seq<char>) {
        words_apart();
        let ms = self.results_of(rs);
        assert forall|i: int| 0 <= i < rs.len() implies tool_message_answers(#[trigger] ms[i], id)
            == (rs[i].tool_use_id == id) by {
            assert(ms[i] == tool_message(rs[i]));
        }
        if answered(rs, id) {
            let i = choose|i: int| 0 <= i < rs.len() && (#[trigger] rs[i]).tool_use_id == id;
            assert(tool_message_answers(ms[i], id));
        }
    }

    proof fn answers_of_call(
        &self,
        id: Seq<char>,
        name: Seq<char>,
        input: JsonView,
        other: Seq<char>,
    ) {
        words_apart();
        assert(self.call_of(id, name, input).at("role"@) == JsonView::Str("assistant"@));
    }

    proof fn answers_of_task(&self, text: Seq<char>, id: Seq<char>) {
        words_apart();
        assert(task_message(text).at("role"@) == JsonView::Str("user"@));
    }

    proof fn trimming_keeps(&self, messages: Seq<JsonView>, id: Seq<char>) {
        words_apart();
        let t = lightened(messages, "role"@, "tool"@);
        heaviest_is_heaviest(messages, "role"@, "tool"@);
        assert forall|i: int| 0 <= i < messages.len() implies tool_message_answers(
            #[trigger] t[i],
            id,
        ) == tool_message_answers(messages[i], id) by {
            assert(t[i].at("role"@) == messages[i].at("role"@));
            assert(t[i].at("tool_call_id"@) == messages[i].at("tool_call_id"@));
        }
        if self.answers(JsonView::Array(messages), id) {
            let i = choose|i: int|
                0 <= i < messages.len() && tool_message_answers(#[trigger] messages[i], id);
            assert(tool_message_answers(t[i], id));
        }
        if self.answers(JsonView::Array(t), id) {
            let i = choose|i: int| 0 <= i < t.len() && tool_message_answers(#[trigger] t[i], id);
            assert(tool_message_answers(messages[i], id));
        }
    }

    proof fn sendable_after_task(&self, messages: Seq<JsonView>, text: Seq<char>) {
    }

    proof fn sendable_after_results(&self, messages: Seq<JsonView>, rs: Seq<ToolResultView>) {
    }

    proof fn shapeable_objects(&self, base: Seq<JsonView>) {
        if base.len() > 0 {
            assert(base[base.len() - 1] is Object);
        }
    }

    fn shape_tools(&self, base: &Json) -> (r: Json) {
        let arr = match base.as_items() {
            Some(a) => a,
            None => return Json::array(),
        };
        let mut tools: Vec<Json> = Vec::new();
        let mut i: usize = 0;
        while i < arr.len()
            invariant
                i <= arr@.len(),
                tools@.len() == i,
                forall|k: int| 0 <= k < i ==> (#[trigger] tools@[k])@ == function_tool(arr@[k]@),
            decreases arr@.len() - i,
        {
            let t = &arr[i];
            tools.push(
                Json::object().with("type", Json::text("function")).with(
                    "function",
                    Json::object().with("name", t.copy_at("name")).with(
                        "description",
                        t.copy_at("description"),
                    ).with("parameters", t.copy_at("input_schema")),
                ),
            );
            i += 1;
        }
        assert(views(tools@) =~= views(arr@).map_values(|t: JsonView| function_tool(t)));
        Json::Array(tools)
    }

    fn build_request(&self, model: &str, system: &str, tools: &Json, messages: &Json) -> (r: Json) {
        let mut all_msgs: Vec<Json> = Vec::new();
        all_msgs.push(
            Json::object().with("role", Json::text("system")).with("content", Json::text(system)),
        );
        let ghost first = all_msgs@[0]@;
        if let Some(arr) = messages.as_items() {
            let mut i: usize = 0;
            while i < arr.len()
                invariant
                    i <= arr@.len(),
                    all_msgs@.len() == i + 1,
                    all_msgs@[0]@ == first,
                    forall|k: int| 0 <= k < i ==> (#[trigger] all_msgs@[k + 1])@ == arr@[k]@,
                decreases arr@.len() - i,
            {
                all_msgs.push(arr[i].clone());
                i += 1;
            }
            assert forall|k: int| 0 <= k < all_msgs@.len() implies (#[trigger] all_msgs@[k])@ == (
            seq![first] + views(arr@))[k] by {
                if k > 0 {
                    assert(all_msgs@[(k - 1) + 1]@ == arr@[k - 1]@);
                }
            }
            assert(views(all_msgs@) =~= seq![first] + views(arr@));
        } else {
            assert(views(all_msgs@) =~= seq![first] + Seq::<JsonView>::empty());
        }
        Json::object().with("model", Json::text(model)).with("max_tokens", Json::count(16000)).with(
            "tools",
            tools.clone(),
        ).with("messages", Json::Array(all_msgs))
    }

    fn parse_response(&self, resp: Json) -> (r: Result<ParsedResponse, String>) {
        let msg = resp.copy_at("choices").copy_nth(0).copy_at("message");
        if let Json::Null = msg {
            return Err("no choices[0].message in response".to_owned());
        }
        let mut text_parts: Vec<String> = Vec::new();
        if let Some(t) = msg.text_at("content") {
            if !t.is_empty() {
                text_parts.push(t.to_owned());
                assert(texts(text_parts@) =~= seq![t@]);
            } else {
                assert(texts(text_parts@) =~= seq![]);
            }
        } else {
            assert(texts(text_parts@) =~= seq![]);
        }
        let mut tool_calls: Vec<ToolCall> = Vec::new();
        if let Some(tcs) = msg.items_at("tool_calls") {
            let mut i: usize = 0;
            while i < tcs.len()
                invariant
                    i <= tcs@.len(),
                    tool_calls@.len() == i,
                    forall|k: int|
                        0 <= k < i ==> (#[trigger] tool_calls@[k])@ == function_call(
                            tcs@[k]@,
                            parsed(arguments_text(tcs@[k]@)),
                        ),
                decreases tcs@.len() - i,
            {
                tool_calls.push(read_call(&tcs[i]));
                i += 1;
            }
            assert(call_views(tool_calls@) =~= function_calls(msg@.at("tool_calls"@)));
        } else {
            assert(call_views(tool_calls@) =~= seq![]);
        }
        Ok(
            ParsedResponse {
                text_parts,
                tool_calls,
                assistant_msg: Json::object().with("role", Json::text("assistant")).with(
                    "content",
                    msg.copy_at("content"),
                ).with("tool_calls", msg.copy_at("tool_calls")),
            },
        )
    }

    fn wrap_tool_results(&self, results: Vec<ToolResult>) -> (r: Vec<Json>) {
        let mut out: Vec<Json> = Vec::new();
        let mut i: usize = 0;
        while i < results.len()
            invariant
                i <= results@.len(),
                out@.len() == i,
                forall|k: int| 0 <= k < i ==> (#[trigger] out@[k])@ == tool_message(results@[k]@),
            decreases results@.len() - i,
        {
            let r = &results[i];
            out.push(
                Json::object().with("role", Json::text("tool")).with(
                    "tool_call_id",
                    Json::text(r.tool_use_id.as_str()),
                ).with("content", Json::text(r.content.as_str())),
            );
            i += 1;
        }
        assert(views(out@) =~= self.results_of(result_views(results@)));
        out
    }

    fn trim_last_tool_result(&self, messages: &mut Json) {
        if let Json::Array(v) = messages {
            lighten(v, "role", "tool");
        }
    }

    fn tool_call_message(&self, id: &str, name: &str, input: &Json) -> (r: Json) {
        Json::object().with("role", Json::text("assistant")).with("content", Json::Null).with(
            "tool_calls",
            Json::array().item(
                Json::object().with("id", Json::text(id)).with("type", Json::text("function")).with(
                    "function",
                    Json::object().with("name", Json::text(name)).with(
                        "arguments",
                        Json::Str(input.print()),
                    ),
                ),
            ),
        )
    }

    fn holds_result(&self, messages: &Json, content: &str) -> (r: bool) {
        if let Some(v) = messages.as_items() {
            let ghost all = views(v@);
            let mut i: usize = 0;
            while i < v.len()
                invariant
                    all == views(v@),
                    messages@ == JsonView::Array(all),
                    i <= v@.len(),
                    forall|k: int| 0 <= k < i ==> !tool_message_holds(#[trigger] all[k], content@),
                decreases v@.len() - i,
            {
                assert(all[i as int] == v@[i as int]@);
                if v[i].says("role", "tool") && v[i].says("content", content) {
                    return true;
                }
                i += 1;
            }
        }
        false
    }

    fn has_tool_result(&self, messages: &Json, tool_use_id: &str) -> (r: bool) {
        if let Some(v) = messages.as_items() {
            let ghost all = views(v@);
            let mut i: usize = 0;
            while i < v.len()
                invariant
                    all == views(v@),
                    messages@ == JsonView::Array(all),
                    i <= v@.len(),
                    forall|k: int|
                        0 <= k < i ==> !tool_message_answers(#[trigger] all[k], tool_use_id@),
                decreases v@.len() - i,
            {
                assert(all[i as int] == v@[i as int]@);
                if v[i].says("role", "tool") && v[i].says("tool_call_id", tool_use_id) {
                    return true;
                }
                i += 1;
            }
        }
        false
    }
}

// ── Detection ──────────────────────────────────────────────────────────────────

/// The providers that an endpoint URL can name.
#[derive(Debug, Clone, Copy, PartialEq, Eq, Structural)]
pub enum ProviderKind {
    Anthropic,
    OpenAI,
}

/// The provider that an endpoint URL names.
pub open spec fn detected(url: Seq<char>) -> ProviderKind {
    if has(url, "/v1/chat/completions"@) {
        ProviderKind::OpenAI
    } else {
        ProviderKind::Anthropic
    }
}

/// A URL names an OpenAI-compatible endpoint exactly where the path of chat completions stands
/// in it, whatever comes before and behind.
pub proof fn detected_by_path(a: Seq<char>, b: Seq<char>, url: Seq<char>)
    ensures
        detected(a + "/v1/chat/completions"@ + b) == ProviderKind::OpenAI,
        detected(url) == ProviderKind::OpenAI ==> exists|x: Seq<char>, y: Seq<char>|
            url == #[trigger] (x + "/v1/chat/completions"@ + y),
{
    crate::text::has_is_middle(a, "/v1/chat/completions"@, b);
    if detected(url) == ProviderKind::OpenAI {
        let (x, y) = crate::text::has_cuts(url, "/v1/chat/completions"@);
        assert(url == x + "/v1/chat/completions"@ + y);
    }
}

/// Pick a provider from the endpoint URL.
pub fn detect_provider(url: &str) -> (r: ProviderKind)
    ensures
        r == (if has(url@, "/v1/chat/completions"@) {
            ProviderKind::OpenAI
        } else {
            ProviderKind::Anthropic
        }),
        r == detected(url@),
{
    if contains(url, "/v1/chat/completions") {
        ProviderKind::OpenAI
    } else {
        ProviderKind::Anthropic
    }
}

// ── Cache breakpoints ──────────────────────────────────────────────────────────

/// The value is an object that carries a cache breakpoint.
pub open spec fn is_marked(v: JsonView) -> bool {
    v is Object && v->Object_0.contains_key("cache_control"@)
}

/// How many items of a list carry a cache breakpoint.
pub open spec fn marks(s: Seq<JsonView>) -> nat
    decreases s.len(),
{
    if s.len() == 0 {
        0
    } else {
        marks(s.drop_last()) + (if is_marked(s.last()) {
            1nat
        } else {
            0
        })
    }
}

/// How many blocks of a message carry a cache breakpoint.
pub open spec fn message_marks(m: JsonView) -> nat {
    match m.at("content"@) {
        JsonView::Array(blocks) => marks(blocks),
        _ => 0,
    }
}

/// How many blocks of a history carry a cache breakpoint.
pub open spec fn history_marks(s: Seq<JsonView>) -> nat
    decreases s.len(),
{
    if s.len() == 0 {
        0
    } else {
        history_marks(s.drop_last()) + message_marks(s.last())
    }
}

/// How many cache breakpoints a request carries: on its system blocks, its tools and the
/// blocks of its messages.
pub open spec fn request_marks(req: JsonView) -> nat {
    let system = match req.at("system"@) {
        JsonView::Array(s) => marks(s),
        _ => 0,
    };
    let tools = match req.at("tools"@) {
        JsonView::Array(s) => marks(s),
        _ => 0,
    };
    let messages = match req.at("messages"@) {
        JsonView::Array(s) => history_marks(s),
        _ => 0,
    };
    system + tools + messages
}

/// Marking the last item adds at most one breakpoint.
proof fn marks_of_last_marked(s: Seq<JsonView>)
    ensures
        marks(last_marked(s)) <= marks(s) + 1,
{
    if s.len() > 0 {
        assert(last_marked(s).drop_last() =~= s.drop_last());
    }
}

/// A request to Anthropic adds three cache breakpoints at most to those of the history: one on
/// the system prompt, one on the tools, which carry none before they are shaped, and one on
/// the history's tail.
pub proof fn three_breakpoints_more(
    model: Seq<char>,
    system: Seq<char>,
    tools: Seq<JsonView>,
    messages: Seq<JsonView>,
)
    requires
        marks(tools) == 0,
    ensures
        request_marks(
            Anthropic.request_of(
                model,
                system,
                Anthropic.tools_of(JsonView::Array(tools)),
                JsonView::Array(messages),
            ),
        ) <= history_marks(messages) + 3,
{
    words_apart();
    reveal_strlit("model");
    reveal_strlit("max_tokens");
    reveal_strlit("system");
    reveal_strlit("tools");
    reveal_strlit("messages");
    assert("model"@.len() == 5 && "model"@[0] == 'm');
    assert("max_tokens"@.len() == 10);
    assert("system"@.len() == 6);
    assert("tools"@.len() == 5 && "tools"@[0] == 't');
    assert("messages"@.len() == 8);
    marks_of_last_marked(tools);
    let block = JsonView::object().with("type"@, JsonView::Str("text"@)).with(
        "text"@,
        JsonView::Str(system),
    ).with("cache_control"@, ephemeral());
    let head = Seq::<JsonView>::empty().push(block);
    assert(head.drop_last() =~= seq![]);
    assert(marks(head.drop_last()) == 0);
    assert(marks(head) == 1);
    if messages.len() > 0 {
        let m = messages.last();
        let t = messages.update(messages.len() - 1, stamped_message(m));
        assert(t.drop_last() =~= messages.drop_last());
        let c = with_content(m);
        assert(c.at("content"@) == m.at("content"@));
        if let JsonView::Array(blocks) = m.at("content"@) {
            marks_of_last_marked(blocks);
        }
        assert(message_marks(stamped_message(m)) <= message_marks(m) + 1);
        assert(history_marks(t) <= history_marks(messages) + 1);
    }
    let req = Anthropic.request_of(
        model,
        system,
        Anthropic.tools_of(JsonView::Array(tools)),
        JsonView::Array(messages),
    );
    assert(req.at("system"@) == JsonView::Array(head));
    assert(req.at("tools"@) == Anthropic.tools_of(JsonView::Array(tools)));
    assert(req.at("messages"@) == stamped(JsonView::Array(messages)));
}

/// A request to Anthropic stays within four cache breakpoints, where at most one block of the
/// history carries one, the task message's own.
pub proof fn four_breakpoints(
    model: Seq<char>,
    system: Seq<char>,
    tools: Seq<JsonView>,
    messages: Seq<JsonView>,
)
    requires
        marks(tools) == 0,
        history_marks(messages) <= 1,
    ensures
        request_marks(
            Anthropic.request_of(
                model,
                system,
                Anthropic.tools_of(JsonView::Array(tools)),
                JsonView::Array(messages),
            ),
        ) <= 4,
{
    three_breakpoints_more(model, system, tools, messages);
}

/// A response that holds the message which Anthropic makes one call with is parsed into
/// that call, and into no text.
pub proof fn rebuilt_call_reads_back(
    resp: JsonView,
    id: Seq<char>,
    name: Seq<char>,
    input: JsonView,
)
    requires
        resp.at("content"@) == Anthropic.call_of(id, name, input).at("content"@),
    ensures
        Anthropic.turn_of(resp) == Ok::<ParsedView, Seq<char>>(
            ParsedView {
                text_parts: seq![],
                tool_calls: seq![ToolCallView { id, name, input }],
                assistant_msg: Anthropic.call_of(id, name, input),
            },
        ),
{
    words_apart();
    reveal_strlit("id");
    reveal_strlit("name");
    reveal_strlit("input");
    assert("name"@.len() == 4 && "name"@[0] == 'n');
    assert("id"@.len() == 2);
    assert("input"@.len() == 5);
    let b = JsonView::object().with("type"@, JsonView::Str("tool_use"@)).with(
        "id"@,
        JsonView::Str(id),
    ).with("name"@, JsonView::Str(name)).with("input"@, input);
    let blocks = Seq::<JsonView>::empty().push(b);
    assert(Anthropic.call_of(id, name, input).at("content"@) == JsonView::Array(blocks));
    assert(blocks.drop_last() =~= seq![]);
    assert(block_texts(blocks.drop_last()) == Seq::<Seq<char>>::empty());
    assert(block_calls(blocks.drop_last()) == Seq::<ToolCallView>::empty());
    assert(block_texts(blocks) =~= seq![]);
    assert(block_calls(blocks) =~= seq![ToolCallView { id, name, input }]);
}

// ── Laws: requests ─────────────────────────────────────────────────────────────

/// The keys of requests, tools and calls, apart from one another.
proof fn request_words()
    ensures
        "model"@.len() == 5 && "model"@[0] == 'm',
        "tools"@.len() == 5 && "tools"@[0] == 't',
        "input"@.len() == 5 && "input"@[0] == 'i',
        "system"@.len() == 6,
        "messages"@.len() == 8 && "messages"@[0] == 'm',
        "function"@.len() == 8 && "function"@[0] == 'f',
        "max_tokens"@.len() == 10 && "max_tokens"@[0] == 'm',
        "parameters"@.len() == 10 && "parameters"@[0] == 'p',
        "name"@.len() == 4 && "name"@[0] == 'n',
        "id"@.len() == 2,
        "description"@.len() == 11 && "description"@[0] == 'd',
        "arguments"@.len() == 9,
        "input_schema"@.len() == 12 && "input_schema"@[0] == 'i',
{
    reveal_strlit("model");
    reveal_strlit("tools");
    reveal_strlit("input");
    reveal_strlit("system");
    reveal_strlit("messages");
    reveal_strlit("function");
    reveal_strlit("max_tokens");
    reveal_strlit("parameters");
    reveal_strlit("name");
    reveal_strlit("id");
    reveal_strlit("description");
    reveal_strlit("arguments");
    reveal_strlit("input_schema");
}

/// A request names the model, the number of tokens and the tools as they were given.
pub open spec fn asks_for(
    req: JsonView,
    model: Seq<char>,
    tools: JsonView,
) -> bool {
    &&& req.at("model"@) == JsonView::Str(model)
    &&& req.at("max_tokens"@) == JsonView::Number(NumView::Int(16000))
    &&& req.at("tools"@) == tools
}

/// A request to an OpenAI-compatible endpoint carries the whole conversation: the system text
/// in a message of its own, and then every message of the history as it is, in order.
pub proof fn openai_request_is_whole(
    model: Seq<char>,
    system: Seq<char>,
    tools: JsonView,
    history: Seq<JsonView>,
)
    ensures
        ({
            let req = OpenAI.request_of(model, system, tools, JsonView::Array(history));
            &&& asks_for(req, model, tools)
            &&& req.at("messages"@) matches JsonView::Array(m) && {
                &&& m.len() == history.len() + 1
                &&& m[0].at("role"@) == JsonView::Str("system"@)
                &&& m[0].at("content"@) == JsonView::Str(system)
                &&& forall|k: int| 0 <= k < history.len() ==> #[trigger] history[k] == m[k + 1]
            }
        }),
{
    words_apart();
    request_words();
    let req = OpenAI.request_of(model, system, tools, JsonView::Array(history));
    let m = req.at("messages"@)->Array_0;
    assert forall|k: int| 0 <= k < history.len() implies #[trigger] history[k] == m[k + 1] by {}
}

/// The message `r` is `m` but for the cache breakpoint, which is on its last block: the other
/// blocks are the same, the last one is the same under every other key, and so is the message.
pub open spec fn same_but_stamped(r: JsonView, m: JsonView) -> bool {
    &&& forall|key: Seq<char>| key != "content"@ ==> #[trigger] r.at(key) == m.at(key)
    &&& match m.at("content"@) {
        JsonView::Array(b) => r.at("content"@) matches JsonView::Array(t) && {
            &&& t.len() == b.len()
            &&& forall|i: int| 0 <= i < b.len() - 1 ==> #[trigger] t[i] == b[i]
            &&& b.len() > 0 ==> same_but_marked(t[b.len() - 1], b[b.len() - 1])
        },
        other => r.at("content"@) == other,
    }
}

/// The value `r` is `v` but for the cache breakpoint, which is on it.
pub open spec fn same_but_marked(r: JsonView, v: JsonView) -> bool {
    &&& forall|key: Seq<char>| key != "cache_control"@ ==> #[trigger] r.at(key) == v.at(key)
    &&& r.at("cache_control"@).at("type"@) == JsonView::Str("ephemeral"@)
}

proof fn marking_keeps(v: JsonView)
    requires
        fillable(v),
    ensures
        same_but_marked(marked(v), v),
{
    words_apart();
    let r = marked(v);
    assert forall|key: Seq<char>| key != "cache_control"@ implies #[trigger] r.at(key) == v.at(
        key,
    ) by {}
}

/// A request to Anthropic carries the whole conversation: the system text, and every message of
/// the history as it is, in order; only on the last block of the last message a cache
/// breakpoint is put.
pub proof fn anthropic_request_is_whole(
    model: Seq<char>,
    system: Seq<char>,
    tools: JsonView,
    history: Seq<JsonView>,
)
    requires
        Anthropic.sendable(JsonView::Array(history)),
    ensures
        ({
            let req = Anthropic.request_of(model, system, tools, JsonView::Array(history));
            &&& asks_for(req, model, tools)
            &&& req.at("system"@) matches JsonView::Array(s) && {
                &&& s.len() == 1
                &&& s[0].at("type"@) == JsonView::Str("text"@)
                &&& s[0].at("text"@) == JsonView::Str(system)
                &&& s[0].at("cache_control"@).at("type"@) == JsonView::Str("ephemeral"@)
            }
            &&& req.at("messages"@) matches JsonView::Array(m) && {
                &&& m.len() == history.len()
                &&& forall|k: int| 0 <= k < history.len() - 1 ==> #[trigger] m[k] == history[k]
                &&& history.len() > 0 ==> same_but_stamped(
                    m[history.len() - 1],
                    history[history.len() - 1],
                )
            }
        }),
{
    words_apart();
    request_words();
    if history.len() > 0 {
        let m = history.last();
        let r = stamped_message(m);
        let c = with_content(m);
        assert forall|key: Seq<char>| key != "content"@ implies #[trigger] r.at(key) == m.at(
            key,
        ) by {
            assert(c.at(key) == m.at(key));
        }
        assert(c.at("content"@) == m.at("content"@));
        if let JsonView::Array(b) = m.at("content"@) {
            if b.len() > 0 {
                marking_keeps(b.last());
            }
        }
        assert(same_but_stamped(r, m));
    }
}

/// The tools for Anthropic are the tools as they are, in order; only on the last one a cache
/// breakpoint is put.
pub proof fn anthropic_tools_are_kept(base: Seq<JsonView>)
    requires
        Anthropic.shapeable(JsonView::Array(base)),
    ensures
        Anthropic.tools_of(JsonView::Array(base)) matches JsonView::Array(t) && {
            &&& t.len() == base.len()
            &&& forall|i: int| 0 <= i < base.len() - 1 ==> #[trigger] t[i] == base[i]
            &&& base.len() > 0 ==> same_but_marked(t[base.len() - 1], base[base.len() - 1])
        },
{
    if base.len() > 0 {
        marking_keeps(base.last());
    }
}

/// The tools for an OpenAI-compatible endpoint are functions, one for each tool and in order,
/// with its name, its description and its schema.
pub proof fn openai_tools_are_functions(base: Seq<JsonView>, i: int)
    requires
        0 <= i < base.len(),
    ensures
        OpenAI.tools_of(JsonView::Array(base)) matches JsonView::Array(t) && {
            &&& t.len() == base.len()
            &&& t[i].at("type"@) == JsonView::Str("function"@)
            &&& t[i].at("function"@).at("name"@) == base[i].at("name"@)
            &&& t[i].at("function"@).at("description"@) == base[i].at("description"@)
            &&& t[i].at("function"@).at("parameters"@) == base[i].at("input_schema"@)
        },
{
    words_apart();
    request_words();
}

/// The message that opens a run is the user's, and holds the text in one block with a cache
/// breakpoint.
pub proof fn task_message_holds_text(text: Seq<char>)
    ensures
        task_message(text).at("role"@) == JsonView::Str("user"@),
        task_message(text).at("content"@) matches JsonView::Array(b) && {
            &&& b.len() == 1
            &&& b[0].at("type"@) == JsonView::Str("text"@)
            &&& b[0].at("text"@) == JsonView::Str(text)
            &&& b[0].at("cache_control"@).at("type"@) == JsonView::Str("ephemeral"@)
        },
{
    words_apart();
}

// ── Laws: responses ────────────────────────────────────────────────────────────

/// What a block adds to the texts of a turn: its text, where it is a text block that has one.
pub open spec fn text_added(b: JsonView, texts: Seq<Seq<char>>) -> bool {
    if b.at("type"@) == JsonView::Str("text"@) {
        match b.at("text"@) {
            JsonView::Str(t) => texts.len() == 1 && texts[0] == t,
            _ => texts.len() == 0,
        }
    } else {
        texts.len() == 0
    }
}

/// What a block adds to the calls of a turn: a call with the block's id, name and input, where
/// it is a call block.
pub open spec fn call_added(b: JsonView, calls: Seq<ToolCallView>) -> bool {
    if b.at("type"@) == JsonView::Str("tool_use"@) {
        &&& calls.len() == 1
        &&& b.at("id"@) matches JsonView::Str(s) ==> calls[0].id == s
        &&& !(b.at("id"@) is Str) ==> calls[0].id.len() == 0
        &&& b.at("name"@) matches JsonView::Str(s) ==> calls[0].name == s
        &&& !(b.at("name"@) is Str) ==> calls[0].name.len() == 0
        &&& calls[0].input == b.at("input"@)
    } else {
        calls.len() == 0
    }
}

/// A response of Anthropic is parsed block by block: no blocks give no texts and no calls, and
/// one block more adds its own text or call, behind those that were there. The message that
/// joins the history holds all blocks as they are. `first` and `whole` are two responses, the
/// second with the block `b` more.
pub proof fn anthropic_turn_block_by_block(
    first: JsonView,
    whole: JsonView,
    blocks: Seq<JsonView>,
    b: JsonView,
)
    requires
        first.at("content"@) == JsonView::Array(blocks),
        whole.at("content"@) == JsonView::Array(blocks.push(b)),
    ensures
        Anthropic.turn_of(first) is Ok,
        Anthropic.turn_of(whole) is Ok,
        ({
            let s = Anthropic.turn_of(first)->Ok_0;
            let t = Anthropic.turn_of(whole)->Ok_0;
            &&& blocks.len() == 0 ==> s.text_parts.len() == 0 && s.tool_calls.len() == 0
            &&& t.text_parts.len() >= s.text_parts.len()
            &&& t.text_parts.take(s.text_parts.len() as int) == s.text_parts
            &&& text_added(b, t.text_parts.skip(s.text_parts.len() as int))
            &&& t.tool_calls.len() >= s.tool_calls.len()
            &&& t.tool_calls.take(s.tool_calls.len() as int) == s.tool_calls
            &&& call_added(b, t.tool_calls.skip(s.tool_calls.len() as int))
            &&& t.assistant_msg.at("role"@) == JsonView::Str("assistant"@)
            &&& t.assistant_msg.at("content"@) == JsonView::Array(blocks.push(b))
        }),
{
    words_apart();
    let s = Anthropic.turn_of(first)->Ok_0;
    let t = Anthropic.turn_of(whole)->Ok_0;
    assert(blocks.push(b).drop_last() =~= blocks);
    assert(t.text_parts.take(s.text_parts.len() as int) =~= s.text_parts);
    assert(t.tool_calls.take(s.tool_calls.len() as int) =~= s.tool_calls);
}

/// A response of Anthropic is one exactly where it has a list of blocks.
pub proof fn anthropic_turn_needs_blocks(resp: JsonView)
    ensures
        Anthropic.turn_of(resp) is Ok <==> resp.at("content"@) is Array,
        Anthropic.turn_of(resp) matches Err(e) ==> e == "no content in response"@,
{
}

/// A response of an OpenAI-compatible endpoint is parsed from its first choice: its text, where
/// there is one, one call for each call of the message, in order and with its id, its name and
/// what its arguments hold, and the message that joins the history, with content and calls as
/// they are.
pub proof fn openai_turn_keeps_all(resp: JsonView, choices: Seq<JsonView>, k: int)
    requires
        resp.at("choices"@) == JsonView::Array(choices),
        choices.len() > 0,
        !(choices[0].at("message"@) is Null),
    ensures
        OpenAI.turn_of(resp) is Ok,
        ({
            let msg = choices[0].at("message"@);
            let t = OpenAI.turn_of(resp)->Ok_0;
            &&& match msg.at("content"@) {
                JsonView::Str(s) => if s.len() > 0 {
                    t.text_parts.len() == 1 && t.text_parts[0] == s
                } else {
                    t.text_parts.len() == 0
                },
                _ => t.text_parts.len() == 0,
            }
            &&& match msg.at("tool_calls"@) {
                JsonView::Array(calls) => {
                    &&& t.tool_calls.len() == calls.len()
                    &&& 0 <= k < calls.len() ==> calls_for(t.tool_calls[k], calls[k])
                },
                _ => t.tool_calls.len() == 0,
            }
            &&& t.assistant_msg.at("role"@) == JsonView::Str("assistant"@)
            &&& t.assistant_msg.at("content"@) == msg.at("content"@)
            &&& t.assistant_msg.at("tool_calls"@) == msg.at("tool_calls"@)
        }),
{
    words_apart();
}

/// `call` is what the message's call `tc` asks for: its arguments are read from their text, and
/// count as an empty object where that is no JSON.
pub open spec fn calls_for(call: ToolCallView, tc: JsonView) -> bool {
    &&& tc.at("id"@) matches JsonView::Str(s) ==> call.id == s
    &&& !(tc.at("id"@) is Str) ==> call.id.len() == 0
    &&& tc.at("function"@).at("name"@) matches JsonView::Str(s) ==> call.name == s
    &&& !(tc.at("function"@).at("name"@) is Str) ==> call.name.len() == 0
    &&& tc.at("function"@).at("arguments"@) matches JsonView::Str(text) ==> {
        &&& parsed(text) matches Some(v) ==> call.input == v
        &&& parsed(text) is None ==> call.input is Object && call.input->Object_0.dom()
            =~= Set::<Seq<char>>::empty()
    }
    &&& !(tc.at("function"@).at("arguments"@) is Str) ==> {
        &&& parsed("{}"@) matches Some(v) ==> call.input == v
        &&& parsed("{}"@) is None ==> call.input is Object && call.input->Object_0.dom()
            =~= Set::<Seq<char>>::empty()
    }
}

/// A response of an OpenAI-compatible endpoint is one exactly where its first choice has a
/// message.
pub proof fn openai_turn_needs_message(resp: JsonView)
    ensures
        OpenAI.turn_of(resp) is Ok <==> (resp.at("choices"@) matches JsonView::Array(c) && c.len()
            > 0 && !(c[0].at("message"@) is Null)),
        OpenAI.turn_of(resp) matches Err(e) ==> e == "no choices[0].message in response"@,
{
}

// ── Laws: answers ──────────────────────────────────────────────────────────────

/// The answers to several calls go to Anthropic in one message of the user's, with one block
/// for each: the block at a place says whose answer it is, and holds that answer's content.
pub proof fn anthropic_results_are_kept(rs: Seq<ToolResultView>, k: int)
    requires
        0 <= k < rs.len(),
    ensures
        Anthropic.results_of(rs).len() == 1,
        Anthropic.results_of(rs)[0].at("role"@) == JsonView::Str("user"@),
        Anthropic.results_of(rs)[0].at("content"@) matches JsonView::Array(b) && {
            &&& b.len() == rs.len()
            &&& b[k].at("type"@) == JsonView::Str("tool_result"@)
            &&& b[k].at("tool_use_id"@) == JsonView::Str(rs[k].tool_use_id)
            &&& b[k].at("content"@) == JsonView::Str(rs[k].content)
        },
{
    words_apart();
}

/// The answers to several calls go to an OpenAI-compatible endpoint in one message for each:
/// the message at a place says whose answer it is, and holds that answer's content.
pub proof fn openai_results_are_kept(rs: Seq<ToolResultView>, k: int)
    requires
        0 <= k < rs.len(),
    ensures
        OpenAI.results_of(rs).len() == rs.len(),
        OpenAI.results_of(rs)[k].at("role"@) == JsonView::Str("tool"@),
        OpenAI.results_of(rs)[k].at("tool_call_id"@) == JsonView::Str(rs[k].tool_use_id),
        OpenAI.results_of(rs)[k].at("content"@) == JsonView::Str(rs[k].content),
{
    words_apart();
}

/// The message that makes one call for Anthropic is the assistant's, and holds the call in one
/// block with its id, its name and its input.
pub proof fn anthropic_call_is_kept(id: Seq<char>, name: Seq<char>, input: JsonView)
    ensures
        Anthropic.call_of(id, name, input).at("role"@) == JsonView::Str("assistant"@),
        Anthropic.call_of(id, name, input).at("content"@) matches JsonView::Array(b) && {
            &&& b.len() == 1
            &&& b[0].at("type"@) == JsonView::Str("tool_use"@)
            &&& b[0].at("id"@) == JsonView::Str(id)
            &&& b[0].at("name"@) == JsonView::Str(name)
            &&& b[0].at("input"@) == input
        },
{
    words_apart();
    request_words();
}

/// The message that makes one call for an OpenAI-compatible endpoint is the assistant's, and
/// holds the call with its id, its name and the text of its input.
pub proof fn openai_call_is_kept(id: Seq<char>, name: Seq<char>, input: JsonView)
    ensures
        OpenAI.call_of(id, name, input).at("role"@) == JsonView::Str("assistant"@),
        OpenAI.call_of(id, name, input).at("content"@) is Null,
        OpenAI.call_of(id, name, input).at("tool_calls"@) matches JsonView::Array(c) && {
            &&& c.len() == 1
            &&& c[0].at("id"@) == JsonView::Str(id)
            &&& c[0].at("type"@) == JsonView::Str("function"@)
            &&& c[0].at("function"@).at("name"@) == JsonView::Str(name)
            &&& c[0].at("function"@).at("arguments"@) == JsonView::Str(printed(input))
        },
{
    words_apart();
    request_words();
}

/// A history of Anthropic's answers a call where one of its messages has a tool result block
/// with the call's id, and holds a content where one has a tool result block with the content.
pub proof fn anthropic_block_counts(s: Seq<JsonView>, i: int, j: int, blocks: Seq<JsonView>)
    requires
        0 <= i < s.len(),
        s[i].at("content"@) == JsonView::Array(blocks),
        0 <= j < blocks.len(),
        blocks[j].at("type"@) == JsonView::Str("tool_result"@),
    ensures
        blocks[j].at("tool_use_id"@) matches JsonView::Str(id) ==> Anthropic.answers(
            JsonView::Array(s),
            id,
        ),
        blocks[j].at("content"@) matches JsonView::Str(content) ==> Anthropic.holds(
            JsonView::Array(s),
            content,
        ),
{
    if let JsonView::Str(id) = blocks[j].at("tool_use_id"@) {
        assert(block_answers(blocks[j], id));
        assert(message_answers(s[i], id));
    }
    if let JsonView::Str(content) = blocks[j].at("content"@) {
        assert(block_holds(blocks[j], content));
        assert(message_holds(s[i], content));
    }
}

/// Where a history of Anthropic's answers a call, it has such a block, whose message and place
/// are given back.
pub proof fn anthropic_answer_stands(messages: JsonView, id: Seq<char>) -> (r: (int, int))
    requires
        Anthropic.answers(messages, id),
    ensures
        messages.nth(r.0).at("content"@).nth(r.1).at("type"@) == JsonView::Str("tool_result"@),
        messages.nth(r.0).at("content"@).nth(r.1).at("tool_use_id"@) == JsonView::Str(id),
{
    let s = messages->Array_0;
    let i = choose|i: int| 0 <= i < s.len() && message_answers(#[trigger] s[i], id);
    let blocks = s[i].at("content"@)->Array_0;
    let j = choose|j: int| 0 <= j < blocks.len() && block_answers(#[trigger] blocks[j], id);
    (i, j)
}

/// Where a history of Anthropic's holds a content, it has such a block, whose message and place
/// are given back.
pub proof fn anthropic_content_stands(messages: JsonView, content: Seq<char>) -> (r: (int, int))
    requires
        Anthropic.holds(messages, content),
    ensures
        messages.nth(r.0).at("content"@).nth(r.1).at("type"@) == JsonView::Str("tool_result"@),
        messages.nth(r.0).at("content"@).nth(r.1).at("content"@) == JsonView::Str(content),
{
    let s = messages->Array_0;
    let i = choose|i: int| 0 <= i < s.len() && message_holds(#[trigger] s[i], content);
    let blocks = s[i].at("content"@)->Array_0;
    let j = choose|j: int| 0 <= j < blocks.len() && block_holds(#[trigger] blocks[j], content);
    (i, j)
}

/// A history for an OpenAI-compatible endpoint answers a call where it has a tool message with
/// the call's id, and holds a content where it has a tool message with the content.
pub proof fn openai_message_counts(s: Seq<JsonView>, i: int)
    requires
        0 <= i < s.len(),
        s[i].at("role"@) == JsonView::Str("tool"@),
    ensures
        s[i].at("tool_call_id"@) matches JsonView::Str(id) ==> OpenAI.answers(
            JsonView::Array(s),
            id,
        ),
        s[i].at("content"@) matches JsonView::Str(content) ==> OpenAI.holds(
            JsonView::Array(s),
            content,
        ),
{
    if let JsonView::Str(id) = s[i].at("tool_call_id"@) {
        assert(tool_message_answers(s[i], id));
    }
    if let JsonView::Str(content) = s[i].at("content"@) {
        assert(tool_message_holds(s[i], content));
    }
}

/// Where a history for an OpenAI-compatible endpoint answers a call, it has such a message,
/// whose place is given back.
pub proof fn openai_answer_stands(messages: JsonView, id: Seq<char>) -> (i: int)
    requires
        OpenAI.answers(messages, id),
    ensures
        messages.nth(i).at("role"@) == JsonView::Str("tool"@),
        messages.nth(i).at("tool_call_id"@) == JsonView::Str(id),
{
    let s = messages->Array_0;
    choose|i: int| 0 <= i < s.len() && tool_message_answers(#[trigger] s[i], id)
}

/// Where a history for an OpenAI-compatible endpoint holds a content, it has such a message,
/// whose place is given back.
pub proof fn openai_content_stands(messages: JsonView, content: Seq<char>) -> (i: int)
    requires
        OpenAI.holds(messages, content),
    ensures
        messages.nth(i).at("role"@) == JsonView::Str("tool"@),
        messages.nth(i).at("content"@) == JsonView::Str(content),
{
    let s = messages->Array_0;
    choose|i: int| 0 <= i < s.len() && tool_message_holds(#[trigger] s[i], content)
}

// ── Laws: trimming ─────────────────────────────────────────────────────────────

/// The value `r` is `v` but for its content, which is the note that stands in for an output
/// that was too large.
pub open spec fn same_but_removed(r: JsonView, v: JsonView) -> bool {
    &&& forall|key: Seq<char>| key != "content"@ ==> #[trigger] r.at(key) == v.at(key)
    &&& r.at("content"@) == JsonView::Str(
        "[output removed — too large for context. The data was saved to disk; query it there.]"@,
    )
}

/// How many bytes the content of a block or a message has.
pub open spec fn content_bytes(v: JsonView) -> nat {
    match v.at("content"@) {
        JsonView::Str(s) => vstd::utf8::encode_utf8(s).len(),
        _ => 0,
    }
}

/// The content of `v` counts as larger than that of `w`, which stands before it or behind it:
/// of equal ones the one behind counts.
pub open spec fn outweighs(v: JsonView, w: JsonView, w_behind: bool) -> bool {
    content_bytes(v) > content_bytes(w) || (content_bytes(v) == content_bytes(w) && !w_behind)
}

/// A history for an OpenAI-compatible endpoint is trimmed of one content: that of the largest
/// of its tool messages, whose place is given back. Every other message stays as it is, and so
/// does all of them where there is no tool message.
pub proof fn openai_trims_largest(s: Seq<JsonView>) -> (p: int)
    ensures
        OpenAI.trimmed_of(JsonView::Array(s)) is Array,
        ({
            let t = OpenAI.trimmed_of(JsonView::Array(s))->Array_0;
            &&& t.len() == s.len()
            &&& forall|i: int| 0 <= i < s.len() && i != p ==> #[trigger] t[i] == s[i]
            &&& if exists|i: int| 0 <= i < s.len() && (#[trigger] s[i]).at("role"@)
                == JsonView::Str("tool"@) {
                &&& 0 <= p < s.len()
                &&& s[p].at("role"@) == JsonView::Str("tool"@)
                &&& same_but_removed(t[p], s[p])
                &&& forall|i: int|
                    0 <= i < s.len() && i != p && (#[trigger] s[i]).at("role"@) == JsonView::Str(
                        "tool"@,
                    ) ==> outweighs(s[p], s[i], i > p)
            } else {
                t == s
            }
        }),
{
    heaviest_is_heaviest(s, "role"@, "tool"@);
    match heaviest(s, "role"@, "tool"@) {
        Some(p) => {
            removal_keeps(s[p]);
            p
        },
        None => {
            -1
        },
    }
}

proof fn removal_keeps(v: JsonView)
    requires
        v is Object,
    ensures
        same_but_removed(v.with("content"@, removed_note()), v),
{
    let r = v.with("content"@, removed_note());
    assert forall|key: Seq<char>| key != "content"@ implies #[trigger] r.at(key) == v.at(key) by {}
}

/// The message `m` has a tool result block at the place `j`.
pub open spec fn result_at(m: JsonView, j: int) -> bool {
    &&& m.at("content"@) is Array
    &&& 0 <= j < m.at("content"@)->Array_0.len()
    &&& m.at("content"@)->Array_0[j].at("type"@) == JsonView::Str("tool_result"@)
}

/// A history of Anthropic's is trimmed of one content: that of the largest of all tool result
/// blocks in it, whose message and place are given back. Every other message stays as it is,
/// and so does everything else in that message; where there is no tool result nothing changes.
pub proof fn anthropic_trims_largest(s: Seq<JsonView>) -> (r: (int, int))
    ensures
        Anthropic.trimmed_of(JsonView::Array(s)) is Array,
        ({
            let t = Anthropic.trimmed_of(JsonView::Array(s))->Array_0;
            let (u, q) = r;
            &&& t.len() == s.len()
            &&& forall|i: int| 0 <= i < s.len() && i != u ==> #[trigger] t[i] == s[i]
            &&& if exists|i: int, j: int| 0 <= i < s.len() && #[trigger] result_at(s[i], j) {
                &&& 0 <= u < s.len()
                &&& result_at(s[u], q)
                &&& forall|key: Seq<char>|
                    key != "content"@ ==> #[trigger] t[u].at(key) == s[u].at(key)
                &&& t[u].at("content"@) is Array
                &&& t[u].at("content"@)->Array_0.len() == s[u].at("content"@)->Array_0.len()
                &&& forall|j: int|
                    0 <= j < s[u].at("content"@)->Array_0.len() && j != q
                        ==> #[trigger] t[u].at("content"@)->Array_0[j] == s[u].at(
                        "content"@,
                    )->Array_0[j]
                &&& same_but_removed(
                    t[u].at("content"@)->Array_0[q],
                    s[u].at("content"@)->Array_0[q],
                )
                &&& forall|i: int, j: int|
                    0 <= i < s.len() && (i != u || j != q) && #[trigger] result_at(s[i], j)
                        ==> outweighs(
                        s[u].at("content"@)->Array_0[q],
                        s[i].at("content"@)->Array_0[j],
                        i > u || (i == u && j > q),
                    )
            } else {
                t == s
            }
        }),
{
    heaviest_message_is_heaviest(s);
    assert forall|i: int, j: int| 0 <= i < s.len() && #[trigger] result_at(s[i], j) implies
        heaviest_result(s[i]) is Some && content_bytes(s[i].at("content"@)->Array_0[j])
        <= heaviest_result(s[i])->0 by {
        heaviest_is_heaviest(s[i].at("content"@)->Array_0, "type"@, "tool_result"@);
        assert(s[i].at("content"@)->Array_0[j].at("type"@) == JsonView::Str("tool_result"@));
    }
    match heaviest_message(s) {
        Some(u) => {
            let b = s[u].at("content"@)->Array_0;
            heaviest_is_heaviest(b, "type"@, "tool_result"@);
            let q = heaviest(b, "type"@, "tool_result"@)->0;
            assert(result_at(s[u], q));
            removal_keeps(b[q]);
            let m = lightened_message(s[u]);
            assert(s[u] is Object);
            assert forall|key: Seq<char>| key != "content"@ implies #[trigger] m.at(key) == s[u].at(
                key,
            ) by {}
            assert(m.at("content"@) == JsonView::Array(lightened(b, "type"@, "tool_result"@)));
            assert forall|i: int, j: int|
                0 <= i < s.len() && (i != u || j != q) && #[trigger] result_at(s[i], j) implies
                outweighs(b[q], s[i].at("content"@)->Array_0[j], i > u || (i == u && j > q)) by {
                let c = s[i].at("content"@)->Array_0;
                assert(c[j].at("type"@) == JsonView::Str("tool_result"@));
                assert(heaviest_result(s[i]) is Some);
            }
            (u, q)
        },
        None => {
            assert forall|i: int, j: int| 0 <= i < s.len() implies #[trigger] result_at(s[i], j)
                == false by {
                if result_at(s[i], j) {
                    assert(heaviest_result(s[i]) is Some);
                }
            }
            (-1, -1)
        },
    }
}

} // verus!
