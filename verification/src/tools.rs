//! Tool definitions, and what the tools make of the outside world's answers.
//!
//! The tool set is depth-aware: only a top-level loop (depth 0) is offered the
//! `spawn_agent` tool, so a sub-agent (depth 1) structurally cannot delegate.

use base64::Engine;
use vstd::prelude::*;

use crate::json::{Json, JsonView};
use crate::provider::marks;
use crate::text::{
    ascii, ascii_lower, extension, extension_is_behind_last_stop, extension_of, from_lossy, lossy,
    lowered, same, to_lower, trim, trimmed, trimmed_blank, white_space,
};

verus! {

// ── Definitions ────────────────────────────────────────────────────────────────

/// A string property without a description.
pub open spec fn string_property() -> JsonView {
    JsonView::object().with("type"@, JsonView::Str("string"@))
}

/// A property of one type with its description.
pub open spec fn property(kind: Seq<char>, description: Seq<char>) -> JsonView {
    JsonView::object().with("type"@, JsonView::Str(kind)).with(
        "description"@,
        JsonView::Str(description),
    )
}

/// A tool: its name, what it does, its properties, and the one that is required.
pub open spec fn tool(
    name: Seq<char>,
    description: Seq<char>,
    properties: JsonView,
    required: Seq<char>,
) -> JsonView {
    JsonView::object().with("name"@, JsonView::Str(name)).with(
        "description"@,
        JsonView::Str(description),
    ).with(
        "input_schema"@,
        JsonView::object().with("type"@, JsonView::Str("object"@)).with(
            "properties"@,
            properties,
        ).with("required"@, JsonView::array().item(JsonView::Str(required))),
    )
}

/// The shell.
pub open spec fn shell_tool() -> JsonView {
    tool(
        "run_shell"@,
        "Run a shell command in Alpine Linux. Returns stdout+stderr."@,
        JsonView::object().with("command"@, string_property()),
        "command"@,
    )
}

/// The image reader.
pub open spec fn image_tool() -> JsonView {
    tool(
        "read_image"@,
        "Read a JPEG or PNG image and extract information using vision AI. Processes the entire image in a single API call — ask for everything needed in one question."@,
        JsonView::object().with(
            "path"@,
            property("string"@, "Absolute path to the image file."@),
        ).with("question"@, property("string"@, "What to extract or look for."@)),
        "path"@,
    )
}

/// The PDF reader.
pub open spec fn pdf_tool() -> JsonView {
    tool(
        "read_pdf"@,
        "Read a PDF file and extract information using AI. Submits the entire PDF in a single API call (limit: 100 pages / 32 MB) — ask for everything needed in one comprehensive question."@,
        JsonView::object().with(
            "path"@,
            property("string"@, "Absolute path to the PDF file."@),
        ).with("question"@, property("string"@, "What to extract or look for."@)),
        "path"@,
    )
}

/// Delegation.
pub open spec fn spawn_tool() -> JsonView {
    tool(
        "spawn_agent"@,
        "Delegate a self-contained subtask to an isolated sub-agent. It runs its own tool loop with fresh context and returns a structured result. It cannot delegate further. Use it for focused subtasks whose intermediate steps you do not need to keep in your own context."@,
        JsonView::object().with(
            "task"@,
            property("string"@, "The subtask to accomplish."@),
        ).with(
            "checks"@,
            JsonView::object().with("type"@, JsonView::Str("array"@)).with(
                "items"@,
                string_property(),
            ).with("description"@, JsonView::Str("Requirements the result must satisfy."@)),
        ).with(
            "persistence"@,
            JsonView::object().with("type"@, JsonView::Str("string"@)).with(
                "enum"@,
                JsonView::array().item(JsonView::Str("ephemeral"@)).item(
                    JsonView::Str("durable"@),
                ),
            ).with(
                "description"@,
                JsonView::Str(
                    "Whether the sub-agent should persist progress to resume after a restart. Defaults to ephemeral."@,
                ),
            ),
        ).with("max_iter"@, property("integer"@, "Iteration budget for the sub-agent."@)),
        "task"@,
    )
}

/// The tools that a loop at the given depth is offered.
pub open spec fn tool_defs(depth: usize) -> Seq<JsonView> {
    let all = seq![shell_tool(), image_tool(), pdf_tool()];
    if depth == 0 {
        all.push(spawn_tool())
    } else {
        all
    }
}

/// One of the tools has the name.
pub open spec fn offers(tools: Seq<JsonView>, name: Seq<char>) -> bool {
    exists|i: int| 0 <= i < tools.len() && (#[trigger] tools[i]).at("name"@) == JsonView::Str(name)
}

/// The tools that the loop runs itself.
pub open spec fn builtin(name: Seq<char>) -> bool {
    name == "run_shell"@ || name == "read_image"@ || name == "read_pdf"@
}

fn string_def() -> (r: Json)
    ensures
        r@ == string_property(),
{
    Json::object().with("type", Json::text("string"))
}

fn property_def(kind: &str, description: &str) -> (r: Json)
    ensures
        r@ == property(kind@, description@),
{
    Json::object().with("type", Json::text(kind)).with("description", Json::text(description))
}

fn tool_def(name: &str, description: &str, properties: Json, required: &str) -> (r: Json)
    ensures
        r@ == tool(name@, description@, properties@, required@),
{
    Json::object().with("name", Json::text(name)).with(
        "description",
        Json::text(description),
    ).with(
        "input_schema",
        Json::object().with("type", Json::text("object")).with("properties", properties).with(
            "required",
            Json::array().item(Json::text(required)),
        ),
    )
}

/// The delegation tool. A top-level loop can hand a self-contained subtask to an
/// isolated sub-agent that runs its own loop and returns a structured result.
fn spawn_agent_def() -> (r: Json)
    ensures
        r@ == spawn_tool(),
{
    tool_def(
        "spawn_agent",
        "Delegate a self-contained subtask to an isolated sub-agent. It runs its own tool loop with fresh context and returns a structured result. It cannot delegate further. Use it for focused subtasks whose intermediate steps you do not need to keep in your own context.",
        Json::object().with("task", property_def("string", "The subtask to accomplish.")).with(
            "checks",
            Json::object().with("type", Json::text("array")).with("items", string_def()).with(
                "description",
                Json::text("Requirements the result must satisfy."),
            ),
        ).with(
            "persistence",
            Json::object().with("type", Json::text("string")).with(
                "enum",
                Json::array().item(Json::text("ephemeral")).item(Json::text("durable")),
            ).with(
                "description",
                Json::text(
                    "Whether the sub-agent should persist progress to resume after a restart. Defaults to ephemeral.",
                ),
            ),
        ).with("max_iter", property_def("integer", "Iteration budget for the sub-agent.")),
        "task",
    )
}

/// Neutral tool schema. `spawn_agent` is included only at the top level.
pub fn base_tool_defs(depth: usize) -> (r: Json)
    ensures
        r@ == JsonView::Array(tool_defs(depth)),
        forall|i: int| 0 <= i < tool_defs(depth).len() ==> (#[trigger] tool_defs(depth)[i]) is Object,
{
    let tools = Json::array().item(
        tool_def(
            "run_shell",
            "Run a shell command in Alpine Linux. Returns stdout+stderr.",
            Json::object().with("command", string_def()),
            "command",
        ),
    ).item(
        tool_def(
            "read_image",
            "Read a JPEG or PNG image and extract information using vision AI. Processes the entire image in a single API call — ask for everything needed in one question.",
            Json::object().with(
                "path",
                property_def("string", "Absolute path to the image file."),
            ).with("question", property_def("string", "What to extract or look for.")),
            "path",
        ),
    ).item(
        tool_def(
            "read_pdf",
            "Read a PDF file and extract information using AI. Submits the entire PDF in a single API call (limit: 100 pages / 32 MB) — ask for everything needed in one comprehensive question.",
            Json::object().with(
                "path",
                property_def("string", "Absolute path to the PDF file."),
            ).with("question", property_def("string", "What to extract or look for.")),
            "path",
        ),
    );
    let r = if depth == 0 {
        tools.item(spawn_agent_def())
    } else {
        tools
    };
    assert(r@->Array_0 =~= tool_defs(depth));
    r
}

/// True iff a tool name is one the loop dispatches directly (not delegation).
pub fn is_builtin(name: &str) -> (r: bool)
    ensures
        r == builtin(name@),
{
    same(name, "run_shell") || same(name, "read_image") || same(name, "read_pdf")
}

/// A loop is offered `spawn_agent` at the top level and nowhere else, the tools that it runs
/// itself at every depth, and no others.
pub proof fn offered_tools(depth: usize, name: Seq<char>)
    ensures
        offers(tool_defs(depth), name) == (builtin(name) || (depth == 0 && name
            == "spawn_agent"@)),
        !builtin("spawn_agent"@),
{
    reveal_strlit("name");
    reveal_strlit("description");
    reveal_strlit("input_schema");
    reveal_strlit("run_shell");
    reveal_strlit("read_image");
    reveal_strlit("read_pdf");
    reveal_strlit("spawn_agent");
    assert("name"@.len() == 4 && "description"@.len() == 11 && "input_schema"@.len() == 12);
    assert("run_shell"@.len() == 9 && "read_image"@.len() == 10);
    assert("read_pdf"@.len() == 8 && "spawn_agent"@.len() == 11);
    let t = tool_defs(depth);
    assert(t[0].at("name"@) == JsonView::Str("run_shell"@));
    assert(t[1].at("name"@) == JsonView::Str("read_image"@));
    assert(t[2].at("name"@) == JsonView::Str("read_pdf"@));
    if depth == 0 {
        assert(t[3].at("name"@) == JsonView::Str("spawn_agent"@));
    }
}

/// The tools carry no cache breakpoint of their own.
pub proof fn tools_unmarked(depth: usize)
    ensures
        marks(tool_defs(depth)) == 0,
{
    reveal_strlit("name");
    reveal_strlit("description");
    reveal_strlit("input_schema");
    reveal_strlit("cache_control");
    assert("name"@.len() == 4 && "description"@.len() == 11 && "input_schema"@.len() == 12);
    assert("cache_control"@.len() == 13);
    reveal_with_fuel(marks, 5);
    let all = seq![shell_tool(), image_tool(), pdf_tool()];
    assert(all.drop_last() =~= seq![shell_tool(), image_tool()]);
    assert(all.drop_last().drop_last() =~= seq![shell_tool()]);
    assert(all.drop_last().drop_last().drop_last() =~= seq![]);
    assert(marks(all) == 0);
    if depth == 0 {
        assert(tool_defs(depth).drop_last() =~= all);
    }
}

// ── The shell ──────────────────────────────────────────────────────────────────

/// What a command's output reads as.
pub open spec fn shell_output(stdout: Seq<char>, stderr: Seq<char>) -> Seq<char> {
    if trimmed(stdout + stderr).len() == 0 {
        "(no output)"@
    } else {
        stdout + stderr
    }
}

/// `r` shows both outputs: the first of its characters are those of one, and the rest are
/// those of the other; where there is nothing but white space it says that there is none.
pub open spec fn shows_both(r: Seq<char>, stdout: Seq<char>, stderr: Seq<char>) -> bool {
    if forall|k: int| 0 <= k < stdout.len() ==> white_space(#[trigger] stdout[k]) {
        if forall|k: int| 0 <= k < stderr.len() ==> white_space(#[trigger] stderr[k]) {
            r == "(no output)"@
        } else {
            both(r, stdout, stderr)
        }
    } else {
        both(r, stdout, stderr)
    }
}

/// The characters of `a`, and then those of `b`.
pub open spec fn both(r: Seq<char>, a: Seq<char>, b: Seq<char>) -> bool {
    &&& r.len() == a.len() + b.len()
    &&& r.take(a.len() as int) == a
    &&& r.skip(a.len() as int) == b
}

/// A command's output reads as all of its standard output, and then all of its standard error,
/// whatever the two hold; only where both are white space does it read as a note.
pub proof fn output_shows_both(stdout: Seq<char>, stderr: Seq<char>)
    ensures
        shows_both(shell_output(stdout, stderr), stdout, stderr),
{
    let all = stdout + stderr;
    trimmed_blank(all);
    assert(all.take(stdout.len() as int) =~= stdout);
    assert(all.skip(stdout.len() as int) =~= stderr);
    if trimmed(all).len() == 0 {
        assert forall|k: int| 0 <= k < stdout.len() implies white_space(#[trigger] stdout[k]) by {
            assert(all[k] == stdout[k]);
        }
        assert forall|k: int| 0 <= k < stderr.len() implies white_space(#[trigger] stderr[k]) by {
            assert(all[stdout.len() + k] == stderr[k]);
        }
    } else {
        let i = choose|i: int| 0 <= i < all.len() && white_space(#[trigger] all[i]) == false;
        if i < stdout.len() {
            assert(stdout[i] == all[i]);
        } else {
            assert(stderr[i - stdout.len()] == all[i]);
        }
    }
}

/// The text of a command's two outputs, one after the other.
pub fn output_text(stdout: &str, stderr: &str) -> (r: String)
    ensures
        r@ == shell_output(stdout@, stderr@),
        shows_both(r@, stdout@, stderr@),
{
    proof {
        output_shows_both(stdout@, stderr@);
    }
    let s = stdout.to_owned().concat(stderr);
    if trim(s.as_str()).unicode_len() == 0 {
        "(no output)".to_owned()
    } else {
        s
    }
}

/// The result of a shell command: its two outputs as text, or why it could not be run.
pub fn run_shell(outcome: Result<(Vec<u8>, Vec<u8>), String>) -> (r: String)
    ensures
        r@ == match outcome {
            Ok((stdout, stderr)) => shell_output(lossy(stdout@), lossy(stderr@)),
            Err(e) => "Error: "@ + e@,
        },
        outcome matches Ok((stdout, stderr)) ==> shows_both(r@, lossy(stdout@), lossy(stderr@)),
        outcome matches Err(e) ==> r@.skip(r@.len() - e@.len()) == e@,
{
    match outcome {
        Ok((stdout, stderr)) => output_text(
            from_lossy(&stdout).as_str(),
            from_lossy(&stderr).as_str(),
        ),
        Err(e) => {
            let r = "Error: ".to_owned().concat(e.as_str());
            assert(r@.skip(r@.len() - e@.len()) =~= e@);
            r
        },
    }
}

// ── Files ──────────────────────────────────────────────────────────────────────

/// The character of a value from 0 to 63 in the standard alphabet of base64.
pub open spec fn base64_digit(v: int) -> char {
    "ABCDEFGHIJKLMNOPQRSTUVWXYZabcdefghijklmnopqrstuvwxyz0123456789+/"@[v]
}

/// Bytes in base64: each three bytes make four digits of six bits; one or two bytes at the
/// end are filled up with zero bits, and with `=` to four characters.
pub open spec fn base64_text(bytes: Seq<u8>) -> Seq<char>
    decreases bytes.len(),
{
    let b = |i: int|
        if i < bytes.len() {
            bytes[i] as int
        } else {
            0
        };
    let group = b(0) * 65536 + b(1) * 256 + b(2);
    let first = base64_digit(group / 262144);
    let second = base64_digit(group / 4096 % 64);
    let third = base64_digit(group / 64 % 64);
    let fourth = base64_digit(group % 64);
    if bytes.len() == 0 {
        seq![]
    } else if bytes.len() == 1 {
        seq![first, second, '=', '=']
    } else if bytes.len() == 2 {
        seq![first, second, third, '=']
    } else {
        seq![first, second, third, fourth] + base64_text(bytes.skip(3))
    }
}

/// The base64 of so many bytes fits in memory.
pub open spec fn encodable(n: nat) -> bool {
    (n + 2) / 3 * 4 <= isize::MAX
}

/// Calls `Engine::encode` of `base64::engine::general_purpose::STANDARD`: the standard
/// alphabet, with padding. Claims that the result is the base64 of the bytes.
#[verifier::external_body]
fn encode(bytes: &Vec<u8>) -> (r: String)
    requires
        encodable(bytes@.len()),
    ensures
        r@ == base64_text(bytes@),
{
    base64::engine::general_purpose::STANDARD.encode(bytes)
}

/// The media type of a file, by its extension in lower case.
pub open spec fn media_type(ext: Seq<char>) -> Seq<char> {
    if ext == "png"@ {
        "image/png"@
    } else if ext == "gif"@ {
        "image/gif"@
    } else if ext == "pdf"@ {
        "application/pdf"@
    } else {
        "image/jpeg"@
    }
}

/// The media type of a file, by its extension in lower case.
pub fn mime_of(ext: &str) -> (r: &'static str)
    ensures
        r@ == media_type(ext@),
{
    if same(ext, "png") {
        "image/png"
    } else if same(ext, "gif") {
        "image/gif"
    } else if same(ext, "pdf") {
        "application/pdf"
    } else {
        "image/jpeg"
    }
}

/// What a file that could not be read is answered with.
pub open spec fn unread(path: Seq<char>, e: Seq<char>) -> Seq<char> {
    "Error: could not read "@ + path + ": "@ + e
}

/// A file's bytes are few enough to be encoded.
pub open spec fn readable(bytes: Result<Vec<u8>, String>) -> bool {
    bytes matches Ok(b) ==> encodable(b@.len())
}

/// The media type and the base64 of a file, given its bytes; or, given why it could not be
/// read, the text that says so.
pub fn file_to_b64(path: &str, bytes: Result<Vec<u8>, String>) -> (r: Result<
    (String, String),
    String,
>)
    requires
        readable(bytes),
    ensures
        match bytes {
            Ok(b) => r is Ok && r->Ok_0.0@ == media_type(lowered(extension(path@)))
                && r->Ok_0.1@ == base64_text(b@),
            Err(e) => r is Err && r->Err_0@ == unread(path@, e@),
        },
{
    match bytes {
        Ok(b) => {
            let ext = to_lower(extension_of(path));
            Ok((mime_of(ext.as_str()).to_owned(), encode(&b)))
        },
        Err(e) => Err(
            "Error: could not read ".to_owned().concat(path).concat(": ").concat(e.as_str()),
        ),
    }
}

/// The content block that shows a file to the model.
pub open spec fn file_block(kind: Seq<char>, mime: Seq<char>, data: Seq<char>) -> JsonView {
    JsonView::object().with("type"@, JsonView::Str(kind)).with(
        "source"@,
        JsonView::object().with("type"@, JsonView::Str("base64"@)).with(
            "media_type"@,
            JsonView::Str(mime),
        ).with("data"@, JsonView::Str(data)),
    )
}

/// The block of an image, given its media type and its base64.
pub fn image_block(mime: &str, b64: &str) -> (r: Json)
    ensures
        r@ == file_block("image"@, mime@, b64@),
{
    Json::object().with("type", Json::text("image")).with(
        "source",
        Json::object().with("type", Json::text("base64")).with("media_type", Json::text(mime)).with(
            "data",
            Json::text(b64),
        ),
    )
}

/// The block of a PDF, given its base64.
pub fn document_block(b64: &str) -> (r: Json)
    ensures
        r@ == file_block("document"@, "application/pdf"@, b64@),
{
    Json::object().with("type", Json::text("document")).with(
        "source",
        Json::object().with("type", Json::text("base64")).with(
            "media_type",
            Json::text("application/pdf"),
        ).with("data", Json::text(b64)),
    )
}

/// The block that shows an image file to the model, or the text that says why it could not
/// be read.
pub fn read_image(path: &str, bytes: Result<Vec<u8>, String>) -> (r: Result<Json, String>)
    requires
        readable(bytes),
    ensures
        match bytes {
            Ok(b) => r is Ok && r->Ok_0@ == file_block(
                "image"@,
                media_type(lowered(extension(path@))),
                base64_text(b@),
            ),
            Err(e) => r is Err && r->Err_0@ == unread(path@, e@),
        },
{
    match file_to_b64(path, bytes) {
        Ok((mime, b64)) => Ok(image_block(mime.as_str(), b64.as_str())),
        Err(e) => Err(e),
    }
}

/// The block that shows a PDF file to the model, or the text that says why it could not be
/// read.
pub fn read_pdf(path: &str, bytes: Result<Vec<u8>, String>) -> (r: Result<Json, String>)
    requires
        readable(bytes),
    ensures
        match bytes {
            Ok(b) => r is Ok && r->Ok_0@ == file_block(
                "document"@,
                "application/pdf"@,
                base64_text(b@),
            ),
            Err(e) => r is Err && r->Err_0@ == unread(path@, e@),
        },
{
    match file_to_b64(path, bytes) {
        Ok((_, b64)) => Ok(document_block(b64.as_str())),
        Err(e) => Err(e),
    }
}

// ── Laws ───────────────────────────────────────────────────────────────────────

/// The tool at a place of a list has the name, and requires that one property of its input,
/// which it describes.
pub open spec fn stands_for(
    tools: Seq<JsonView>,
    i: int,
    name: Seq<char>,
    required: Seq<char>,
) -> bool {
    let schema = tools[i].at("input_schema"@);
    &&& 0 <= i < tools.len()
    &&& tools[i].at("name"@) == JsonView::Str(name)
    &&& tools[i].at("description"@) is Str
    &&& schema.at("type"@) == JsonView::Str("object"@)
    &&& schema.at("required"@) == JsonView::Array(seq![JsonView::Str(required)])
    &&& schema.at("properties"@) is Object
    &&& schema.at("properties"@)->Object_0.contains_key(required)
}

/// The keys of a tool, apart from one another.
proof fn tool_keys()
    ensures
        "name"@.len() == 4 && "type"@.len() == 4 && "name"@[0] == 'n' && "type"@[0] == 't',
        "description"@.len() == 11,
        "input_schema"@.len() == 12,
        "properties"@.len() == 10,
        "required"@.len() == 8,
        "path"@.len() == 4 && "path"@[0] == 'p',
        "task"@.len() == 4 && "task"@[0] == 't' && "task"@[1] == 'a' && "type"@[1] == 'y',
        "question"@.len() == 8 && "question"@[0] == 'q',
        "checks"@.len() == 6,
        "persistence"@.len() == 11 && "persistence"@[0] == 'p',
        "max_iter"@.len() == 8 && "max_iter"@[0] == 'm',
{
    reveal_strlit("name");
    reveal_strlit("type");
    reveal_strlit("description");
    reveal_strlit("input_schema");
    reveal_strlit("properties");
    reveal_strlit("required");
    reveal_strlit("path");
    reveal_strlit("task");
    reveal_strlit("question");
    reveal_strlit("checks");
    reveal_strlit("persistence");
    reveal_strlit("max_iter");
}

/// At every depth a loop is offered the shell, the image reader and the PDF reader, in this
/// order, each with the property that it cannot do without; at the top delegation comes last.
pub proof fn tools_are_described(depth: usize)
    ensures
        tool_defs(depth).len() == if depth == 0 {
            4int
        } else {
            3int
        },
        stands_for(tool_defs(depth), 0, "run_shell"@, "command"@),
        stands_for(tool_defs(depth), 1, "read_image"@, "path"@),
        stands_for(tool_defs(depth), 2, "read_pdf"@, "path"@),
        depth == 0 ==> stands_for(tool_defs(depth), 3, "spawn_agent"@, "task"@),
        forall|i: int|
            1 <= i < 3 ==> (#[trigger] tool_defs(depth)[i]).at("input_schema"@).at(
                "properties"@,
            )->Object_0.contains_key("question"@),
        depth == 0 ==> ({
            let m = tool_defs(depth)[3].at("input_schema"@).at("properties"@)->Object_0;
            m.contains_key("checks"@) && m.contains_key("persistence"@) && m.contains_key(
                "max_iter"@,
            )
        }),
{
    tool_keys();
    let none = Seq::<JsonView>::empty();
    assert(none.push(JsonView::Str("command"@)) =~= seq![JsonView::Str("command"@)]);
    assert(none.push(JsonView::Str("path"@)) =~= seq![JsonView::Str("path"@)]);
    assert(none.push(JsonView::Str("task"@)) =~= seq![JsonView::Str("task"@)]);
}

/// A file whose name ends in a full stop and an extension within ASCII has the media type of
/// that extension, in whichever case it is written: that of PNG, GIF or PDF for these three,
/// and that of JPEG for any other.
pub proof fn media_type_by_name(stem: Seq<char>, ext: Seq<char>)
    requires
        forall|k: int| 0 <= k < ext.len() ==> ascii(#[trigger] ext[k]) && ext[k] != '.',
    ensures
        ({
            let kind = media_type(lowered(extension(stem + seq!['.'] + ext)));
            let small = Seq::new(ext.len(), |k: int| ascii_lower(ext[k]));
            &&& small == "png"@ ==> kind == "image/png"@
            &&& small == "gif"@ ==> kind == "image/gif"@
            &&& small == "pdf"@ ==> kind == "application/pdf"@
            &&& small != "png"@ && small != "gif"@ && small != "pdf"@ ==> kind == "image/jpeg"@
        }),
{
    reveal_strlit("png");
    reveal_strlit("gif");
    reveal_strlit("pdf");
    assert("png"@[0] == 'p' && "png"@[1] == 'n');
    assert("gif"@[0] == 'g');
    assert("pdf"@[0] == 'p' && "pdf"@[1] == 'd');
    let path = stem + seq!['.'] + ext;
    extension_is_behind_last_stop(path);
    let e = extension(path);
    assert(path[stem.len() as int] == '.');
    if e.len() > ext.len() {
        let k = stem.len() - (path.len() - e.len());
        assert(e[k] == path[stem.len() as int]);
    }
    if e.len() < ext.len() {
        let at = path.len() - e.len() - 1;
        assert(ext[at - stem.len() - 1] == path[at]);
    }
    assert(e =~= ext);
    let small = Seq::new(ext.len(), |k: int| ascii_lower(ext[k]));
    assert(lowered(ext) =~= small);
}

/// The block that shows a file holds its kind, its media type and its data, and says that the
/// data is base64.
pub proof fn block_holds_file(kind: Seq<char>, mime: Seq<char>, data: Seq<char>)
    ensures
        file_block(kind, mime, data).at("type"@) == JsonView::Str(kind),
        file_block(kind, mime, data).at("source"@).at("type"@) == JsonView::Str("base64"@),
        file_block(kind, mime, data).at("source"@).at("media_type"@) == JsonView::Str(mime),
        file_block(kind, mime, data).at("source"@).at("data"@) == JsonView::Str(data),
{
    reveal_strlit("type");
    reveal_strlit("source");
    reveal_strlit("media_type");
    reveal_strlit("data");
    assert("type"@.len() == 4 && "data"@.len() == 4 && "type"@[0] == 't' && "data"@[0] == 'd');
    assert("source"@.len() == 6 && "media_type"@.len() == 10);
}

/// What a file that could not be read is answered with begins as an error, and names the path
/// and the reason.
pub proof fn unread_names_both(path: Seq<char>, e: Seq<char>)
    ensures
        unread(path, e) == "Error: could not read "@ + (path + (": "@ + e)),
{
    assert(unread(path, e) =~= "Error: could not read "@ + (path + (": "@ + e)));
}

/// A property of a tool's input has the type and the description.
pub open spec fn takes(
    tool: JsonView,
    name: Seq<char>,
    kind: Seq<char>,
    description: Seq<char>,
) -> bool {
    let p = tool.at("input_schema"@).at("properties"@).at(name);
    &&& p.at("type"@) == JsonView::Str(kind)
    &&& p.at("description"@) == JsonView::Str(description)
}

/// What the model is told of the tools that read a file and of the shell: what each does, and
/// of each of its properties the type and what it is for. They take no other properties.
pub proof fn readers_are_told(depth: usize, key: Seq<char>)
    ensures
        ({
            let t = tool_defs(depth);
            let of = |i: int| t[i].at("input_schema"@).at("properties"@)->Object_0;
            &&& t[0].at("description"@) == JsonView::Str(
                "Run a shell command in Alpine Linux. Returns stdout+stderr."@,
            )
            &&& t[0].at("input_schema"@).at("properties"@).at("command"@).at("type"@)
                == JsonView::Str("string"@)
            &&& of(0).contains_key(key) <==> key == "command"@
            &&& t[1].at("description"@) == JsonView::Str(
                "Read a JPEG or PNG image and extract information using vision AI. Processes the entire image in a single API call — ask for everything needed in one question."@,
            )
            &&& takes(t[1], "path"@, "string"@, "Absolute path to the image file."@)
            &&& takes(t[1], "question"@, "string"@, "What to extract or look for."@)
            &&& of(1).contains_key(key) <==> key == "path"@ || key == "question"@
            &&& t[2].at("description"@) == JsonView::Str(
                "Read a PDF file and extract information using AI. Submits the entire PDF in a single API call (limit: 100 pages / 32 MB) — ask for everything needed in one comprehensive question."@,
            )
            &&& takes(t[2], "path"@, "string"@, "Absolute path to the PDF file."@)
            &&& takes(t[2], "question"@, "string"@, "What to extract or look for."@)
            &&& of(2).contains_key(key) <==> key == "path"@ || key == "question"@
        }),
{
    tool_keys();
}

/// What the model is told of delegation: what it does, and of each property the type and what
/// it is for. The persistence is one of its two words. There are no other properties.
pub proof fn delegation_is_told(key: Seq<char>)
    ensures
        ({
            let t = tool_defs(0)[3];
            let all = t.at("input_schema"@).at("properties"@);
            &&& t.at("description"@) == JsonView::Str(
                "Delegate a self-contained subtask to an isolated sub-agent. It runs its own tool loop with fresh context and returns a structured result. It cannot delegate further. Use it for focused subtasks whose intermediate steps you do not need to keep in your own context."@,
            )
            &&& takes(t, "task"@, "string"@, "The subtask to accomplish."@)
            &&& takes(t, "checks"@, "array"@, "Requirements the result must satisfy."@)
            &&& all.at("checks"@).at("items"@).at("type"@) == JsonView::Str("string"@)
            &&& takes(
                t,
                "persistence"@,
                "string"@,
                "Whether the sub-agent should persist progress to resume after a restart. Defaults to ephemeral."@,
            )
            &&& all.at("persistence"@).at("enum"@) matches JsonView::Array(words) && words.len()
                == 2 && words[0] == JsonView::Str("ephemeral"@) && words[1] == JsonView::Str(
                "durable"@,
            )
            &&& takes(t, "max_iter"@, "integer"@, "Iteration budget for the sub-agent."@)
            &&& all->Object_0.contains_key(key) <==> key == "task"@ || key == "checks"@ || key
                == "persistence"@ || key == "max_iter"@
        }),
{
    tool_keys();
    reveal_strlit("enum");
    reveal_strlit("items");
    assert("enum"@.len() == 4 && "enum"@[0] == 'e' && "items"@.len() == 5);
    assert("checks"@.len() == 6);
}

} // verus!
