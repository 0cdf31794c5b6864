//! The messages of the model's API.

use crate::json::Json;
use crate::json::JsonView;
use crate::text;
use crate::text::Text;
use vstd::prelude::*;

verus! {

/// Who speaks.
#[derive(Clone, Copy, PartialEq, Eq, Structural)]
pub enum Role {
    User,
    Assistant,
}

/// One block of a message.
pub enum ContentBlock<S = String, J = Json> {
    /// Plain text.
    Text { text: S },
    /// The assistant calls a tool.
    ToolUse { id: S, name: S, input: J },
    /// What a tool gave back.
    ToolResult { tool_use_id: S, content: S, is_error: Option<bool> },
    /// A picture, in base64.
    Image { media_type: S, data: S, source_path: S },
}

/// What a block holds.
pub type BlockView = ContentBlock<Text, JsonView>;

impl View for ContentBlock<String, Json> {
    type V = ContentBlock<Text, JsonView>;

    open spec fn view(&self) -> ContentBlock<Text, JsonView> {
        match *self {
            ContentBlock::Text { text } => ContentBlock::Text { text: text@ },
            ContentBlock::ToolUse { id, name, input } => ContentBlock::ToolUse {
                id: id@,
                name: name@,
                input: input@,
            },
            ContentBlock::ToolResult { tool_use_id, content, is_error } => ContentBlock::ToolResult {
                tool_use_id: tool_use_id@,
                content: content@,
                is_error,
            },
            ContentBlock::Image { media_type, data, source_path } => ContentBlock::Image {
                media_type: media_type@,
                data: data@,
                source_path: source_path@,
            },
        }
    }
}

impl ContentBlock<String, Json> {
    /// A copy of the block.
    pub fn copy(&self) -> (r: ContentBlock<String, Json>)
        ensures
            r@ == self@,
    {
        match self {
            ContentBlock::Text { text } => ContentBlock::Text { text: text::copy(text.as_str()) },
            ContentBlock::ToolUse { id, name, input } => ContentBlock::ToolUse {
                id: text::copy(id.as_str()),
                name: text::copy(name.as_str()),
                input: input.copy(),
            },
            ContentBlock::ToolResult { tool_use_id, content, is_error } => ContentBlock::ToolResult {
                tool_use_id: text::copy(tool_use_id.as_str()),
                content: text::copy(content.as_str()),
                is_error: *is_error,
            },
            ContentBlock::Image { media_type, data, source_path } => ContentBlock::Image {
                media_type: text::copy(media_type.as_str()),
                data: text::copy(data.as_str()),
                source_path: text::copy(source_path.as_str()),
            },
        }
    }
}

/// What a list of blocks holds.
pub open spec fn blocks(v: Seq<ContentBlock>) -> Seq<BlockView> {
    Seq::new(v.len(), |i: int| v[i]@)
}

/// A copy of a list of blocks.
pub fn copy_blocks(v: &Vec<ContentBlock>) -> (r: Vec<ContentBlock>)
    ensures
        blocks(r@) == blocks(v@),
{
    let mut r: Vec<ContentBlock> = Vec::new();
    let mut i: usize = 0;
    while i < v.len()
        invariant
            i <= v@.len(),
            r@.len() == i,
            forall|j: int| 0 <= j < i ==> r@[j]@ == v@[j]@,
        decreases v@.len() - i,
    {
        r.push(v[i].copy());
        i = i + 1;
    }
    assert(blocks(r@) =~= blocks(v@));
    r
}

/// A message as it is sent.
pub struct Message {
    pub role: Role,
    pub content: Vec<ContentBlock>,
    pub reasoning_content: Option<String>,
}

/// Why a request to the API failed. `message` is the error in words.
pub enum ApiError<S = String> {
    /// The server refused the request. `retry_after` is what it said of when to
    /// ask again.
    Http { status: u16, body: S, retry_after: Option<S>, message: S },
    /// Anything else: the connection, the stream, the reply.
    Other { message: S },
}

impl View for ApiError<String> {
    type V = ApiError<Text>;

    open spec fn view(&self) -> ApiError<Text> {
        match *self {
            ApiError::Http { status, body, retry_after, message } => ApiError::Http {
                status,
                body: body@,
                retry_after: text::opt_text(retry_after),
                message: message@,
            },
            ApiError::Other { message } => ApiError::Other { message: message@ },
        }
    }
}

/// An error in words.
pub open spec fn error_message(e: ApiError<Text>) -> Text {
    match e {
        ApiError::Http { message, .. } => message,
        ApiError::Other { message } => message,
    }
}

impl ApiError<String> {
    /// The error in words.
    pub fn message(&self) -> (r: String)
        ensures
            r@ == error_message(self@),
    {
        match self {
            ApiError::Http { message, .. } => text::copy(message.as_str()),
            ApiError::Other { message } => text::copy(message.as_str()),
        }
    }
}

/// Why the model stopped.
#[derive(Clone, Copy, Debug, PartialEq, Eq, Structural)]
pub enum StopReason {
    EndTurn,
    ToolUse,
    MaxTokens,
    Other,
}

/// A piece of the model's reply.
pub enum StreamEvent<S = String> {
    TextDelta(S),
    ReasoningDelta(S),
    ToolUseStart { id: S, name: S, input_json: Option<S> },
    ToolUseDelta { id: S, delta_json: S },
    UsageUpdate(Usage),
    MessageComplete { stop_reason: StopReason, usage: Usage },
}

impl View for StreamEvent<String> {
    type V = StreamEvent<Text>;

    open spec fn view(&self) -> StreamEvent<Text> {
        match *self {
            StreamEvent::TextDelta(s) => StreamEvent::TextDelta(s@),
            StreamEvent::ReasoningDelta(s) => StreamEvent::ReasoningDelta(s@),
            StreamEvent::ToolUseStart { id, name, input_json } => StreamEvent::ToolUseStart {
                id: id@,
                name: name@,
                input_json: text::opt_text(input_json),
            },
            StreamEvent::ToolUseDelta { id, delta_json } => StreamEvent::ToolUseDelta {
                id: id@,
                delta_json: delta_json@,
            },
            StreamEvent::UsageUpdate(u) => StreamEvent::UsageUpdate(u),
            StreamEvent::MessageComplete { stop_reason, usage } => StreamEvent::MessageComplete {
                stop_reason,
                usage,
            },
        }
    }
}

/// The tokens that one request took.
#[derive(Clone, Copy, PartialEq, Eq, Structural)]
pub struct Usage {
    pub input_tokens: u64,
    pub output_tokens: u64,
    pub cache_read_input_tokens: u64,
    pub cache_creation_input_tokens: u64,
    pub reasoning_tokens: u64,
}

/// The tokens of the prompt: read from the cache, written to it, and neither.
pub open spec fn prompt_size(u: Usage) -> int {
    u.input_tokens + u.cache_read_input_tokens + u.cache_creation_input_tokens
}

impl Default for Usage {
    fn default() -> (r: Usage)
        ensures
            r == (Usage {
                input_tokens: 0,
                output_tokens: 0,
                cache_read_input_tokens: 0,
                cache_creation_input_tokens: 0,
                reasoning_tokens: 0,
            }),
    {
        Usage {
            input_tokens: 0,
            output_tokens: 0,
            cache_read_input_tokens: 0,
            cache_creation_input_tokens: 0,
            reasoning_tokens: 0,
        }
    }
}

impl Usage {
    /// The tokens of the prompt.
    pub fn prompt_tokens(&self) -> (r: u64)
        requires
            prompt_size(*self) <= u64::MAX,
        ensures
            r == prompt_size(*self),
    {
        self.input_tokens + self.cache_read_input_tokens + self.cache_creation_input_tokens
    }
}

/// An error is told in its own words.
pub proof fn law_errors_are_told_in_their_words(e: ApiError<Text>)
    ensures
        e matches ApiError::Http { message, .. } ==> error_message(e) == message,
        e matches ApiError::Other { message } ==> error_message(e) == message,
{
}

} // verus!
