//! What hooks are told of an event.

use crate::api::StopReason;
use crate::api::Usage;
use crate::json::Json;
use crate::json::JsonView;
use crate::text;
use crate::text::Text;
use vstd::prelude::*;
use vstd::string::*;

verus! {

// ---------------------------------------------------------------------------
// Values
// ---------------------------------------------------------------------------

/// A value that hooks are told.
pub enum HookValue<S = String> {
    Words(S),
    Whole(i64),
    Flag(bool),
    /// A JSON document, by its text.
    Document(S),
}

/// What a `HookValue` holds.
pub type ValueView = HookValue<Text>;

impl View for HookValue<String> {
    type V = HookValue<Text>;

    open spec fn view(&self) -> HookValue<Text> {
        match *self {
            HookValue::Words(s) => HookValue::Words(s@),
            HookValue::Whole(n) => HookValue::Whole(n),
            HookValue::Flag(b) => HookValue::Flag(b),
            HookValue::Document(s) => HookValue::Document(s@),
        }
    }
}

/// What named values hold.
pub open spec fn context_view(v: Seq<(String, HookValue)>) -> Seq<(Text, ValueView)> {
    Seq::new(v.len(), |i: int| (v[i].0@, v[i].1@))
}

fn tell(context: &mut Vec<(String, HookValue)>, name: &str, value: HookValue)
    ensures
        context_view(final(context)@) == context_view(old(context)@).push((name@, value@)),
{
    let ghost was = context_view(context@);
    let ghost told = value@;
    context.push((text::copy(name), value));
    assert(context_view(context@) =~= was.push((name@, told)));
}

// ---------------------------------------------------------------------------
// The events
// ---------------------------------------------------------------------------

/// What hooks are told of what the user submitted.
pub open spec fn user_message_told(input: Text, cwd: Text) -> Seq<(Text, ValueView)> {
    seq![("input"@, HookValue::Words(input)), ("cwd"@, HookValue::Words(cwd))]
}

/// What hooks are told of what the user submitted.
pub fn user_message_context(input: &str, cwd: &str) -> (r: Vec<(String, HookValue)>)
    ensures
        context_view(r@) == user_message_told(input@, cwd@),
{
    let mut r: Vec<(String, HookValue)> = Vec::new();
    tell(&mut r, "input", HookValue::Words(text::copy(input)));
    tell(&mut r, "cwd", HookValue::Words(text::copy(cwd)));
    assert(context_view(r@) =~= user_message_told(input@, cwd@));
    r
}

/// What hooks are told before a tool is run.
pub open spec fn before_tool_told(tool: Text, input: JsonView, cwd: Text) -> Seq<
    (Text, ValueView),
> {
    seq![
        ("tool_name"@, HookValue::Words(tool)),
        ("tool_input"@, HookValue::Document(input.item.text)),
        ("cwd"@, HookValue::Words(cwd)),
    ]
}

/// What hooks are told before a tool is run.
pub fn before_tool_context(tool: &str, input: &Json, cwd: &str) -> (r: Vec<(String, HookValue)>)
    ensures
        context_view(r@) == before_tool_told(tool@, input@, cwd@),
{
    let mut r: Vec<(String, HookValue)> = Vec::new();
    tell(&mut r, "tool_name", HookValue::Words(text::copy(tool)));
    tell(&mut r, "tool_input", HookValue::Document(text::copy(input.item.text.as_str())));
    tell(&mut r, "cwd", HookValue::Words(text::copy(cwd)));
    assert(context_view(r@) =~= before_tool_told(tool@, input@, cwd@));
    r
}

/// What hooks are told of what a tool gave back.
pub open spec fn after_tool_told(
    tool: Text,
    input: JsonView,
    output: Text,
    is_error: bool,
    cwd: Text,
) -> Seq<(Text, ValueView)> {
    seq![
        ("tool_name"@, HookValue::Words(tool)),
        ("tool_input"@, HookValue::Document(input.item.text)),
        ("tool_output"@, HookValue::Words(output)),
        ("tool_is_error"@, HookValue::Flag(is_error)),
        ("cwd"@, HookValue::Words(cwd)),
    ]
}

/// What hooks are told of what a tool gave back.
pub fn after_tool_context(tool: &str, input: &Json, output: &str, is_error: bool, cwd: &str) -> (r:
    Vec<(String, HookValue)>)
    ensures
        context_view(r@) == after_tool_told(tool@, input@, output@, is_error, cwd@),
{
    let mut r: Vec<(String, HookValue)> = Vec::new();
    tell(&mut r, "tool_name", HookValue::Words(text::copy(tool)));
    tell(&mut r, "tool_input", HookValue::Document(text::copy(input.item.text.as_str())));
    tell(&mut r, "tool_output", HookValue::Words(text::copy(output)));
    tell(&mut r, "tool_is_error", HookValue::Flag(is_error));
    tell(&mut r, "cwd", HookValue::Words(text::copy(cwd)));
    assert(context_view(r@) =~= after_tool_told(tool@, input@, output@, is_error, cwd@));
    r
}

/// What hooks are told before the model is asked.
pub open spec fn before_request_told(model: Text, turn: u32, messages: usize, cwd: Text) -> Seq<
    (Text, ValueView),
> {
    seq![
        ("model"@, HookValue::Words(model)),
        ("turn"@, HookValue::Whole(turn as i64)),
        ("cwd"@, HookValue::Words(cwd)),
        ("message_count"@, HookValue::Whole(messages as i64)),
    ]
}

/// What hooks are told before the model is asked.
pub fn before_request_context(model: &str, turn: u32, messages: usize, cwd: &str) -> (r: Vec<
    (String, HookValue),
>)
    ensures
        context_view(r@) == before_request_told(model@, turn, messages, cwd@),
{
    let mut r: Vec<(String, HookValue)> = Vec::new();
    tell(&mut r, "model", HookValue::Words(text::copy(model)));
    tell(&mut r, "turn", HookValue::Whole(turn as i64));
    tell(&mut r, "cwd", HookValue::Words(text::copy(cwd)));
    tell(&mut r, "message_count", HookValue::Whole(messages as i64));
    assert(context_view(r@) =~= before_request_told(model@, turn, messages, cwd@));
    r
}

/// Why the model stopped, as hooks are told it.
pub open spec fn stop_words(reason: Option<StopReason>) -> Text {
    match reason {
        Some(StopReason::EndTurn) => "Some(EndTurn)"@,
        Some(StopReason::ToolUse) => "Some(ToolUse)"@,
        Some(StopReason::MaxTokens) => "Some(MaxTokens)"@,
        Some(StopReason::Other) => "Some(Other)"@,
        None => "None"@,
    }
}

fn words_of_stop(reason: Option<StopReason>) -> (r: &'static str)
    ensures
        r@ == stop_words(reason),
{
    match reason {
        Some(StopReason::EndTurn) => "Some(EndTurn)",
        Some(StopReason::ToolUse) => "Some(ToolUse)",
        Some(StopReason::MaxTokens) => "Some(MaxTokens)",
        Some(StopReason::Other) => "Some(Other)",
        None => "None",
    }
}

/// What hooks are told of a reply that is complete. The tokens are those of the request
/// and the reply, without what the cache took.
pub open spec fn after_request_told(
    model: Text,
    turn: u32,
    usage: Usage,
    reason: Option<StopReason>,
    cwd: Text,
) -> Seq<(Text, ValueView)> {
    seq![
        ("model"@, HookValue::Words(model)),
        ("turn"@, HookValue::Whole(turn as i64)),
        ("input_tokens"@, HookValue::Whole(usage.input_tokens as i64)),
        ("output_tokens"@, HookValue::Whole(usage.output_tokens as i64)),
        (
            "total_tokens"@,
            HookValue::Whole((usage.input_tokens + usage.output_tokens) as u64 as i64),
        ),
        ("stop_reason"@, HookValue::Words(stop_words(reason))),
        ("cwd"@, HookValue::Words(cwd)),
    ]
}

/// What hooks are told of a reply that is complete.
pub fn after_request_context(
    model: &str,
    turn: u32,
    usage: &Usage,
    reason: Option<StopReason>,
    cwd: &str,
) -> (r: Vec<(String, HookValue)>)
    requires
        usage.input_tokens + usage.output_tokens <= u64::MAX,
    ensures
        context_view(r@) == after_request_told(model@, turn, *usage, reason, cwd@),
{
    let total: u64 = usage.input_tokens + usage.output_tokens;
    let mut r: Vec<(String, HookValue)> = Vec::new();
    tell(&mut r, "model", HookValue::Words(text::copy(model)));
    tell(&mut r, "turn", HookValue::Whole(turn as i64));
    tell(&mut r, "input_tokens", HookValue::Whole(usage.input_tokens as i64));
    tell(&mut r, "output_tokens", HookValue::Whole(usage.output_tokens as i64));
    tell(&mut r, "total_tokens", HookValue::Whole(total as i64));
    tell(&mut r, "stop_reason", HookValue::Words(text::copy(words_of_stop(reason))));
    tell(&mut r, "cwd", HookValue::Words(text::copy(cwd)));
    assert(context_view(r@) =~= after_request_told(model@, turn, *usage, reason, cwd@));
    r
}

/// What hooks are told of a session that begins or ends.
pub open spec fn session_told(cwd: Text, model: Text, provider: Text) -> Seq<(Text, ValueView)> {
    seq![
        ("cwd"@, HookValue::Words(cwd)),
        ("model"@, HookValue::Words(model)),
        ("provider"@, HookValue::Words(provider)),
    ]
}

/// What hooks are told of a session that begins or ends.
pub fn session_context(cwd: &str, model: &str, provider: &str) -> (r: Vec<(String, HookValue)>)
    ensures
        context_view(r@) == session_told(cwd@, model@, provider@),
{
    let mut r: Vec<(String, HookValue)> = Vec::new();
    tell(&mut r, "cwd", HookValue::Words(text::copy(cwd)));
    tell(&mut r, "model", HookValue::Words(text::copy(model)));
    tell(&mut r, "provider", HookValue::Words(text::copy(provider)));
    assert(context_view(r@) =~= session_told(cwd@, model@, provider@));
    r
}

// ---------------------------------------------------------------------------
// As JSON
// ---------------------------------------------------------------------------

/// A hexadecimal digit.
pub open spec fn hex_char(d: nat) -> char {
    if d < 10 {
        (('0' as u32) + d) as char
    } else {
        (('a' as u32) + d - 10) as char
    }
}

/// A character inside a JSON string.
pub open spec fn escaped_char(c: char) -> Text {
    if c == '"' || c == '\\' {
        seq!['\\', c]
    } else if (c as u32) < 32 {
        seq![
            '\\',
            'u',
            '0',
            '0',
            hex_char((c as u32 / 16) as nat),
            hex_char((c as u32 % 16) as nat),
        ]
    } else {
        seq![c]
    }
}

/// Characters inside a JSON string.
pub open spec fn escaped(s: Text) -> Text
    decreases s.len(),
{
    if s.len() == 0 {
        Seq::empty()
    } else {
        escaped(s.drop_last()) + escaped_char(s.last())
    }
}

/// A text as a JSON string.
pub open spec fn quoted(s: Text) -> Text {
    seq!['"'] + escaped(s) + seq!['"']
}

/// A whole number in decimal.
pub open spec fn whole_text(n: int) -> Text {
    if n < 0 {
        "-"@ + text::decimal((-n) as nat)
    } else {
        text::decimal(n as nat)
    }
}

/// A value as JSON.
pub open spec fn value_text(v: ValueView) -> Text {
    match v {
        HookValue::Words(s) => quoted(s),
        HookValue::Whole(n) => whole_text(n as int),
        HookValue::Flag(b) => if b {
            "true"@
        } else {
            "false"@
        },
        HookValue::Document(s) => s,
    }
}

/// A named value as a member of a JSON object.
pub open spec fn member_text(m: (Text, ValueView)) -> Text {
    quoted(m.0) + ":"@ + value_text(m.1)
}

/// Named values as a JSON object.
pub open spec fn object_text(context: Seq<(Text, ValueView)>) -> Text {
    "{"@ + text::joined(context.map_values(|m: (Text, ValueView)| member_text(m)), ","@) + "}"@
}

fn hex(d: u32) -> (r: char)
    requires
        d < 16,
    ensures
        r == hex_char(d as nat),
{
    if d < 10 {
        (('0' as u8) + (d as u8)) as char
    } else {
        (('a' as u8) + (d as u8) - 10) as char
    }
}

fn quote(s: &str) -> (r: String)
    ensures
        r@ == quoted(s@),
{
    let chars = text::to_chars(s);
    let mut r = String::new();
    r.push('"');
    let mut i: usize = 0;
    assert(r@ =~= seq!['"'] + escaped(s@.take(0)));
    while i < chars.len()
        invariant
            i <= chars@.len(),
            chars@ == s@,
            r@ == seq!['"'] + escaped(s@.take(i as int)),
        decreases chars@.len() - i,
    {
        let c = chars[i];
        let ghost was = r@;
        assert(s@.take(i + 1).drop_last() =~= s@.take(i as int));
        assert(s@.take(i + 1).last() == c);
        if c == '"' || c == '\\' {
            r.push('\\');
            r.push(c);
        } else if (c as u32) < 32 {
            r.push('\\');
            r.push('u');
            r.push('0');
            r.push('0');
            r.push(hex(c as u32 / 16));
            r.push(hex(c as u32 % 16));
        } else {
            r.push(c);
        }
        assert(r@ =~= was + escaped_char(c));
        assert(r@ =~= seq!['"'] + escaped(s@.take(i + 1)));
        i = i + 1;
    }
    assert(s@.take(i as int) =~= s@);
    r.push('"');
    assert(r@ =~= quoted(s@));
    r
}

fn whole(n: i64) -> (r: String)
    ensures
        r@ == whole_text(n as int),
{
    if n < 0 {
        let positive: i128 = -(n as i128);
        text::cat2("-", text::big_number(positive as u128).as_str())
    } else {
        text::number(n as u64)
    }
}

fn value(v: &HookValue) -> (r: String)
    ensures
        r@ == value_text(v@),
{
    match v {
        HookValue::Words(s) => quote(s.as_str()),
        HookValue::Whole(n) => whole(*n),
        HookValue::Flag(b) => if *b {
            text::copy("true")
        } else {
            text::copy("false")
        },
        HookValue::Document(s) => text::copy(s.as_str()),
    }
}

/// Named values as a JSON object.
pub fn context_text(context: &Vec<(String, HookValue)>) -> (r: String)
    ensures
        r@ == object_text(context_view(context@)),
{
    let ghost all = context_view(context@);
    let ghost f = |m: (Text, ValueView)| member_text(m);
    let mut parts: Vec<String> = Vec::new();
    let mut i: usize = 0;
    while i < context.len()
        invariant
            i <= context@.len(),
            all == context_view(context@),
            f == (|m: (Text, ValueView)| member_text(m)),
            text::texts(parts@) == all.take(i as int).map_values(f),
        decreases context@.len() - i,
    {
        let (name, v) = &context[i];
        let part = text::cat3(quote(name.as_str()).as_str(), ":", value(v).as_str());
        assert(all[i as int] == (name@, v@));
        assert(part@ =~= f(all[i as int]));
        text::push_text(&mut parts, part);
        assert(text::texts(parts@) =~= all.take(i + 1).map_values(f));
        i = i + 1;
    }
    assert(all.take(i as int) =~= all);
    text::cat3("{", text::join(&parts, ",").as_str(), "}")
}

// ---------------------------------------------------------------------------
// Laws
// ---------------------------------------------------------------------------

/// Hooks are told everything about a message and a tool, as it is: the whole input, the
/// whole output, whether it is an error, and where the session works.
pub proof fn law_hooks_are_told_of_messages_and_tools(
    tool: Text,
    input: JsonView,
    output: Text,
    is_error: bool,
    said: Text,
    cwd: Text,
)
    ensures
        user_message_told(said, cwd).contains(("input"@, HookValue::Words(said))),
        user_message_told(said, cwd).contains(("cwd"@, HookValue::Words(cwd))),
        before_tool_told(tool, input, cwd).contains(("tool_name"@, HookValue::Words(tool))),
        before_tool_told(tool, input, cwd).contains(
            ("tool_input"@, HookValue::Document(input.item.text)),
        ),
        before_tool_told(tool, input, cwd).contains(("cwd"@, HookValue::Words(cwd))),
        ({
            let told = after_tool_told(tool, input, output, is_error, cwd);
            &&& told.contains(("tool_name"@, HookValue::Words(tool)))
            &&& told.contains(("tool_input"@, HookValue::Document(input.item.text)))
            &&& told.contains(("tool_output"@, HookValue::Words(output)))
            &&& told.contains(("tool_is_error"@, HookValue::Flag(is_error)))
            &&& told.contains(("cwd"@, HookValue::Words(cwd)))
        }),
{
    let m = user_message_told(said, cwd);
    assert(m[0] == ("input"@, HookValue::<Text>::Words(said)));
    assert(m[1] == ("cwd"@, HookValue::<Text>::Words(cwd)));
    let b = before_tool_told(tool, input, cwd);
    assert(b[0] == ("tool_name"@, HookValue::<Text>::Words(tool)));
    assert(b[1] == ("tool_input"@, HookValue::<Text>::Document(input.item.text)));
    assert(b[2] == ("cwd"@, HookValue::<Text>::Words(cwd)));
    let a = after_tool_told(tool, input, output, is_error, cwd);
    assert(a[0] == ("tool_name"@, HookValue::<Text>::Words(tool)));
    assert(a[1] == ("tool_input"@, HookValue::<Text>::Document(input.item.text)));
    assert(a[2] == ("tool_output"@, HookValue::<Text>::Words(output)));
    assert(a[3] == ("tool_is_error"@, HookValue::<Text>::Flag(is_error)));
    assert(a[4] == ("cwd"@, HookValue::<Text>::Words(cwd)));
}

/// Hooks are told of a request which model is asked, in which turn, with how many
/// messages; and of its reply what it took and why it ended; and of a session where it
/// works and with what.
pub proof fn law_hooks_are_told_of_requests_and_sessions(
    model: Text,
    turn: u32,
    messages: usize,
    usage: Usage,
    reason: Option<StopReason>,
    cwd: Text,
    provider: Text,
)
    requires
        messages <= i64::MAX,
        usage.input_tokens + usage.output_tokens <= i64::MAX,
    ensures
        ({
            let told = before_request_told(model, turn, messages, cwd);
            &&& told.contains(("model"@, HookValue::Words(model)))
            &&& told.contains(("turn"@, HookValue::Whole(turn as i64)))
            &&& told.contains(("message_count"@, HookValue::Whole(messages as i64)))
            &&& told.contains(("cwd"@, HookValue::Words(cwd)))
        }),
        ({
            let told = after_request_told(model, turn, usage, reason, cwd);
            &&& told.contains(("model"@, HookValue::Words(model)))
            &&& told.contains(("turn"@, HookValue::Whole(turn as i64)))
            &&& told.contains(("input_tokens"@, HookValue::Whole(usage.input_tokens as i64)))
            &&& told.contains(("output_tokens"@, HookValue::Whole(usage.output_tokens as i64)))
            &&& told.contains(
                (
                    "total_tokens"@,
                    HookValue::Whole((usage.input_tokens + usage.output_tokens) as i64),
                ),
            )
            &&& told.contains(("cwd"@, HookValue::Words(cwd)))
        }),
        ({
            let told = session_told(cwd, model, provider);
            &&& told.contains(("cwd"@, HookValue::Words(cwd)))
            &&& told.contains(("model"@, HookValue::Words(model)))
            &&& told.contains(("provider"@, HookValue::Words(provider)))
        }),
{
    let b = before_request_told(model, turn, messages, cwd);
    assert(b[0] == ("model"@, HookValue::<Text>::Words(model)));
    assert(b[1] == ("turn"@, HookValue::<Text>::Whole(turn as i64)));
    assert(b[2] == ("cwd"@, HookValue::<Text>::Words(cwd)));
    assert(b[3] == ("message_count"@, HookValue::<Text>::Whole(messages as i64)));
    let a = after_request_told(model, turn, usage, reason, cwd);
    let total = (usage.input_tokens + usage.output_tokens) as i64;
    assert((usage.input_tokens + usage.output_tokens) as u64 as i64 == total);
    assert(a[0] == ("model"@, HookValue::<Text>::Words(model)));
    assert(a[1] == ("turn"@, HookValue::<Text>::Whole(turn as i64)));
    assert(a[2] == ("input_tokens"@, HookValue::<Text>::Whole(usage.input_tokens as i64)));
    assert(a[3] == ("output_tokens"@, HookValue::<Text>::Whole(usage.output_tokens as i64)));
    assert(a[4] == ("total_tokens"@, HookValue::<Text>::Whole(total)));
    assert(a[6] == ("cwd"@, HookValue::<Text>::Words(cwd)));
    let s = session_told(cwd, model, provider);
    assert(s[0] == ("cwd"@, HookValue::<Text>::Words(cwd)));
    assert(s[1] == ("model"@, HookValue::<Text>::Words(model)));
    assert(s[2] == ("provider"@, HookValue::<Text>::Words(provider)));
}

/// The value of a hexadecimal digit.
pub open spec fn hex_value(c: char) -> int {
    if '0' <= c <= '9' {
        c as int - '0' as int
    } else {
        c as int - 'a' as int + 10
    }
}

/// What the characters inside a JSON string stand for: a backslash takes the character
/// behind it, or four hexadecimal digits behind a `u`.
pub open spec fn unescaped(t: Text) -> Text
    decreases t.len(),
{
    if t.len() == 0 {
        Seq::empty()
    } else if t[0] != '\\' {
        seq![t[0]] + unescaped(t.skip(1))
    } else if t.len() >= 6 && t[1] == 'u' {
        seq![(hex_value(t[4]) * 16 + hex_value(t[5])) as char] + unescaped(t.skip(6))
    } else if t.len() >= 2 {
        seq![t[1]] + unescaped(t.skip(2))
    } else {
        Seq::empty()
    }
}

proof fn lemma_escaped_first(c: char, s: Text)
    ensures
        escaped(seq![c] + s) == escaped_char(c) + escaped(s),
    decreases s.len(),
{
    let all = seq![c] + s;
    if s.len() == 0 {
        assert(all.drop_last() =~= Seq::<char>::empty());
        assert(escaped(all.drop_last()) =~= Seq::<char>::empty());
        assert(escaped(all) =~= escaped_char(c) + escaped(s));
    } else {
        assert(all.drop_last() =~= seq![c] + s.drop_last());
        lemma_escaped_first(c, s.drop_last());
        assert(all.last() == s.last());
        assert((escaped_char(c) + escaped(s.drop_last())) + escaped_char(s.last())
            =~= escaped_char(c) + (escaped(s.drop_last()) + escaped_char(s.last())));
    }
}

/// Nothing is lost on the way to a hook: a text that is quoted stands for itself.
pub proof fn law_quoted_texts_stand_for_themselves(s: Text)
    ensures
        unescaped(escaped(s)) == s,
        quoted(s) == seq!['"'] + escaped(s) + seq!['"'],
    decreases s.len(),
{
    if s.len() > 0 {
        let c = s[0];
        let rest = s.skip(1);
        law_quoted_texts_stand_for_themselves(rest);
        lemma_escaped_first(c, rest);
        assert(s =~= seq![c] + rest);
        let t = escaped(s);
        let e = escaped_char(c);
        assert(t == e + escaped(rest));
        assert(t.skip(e.len() as int) =~= escaped(rest));
        if c == '"' || c == '\\' {
            assert(e.len() == 2);
            assert(t[0] == '\\' && t[1] == c);
            assert(unescaped(t) == seq![c] + unescaped(t.skip(2)));
        } else if (c as u32) < 32 {
            assert(t[0] == '\\' && t[1] == 'u');
            let v = c as u32;
            lemma_code_of(c);
            assert(t[4] == hex_char((v / 16) as nat) && t[5] == hex_char((v % 16) as nat));
            lemma_hex((v / 16) as nat);
            lemma_hex((v % 16) as nat);
            assert(hex_value(t[4]) * 16 + hex_value(t[5]) == v);
            assert(e.len() == 6);
            assert(unescaped(t) == seq![c] + unescaped(t.skip(6)));
        } else {
            assert(e.len() == 1);
            assert(t[0] == c);
            assert(unescaped(t) == seq![c] + unescaped(t.skip(1)));
        }
        assert(unescaped(t) =~= seq![c] + rest);
    }
}

proof fn lemma_code_of(c: char)
    ensures
        c as u32 == c as int,
        (c as int) as char == c,
{
}

proof fn lemma_hex(d: nat)
    requires
        d < 16,
    ensures
        hex_value(hex_char(d)) == d,
{
}

} // verus!
