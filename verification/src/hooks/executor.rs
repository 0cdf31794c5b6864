//! Calls hooks, and reads what they ask for.

use crate::hooks::context;
use crate::hooks::context::HookValue;
use crate::hooks::types;
use crate::hooks::types::HookEvent;
use crate::hooks::types::HookResult;
use crate::hooks::types::ResultView;
use crate::text;
use crate::text::Text;
use mlua::LuaSerdeExt;
use mlua::SerializeOptions;
use mlua::Value;
use vstd::prelude::*;
use vstd::string::*;

verus! {

// ---------------------------------------------------------------------------
// Lua
// ---------------------------------------------------------------------------

/// The Lua machine that hooks live in.
#[verifier::external_type_specification]
#[verifier::external_body]
pub struct ExLua(mlua::Lua);

/// Where a Lua machine keeps a value.
#[verifier::external_type_specification]
#[verifier::external_body]
pub struct ExRegistryKey(mlua::RegistryKey);

/// What went wrong in a Lua machine.
#[verifier::external_type_specification]
#[verifier::external_body]
pub struct ExError(mlua::Error);

/// The name under which a Lua machine has the list of its hooks.
pub const HOOK_LIST: &'static str = "_rc_hooks";

/// The name under which an entry of the list has its event.
pub const EVENT_FIELD: &'static str = "event";

/// The name under which an entry of the list has its function.
pub const FUNCTION_FIELD: &'static str = "fn";

/// `mlua::Lua::create_registry_value`: has the machine keep the function of an entry of
/// its own list, which `mlua::Lua::named_registry_value` and `mlua::Table::raw_get`
/// find; Lua counts places from 1. What the list holds rests on the user's
/// configuration, so nothing is said of where the function is kept, or of whether it
/// can be.
#[verifier::external_body]
pub(crate) fn keep_listed(lua: &mlua::Lua, list: &str, place: usize, field: &str) -> Result<
    mlua::RegistryKey,
    mlua::Error,
>
    requires
        list@ == HOOK_LIST@,
        field@ == FUNCTION_FIELD@,
{
    let entries: mlua::Table = lua.named_registry_value(list)?;
    let entry: mlua::Table = entries.raw_get(place)?;
    let function: mlua::Function = entry.get(field)?;
    lua.create_registry_value(function)
}

/// `mlua::LuaSerdeExt::to_value_with`: has the machine make a table of a JSON text, and
/// keep it, by `mlua::Lua::create_registry_value`. A text that `serde_json::from_str`
/// does not read is an error. Where the table is kept, and whether it can be, rests on
/// the machine, so nothing is said of it.
#[verifier::external_body]
fn keep_context(lua: &mlua::Lua, context: &str) -> Result<mlua::RegistryKey, mlua::Error> {
    let json: serde_json::Value = serde_json::from_str(context).map_err(mlua::Error::external)?;
    let plain = SerializeOptions::new().set_array_metatable(false).serialize_unit_to_null(false);
    lua.create_registry_value(lua.to_value_with(&json, plain)?)
}

/// `mlua::Function::call`: runs the function that `mlua::Lua::registry_value` finds under
/// a key, with the value that it finds under another. A key of another machine is an
/// error. The variants of the `mlua::Value` that comes back are told apart; a string is
/// taken by `mlua::String::to_string_lossy`, and of a table the fields of three names by
/// `mlua::Table::get`, as far as they can be read as strings. It rests on the user's
/// code, so nothing is said of it.
#[verifier::external_body]
fn call_kept(
    lua: &mlua::Lua,
    key: &mlua::RegistryKey,
    context: &mlua::RegistryKey,
    block: &str,
    inject: &str,
    input: &str,
) -> Result<HookReturn, mlua::Error>
    requires
        block@ == "block"@,
        inject@ == "inject_context"@,
        input@ == "modified_input"@,
{
    let function: mlua::Function = lua.registry_value(key)?;
    match function.call::<Value>(lua.registry_value::<Value>(context)?)? {
        Value::Nil => Ok(HookReturn::Nil),
        Value::Boolean(b) => Ok(HookReturn::Boolean(b)),
        Value::Table(t) => Ok(HookReturn::Table {
            block: t.get(block).ok(),
            inject_context: t.get(inject).ok(),
            modified_input: t.get(input).ok(),
        }),
        Value::String(s) => Ok(HookReturn::Words(s.to_string_lossy())),
        _ => Ok(HookReturn::Other),
    }
}

/// Why hooks could not be set up: what the Lua machine reported.
pub struct HookError {
    pub cause: mlua::Error,
}

// ---------------------------------------------------------------------------
// What a hook returns
// ---------------------------------------------------------------------------

/// What a hook returned, as far as it is read. Of the three fields of a table,
/// only the first that is a string counts.
pub enum HookReturn<S = String> {
    Nil,
    Boolean(bool),
    Table { block: Option<S>, inject_context: Option<S>, modified_input: Option<S> },
    Words(S),
    Other,
}

/// What a `HookReturn` holds.
pub type ReturnView = HookReturn<Text>;

impl View for HookReturn<String> {
    type V = HookReturn<Text>;

    open spec fn view(&self) -> HookReturn<Text> {
        match *self {
            HookReturn::Nil => HookReturn::Nil,
            HookReturn::Boolean(b) => HookReturn::Boolean(b),
            HookReturn::Table { block, inject_context, modified_input } => HookReturn::Table {
                block: text::opt_text(block),
                inject_context: text::opt_text(inject_context),
                modified_input: text::opt_text(modified_input),
            },
            HookReturn::Words(s) => HookReturn::Words(s@),
            HookReturn::Other => HookReturn::Other,
        }
    }
}

/// What a hook asks for by what it returned. A bare string means what can be
/// asked for at the event.
pub open spec fn asked(event: HookEvent, returned: ReturnView) -> Option<ResultView> {
    match returned {
        HookReturn::Nil => None,
        HookReturn::Boolean(b) => if !b && event == HookEvent::PreToolUse {
            Some(HookResult::Block { reason: "Blocked by hook"@ })
        } else {
            None
        },
        HookReturn::Table { block, inject_context, modified_input } => match (
            block,
            inject_context,
            modified_input,
        ) {
            (Some(reason), _, _) => Some(HookResult::Block { reason }),
            (None, Some(s), _) => Some(HookResult::InjectContext(s)),
            (None, None, Some(s)) => Some(HookResult::ModifiedInput(s)),
            (None, None, None) => None,
        },
        HookReturn::Words(s) => match event {
            HookEvent::PreToolUse => Some(HookResult::Block { reason: s }),
            HookEvent::PreLlmCall => Some(HookResult::InjectContext(s)),
            HookEvent::UserMessage => Some(HookResult::ModifiedInput(s)),
            _ => None,
        },
        HookReturn::Other => None,
    }
}

/// What an optional return holds.
pub open spec fn opt_return(r: Option<HookReturn>) -> Option<ReturnView> {
    match r {
        Some(v) => Some(v@),
        None => None,
    }
}

/// What an optional result holds.
pub open spec fn opt_result(r: Option<HookResult>) -> Option<ResultView> {
    match r {
        Some(v) => Some(v@),
        None => None,
    }
}

/// What a hook asks for by what it returned.
pub fn parse_hook_result(event: HookEvent, returned: HookReturn) -> (r: Option<HookResult>)
    ensures
        opt_result(r) == asked(event, returned@),
{
    match returned {
        HookReturn::Nil => None,
        HookReturn::Boolean(b) => if !b && event == HookEvent::PreToolUse {
            Some(HookResult::Block { reason: text::copy("Blocked by hook") })
        } else {
            None
        },
        HookReturn::Table { block, inject_context, modified_input } => {
            if let Some(reason) = block {
                return Some(HookResult::Block { reason });
            }
            if let Some(s) = inject_context {
                return Some(HookResult::InjectContext(s));
            }
            if let Some(s) = modified_input {
                return Some(HookResult::ModifiedInput(s));
            }
            None
        },
        HookReturn::Words(s) => match event {
            HookEvent::PreToolUse => Some(HookResult::Block { reason: s }),
            HookEvent::PreLlmCall => Some(HookResult::InjectContext(s)),
            HookEvent::UserMessage => Some(HookResult::ModifiedInput(s)),
            _ => None,
        },
        HookReturn::Other => None,
    }
}

/// What hooks ask for, by what each of them returned; one that failed counts
/// for nothing.
pub open spec fn all_asked(event: HookEvent, answers: Seq<Option<ReturnView>>) -> Seq<ResultView>
    decreases answers.len(),
{
    if answers.len() == 0 {
        Seq::empty()
    } else {
        let before = all_asked(event, answers.drop_last());
        match answers.last() {
            Some(returned) => match asked(event, returned) {
                Some(result) => before.push(result),
                None => before,
            },
            None => before,
        }
    }
}

/// What a list of answers holds.
pub open spec fn answers_view(v: Seq<Option<HookReturn>>) -> Seq<Option<ReturnView>> {
    Seq::new(v.len(), |i: int| opt_return(v[i]))
}

/// What hooks ask for, by what each of them returned; one that failed counts
/// for nothing.
pub fn collect_asked(event: HookEvent, answers: Vec<Option<HookReturn>>) -> (r: Vec<HookResult>)
    ensures
        types::results_view(r@) == all_asked(event, answers_view(answers@)),
{
    let ghost all = answers_view(answers@);
    let mut out: Vec<HookResult> = Vec::new();
    let n: usize = answers.len();
    let mut rest = answers;
    let mut i: usize = 0;
    assert(types::results_view(out@) =~= all_asked(event, all.take(0)));
    while i < n
        invariant
            i <= n,
            n == all.len(),
            rest@.len() == n - i,
            forall|k: int| 0 <= k < n - i ==> opt_return(#[trigger] rest@[k]) == all[i + k],
            types::results_view(out@) == all_asked(event, all.take(i as int)),
        decreases n - i,
    {
        assert(all.take(i + 1).drop_last() =~= all.take(i as int));
        let answer = rest.remove(0);
        assert(opt_return(answer) == all[i as int]);
        if let Some(returned) = answer {
            if let Some(result) = parse_hook_result(event, returned) {
                let ghost was = types::results_view(out@);
                let ghost added = result@;
                out.push(result);
                assert(types::results_view(out@) =~= was.push(added));
            }
        }
        i = i + 1;
    }
    assert(all.take(i as int) =~= all);
    out
}

/// The reason of the first block.
pub open spec fn first_block_of(results: Seq<ResultView>) -> Option<Text>
    decreases results.len(),
{
    if results.len() == 0 {
        None
    } else {
        match results[0] {
            HookResult::Block { reason } => Some(reason),
            _ => first_block_of(results.drop_first()),
        }
    }
}

/// The first input that is to be taken instead.
pub open spec fn first_input_of(results: Seq<ResultView>) -> Option<Text>
    decreases results.len(),
{
    if results.len() == 0 {
        None
    } else {
        match results[0] {
            HookResult::ModifiedInput(s) => Some(s),
            _ => first_input_of(results.drop_first()),
        }
    }
}

/// All that the model is to be told as well.
pub open spec fn contexts_of(results: Seq<ResultView>) -> Seq<Text>
    decreases results.len(),
{
    if results.len() == 0 {
        Seq::empty()
    } else {
        let before = contexts_of(results.drop_last());
        match results.last() {
            HookResult::InjectContext(s) => before.push(s),
            _ => before,
        }
    }
}

/// The reason of the first block.
pub fn first_block(results: &Vec<HookResult>) -> (r: Option<String>)
    ensures
        text::opt_text(r) == first_block_of(types::results_view(results@)),
{
    let ghost all = types::results_view(results@);
    let mut i: usize = 0;
    assert(all.skip(0) =~= all);
    while i < results.len()
        invariant
            i <= results@.len(),
            all == types::results_view(results@),
            first_block_of(all) == first_block_of(all.skip(i as int)),
        decreases results@.len() - i,
    {
        assert(all.skip(i as int)[0] == results@[i as int]@);
        assert(all.skip(i as int).drop_first() =~= all.skip(i + 1));
        if let HookResult::Block { reason } = &results[i] {
            return Some(text::copy(reason.as_str()));
        }
        i = i + 1;
    }
    None
}

/// The first input that is to be taken instead.
pub fn first_input(results: &Vec<HookResult>) -> (r: Option<String>)
    ensures
        text::opt_text(r) == first_input_of(types::results_view(results@)),
{
    let ghost all = types::results_view(results@);
    let mut i: usize = 0;
    assert(all.skip(0) =~= all);
    while i < results.len()
        invariant
            i <= results@.len(),
            all == types::results_view(results@),
            first_input_of(all) == first_input_of(all.skip(i as int)),
        decreases results@.len() - i,
    {
        assert(all.skip(i as int)[0] == results@[i as int]@);
        assert(all.skip(i as int).drop_first() =~= all.skip(i + 1));
        if let HookResult::ModifiedInput(s) = &results[i] {
            return Some(text::copy(s.as_str()));
        }
        i = i + 1;
    }
    None
}

/// All that the model is to be told as well.
pub fn contexts(results: &Vec<HookResult>) -> (r: Vec<String>)
    ensures
        text::texts(r@) == contexts_of(types::results_view(results@)),
{
    let ghost all = types::results_view(results@);
    let mut out: Vec<String> = Vec::new();
    let mut i: usize = 0;
    assert(text::texts(out@) =~= contexts_of(all.take(0)));
    while i < results.len()
        invariant
            i <= results@.len(),
            all == types::results_view(results@),
            text::texts(out@) == contexts_of(all.take(i as int)),
        decreases results@.len() - i,
    {
        assert(all.take(i + 1).drop_last() =~= all.take(i as int));
        assert(all.take(i + 1).last() == results@[i as int]@);
        if let HookResult::InjectContext(s) = &results[i] {
            text::push_text(&mut out, text::copy(s.as_str()));
        }
        i = i + 1;
    }
    assert(all.take(i as int) =~= all);
    out
}

// ---------------------------------------------------------------------------
// The executor
// ---------------------------------------------------------------------------

/// A hook that is kept in a Lua machine.
struct StoredHook {
    event: HookEvent,
    key: mlua::RegistryKey,
}

/// The hooks of a configuration, and the Lua machine that they live in.
pub struct HookExecutor {
    lua: mlua::Lua,
    /// In the order in which they were registered.
    hooks: Vec<StoredHook>,
}

/// What a `HookExecutor` holds: the machine, and for each hook its event and where the
/// machine keeps it.
#[verifier::ext_equal]
pub struct ExecutorView {
    pub lua: mlua::Lua,
    pub hooks: Seq<(HookEvent, mlua::RegistryKey)>,
}

impl ExecutorView {
    /// The events of the hooks, in their order.
    pub open spec fn events(self) -> Seq<HookEvent> {
        self.hooks.map_values(|h: (HookEvent, mlua::RegistryKey)| h.0)
    }
}

impl View for HookExecutor {
    type V = ExecutorView;

    closed spec fn view(&self) -> ExecutorView {
        ExecutorView {
            lua: self.lua,
            hooks: Seq::new(
                self.hooks@.len(),
                |i: int| (self.hooks@[i].event, self.hooks@[i].key),
            ),
        }
    }
}

/// What is read of the machine's list for a hook: the list's name, the place in it,
/// counted from 1, and the names under which the entry there has its event and its
/// function.
pub struct EntryRead<S = String> {
    pub list: S,
    pub place: usize,
    pub event: S,
    pub function: S,
}

impl View for EntryRead<String> {
    type V = EntryRead<Text>;

    open spec fn view(&self) -> EntryRead<Text> {
        EntryRead {
            list: self.list@,
            place: self.place,
            event: self.event@,
            function: self.function@,
        }
    }
}

/// What is read for the hook at a place.
pub open spec fn entry_at(place: usize) -> EntryRead<Text> {
    EntryRead { list: HOOK_LIST@, place, event: EVENT_FIELD@, function: FUNCTION_FIELD@ }
}

/// What is read for a list of so many hooks: each place once, from the first on.
pub open spec fn entries_of(count: usize) -> Seq<EntryRead<Text>> {
    Seq::new(count as nat, |i: int| entry_at((i + 1) as usize))
}

/// What a list of reads holds.
pub open spec fn reads_view(v: Seq<EntryRead>) -> Seq<EntryRead<Text>> {
    Seq::new(v.len(), |i: int| v[i]@)
}

/// What is read for the hook at a place.
pub fn planned_read(place: usize) -> (r: EntryRead)
    ensures
        r@ == entry_at(place),
{
    EntryRead {
        list: text::copy(HOOK_LIST),
        place,
        event: text::copy(EVENT_FIELD),
        function: text::copy(FUNCTION_FIELD),
    }
}

/// What is read for a list of so many hooks: each place once, from the first on.
pub fn planned_reads(count: usize) -> (r: Vec<EntryRead>)
    ensures
        reads_view(r@) == entries_of(count),
{
    let mut out: Vec<EntryRead> = Vec::new();
    let mut i: usize = 0;
    while i < count
        invariant
            i <= count,
            out@.len() == i,
            forall|k: int| 0 <= k < i ==> (#[trigger] out@[k])@ == entry_at((k + 1) as usize),
        decreases count - i,
    {
        i = i + 1;
        out.push(planned_read(i));
    }
    assert(reads_view(out@) =~= entries_of(count));
    out
}

/// A call of a hook: its place among the hooks, and the JSON text of what it is told.
pub struct HookCall<S = String> {
    pub place: usize,
    pub context: S,
}

impl View for HookCall<String> {
    type V = HookCall<Text>;

    open spec fn view(&self) -> HookCall<Text> {
        HookCall { place: self.place, context: self.context@ }
    }
}

/// What a list of calls holds.
pub open spec fn calls_view(v: Seq<HookCall>) -> Seq<HookCall<Text>> {
    Seq::new(v.len(), |i: int| v[i]@)
}

/// The calls for an event: each of its hooks once, in the order in which they were
/// registered, each told the same.
pub open spec fn calls_of(
    x: ExecutorView,
    event: HookEvent,
    told: Seq<(Text, context::ValueView)>,
) -> Seq<HookCall<Text>> {
    places_of(x.events(), event).map_values(
        |place: int| HookCall { place: place as usize, context: context::object_text(told) },
    )
}

/// The places of the hooks of an event, in their order.
pub open spec fn places_of(hooks: Seq<HookEvent>, event: HookEvent) -> Seq<int>
    decreases hooks.len(),
{
    if hooks.len() == 0 {
        Seq::empty()
    } else {
        let before = places_of(hooks.drop_last(), event);
        if hooks.last() == event {
            before.push(hooks.len() - 1)
        } else {
            before
        }
    }
}

/// How many hooks an event has.
pub open spec fn hooks_for(hooks: Seq<HookEvent>, event: HookEvent) -> nat {
    places_of(hooks, event).len()
}

proof fn lemma_places(hooks: Seq<HookEvent>, event: HookEvent)
    ensures
        forall|k: int|
            0 <= k < places_of(hooks, event).len() ==> 0 <= #[trigger] places_of(hooks, event)[k]
                < hooks.len() && hooks[places_of(hooks, event)[k]] == event,
    decreases hooks.len(),
{
    if hooks.len() > 0 {
        lemma_places(hooks.drop_last(), event);
    }
}

/// The events that have hooks, in the order of their first, with how many.
pub open spec fn events_with_hooks(hooks: Seq<HookEvent>, upto: int) -> Seq<(Text, nat)>
    decreases upto,
{
    if upto <= 0 {
        Seq::empty()
    } else {
        let before = events_with_hooks(hooks, upto - 1);
        let event = hooks[upto - 1];
        if hooks_for(hooks.take(upto - 1), event) > 0 {
            before
        } else {
            before.push((types::event_name(event), hooks_for(hooks, event)))
        }
    }
}

/// What a list of names and numbers holds.
pub open spec fn counted(v: Seq<(String, usize)>) -> Seq<(Text, nat)> {
    Seq::new(v.len(), |i: int| (v[i].0@, v[i].1 as nat))
}

// ---------------------------------------------------------------------------
// What the machine gives back
// ---------------------------------------------------------------------------

/// Whether a machine, told to keep the function of an entry of its list, may have come
/// to this.
pub closed spec fn function_kept(
    lua: mlua::Lua,
    read: EntryRead<Text>,
    kept: Result<mlua::RegistryKey, mlua::Error>,
) -> bool {
    exists|list: &str, field: &str|
        list@ == read.list && field@ == read.function && #[trigger] call_ensures(
            keep_listed,
            (&lua, list, read.place, field),
            kept,
        )
}

/// Have a machine keep the function of an entry of its list.
pub(crate) fn keep_entry(lua: &mlua::Lua, read: &EntryRead) -> (r: Result<
    mlua::RegistryKey,
    mlua::Error,
>)
    requires
        read@ == entry_at(read.place),
    ensures
        function_kept(*lua, read@, r),
{
    keep_listed(lua, read.list.as_str(), read.place, read.function.as_str())
}

/// Whether a machine, told to make a table of a JSON text and keep it, may have come to
/// this.
pub closed spec fn table_kept(
    lua: mlua::Lua,
    told: Text,
    table: Result<mlua::RegistryKey, mlua::Error>,
) -> bool {
    exists|words: &str|
        words@ == told && #[trigger] call_ensures(keep_context, (&lua, words), table)
}

/// Whether a call of the function under a key, with the table under another, may have
/// come to this.
pub closed spec fn hook_returned(
    lua: mlua::Lua,
    key: mlua::RegistryKey,
    table: mlua::RegistryKey,
    outcome: Result<HookReturn, mlua::Error>,
) -> bool {
    call_ensures(
        call_kept,
        (&lua, &key, &table, "block", "inject_context", "modified_input"),
        outcome,
    )
}

/// Whether an answer is what a call of a hook came to: what the hook returned, or
/// nothing where the call failed.
pub open spec fn is_answer(
    lua: mlua::Lua,
    key: mlua::RegistryKey,
    table: mlua::RegistryKey,
    answer: Option<ReturnView>,
) -> bool {
    match answer {
        Some(v) => exists|o: HookReturn|
            o@ == v && #[trigger] hook_returned(lua, key, table, Ok(o)),
        None => exists|e: mlua::Error| #[trigger] hook_returned(lua, key, table, Err(e)),
    }
}

/// Whether an answer is what a planned call came to; where no table could be kept, there
/// is no answer.
pub open spec fn is_answered(
    x: ExecutorView,
    call: HookCall<Text>,
    table: Result<mlua::RegistryKey, mlua::Error>,
    answer: Option<ReturnView>,
) -> bool {
    match table {
        Ok(t) => is_answer(x.lua, x.hooks[call.place as int].1, t, answer),
        Err(_) => answer is None,
    }
}

/// Whether answers are what the calls for an event came to, each of them with the table
/// that was kept of what hooks are told.
pub open spec fn are_answers(
    x: ExecutorView,
    event: HookEvent,
    told: Seq<(Text, context::ValueView)>,
    table: Result<mlua::RegistryKey, mlua::Error>,
    answers: Seq<Option<ReturnView>>,
) -> bool {
    let calls = calls_of(x, event, told);
    &&& answers.len() == calls.len()
    &&& calls.len() > 0 ==> table_kept(x.lua, context::object_text(told), table)
    &&& forall|k: int|
        0 <= k < calls.len() ==> #[trigger] is_answered(x, calls[k], table, answers[k])
}

/// Whether answers are what the calls for an event came to.
pub open spec fn answered(
    x: ExecutorView,
    event: HookEvent,
    told: Seq<(Text, context::ValueView)>,
    answers: Seq<Option<ReturnView>>,
) -> bool {
    exists|table: Result<mlua::RegistryKey, mlua::Error>|
        #[trigger] are_answers(x, event, told, table, answers)
}

impl HookExecutor {
    /// An executor without hooks.
    pub fn new(lua: mlua::Lua) -> (r: HookExecutor)
        ensures
            r@ == (ExecutorView { lua, hooks: Seq::empty() }),
    {
        let r = HookExecutor { lua, hooks: Vec::new() };
        assert(r@ =~= ExecutorView { lua, hooks: Seq::empty() });
        r
    }

    /// Add a hook for an event, where the machine could keep its function.
    pub fn add_kept(
        &mut self,
        event: HookEvent,
        kept: Result<mlua::RegistryKey, mlua::Error>,
    ) -> (r: Result<(), HookError>)
        ensures
            match kept {
                Ok(key) => r is Ok && final(self)@ == (ExecutorView {
                    hooks: old(self)@.hooks.push((event, key)),
                    ..old(self)@
                }),
                Err(e) => r == Err::<(), HookError>((HookError { cause: e })) && final(self)@
                    == old(self)@,
            },
    {
        match kept {
            Ok(key) => {
                self.hooks.push(StoredHook { event, key });
                assert(self@.hooks =~= old(self)@.hooks.push((event, key)));
                Ok(())
            },
            Err(e) => Err(HookError { cause: e }),
        }
    }

    /// Add a hook for an event, behind those that there are: the function of the entry
    /// at a place of the machine's list, which is read as `planned_read` says. Where the
    /// machine cannot keep it, there is none more.
    pub fn register(&mut self, event: HookEvent, place: usize) -> (r: Result<(), HookError>)
        ensures
            match r {
                Ok(_) => exists|key: mlua::RegistryKey|
                    final(self)@ == (ExecutorView {
                        hooks: #[trigger] old(self)@.hooks.push((event, key)),
                        ..old(self)@
                    }) && function_kept(old(self)@.lua, entry_at(place), Ok(key)),
                Err(e) => final(self)@ == old(self)@ && function_kept(
                    old(self)@.lua,
                    entry_at(place),
                    Err(e.cause),
                ),
            },
    {
        let read = planned_read(place);
        let kept = keep_entry(&self.lua, &read);
        self.add_kept(event, kept)
    }

    /// The places of the hooks of an event, in the order in which they were registered.
    fn hooks_at(&self, event: HookEvent) -> (r: Vec<usize>)
        ensures
            r@.map_values(|i: usize| i as int) == places_of(self@.events(), event),
    {
        let ghost all = self@.events();
        let mut out: Vec<usize> = Vec::new();
        let mut i: usize = 0;
        assert(out@.map_values(|i: usize| i as int) =~= places_of(all.take(0), event));
        while i < self.hooks.len()
            invariant
                i <= self.hooks@.len(),
                all == self@.events(),
                all.len() == self.hooks@.len(),
                out@.map_values(|i: usize| i as int) == places_of(all.take(i as int), event),
            decreases self.hooks@.len() - i,
        {
            proof {
                assert(all.take(i + 1).drop_last() =~= all.take(i as int));
                assert(all.take(i + 1).last() == self.hooks@[i as int].event);
            }
            if self.hooks[i].event == event {
                let ghost was = out@.map_values(|i: usize| i as int);
                out.push(i);
                assert(out@.map_values(|i: usize| i as int) =~= was.push(i as int));
            }
            i = i + 1;
        }
        assert(all.take(i as int) =~= all);
        out
    }

    /// The calls for an event: each of its hooks once, in the order in which they were
    /// registered, each told the same.
    pub fn planned_calls(&self, event: HookEvent, context: &Vec<(String, HookValue)>) -> (r: Vec<
        HookCall,
    >)
        ensures
            calls_view(r@) == calls_of(self@, event, context::context_view(context@)),
    {
        let at = self.hooks_at(event);
        let told = context::context_text(context);
        let ghost places = places_of(self@.events(), event);
        proof {
            lemma_places(self@.events(), event);
            assert(at@.map_values(|i: usize| i as int).len() == at@.len());
        }
        let mut out: Vec<HookCall> = Vec::new();
        let mut i: usize = 0;
        while i < at.len()
            invariant
                i <= at@.len(),
                places == at@.map_values(|i: usize| i as int),
                out@.len() == i,
                forall|k: int|
                    0 <= k < i ==> (#[trigger] out@[k])@ == (HookCall {
                        place: places[k] as usize,
                        context: told@,
                    }),
            decreases at@.len() - i,
        {
            assert(places[i as int] == at@[i as int] as int);
            out.push(HookCall { place: at[i], context: text::copy(told.as_str()) });
            i = i + 1;
        }
        assert(calls_view(out@) =~= calls_of(self@, event, context::context_view(context@)));
        out
    }

    /// Make the calls for an event: what each hook returned, or nothing where it failed.
    /// All of them are handed one table, so that one sees what another put into it.
    fn call_hooks(&self, event: HookEvent, context: &Vec<(String, HookValue)>) -> (r: Vec<
        Option<HookReturn>,
    >)
        ensures
            r@.len() == calls_of(self@, event, context::context_view(context@)).len(),
            answered(self@, event, context::context_view(context@), answers_view(r@)),
    {
        let calls = self.planned_calls(event, context);
        let ghost told = context::context_view(context@);
        let ghost planned = calls_of(self@, event, told);
        let mut out: Vec<Option<HookReturn>> = Vec::new();
        proof {
            assert(calls_view(calls@).len() == calls@.len());
            lemma_places(self@.events(), event);
            assert forall|k: int| 0 <= k < calls@.len() implies (#[trigger] calls@[k]).place
                < self.hooks@.len() && calls@[k]@ == planned[k] by {
                assert(calls_view(calls@)[k] == planned[k]);
                assert(planned[k].place == places_of(self@.events(), event)[k] as usize);
            }
        }
        if calls.len() == 0 {
            proof {
                let none = Err::<mlua::RegistryKey, mlua::Error>(arbitrary());
                assert(are_answers(self@, event, told, none, answers_view(out@)));
            }
            return out;
        }
        let table = keep_context(&self.lua, calls[0].context.as_str());
        assert(calls@[0]@ == planned[0]);
        assert(table_kept(self@.lua, context::object_text(told), table));
        let mut i: usize = 0;
        while i < calls.len()
            invariant
                i <= calls@.len(),
                calls@.len() == planned.len(),
                forall|k: int|
                    0 <= k < calls@.len() ==> (#[trigger] calls@[k]).place < self.hooks@.len()
                        && calls@[k]@ == planned[k],
                out@.len() == i,
                forall|k: int|
                    0 <= k < i ==> #[trigger] is_answered(
                        self@,
                        planned[k],
                        table,
                        opt_return(out@[k]),
                    ),
            decreases calls@.len() - i,
        {
            let ghost before = out@;
            let stored = &self.hooks[calls[i].place];
            assert(calls@[i as int]@ == planned[i as int]);
            assert(self@.hooks[planned[i as int].place as int].1 == stored.key);
            let returned = match &table {
                Ok(table) => {
                    let outcome = call_kept(
                        &self.lua,
                        &stored.key,
                        table,
                        "block",
                        "inject_context",
                        "modified_input",
                    );
                    assert(hook_returned(self@.lua, stored.key, *table, outcome));
                    match outcome {
                        Ok(v) => Some(v),
                        Err(_) => None,
                    }
                },
                Err(_) => None,
            };
            out.push(returned);
            assert(is_answered(self@, planned[i as int], table, opt_return(out@[i as int])));
            assert forall|k: int| 0 <= k < i + 1 implies #[trigger] is_answered(
                self@,
                planned[k],
                table,
                opt_return(out@[k]),
            ) by {
                if k < i {
                    assert(is_answered(self@, planned[k], table, opt_return(before[k])));
                }
            }
            i = i + 1;
        }
        proof {
            let answers = answers_view(out@);
            assert forall|k: int| 0 <= k < planned.len() implies #[trigger] is_answered(
                self@,
                planned[k],
                table,
                answers[k],
            ) by {
                assert(is_answered(self@, planned[k], table, opt_return(out@[k])));
            }
            assert(are_answers(self@, event, told, table, answers));
        }
        out
    }

    /// Make the calls that `planned_calls` says for an event. One that fails does not
    /// keep the others from being made.
    pub fn execute(&self, event: HookEvent, context: &Vec<(String, HookValue)>) -> (r: Vec<
        HookResult,
    >)
        ensures
            exists|answers: Seq<Option<ReturnView>>|
                answered(self@, event, context::context_view(context@), answers) && answers.len()
                    == calls_of(self@, event, context::context_view(context@)).len()
                    && types::results_view(r@) == #[trigger] all_asked(event, answers),
    {
        let answers = self.call_hooks(event, context);
        let ghost all = answers_view(answers@);
        let r = collect_asked(event, answers);
        assert(types::results_view(r@) == all_asked(event, all));
        r
    }

    /// Make the calls for an event: the reason of the first hook that blocks.
    pub fn execute_first_block(&self, event: HookEvent, context: &Vec<(String, HookValue)>) -> (r:
        Option<String>)
        ensures
            exists|answers: Seq<Option<ReturnView>>|
                answered(self@, event, context::context_view(context@), answers) && answers.len()
                    == calls_of(self@, event, context::context_view(context@)).len()
                    && text::opt_text(r) == first_block_of(#[trigger] all_asked(event, answers)),
    {
        let results = self.execute(event, context);
        first_block(&results)
    }

    /// Make the calls for what the user submitted: what is to be taken instead.
    pub fn execute_user_message(&self, context: &Vec<(String, HookValue)>) -> (r: Option<String>)
        ensures
            exists|answers: Seq<Option<ReturnView>>|
                answered(
                    self@,
                    HookEvent::UserMessage,
                    context::context_view(context@),
                    answers,
                ) && answers.len() == calls_of(
                    self@,
                    HookEvent::UserMessage,
                    context::context_view(context@),
                ).len() && text::opt_text(r) == first_input_of(
                    #[trigger] all_asked(HookEvent::UserMessage, answers),
                ),
    {
        let results = self.execute(HookEvent::UserMessage, context);
        first_input(&results)
    }

    /// Make the calls before the model is asked: what it is to be told as well.
    pub fn execute_pre_llm(&self, context: &Vec<(String, HookValue)>) -> (r: Vec<String>)
        ensures
            exists|answers: Seq<Option<ReturnView>>|
                answered(
                    self@,
                    HookEvent::PreLlmCall,
                    context::context_view(context@),
                    answers,
                ) && answers.len() == calls_of(
                    self@,
                    HookEvent::PreLlmCall,
                    context::context_view(context@),
                ).len() && text::texts(r@) == contexts_of(
                    #[trigger] all_asked(HookEvent::PreLlmCall, answers),
                ),
    {
        let results = self.execute(HookEvent::PreLlmCall, context);
        contexts(&results)
    }

    /// How many hooks there are.
    pub fn hook_count(&self) -> (r: usize)
        ensures
            r == self@.hooks.len(),
    {
        self.hooks.len()
    }

    fn count_for(&self, event: HookEvent, upto: usize) -> (r: usize)
        requires
            upto <= self@.hooks.len(),
        ensures
            r == hooks_for(self@.events().take(upto as int), event),
            r <= upto,
    {
        let ghost all = self@.events();
        let mut n: usize = 0;
        let mut i: usize = 0;
        assert(hooks_for(all.take(0), event) == 0);
        while i < upto
            invariant
                i <= upto <= self.hooks@.len(),
                all == self@.events(),
                n <= i,
                n == hooks_for(all.take(i as int), event),
            decreases upto - i,
        {
            proof {
                assert(all.take(i + 1).drop_last() =~= all.take(i as int));
                assert(all.take(i + 1).last() == self.hooks@[i as int].event);
            }
            if self.hooks[i].event == event {
                n = n + 1;
            }
            i = i + 1;
        }
        n
    }

    /// Whether an event has hooks.
    pub fn has_hooks_for(&self, event: HookEvent) -> (r: bool)
        ensures
            r == self@.events().contains(event),
    {
        let n: usize = self.count_for(event, self.hooks.len());
        proof {
            assert(self@.events().take(self.hooks@.len() as int) =~= self@.events());
            lemma_hooks_for_contains(self@.events(), event);
        }
        n > 0
    }

    /// The events that have hooks, in the order of their first, with how many.
    pub fn registered_events(&self) -> (r: Vec<(String, usize)>)
        ensures
            counted(r@) == events_with_hooks(self@.events(), self@.events().len() as int),
    {
        let ghost all = self@.events();
        let mut out: Vec<(String, usize)> = Vec::new();
        let mut i: usize = 0;
        assert(counted(out@) =~= events_with_hooks(all, 0));
        assert(all.take(all.len() as int) =~= all);
        while i < self.hooks.len()
            invariant
                i <= self.hooks@.len(),
                all == self@.events(),
                all.len() == self.hooks@.len(),
                all.take(all.len() as int) == all,
                counted(out@) == events_with_hooks(all, i as int),
            decreases self.hooks@.len() - i,
        {
            let event = self.hooks[i].event;
            assert(all[i as int] == event);
            let before: usize = self.count_for(event, i);
            if before == 0 {
                let n: usize = self.count_for(event, self.hooks.len());
                let ghost was = counted(out@);
                out.push((text::copy(types::event_name_for(event)), n));
                assert(counted(out@) =~= was.push((types::event_name(event), n as nat)));
            }
            i = i + 1;
        }
        out
    }
}

proof fn lemma_hooks_for_contains(hooks: Seq<HookEvent>, event: HookEvent)
    ensures
        (hooks_for(hooks, event) > 0) == hooks.contains(event),
    decreases hooks.len(),
{
    if hooks.len() > 0 {
        let rest = hooks.drop_last();
        lemma_hooks_for_contains(rest, event);
        if rest.contains(event) {
            let k = choose|k: int| 0 <= k < rest.len() && rest[k] == event;
            assert(hooks[k] == event);
        }
        if hooks.last() == event {
            assert(hooks[hooks.len() - 1] == event);
        }
        if hooks.contains(event) && hooks.last() != event {
            let k = choose|k: int| 0 <= k < hooks.len() && hooks[k] == event;
            assert(rest[k] == event);
        }
    }
}

/// What a hook asks for at an event that it cannot be asked for at is never
/// acted on: only before a tool runs does a bare answer block, only before the
/// model is asked does it add context, and only for what the user submitted
/// does it change the input.
pub proof fn law_bare_answers_fit_their_event(event: HookEvent, returned: ReturnView)
    requires
        returned is Words || returned is Boolean,
    ensures
        asked(event, returned) matches Some(result) ==> ((result is Block) == (event
            == HookEvent::PreToolUse)) && ((result is InjectContext) == (event
            == HookEvent::PreLlmCall)) && ((result is ModifiedInput) == (event
            == HookEvent::UserMessage)),
{
}

/// A hook that fails makes no difference to what the others ask for.
pub proof fn law_failed_hook_counts_for_nothing(
    event: HookEvent,
    before: Seq<Option<ReturnView>>,
    after: Seq<Option<ReturnView>>,
)
    ensures
        all_asked(event, before + seq![None] + after) == all_asked(event, before + after),
    decreases after.len(),
{
    let with = before + seq![None] + after;
    let without = before + after;
    if after.len() == 0 {
        assert(with.drop_last() =~= before);
        assert(with.last() is None);
        assert(without =~= before);
    } else {
        law_failed_hook_counts_for_nothing(event, before, after.drop_last());
        assert(with.drop_last() =~= before + seq![None] + after.drop_last());
        assert(without.drop_last() =~= before + after.drop_last());
        assert(with.last() == after.last() && without.last() == after.last());
    }
}

/// A hook that is registered is called for its event, behind those that there were, and
/// for no other event.
pub proof fn law_registered_hook_is_called_last(
    x: ExecutorView,
    event: HookEvent,
    key: mlua::RegistryKey,
    at: HookEvent,
    told: Seq<(Text, context::ValueView)>,
)
    requires
        x.hooks.len() <= usize::MAX,
    ensures
        calls_of((ExecutorView { hooks: x.hooks.push((event, key)), ..x }), at, told) == if at
            == event {
            calls_of(x, at, told).push(
                HookCall {
                    place: x.hooks.len() as usize,
                    context: context::object_text(told),
                },
            )
        } else {
            calls_of(x, at, told)
        },
{
    let y = ExecutorView { hooks: x.hooks.push((event, key)), ..x };
    assert(y.events().drop_last() =~= x.events());
    assert(y.events().last() == event);
    assert(calls_of(y, at, told) =~= if at == event {
        calls_of(x, at, told).push(
            HookCall { place: x.hooks.len() as usize, context: context::object_text(told) },
        )
    } else {
        calls_of(x, at, told)
    });
}

/// The first block wins: what hooks after it answer makes no difference.
pub proof fn law_first_block_wins(results: Seq<ResultView>, more: Seq<ResultView>)
    requires
        first_block_of(results) is Some,
    ensures
        first_block_of(results + more) == first_block_of(results),
    decreases results.len(),
{
    assert((results + more)[0] == results[0]);
    if !(results[0] is Block) {
        assert((results + more).drop_first() =~= results.drop_first() + more);
        law_first_block_wins(results.drop_first(), more);
    }
}

/// Why a hook that answers so blocks a tool.
pub open spec fn block_in(answer: Option<ReturnView>) -> Option<Text> {
    match answer {
        Some(HookReturn::Boolean(b)) => if b {
            None
        } else {
            Some("Blocked by hook"@)
        },
        Some(HookReturn::Table { block, .. }) => block,
        Some(HookReturn::Words(s)) => Some(s),
        _ => None,
    }
}

/// What a hook that answers so has taken for what the user submitted.
pub open spec fn input_in(answer: Option<ReturnView>) -> Option<Text> {
    match answer {
        Some(HookReturn::Table { block, inject_context, modified_input }) => if block is None
            && inject_context is None {
            modified_input
        } else {
            None
        },
        Some(HookReturn::Words(s)) => Some(s),
        _ => None,
    }
}

/// What a hook that answers so has the model told as well.
pub open spec fn context_in(answer: Option<ReturnView>) -> Option<Text> {
    match answer {
        Some(HookReturn::Table { block, inject_context, .. }) => if block is None {
            inject_context
        } else {
            None
        },
        Some(HookReturn::Words(s)) => Some(s),
        _ => None,
    }
}

proof fn lemma_first_block_push(results: Seq<ResultView>, x: ResultView)
    ensures
        first_block_of(results.push(x)) == match first_block_of(results) {
            Some(s) => Some(s),
            None => match x {
                HookResult::Block { reason } => Some(reason),
                _ => None,
            },
        },
    decreases results.len(),
{
    let more = results.push(x);
    if results.len() == 0 {
        assert(more.drop_first() =~= results);
    } else {
        assert(more[0] == results[0]);
        assert(more.drop_first() =~= results.drop_first().push(x));
        lemma_first_block_push(results.drop_first(), x);
    }
}

proof fn lemma_first_input_push(results: Seq<ResultView>, x: ResultView)
    ensures
        first_input_of(results.push(x)) == match first_input_of(results) {
            Some(s) => Some(s),
            None => match x {
                HookResult::ModifiedInput(s) => Some(s),
                _ => None,
            },
        },
    decreases results.len(),
{
    let more = results.push(x);
    if results.len() == 0 {
        assert(more.drop_first() =~= results);
    } else {
        assert(more[0] == results[0]);
        assert(more.drop_first() =~= results.drop_first().push(x));
        lemma_first_input_push(results.drop_first(), x);
    }
}

/// The first hook that says no blocks the tool, with its own reason: a bare word, a
/// `block`, or `false`. Where none says no, nothing blocks it.
pub proof fn law_first_refusal_blocks_the_tool(answers: Seq<Option<ReturnView>>)
    ensures
        ({
            let reasons = answers.filter_map(|a: Option<ReturnView>| block_in(a));
            first_block_of(all_asked(HookEvent::PreToolUse, answers)) == if reasons.len() > 0 {
                Some(reasons[0])
            } else {
                None
            }
        }),
    decreases answers.len(),
{
    if answers.len() > 0 {
        let rest = answers.drop_last();
        let f = |a: Option<ReturnView>| block_in(a);
        law_first_refusal_blocks_the_tool(rest);
        let before = all_asked(HookEvent::PreToolUse, rest);
        if let Some(returned) = answers.last() {
            if let Some(result) = asked(HookEvent::PreToolUse, returned) {
                lemma_first_block_push(before, result);
            }
        }
        assert(answers.filter_map(f) == match f(answers.last()) {
            Some(x) => rest.filter_map(f) + seq![x],
            None => rest.filter_map(f),
        });
    }
}

/// The first hook that gives another input has it taken instead of what the user
/// submitted: a bare word, or a `modified_input` with nothing else asked for. Where none
/// gives any, what the user submitted stays.
pub proof fn law_first_input_is_taken(answers: Seq<Option<ReturnView>>)
    ensures
        ({
            let inputs = answers.filter_map(|a: Option<ReturnView>| input_in(a));
            first_input_of(all_asked(HookEvent::UserMessage, answers)) == if inputs.len() > 0 {
                Some(inputs[0])
            } else {
                None
            }
        }),
    decreases answers.len(),
{
    if answers.len() > 0 {
        let rest = answers.drop_last();
        let f = |a: Option<ReturnView>| input_in(a);
        law_first_input_is_taken(rest);
        let before = all_asked(HookEvent::UserMessage, rest);
        if let Some(returned) = answers.last() {
            if let Some(result) = asked(HookEvent::UserMessage, returned) {
                lemma_first_input_push(before, result);
            }
        }
        assert(answers.filter_map(f) == match f(answers.last()) {
            Some(x) => rest.filter_map(f) + seq![x],
            None => rest.filter_map(f),
        });
    }
}

/// Everything that hooks have the model told as well reaches it, in their order: each
/// bare word, and each `inject_context` without a `block`.
pub proof fn law_every_context_is_told(answers: Seq<Option<ReturnView>>)
    ensures
        contexts_of(all_asked(HookEvent::PreLlmCall, answers)) == answers.filter_map(
            |a: Option<ReturnView>| context_in(a),
        ),
    decreases answers.len(),
{
    let f = |a: Option<ReturnView>| context_in(a);
    if answers.len() > 0 {
        let rest = answers.drop_last();
        law_every_context_is_told(rest);
        let before = all_asked(HookEvent::PreLlmCall, rest);
        if let Some(returned) = answers.last() {
            if let Some(result) = asked(HookEvent::PreLlmCall, returned) {
                assert(before.push(result).drop_last() =~= before);
            }
        }
        assert(answers.filter_map(f) == match f(answers.last()) {
            Some(x) => rest.filter_map(f) + seq![x],
            None => rest.filter_map(f),
        });
        assert(contexts_of(all_asked(HookEvent::PreLlmCall, answers)) =~= answers.filter_map(f));
    } else {
        assert(answers.filter_map(f) =~= Seq::<Text>::empty());
    }
}

/// No answer is made up, and none is passed over: the answer at a place is what the hook
/// of the event at that place returned for the table that all of them are handed, and
/// there is none only where its call failed.
pub proof fn law_answers_are_what_hooks_returned(
    x: ExecutorView,
    event: HookEvent,
    told: Seq<(Text, context::ValueView)>,
    table: mlua::RegistryKey,
    answers: Seq<Option<ReturnView>>,
    k: int,
)
    requires
        x.hooks.len() <= usize::MAX,
        are_answers(x, event, told, Ok(table), answers),
        0 <= k < answers.len(),
    ensures
        table_kept(x.lua, context::object_text(told), Ok(table)),
        exists|p: int|
            0 <= p < x.hooks.len() && (#[trigger] x.hooks[p]).0 == event && match answers[k] {
                Some(v) => exists|o: HookReturn|
                    o@ == v && #[trigger] hook_returned(x.lua, x.hooks[p].1, table, Ok(o)),
                None => exists|e: mlua::Error|
                    #[trigger] hook_returned(x.lua, x.hooks[p].1, table, Err(e)),
            },
        answers.len() == x.hooks.filter(
            |h: (HookEvent, mlua::RegistryKey)| h.0 == event,
        ).len(),
{
    let calls = calls_of(x, event, told);
    lemma_places(x.events(), event);
    lemma_places_filter(x.hooks, event);
    let p = places_of(x.events(), event)[k];
    assert(is_answered(x, calls[k], Ok(table), answers[k]));
    assert(calls[k].place == p as usize);
    assert(x.events()[p] == x.hooks[p].0);
    assert(x.hooks[p].0 == event);
}

proof fn lemma_places_filter(hooks: Seq<(HookEvent, mlua::RegistryKey)>, event: HookEvent)
    ensures
        places_of(hooks.map_values(|h: (HookEvent, mlua::RegistryKey)| h.0), event).len()
            == hooks.filter(|h: (HookEvent, mlua::RegistryKey)| h.0 == event).len(),
    decreases hooks.len(),
{
    reveal(Seq::filter);
    let events = hooks.map_values(|h: (HookEvent, mlua::RegistryKey)| h.0);
    if hooks.len() > 0 {
        lemma_places_filter(hooks.drop_last(), event);
        assert(events.drop_last() =~= hooks.drop_last().map_values(
            |h: (HookEvent, mlua::RegistryKey)| h.0,
        ));
        assert(events.last() == hooks.last().0);
    }
}

/// What a hook returned is what came back from the machine, asked to run that function
/// with that table, and to read a table that it returns by these three names.
proof fn law_hooks_are_called(
    lua: mlua::Lua,
    key: mlua::RegistryKey,
    table: mlua::RegistryKey,
    outcome: Result<HookReturn, mlua::Error>,
)
    requires
        hook_returned(lua, key, table, outcome),
    ensures
        call_ensures(
            call_kept,
            (&lua, &key, &table, "block", "inject_context", "modified_input"),
            outcome,
        ),
{
}

/// The table that hooks are handed is what the machine made of what they are told.
proof fn law_hooks_are_told(
    lua: mlua::Lua,
    told: Seq<(Text, context::ValueView)>,
    table: Result<mlua::RegistryKey, mlua::Error>,
)
    requires
        table_kept(lua, context::object_text(told), table),
    ensures
        exists|words: &str|
            words@ == context::object_text(told) && #[trigger] call_ensures(
                keep_context,
                (&lua, words),
                table,
            ),
{
}

/// Each hook that is registered is counted under its event, and under no other.
pub proof fn law_hooks_are_counted_by_event(
    hooks: Seq<HookEvent>,
    event: HookEvent,
    other: HookEvent,
)
    ensures
        hooks_for(hooks.push(event), event) == hooks_for(hooks, event) + 1,
        other != event ==> hooks_for(hooks.push(event), other) == hooks_for(hooks, other),
        hooks_for(Seq::empty(), event) == 0,
{
    assert(hooks.push(event).drop_last() =~= hooks);
}

} // verus!
