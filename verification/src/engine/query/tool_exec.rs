//! Running the tools that the model calls: which calls may run side by side,
//! and what each goes through, from its hooks and permissions to its result.

use crate::engine::query::json_utils;
use crate::engine::query::tool_display;
use crate::json;
use crate::json::Json;
use crate::json::JsonView;
use crate::paths;
use crate::text;
use crate::text::Text;
use vstd::prelude::*;
use vstd::string::*;

verus! {

/// A tool call as the stream delivered it.
pub struct CollectedToolUse<S = String> {
    pub id: S,
    pub name: S,
    pub input_json: S,
}

/// What a tool call holds.
pub type CallView = CollectedToolUse<Text>;

impl View for CollectedToolUse<String> {
    type V = CollectedToolUse<Text>;

    open spec fn view(&self) -> CollectedToolUse<Text> {
        CollectedToolUse { id: self.id@, name: self.name@, input_json: self.input_json@ }
    }
}

impl CollectedToolUse<String> {
    /// A copy of the call.
    pub fn copy(&self) -> (r: CollectedToolUse)
        ensures
            r@ == self@,
    {
        CollectedToolUse {
            id: text::copy(self.id.as_str()),
            name: text::copy(self.name.as_str()),
            input_json: text::copy(self.input_json.as_str()),
        }
    }
}

/// What a list of tool calls holds.
pub open spec fn calls(v: Seq<CollectedToolUse>) -> Seq<CallView> {
    Seq::new(v.len(), |i: int| v[i]@)
}

// ---------------------------------------------------------------------------
// Calls side by side
// ---------------------------------------------------------------------------

/// Whether a tool must never run beside another: it talks to the user.
pub open spec fn never_parallel(name: Text) -> bool {
    name == "ask_user"@
}

/// Whether a tool works on one file.
pub open spec fn is_path_scoped(name: Text) -> bool {
    name == "read"@ || name == "edit"@ || name == "write"@
}

/// A path with `~` replaced by the home directory, where there is one.
pub open spec fn expanded(raw: Text, home: Option<Text>) -> Text {
    match home {
        Some(h) => if text::has_prefix(raw, "~/"@) {
            paths::joined_path(h, raw.skip(2))
        } else if raw == "~"@ {
            h
        } else {
            raw
        },
        None => raw,
    }
}

/// The file that a call works on, as an absolute path.
pub open spec fn scope_path(
    name: Text,
    input: JsonView,
    cwd: Text,
    home: Option<Text>,
) -> Option<Text> {
    match json::str_member(input, "path"@) {
        Some(raw) => if is_path_scoped(name) && raw.len() > 0 {
            Some(paths::joined_path(cwd, expanded(raw, home)))
        } else {
            None
        },
        None => None,
    }
}

/// Whether arguments can be looked into: they are a JSON object.
pub open spec fn is_object(input: Option<JsonView>) -> bool {
    match input {
        Some(v) => v.members is Some,
        None => false,
    }
}

/// Whether two calls work on overlapping paths.
pub open spec fn calls_overlap(
    a: Text,
    a_input: JsonView,
    b: Text,
    b_input: JsonView,
    cwd: Text,
    home: Option<Text>,
) -> bool {
    match (scope_path(a, a_input, cwd, home), scope_path(b, b_input, cwd, home)) {
        (Some(p), Some(q)) => paths::overlapping(p, q),
        _ => false,
    }
}

/// Whether calls with the given arguments may run side by side: one alone
/// always; several when none talks to the user, all arguments can be looked
/// into, and no two work on overlapping paths.
pub open spec fn parallel_safe(
    names: Seq<Text>,
    inputs: Seq<Option<JsonView>>,
    cwd: Text,
    home: Option<Text>,
) -> bool {
    names.len() <= 1 || {
        &&& forall|i: int| 0 <= i < names.len() ==> !never_parallel(#[trigger] names[i])
        &&& forall|i: int| 0 <= i < inputs.len() ==> is_object(#[trigger] inputs[i])
        &&& forall|i: int, j: int|
            0 <= i < j < names.len() ==> !calls_overlap(
                #[trigger] names[i],
                inputs[i]->Some_0,
                #[trigger] names[j],
                inputs[j]->Some_0,
                cwd,
                home,
            )
    }
}

/// What a list of optional documents holds.
pub open spec fn opt_jsons(v: Seq<Option<Json>>) -> Seq<Option<JsonView>> {
    Seq::new(v.len(), |i: int| json_utils::opt_json(v[i]))
}

fn expand(raw: &str, home: &Option<String>) -> (r: String)
    ensures
        r@ == expanded(raw@, text::opt_text(*home)),
{
    proof {
        reveal_strlit("~/");
    }
    match home {
        Some(h) => match text::strip_prefix(raw, "~/") {
            Some(rest) => paths::join(h.as_str(), rest.as_str()),
            None => if text::same(raw, "~") {
                text::copy(h.as_str())
            } else {
                text::copy(raw)
            },
        },
        None => text::copy(raw),
    }
}

/// The file that a call works on, as an absolute path.
pub fn extract_scope_path(
    tool_name: &str,
    input: &Json,
    cwd: &str,
    home: &Option<String>,
) -> (r: Option<String>)
    ensures
        text::opt_text(r) == scope_path(tool_name@, input@, cwd@, text::opt_text(*home)),
{
    if !(text::same(tool_name, "read") || text::same(tool_name, "edit") || text::same(
        tool_name,
        "write",
    )) {
        return None;
    }
    match input.get_str("path") {
        Some(raw) => {
            if raw.as_str().is_empty() {
                return None;
            }
            let e = expand(raw.as_str(), home);
            Some(paths::join(cwd, e.as_str()))
        },
        None => None,
    }
}

/// Whether calls with the given arguments may run side by side.
pub fn is_parallel_safe(
    names: &Vec<String>,
    inputs: &Vec<Option<Json>>,
    cwd: &str,
    home: &Option<String>,
) -> (r: bool)
    requires
        names@.len() == inputs@.len(),
    ensures
        r == parallel_safe(
            text::texts(names@),
            opt_jsons(inputs@),
            cwd@,
            text::opt_text(*home),
        ),
{
    let ghost ns = text::texts(names@);
    let ghost is = opt_jsons(inputs@);
    let ghost h = text::opt_text(*home);
    if names.len() <= 1 {
        return true;
    }
    let mut scopes: Vec<Option<String>> = Vec::new();
    let mut i: usize = 0;
    while i < names.len()
        invariant
            i <= names@.len(),
            1 < names@.len(),
            names@.len() == inputs@.len(),
            ns == text::texts(names@),
            is == opt_jsons(inputs@),
            h == text::opt_text(*home),
            scopes@.len() == i,
            forall|k: int| 0 <= k < i ==> !never_parallel(#[trigger] ns[k]),
            forall|k: int| 0 <= k < i ==> is_object(#[trigger] is[k]),
            forall|k: int|
                0 <= k < i ==> text::opt_text(#[trigger] scopes@[k]) == scope_path(
                    ns[k],
                    is[k]->Some_0,
                    cwd@,
                    h,
                ),
            forall|a: int, b: int|
                0 <= a < b < i ==> !calls_overlap(
                    #[trigger] ns[a],
                    is[a]->Some_0,
                    #[trigger] ns[b],
                    is[b]->Some_0,
                    cwd@,
                    h,
                ),
        decreases names@.len() - i,
    {
        assert(ns[i as int] == names@[i as int]@);
        assert(is[i as int] == json_utils::opt_json(inputs@[i as int]));
        if text::same(names[i].as_str(), "ask_user") {
            assert(never_parallel(ns[i as int]));
            return false;
        }
        let scope = match &inputs[i] {
            Some(input) => {
                if input.members.is_none() {
                    assert(!is_object(is[i as int]));
                    return false;
                }
                extract_scope_path(names[i].as_str(), input, cwd, home)
            },
            None => {
                assert(!is_object(is[i as int]));
                return false;
            },
        };
        if let Some(p) = &scope {
            let mut k: usize = 0;
            while k < scopes.len()
                invariant
                    k <= scopes@.len(),
                    scopes@.len() == i,
                    i < names@.len(),
                    1 < names@.len(),
                    names@.len() == inputs@.len(),
                    ns == text::texts(names@),
                    is == opt_jsons(inputs@),
                    h == text::opt_text(*home),
                    forall|m: int|
                        0 <= m < i ==> text::opt_text(#[trigger] scopes@[m]) == scope_path(
                            ns[m],
                            is[m]->Some_0,
                            cwd@,
                            h,
                        ),
                    scope_path(ns[i as int], is[i as int]->Some_0, cwd@, h) == Some(p@),
                    forall|m: int|
                        0 <= m < k ==> !calls_overlap(
                            #[trigger] ns[m],
                            is[m]->Some_0,
                            ns[i as int],
                            is[i as int]->Some_0,
                            cwd@,
                            h,
                        ),
                decreases scopes@.len() - k,
            {
                if let Some(q) = &scopes[k] {
                    assert(text::opt_text(scopes@[k as int]) == Some(q@));
                    if paths::paths_overlap(q.as_str(), p.as_str()) {
                        assert(calls_overlap(
                            ns[k as int],
                            is[k as int]->Some_0,
                            ns[i as int],
                            is[i as int]->Some_0,
                            cwd@,
                            h,
                        ));
                        return false;
                    }
                } else {
                    assert(text::opt_text(scopes@[k as int]) is None);
                }
                k = k + 1;
            }
        }
        scopes.push(scope);
        i = i + 1;
    }
    true
}

/// The names of tool calls.
pub open spec fn call_names(tus: Seq<CallView>) -> Seq<Text> {
    tus.map_values(|t: CallView| t.name)
}

/// The arguments of tool calls, where they parse.
pub open spec fn call_inputs(tus: Seq<CallView>) -> Seq<Option<JsonView>> {
    tus.map_values(
        |t: CallView|
            match json_utils::tool_input(t.input_json) {
                Ok(v) => Some(v),
                Err(_) => None,
            },
    )
}

/// Whether tool calls may run side by side, with a given home directory.
pub open spec fn may_run_together(tus: Seq<CallView>, cwd: Text, home: Option<Text>) -> bool {
    parallel_safe(call_names(tus), call_inputs(tus), cwd, home)
}

/// Whether tool calls may run side by side, with a given home directory.
pub fn should_parallelize_in(
    tool_uses: &Vec<CollectedToolUse>,
    cwd: &str,
    home: &Option<String>,
) -> (r: bool)
    ensures
        r == may_run_together(calls(tool_uses@), cwd@, text::opt_text(*home)),
{
    let ghost tus = calls(tool_uses@);
    let mut names: Vec<String> = Vec::new();
    let mut inputs: Vec<Option<Json>> = Vec::new();
    let mut i: usize = 0;
    while i < tool_uses.len()
        invariant
            i <= tool_uses@.len(),
            tus == calls(tool_uses@),
            names@.len() == i,
            inputs@.len() == i,
            forall|k: int| 0 <= k < i ==> (#[trigger] names@[k])@ == tus[k].name,
            forall|k: int|
                0 <= k < i ==> json_utils::opt_json(#[trigger] inputs@[k]) == call_inputs(tus)[k],
        decreases tool_uses@.len() - i,
    {
        let t = &tool_uses[i];
        assert(tus[i as int] == t@);
        names.push(text::copy(t.name.as_str()));
        let input = match json_utils::parse_tool_input(t.input_json.as_str()) {
            Ok(v) => Some(v),
            Err(_) => None,
        };
        assert(json_utils::opt_json(input) == call_inputs(tus)[i as int]);
        inputs.push(input);
        i = i + 1;
    }
    assert(text::texts(names@) =~= call_names(tus));
    assert(opt_jsons(inputs@) =~= call_inputs(tus));
    is_parallel_safe(&names, &inputs, cwd, home)
}

/// Whether a batch of tool calls is safe to run side by side.
pub fn should_parallelize(tool_uses: &Vec<CollectedToolUse>, cwd: &str) -> (r: bool)
    ensures
        exists|home: Option<Text>| r == may_run_together(calls(tool_uses@), cwd@, home),
{
    let home = paths::home_dir();
    let r = should_parallelize_in(tool_uses, cwd, &home);
    assert(r == may_run_together(calls(tool_uses@), cwd@, text::opt_text(home)));
    r
}

/// Calls that run side by side never work on overlapping paths, and a call that
/// talks to the user never runs beside another.
pub proof fn law_parallel_calls_do_not_collide(
    tus: Seq<CallView>,
    cwd: Text,
    home: Option<Text>,
    i: int,
    j: int,
)
    requires
        may_run_together(tus, cwd, home),
        0 <= i < j < tus.len(),
    ensures
        !never_parallel(tus[i].name),
        !never_parallel(tus[j].name),
        call_inputs(tus)[i] is Some,
        call_inputs(tus)[j] is Some,
        match (
            scope_path(tus[i].name, call_inputs(tus)[i]->Some_0, cwd, home),
            scope_path(tus[j].name, call_inputs(tus)[j]->Some_0, cwd, home),
        ) {
            (Some(p), Some(q)) => !paths::overlapping(p, q),
            _ => true,
        },
{
    let names = call_names(tus);
    let inputs = call_inputs(tus);
    assert(names[i] == tus[i].name);
    assert(names[j] == tus[j].name);
    assert(is_object(inputs[i]));
    assert(is_object(inputs[j]));
    assert(!calls_overlap(
        names[i],
        inputs[i]->Some_0,
        names[j],
        inputs[j]->Some_0,
        cwd,
        home,
    ));
}

// ---------------------------------------------------------------------------
// What the user is asked
// ---------------------------------------------------------------------------

/// The first three lines of a text, with an ellipsis where there are more.
pub open spec fn three_lines(s: Text) -> Text {
    let lines = text::lines_of(s);
    if lines.len() > 3 {
        text::joined(lines.take(3), "\n"@) + "…"@
    } else {
        text::joined(lines, "\n"@)
    }
}

/// What is said of an edit: the file, and what is replaced by what.
pub open spec fn edit_detail(input: JsonView) -> Text {
    let path = match tool_display::path_member(input) {
        Some(p) => p,
        None => "file"@,
    };
    let head = if json::bool_member(input, "replace_all"@) == Some(true) {
        "edit "@ + path + " (replace all)"@
    } else {
        "edit "@ + path
    };
    match json::str_member(input, "old_string"@) {
        Some(old_string) => {
            let with_old = head + "\n  - "@ + three_lines(old_string) + "\n  + "@;
            match json::str_member(input, "new_string"@) {
                Some(new_string) => with_old + three_lines(new_string),
                None => with_old,
            }
        },
        None => head,
    }
}

/// What the user reads before allowing a call, from its parsed arguments.
pub open spec fn detail_of(tool_name: Text, input_json: Text, input: JsonView) -> Text {
    if tool_name == "bash"@ {
        match json::str_member(input, "command"@) {
            Some(s) => "$ "@ + text::trimmed(s),
            None => "bash command"@,
        }
    } else if tool_name == "read"@ || tool_name == "read_file"@ {
        match tool_display::path_member(input) {
            Some(p) => "read "@ + p,
            None => "read"@,
        }
    } else if tool_name == "write"@ {
        "write "@ + (match tool_display::path_member(input) {
            Some(p) => p,
            None => "?"@,
        }) + " ("@ + text::decimal(
            match json::str_member(input, "content"@) {
                Some(c) => text::lines_of(c).len(),
                None => 0,
            },
        ) + " lines)"@
    } else if tool_name == "edit"@ {
        edit_detail(input)
    } else if tool_name == "grep"@ {
        "grep "@ + json::str_member_or(input, "pattern"@, "(unknown)"@) + " in "@
            + json::str_member_or(input, "path"@, "cwd"@)
    } else if tool_name == "glob"@ {
        "glob "@ + json::str_member_or(input, "pattern"@, "(unknown)"@) + " in "@
            + json::str_member_or(input, "path"@, "cwd"@)
    } else if tool_name == "web_search"@ {
        match json::str_member(input, "query"@) {
            Some(s) => "web_search: "@ + s,
            None => "web_search"@,
        }
    } else if tool_name == "web_fetch"@ {
        match json::str_member(input, "url"@) {
            Some(s) => "web_fetch "@ + s,
            None => "web_fetch"@,
        }
    } else {
        input_json
    }
}

/// What the user reads before allowing a call.
pub open spec fn permission_detail(tool_name: Text, input_json: Text) -> Text {
    detail_of(tool_name, input_json, json_utils::tool_input_or_empty(input_json))
}

fn show_three_lines(s: &str) -> (r: String)
    ensures
        r@ == three_lines(s@),
{
    let mut lines = text::lines(s);
    let ghost all = text::texts(lines@);
    assert(all.len() == lines@.len());
    if lines.len() > 3 {
        lines.truncate(3);
        assert(text::texts(lines@) =~= all.take(3));
        let joined = text::join(&lines, "\n");
        text::cat2(joined.as_str(), "…")
    } else {
        text::join(&lines, "\n")
    }
}

fn describe_edit(input: &Json) -> (r: String)
    ensures
        r@ == edit_detail(input@),
{
    let path = match tool_display::get_path(input) {
        Some(p) => p,
        None => text::copy("file"),
    };
    let mut detail = if input.get_bool("replace_all") == Some(true) {
        text::cat3("edit ", path.as_str(), " (replace all)")
    } else {
        text::cat2("edit ", path.as_str())
    };
    if let Some(old_string) = input.get_str("old_string") {
        detail.append("\n  - ");
        let old_shown = show_three_lines(old_string.as_str());
        detail.append(old_shown.as_str());
        detail.append("\n  + ");
        if let Some(new_string) = input.get_str("new_string") {
            let new_shown = show_three_lines(new_string.as_str());
            detail.append(new_shown.as_str());
        }
    }
    detail
}

/// What the user reads before allowing a call, given its parsed arguments.
pub fn describe_call(tool_name: &str, input_json: &str, input: &Json) -> (r: String)
    ensures
        r@ == detail_of(tool_name@, input_json@, input@),
{
    if text::same(tool_name, "bash") {
        match input.get_str("command") {
            Some(s) => {
                let t = text::trim(s.as_str());
                text::cat2("$ ", t.as_str())
            },
            None => text::copy("bash command"),
        }
    } else if text::same(tool_name, "read") || text::same(tool_name, "read_file") {
        match tool_display::get_path(input) {
            Some(p) => text::cat2("read ", p.as_str()),
            None => text::copy("read"),
        }
    } else if text::same(tool_name, "write") {
        let path = match tool_display::get_path(input) {
            Some(p) => p,
            None => text::copy("?"),
        };
        let lines: usize = match input.get_str("content") {
            Some(c) => tool_display::line_count(c.as_str()),
            None => 0,
        };
        let n = text::count(lines);
        text::cat5("write ", path.as_str(), " (", n.as_str(), " lines)")
    } else if text::same(tool_name, "edit") {
        describe_edit(input)
    } else if text::same(tool_name, "grep") {
        let pattern = input.get_str_or("pattern", "(unknown)");
        let path = input.get_str_or("path", "cwd");
        text::cat4("grep ", pattern.as_str(), " in ", path.as_str())
    } else if text::same(tool_name, "glob") {
        let pattern = input.get_str_or("pattern", "(unknown)");
        let path = input.get_str_or("path", "cwd");
        text::cat4("glob ", pattern.as_str(), " in ", path.as_str())
    } else if text::same(tool_name, "web_search") {
        match input.get_str("query") {
            Some(s) => text::cat2("web_search: ", s.as_str()),
            None => text::copy("web_search"),
        }
    } else if text::same(tool_name, "web_fetch") {
        match input.get_str("url") {
            Some(s) => text::cat2("web_fetch ", s.as_str()),
            None => text::copy("web_fetch"),
        }
    } else {
        text::copy(input_json)
    }
}

/// What the user reads before allowing a call.
pub fn format_permission_detail(tool_name: &str, input_json: &str) -> (r: String)
    ensures
        r@ == permission_detail(tool_name@, input_json@),
{
    let input = json_utils::parse_tool_input_or_empty(input_json);
    describe_call(tool_name, input_json, &input)
}

/// Calls that cannot get into each other's way do run side by side: none of them talks to
/// the user, their arguments can be looked into, and no two work on overlapping paths.
pub proof fn law_independent_calls_run_together(
    tus: Seq<CallView>,
    cwd: Text,
    home: Option<Text>,
)
    requires
        forall|i: int| 0 <= i < tus.len() ==> (#[trigger] tus[i]).name != "ask_user"@,
        forall|i: int| 0 <= i < tus.len() ==> is_object(#[trigger] call_inputs(tus)[i]),
        forall|i: int, j: int|
            0 <= i < j < tus.len() ==> match (
                scope_path(
                    (#[trigger] tus[i]).name,
                    call_inputs(tus)[i]->Some_0,
                    cwd,
                    home,
                ),
                scope_path(
                    (#[trigger] tus[j]).name,
                    call_inputs(tus)[j]->Some_0,
                    cwd,
                    home,
                ),
            ) {
                (Some(p), Some(q)) => !paths::overlapping(p, q),
                _ => true,
            },
    ensures
        may_run_together(tus, cwd, home),
{
    let names = call_names(tus);
    let inputs = call_inputs(tus);
    assert forall|i: int| 0 <= i < names.len() implies !never_parallel(#[trigger] names[i]) by {
        assert(tus[i].name == names[i]);
    }
    assert forall|i: int| 0 <= i < inputs.len() implies is_object(#[trigger] inputs[i]) by {}
    assert forall|i: int, j: int| 0 <= i < j < names.len() implies !calls_overlap(
        #[trigger] names[i],
        inputs[i]->Some_0,
        #[trigger] names[j],
        inputs[j]->Some_0,
        cwd,
        home,
    ) by {
        assert(tus[i].name == names[i] && tus[j].name == names[j]);
    }
}

/// Before the user allows a call, they read what it would do: the whole command, the file
/// that is read, written or edited, and the arguments of a tool that is not known.
pub proof fn law_the_user_reads_what_would_run(name: Text, input_json: Text, input: JsonView)
    ensures
        name == "bash"@ ==> (json::str_member(input, "command"@) matches Some(s)
            ==> text::has_suffix(detail_of(name, input_json, input), text::trimmed(s))),
        name == "read"@ || name == "write"@ || name == "edit"@ ==> (tool_display::path_member(input)
            matches Some(p) ==> text::has_substring(detail_of(name, input_json, input), p)),
        name == "web_fetch"@ ==> (json::str_member(input, "url"@) matches Some(s)
            ==> text::has_suffix(detail_of(name, input_json, input), s)),
        name != "bash"@ && name != "read"@ && name != "read_file"@ && name != "write"@ && name
            != "edit"@ && name != "grep"@ && name != "glob"@ && name != "web_search"@ && name
            != "web_fetch"@ ==> detail_of(name, input_json, input) == input_json,
{
    lemma_names_differ();
    let shown = detail_of(name, input_json, input);
    if name == "bash"@ {
        if let Some(s) = json::str_member(input, "command"@) {
            let t = text::trimmed(s);
            assert(shown.subrange(shown.len() - t.len(), shown.len() as int) =~= t);
        }
    }
    if name == "web_fetch"@ {
        if let Some(s) = json::str_member(input, "url"@) {
            assert(shown.subrange(shown.len() - s.len(), shown.len() as int) =~= s);
        }
    }
    if let Some(p) = tool_display::path_member(input) {
        if name == "read"@ {
            text::lemma_both_stand("read "@, p);
        } else if name == "write"@ {
            let n = text::decimal(
                match json::str_member(input, "content"@) {
                    Some(c) => text::lines_of(c).len(),
                    None => 0,
                },
            );
            let tail = " ("@ + n + " lines)"@;
            text::lemma_stands_between("write "@, p, tail);
            assert(shown =~= "write "@ + p + tail);
        } else if name == "edit"@ {
            lemma_edit_names_its_file(input, p);
        }
    }
}

proof fn lemma_names_differ()
    ensures
        "read"@ != "bash"@,
        "write"@ != "bash"@,
        "edit"@ != "bash"@,
        "web_fetch"@ != "bash"@,
        "write"@ != "read"@,
        "edit"@ != "read"@,
        "web_fetch"@ != "read"@,
        "write"@ != "read_file"@,
        "edit"@ != "read_file"@,
        "web_fetch"@ != "read_file"@,
        "edit"@ != "write"@,
        "web_fetch"@ != "write"@,
        "web_fetch"@ != "edit"@,
        "web_fetch"@ != "grep"@,
        "web_fetch"@ != "glob"@,
        "web_fetch"@ != "web_search"@,
{
    reveal_strlit("bash");
    reveal_strlit("read");
    reveal_strlit("read_file");
    reveal_strlit("write");
    reveal_strlit("edit");
    reveal_strlit("grep");
    reveal_strlit("glob");
    reveal_strlit("web_search");
    reveal_strlit("web_fetch");
    assert("bash"@[0] == 'b' && "read"@[0] == 'r' && "read_file"@[0] == 'r' && "write"@[0] == 'w'
        && "edit"@[0] == 'e' && "grep"@[0] == 'g' && "glob"@[0] == 'g');
    assert("web_search"@.len() == 10 && "web_fetch"@.len() == 9 && "write"@.len() == 5);
    assert("web_fetch"@[0] == 'w');
}

proof fn lemma_edit_names_its_file(input: JsonView, p: Text)
    requires
        tool_display::path_member(input) == Some(p),
    ensures
        text::has_substring(edit_detail(input), p),
{
    let shown = edit_detail(input);
    let all = json::bool_member(input, "replace_all"@) == Some(true);
    let head = if all {
        "edit "@ + p + " (replace all)"@
    } else {
        "edit "@ + p
    };
    if all {
        text::lemma_stands_between("edit "@, p, " (replace all)"@);
    } else {
        text::lemma_both_stand("edit "@, p);
    }
    if let Some(old_string) = json::str_member(input, "old_string"@) {
        let a = "\n  - "@ + three_lines(old_string) + "\n  + "@;
        let with_old = head + "\n  - "@ + three_lines(old_string) + "\n  + "@;
        assert(with_old =~= head + a);
        text::lemma_both_stand(head, a);
        text::lemma_stands_within(with_old, head, p);
        if let Some(new_string) = json::str_member(input, "new_string"@) {
            text::lemma_both_stand(with_old, three_lines(new_string));
            text::lemma_stands_within(shown, with_old, p);
        }
    }
}

/// Two calls that read, edit or write one and the same file never run side by side, nor
/// does a call that asks the user beside any other, nor one whose arguments are no object.
pub proof fn law_calls_on_one_file_wait_for_each_other(
    tus: Seq<CallView>,
    cwd: Text,
    home: Option<Text>,
    i: int,
    j: int,
    path: Text,
)
    requires
        0 <= i < j < tus.len(),
    ensures
        tus[i].name == "ask_user"@ ==> !may_run_together(tus, cwd, home),
        (call_inputs(tus)[i] matches Some(a) ==> a.members is None) ==> !may_run_together(
            tus,
            cwd,
            home,
        ),
        path.len() > 0 && (tus[i].name == "read"@ || tus[i].name == "edit"@ || tus[i].name
            == "write"@) && (tus[j].name == "read"@ || tus[j].name == "edit"@ || tus[j].name
            == "write"@) && (call_inputs(tus)[i] matches Some(a) && json::str_member(a, "path"@)
            == Some(path)) && (call_inputs(tus)[j] matches Some(b) && json::str_member(b, "path"@)
            == Some(path)) ==> !may_run_together(tus, cwd, home),
{
    let names = call_names(tus);
    let inputs = call_inputs(tus);
    assert(names[i] == tus[i].name && names[j] == tus[j].name);
    if may_run_together(tus, cwd, home) {
        assert(!never_parallel(names[i]));
        assert(is_object(inputs[i]));
        assert(!calls_overlap(
            names[i],
            inputs[i]->Some_0,
            names[j],
            inputs[j]->Some_0,
            cwd,
            home,
        ));
    }
}

} // verus!
