//! Repair and parsing of streamed tool arguments.
//!
//! A streamed tool call can end up as malformed JSON when a chunk is lost or
//! cut. A malformed text gives rise to a few candidates, and the first of them
//! that parses is taken in its place.

use crate::json;
use crate::json::Json;
use crate::json::JsonView;
use crate::text;
use crate::text::Text;
use vstd::prelude::*;
use vstd::string::*;

verus! {

// ---------------------------------------------------------------------------
// What the repairs look at
// ---------------------------------------------------------------------------

/// How often `c` stands in `s`.
pub open spec fn occurrences(s: Text, c: char) -> nat
    decreases s.len(),
{
    if s.len() == 0 {
        0
    } else {
        occurrences(s.drop_last(), c) + if s.last() == c {
            1nat
        } else {
            0nat
        }
    }
}

/// Opening braces less closing braces.
pub open spec fn brace_depth(s: Text) -> int {
    occurrences(s, '{') - occurrences(s, '}')
}

/// No prefix of the first `k` characters closes a brace that it did not open.
pub open spec fn never_negative(s: Text, k: int) -> bool {
    forall|j: int| 0 <= j <= k ==> brace_depth(#[trigger] s.take(j)) >= 0
}

/// The length, up to `k`, of the longest prefix whose braces balance and of
/// which no prefix closes too many.
pub open spec fn balanced_end(s: Text, k: int) -> int
    decreases k,
{
    if k <= 0 || (brace_depth(s.take(k)) == 0 && never_negative(s, k)) {
        k
    } else {
        balanced_end(s, k - 1)
    }
}

/// Whether a string literal is open at the end of `s`, and whether the last
/// character is a backslash that escapes what follows.
pub open spec fn string_state(s: Text) -> (bool, bool)
    decreases s.len(),
{
    if s.len() == 0 {
        (false, false)
    } else {
        let (open, escaped) = string_state(s.drop_last());
        if escaped {
            (open, false)
        } else if s.last() == '\\' {
            (open, true)
        } else if s.last() == '"' {
            (!open, false)
        } else {
            (open, false)
        }
    }
}

/// A text without the commas at its end.
pub open spec fn without_end_commas(s: Text) -> Text
    decreases s.len(),
{
    if s.len() > 0 && s.last() == ',' {
        without_end_commas(s.drop_last())
    } else {
        s
    }
}

// ---------------------------------------------------------------------------
// The candidates
// ---------------------------------------------------------------------------

/// Too many closing braces: keep what balances.
pub open spec fn excess_brace_candidates(t: Text) -> Seq<Text> {
    let end = balanced_end(t, t.len() as int);
    if brace_depth(t) < 0 && end > 0 {
        seq![t.take(end)]
    } else {
        Seq::empty()
    }
}

/// A missing closing brace: append it.
pub open spec fn missing_brace_candidates(t: Text) -> Seq<Text> {
    if brace_depth(t) > 0 {
        seq![t.push('}')]
    } else {
        Seq::empty()
    }
}

/// One comma before the closing brace or at the end: drop it.
pub open spec fn comma_candidates(t: Text) -> Seq<Text> {
    if t.len() > 0 && t.last() == '}' {
        let inner = t.drop_last();
        if inner.len() > 0 && inner.last() == ',' {
            seq![inner.drop_last().push('}')]
        } else {
            Seq::empty()
        }
    } else if t.len() > 1 && t.last() == ',' {
        seq![t.drop_last()]
    } else {
        Seq::empty()
    }
}

/// Commas at the end: drop them all, and close the object.
pub open spec fn end_commas_candidates(t: Text) -> Seq<Text> {
    if t.len() > 0 && t.last() == ',' {
        seq![without_end_commas(t), without_end_commas(t).push('}')]
    } else {
        Seq::empty()
    }
}

/// An open string literal: close it, and the object.
pub open spec fn open_string_candidates(t: Text) -> Seq<Text> {
    if string_state(t).0 {
        seq![t.push('"').push('}'), t.push('"')]
    } else {
        Seq::empty()
    }
}

/// The texts that may stand in place of a malformed one, in the order in which
/// they are tried.
pub open spec fn candidates_of(raw: Text) -> Seq<Text> {
    let t = text::trimmed(raw);
    excess_brace_candidates(t) + missing_brace_candidates(t) + comma_candidates(t)
        + end_commas_candidates(t) + open_string_candidates(t)
}

/// The first of `candidates` that parses.
pub open spec fn first_parsing(candidates: Seq<Text>) -> Option<Text>
    decreases candidates.len(),
{
    if candidates.len() == 0 {
        None
    } else if json::json_parsed(candidates[0]) is Ok {
        Some(candidates[0])
    } else {
        first_parsing(candidates.drop_first())
    }
}

fn count_char(v: &Vec<char>, c: char) -> (r: usize)
    ensures
        r == occurrences(v@, c),
{
    let mut n: usize = 0;
    let mut i: usize = 0;
    assert(v@.take(0) =~= Seq::<char>::empty());
    while i < v.len()
        invariant
            i <= v@.len(),
            n <= i,
            n == occurrences(v@.take(i as int), c),
        decreases v@.len() - i,
    {
        assert(v@.take(i + 1).drop_last() =~= v@.take(i as int));
        assert(v@.take(i + 1).last() == v@[i as int]);
        if v[i] == c {
            n = n + 1;
        }
        i = i + 1;
    }
    assert(v@.take(i as int) =~= v@);
    n
}

proof fn lemma_balanced_end_is(s: Text, k: int, e: int)
    requires
        0 <= e <= k <= s.len(),
        e == 0 || (brace_depth(s.take(e)) == 0 && never_negative(s, e)),
        forall|j: int| e < j <= k ==> !(brace_depth(s.take(j)) == 0 && #[trigger] never_negative(s, j)),
    ensures
        balanced_end(s, k) == e,
    decreases k,
{
    if k > e {
        assert(!(brace_depth(s.take(k)) == 0 && never_negative(s, k)));
        lemma_balanced_end_is(s, k - 1, e);
    }
}

fn find_balanced_end(v: &Vec<char>) -> (r: usize)
    ensures
        r <= v@.len(),
        r == balanced_end(v@, v@.len() as int),
{
    let mut depth: usize = 0;
    let mut last_good: usize = 0;
    let mut i: usize = 0;
    assert(v@.take(0) =~= Seq::<char>::empty());
    while i < v.len()
        invariant
            i <= v@.len(),
            last_good <= i,
            depth <= i,
            depth == brace_depth(v@.take(i as int)),
            never_negative(v@, i as int),
            last_good == 0 || (brace_depth(v@.take(last_good as int)) == 0 && never_negative(
                v@,
                last_good as int,
            )),
            forall|j: int|
                last_good < j <= i ==> !(brace_depth(v@.take(j)) == 0 && #[trigger] never_negative(
                    v@,
                    j,
                )),
        decreases v@.len() - i,
    {
        let ghost next = v@.take(i + 1);
        assert(next.drop_last() =~= v@.take(i as int));
        assert(next.last() == v@[i as int]);
        if v[i] == '}' && depth == 0 {
            proof {
                assert(brace_depth(next) == -1);
                assert forall|j: int| last_good < j <= v@.len() implies !(brace_depth(v@.take(j))
                    == 0 && #[trigger] never_negative(v@, j)) by {
                    if j > i {
                        assert(brace_depth(v@.take(i + 1)) < 0);
                    }
                }
                lemma_balanced_end_is(v@, v@.len() as int, last_good as int);
            }
            return last_good;
        }
        if v[i] == '{' {
            depth = depth + 1;
        } else if v[i] == '}' {
            depth = depth - 1;
        }
        assert(depth == brace_depth(next));
        assert(never_negative(v@, i + 1)) by {
            assert forall|j: int| 0 <= j <= i + 1 implies brace_depth(#[trigger] v@.take(j))
                >= 0 by {
                if j <= i {
                    assert(never_negative(v@, i as int));
                }
            }
        }
        i = i + 1;
        if depth == 0 {
            last_good = i;
        }
    }
    proof {
        lemma_balanced_end_is(v@, v@.len() as int, last_good as int);
    }
    last_good
}

fn string_open(v: &Vec<char>) -> (r: bool)
    ensures
        r == string_state(v@).0,
{
    let mut in_string = false;
    let mut escape = false;
    let mut i: usize = 0;
    assert(v@.take(0) =~= Seq::<char>::empty());
    while i < v.len()
        invariant
            i <= v@.len(),
            (in_string, escape) == string_state(v@.take(i as int)),
        decreases v@.len() - i,
    {
        assert(v@.take(i + 1).drop_last() =~= v@.take(i as int));
        assert(v@.take(i + 1).last() == v@[i as int]);
        let c = v[i];
        if escape {
            escape = false;
        } else if c == '\\' {
            escape = true;
        } else if c == '"' {
            in_string = !in_string;
        }
        i = i + 1;
    }
    assert(v@.take(i as int) =~= v@);
    in_string
}

fn end_without_commas(v: &Vec<char>) -> (r: usize)
    ensures
        r <= v@.len(),
        v@.take(r as int) == without_end_commas(v@),
{
    let mut i: usize = v.len();
    assert(v@.take(i as int) =~= v@);
    while i > 0 && v[i - 1] == ','
        invariant
            i <= v@.len(),
            without_end_commas(v@) == without_end_commas(v@.take(i as int)),
        decreases i,
    {
        assert(v@.take(i as int).drop_last() =~= v@.take(i - 1));
        i = i - 1;
    }
    i
}

/// The texts that may stand in place of the malformed `raw`, in the order in
/// which they are tried.
pub fn repair_candidates(raw: &str) -> (r: Vec<String>)
    ensures
        text::texts(r@) == candidates_of(raw@),
{
    let trimmed = text::trim(raw);
    let v = text::to_chars(trimmed.as_str());
    let ghost t = trimmed@;
    let n: usize = v.len();
    let mut out: Vec<String> = Vec::new();
    let ghost mut built: Seq<Text> = Seq::empty();
    assert(text::texts(out@) =~= built);

    // Extra closing braces: keep what balances.
    let opens: usize = count_char(&v, '{');
    let closes: usize = count_char(&v, '}');
    let end: usize = find_balanced_end(&v);
    if closes > opens && end > 0 {
        let s = text::from_chars(&v, 0, end);
        assert(s@ =~= t.take(end as int));
        text::push_text(&mut out, s);
    }
    proof {
        built = built + excess_brace_candidates(t);
        assert(text::texts(out@) =~= built);
    }

    // A missing closing brace.
    if opens > closes {
        let mut s = text::copy(trimmed.as_str());
        s.push('}');
        text::push_text(&mut out, s);
    }
    proof {
        built = built + missing_brace_candidates(t);
        assert(text::texts(out@) =~= built);
    }

    // A comma before the closing brace or at the end.
    if n > 0 && v[n - 1] == '}' {
        if n > 1 && v[n - 2] == ',' {
            let mut s = text::from_chars(&v, 0, n - 2);
            assert(s@ =~= t.drop_last().drop_last());
            s.push('}');
            text::push_text(&mut out, s);
        }
    } else if n > 1 && v[n - 1] == ',' {
        let s = text::from_chars(&v, 0, n - 1);
        assert(s@ =~= t.drop_last());
        text::push_text(&mut out, s);
    }
    proof {
        built = built + comma_candidates(t);
        assert(text::texts(out@) =~= built);
    }

    // Every comma at the end.
    if n > 0 && v[n - 1] == ',' {
        let e: usize = end_without_commas(&v);
        let s = text::from_chars(&v, 0, e);
        assert(s@ =~= without_end_commas(t));
        let mut closed = text::copy(s.as_str());
        closed.push('}');
        text::push_text(&mut out, s);
        text::push_text(&mut out, closed);
    }
    proof {
        built = built + end_commas_candidates(t);
        assert(text::texts(out@) =~= built);
    }

    // A string literal left open.
    if string_open(&v) {
        let mut s = text::copy(trimmed.as_str());
        s.push('"');
        let mut closed = text::copy(s.as_str());
        closed.push('}');
        text::push_text(&mut out, closed);
        text::push_text(&mut out, s);
    }
    proof {
        built = built + open_string_candidates(t);
        assert(text::texts(out@) =~= built);
        assert(built =~= candidates_of(raw@));
    }
    out
}

/// Repair the malformed JSON of a streamed tool call: the first of the
/// candidates that parses.
pub fn try_repair_json(raw: &str) -> (r: Option<String>)
    ensures
        text::opt_text(r) == first_parsing(candidates_of(raw@)),
{
    let candidates = repair_candidates(raw);
    let ghost all = text::texts(candidates@);
    let mut i: usize = 0;
    assert(all.skip(0) =~= all);
    while i < candidates.len()
        invariant
            i <= candidates@.len(),
            all == text::texts(candidates@),
            all == candidates_of(raw@),
            first_parsing(all) == first_parsing(all.skip(i as int)),
        decreases candidates@.len() - i,
    {
        assert(all.skip(i as int)[0] == all[i as int]);
        assert(all.skip(i as int).drop_first() =~= all.skip(i + 1));
        if json::parse_json(candidates[i].as_str()).is_ok() {
            return Some(text::copy(candidates[i].as_str()));
        }
        i = i + 1;
    }
    None
}

// ---------------------------------------------------------------------------
// Parsing
// ---------------------------------------------------------------------------

/// What is said of arguments that neither parse nor can be repaired.
pub open spec fn input_error(input_json: Text, error: Text) -> Text {
    "JSON parse error in tool arguments: "@ + error + ". Raw input (first 200 chars): "@
        + text::first_chars(input_json, 200)
        + " Check for unescaped characters, unclosed brackets, or string values that should be numbers."@
}

/// What the arguments of a tool call come to, from what a direct parse and the
/// repair came to.
pub open spec fn chosen_input(
    input_json: Text,
    direct: Result<JsonView, Text>,
    repaired: Option<JsonView>,
) -> Result<JsonView, Text> {
    if input_json.len() == 0 {
        Ok(json::empty_object_view())
    } else {
        match direct {
            Ok(v) => Ok(v),
            Err(e) => match repaired {
                Some(v) => Ok(v),
                None => Err(input_error(input_json, e)),
            },
        }
    }
}

/// What the first candidate that parses stands for.
pub open spec fn repaired_value(raw: Text) -> Option<JsonView> {
    match first_parsing(candidates_of(raw)) {
        Some(c) => match json::json_parsed(c) {
            Ok(v) => Some(v),
            Err(_) => None,
        },
        None => None,
    }
}

/// What the arguments of a tool call come to.
pub open spec fn tool_input(input_json: Text) -> Result<JsonView, Text> {
    chosen_input(input_json, json::json_parsed(input_json), repaired_value(input_json))
}

/// What an optional document holds.
pub open spec fn opt_json(o: Option<Json>) -> Option<JsonView> {
    match o {
        Some(j) => Some(j@),
        None => None,
    }
}

/// The arguments of a tool call, from what a direct parse of `input_json` and
/// the repair came to: nothing at all is an empty object, and a parse failure
/// that could not be repaired is reported with the start of the raw text.
pub fn choose_tool_input(
    input_json: &str,
    direct: Result<Json, String>,
    repaired: Option<Json>,
) -> (r: Result<Json, String>)
    ensures
        json::parse_view(r) == chosen_input(
            input_json@,
            json::parse_view(direct),
            opt_json(repaired),
        ),
{
    if input_json.is_empty() {
        return Ok(Json::empty_object());
    }
    match direct {
        Ok(v) => Ok(v),
        Err(e) => match repaired {
            Some(v) => Ok(v),
            None => {
                let mut s = text::copy("JSON parse error in tool arguments: ");
                s.append(e.as_str());
                s.append(". Raw input (first 200 chars): ");
                let head = text::take_chars(input_json, 200);
                s.append(head.as_str());
                s.append(
                    " Check for unescaped characters, unclosed brackets, or string values that should be numbers.",
                );
                Err(s)
            },
        },
    }
}

/// Parse the arguments of a tool call, with a repair where they do not parse.
pub fn parse_tool_input(input_json: &str) -> (r: Result<Json, String>)
    ensures
        json::parse_view(r) == tool_input(input_json@),
{
    let direct = json::parse_json(input_json);
    let repaired = match try_repair_json(input_json) {
        Some(c) => match json::parse_json(c.as_str()) {
            Ok(v) => Some(v),
            Err(_) => None,
        },
        None => None,
    };
    choose_tool_input(input_json, direct, repaired)
}

/// What the arguments of a tool call come to where only a display depends on
/// them: an empty object in place of an error.
pub open spec fn tool_input_or_empty(input_json: Text) -> JsonView {
    match tool_input(input_json) {
        Ok(v) => v,
        Err(_) => json::empty_object_view(),
    }
}

/// Parse the arguments of a tool call, with an empty object for what cannot be
/// parsed.
pub fn parse_tool_input_or_empty(input_json: &str) -> (r: Json)
    ensures
        r@ == tool_input_or_empty(input_json@),
{
    match parse_tool_input(input_json) {
        Ok(v) => v,
        Err(_) => Json::empty_object(),
    }
}

/// A text of at most `max_chars` characters, or its start with a mark.
pub open spec fn safely_truncated(s: Text, max_chars: int) -> Text {
    if s.len() <= max_chars {
        s
    } else {
        s.take(max_chars) + "...(truncated)"@
    }
}

/// Truncate `s` to `max_chars` characters, with a mark where something was cut.
pub fn safe_truncate_str(s: &str, max_chars: usize) -> (r: String)
    ensures
        r@ == safely_truncated(s@, max_chars as int),
{
    let n: usize = s.unicode_len();
    if n <= max_chars {
        text::copy(s)
    } else {
        let mut r = text::take_chars(s, max_chars);
        r.append("...(truncated)");
        r
    }
}

// ---------------------------------------------------------------------------
// Laws
// ---------------------------------------------------------------------------

/// What the repair hands back parses, and is one of the candidates.
pub proof fn law_repair_parses(raw: Text)
    ensures
        match first_parsing(candidates_of(raw)) {
            Some(c) => json::json_parsed(c) is Ok && candidates_of(raw).contains(c),
            None => forall|i: int|
                0 <= i < candidates_of(raw).len() ==> json::json_parsed(
                    #[trigger] candidates_of(raw)[i],
                ) is Err,
        },
{
    lemma_first_parsing(candidates_of(raw));
}

proof fn lemma_first_parsing(cs: Seq<Text>)
    ensures
        match first_parsing(cs) {
            Some(c) => json::json_parsed(c) is Ok && cs.contains(c),
            None => forall|i: int|
                0 <= i < cs.len() ==> json::json_parsed(#[trigger] cs[i]) is Err,
        },
    decreases cs.len(),
{
    if cs.len() > 0 {
        if json::json_parsed(cs[0]) is Ok {
            assert(cs.contains(cs[0]));
        } else {
            let rest = cs.drop_first();
            lemma_first_parsing(rest);
            if let Some(c) = first_parsing(rest) {
                let k = choose|k: int| 0 <= k < rest.len() && rest[k] == c;
                assert(cs[k + 1] == c);
            } else {
                assert forall|i: int| 0 <= i < cs.len() implies json::json_parsed(
                    #[trigger] cs[i],
                ) is Err by {
                    if i > 0 {
                        assert(rest[i - 1] == cs[i]);
                    }
                }
            }
        }
    }
}

/// Arguments that parse are taken as they are: no repair touches them.
pub proof fn law_valid_input_is_kept(input_json: Text)
    requires
        input_json.len() > 0,
        json::json_parsed(input_json) is Ok,
    ensures
        tool_input(input_json) == json::json_parsed(input_json),
        Ok::<JsonView, Text>(tool_input_or_empty(input_json)) == json::json_parsed(input_json),
{
}

/// A truncated text has `max_chars` characters of the original before its mark,
/// and a text that fits is unchanged.
pub proof fn law_safe_truncate_keeps_prefix(s: Text, max_chars: int)
    requires
        0 <= max_chars,
    ensures
        safely_truncated(s, max_chars) == s || (s.len() > max_chars && safely_truncated(
            s,
            max_chars,
        ).take(max_chars) == s.take(max_chars)),
        s.len() <= max_chars ==> safely_truncated(s, max_chars) == s,
{
    if s.len() > max_chars {
        assert(safely_truncated(s, max_chars).take(max_chars) =~= s.take(max_chars));
    }
}

/// Broken arguments are repaired where one of the candidates parses, to what the first
/// such candidate stands for; where none does, the model is told why, and what it sent.
/// No arguments are an empty object.
pub proof fn law_broken_input_is_repaired(input_json: Text, i: int)
    requires
        input_json.len() > 0,
        json::json_parsed(input_json) is Err,
    ensures
        0 <= i < candidates_of(input_json).len() && json::json_parsed(candidates_of(input_json)[i])
            is Ok && (forall|k: int|
            0 <= k < i ==> json::json_parsed(#[trigger] candidates_of(input_json)[k]) is Err)
            ==> tool_input(input_json) == json::json_parsed(candidates_of(input_json)[i]),
        (forall|k: int|
            0 <= k < candidates_of(input_json).len() ==> json::json_parsed(
                #[trigger] candidates_of(input_json)[k],
            ) is Err) ==> (tool_input(input_json) matches Err(words) && text::has_substring(
            words,
            json::json_parsed(input_json)->Err_0,
        ) && text::has_substring(words, text::first_chars(input_json, 200))),
        tool_input(Seq::empty()) == Ok::<JsonView, Text>(json::empty_object_view()),
{
    let cs = candidates_of(input_json);
    if 0 <= i < cs.len() && json::json_parsed(cs[i]) is Ok && (forall|k: int|
        0 <= k < i ==> json::json_parsed(#[trigger] cs[k]) is Err) {
        lemma_first_that_parses(cs, i);
    }
    lemma_first_parsing(cs);
    if first_parsing(cs) is None {
        let e = json::json_parsed(input_json)->Err_0;
        let sent = text::first_chars(input_json, 200);
        let words = input_error(input_json, e);
        let h = "JSON parse error in tool arguments: "@;
        let m = ". Raw input (first 200 chars): "@;
        let t
            = " Check for unescaped characters, unclosed brackets, or string values that should be numbers."@;
        text::lemma_stands_between(h, e, m + sent + t);
        assert(words =~= h + e + (m + sent + t));
        text::lemma_stands_between(h + e + m, sent, t);
    } else {
        let c = first_parsing(cs)->Some_0;
        let k = choose|k: int| 0 <= k < cs.len() && cs[k] == c;
        assert(json::json_parsed(cs[k]) is Ok);
    }
}

proof fn lemma_first_that_parses(cs: Seq<Text>, i: int)
    requires
        0 <= i < cs.len(),
        json::json_parsed(cs[i]) is Ok,
        forall|k: int| 0 <= k < i ==> json::json_parsed(#[trigger] cs[k]) is Err,
    ensures
        first_parsing(cs) == Some(cs[i]),
    decreases cs.len(),
{
    if i > 0 {
        let rest = cs.drop_first();
        assert(json::json_parsed(cs[0]) is Err);
        assert forall|k: int| 0 <= k < i - 1 implies json::json_parsed(#[trigger] rest[k]) is Err by {
            assert(rest[k] == cs[k + 1]);
        }
        assert(rest[i - 1] == cs[i]);
        lemma_first_that_parses(rest, i - 1);
    }
}

} // verus!
