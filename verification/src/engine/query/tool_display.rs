//! What the terminal shows of a tool call: one line for its input, one for its
//! result. The model sees the full content.

use crate::engine::query::json_utils;
use crate::json;
use crate::json::ItemView;
use crate::json::Json;
use crate::json::JsonView;
use crate::text;
use crate::text::Text;
use vstd::prelude::*;
use vstd::string::*;

verus! {

// ---------------------------------------------------------------------------
// Lines
// ---------------------------------------------------------------------------

/// A test on one line of a tool's output.
#[derive(Clone, Copy, PartialEq, Eq, Structural)]
pub enum LineTest {
    /// The line is not empty.
    NonEmpty,
    /// The line begins with the character.
    StartsWith(char),
    /// The character stands in the line.
    Has(char),
    /// One of the two characters stands in the line.
    HasEither(char, char),
}

/// Whether a line passes a test.
pub open spec fn passes(test: LineTest, line: Text) -> bool {
    match test {
        LineTest::NonEmpty => line.len() > 0,
        LineTest::StartsWith(c) => line.len() > 0 && line[0] == c,
        LineTest::Has(c) => line.contains(c),
        LineTest::HasEither(c, d) => line.contains(c) || line.contains(d),
    }
}

/// How many lines of a text pass a test.
pub open spec fn lines_passing(s: Text, test: LineTest) -> nat {
    text::lines_of(s).filter(|l: Text| passes(test, l)).len()
}

/// The first line of a text; the text itself where it has none.
pub open spec fn first_line_of(s: Text) -> Text {
    let lines = text::lines_of(s);
    if lines.len() > 0 {
        lines[0]
    } else {
        s
    }
}

/// `(n lines)`.
pub open spec fn lines_note(s: Text) -> Text {
    "("@ + text::decimal(text::lines_of(s).len()) + " lines)"@
}

fn has_char(s: &str, c: char) -> (r: bool)
    ensures
        r == s@.contains(c),
{
    let v = text::to_chars(s);
    let mut i: usize = 0;
    while i < v.len()
        invariant
            i <= v@.len(),
            v@ == s@,
            forall|j: int| 0 <= j < i ==> v@[j] != c,
        decreases v@.len() - i,
    {
        if v[i] == c {
            assert(s@[i as int] == c);
            return true;
        }
        i = i + 1;
    }
    false
}

fn passes_test(test: LineTest, line: &str) -> (r: bool)
    ensures
        r == passes(test, line@),
{
    match test {
        LineTest::NonEmpty => !line.is_empty(),
        LineTest::StartsWith(c) => !line.is_empty() && line.get_char(0) == c,
        LineTest::Has(c) => has_char(line, c),
        LineTest::HasEither(c, d) => has_char(line, c) || has_char(line, d),
    }
}

fn count_lines(s: &str, test: LineTest) -> (r: usize)
    ensures
        r == lines_passing(s@, test),
{
    let lines = text::lines(s);
    let ghost all = text::texts(lines@);
    let ghost pred = |l: Text| passes(test, l);
    let mut n: usize = 0;
    let mut i: usize = 0;
    assert(all.take(0).filter(pred).len() == 0) by {
        reveal(Seq::filter);
        assert(all.take(0) =~= Seq::<Text>::empty());
    }
    while i < lines.len()
        invariant
            i <= lines@.len(),
            n <= i,
            all == text::texts(lines@),
            pred == (|l: Text| passes(test, l)),
            n == all.take(i as int).filter(pred).len(),
        decreases lines@.len() - i,
    {
        proof {
            assert(all.take(i + 1) =~= all.take(i as int).push(all[i as int]));
            all.take(i as int).lemma_filter_len_push(pred, all[i as int]);
        }
        if passes_test(test, lines[i].as_str()) {
            n = n + 1;
        }
        i = i + 1;
    }
    assert(all.take(i as int) =~= all);
    n
}

/// The first line of `s`; `s` itself where it has none.
pub fn first_line(s: &str) -> (r: String)
    ensures
        r@ == first_line_of(s@),
{
    let lines = text::lines(s);
    let ghost all = text::texts(lines@);
    assert(all.len() == lines@.len());
    if lines.len() > 0 {
        assert(all[0] == lines@[0]@);
        text::copy(lines[0].as_str())
    } else {
        text::copy(s)
    }
}

/// The number of lines of `s`.
pub fn line_count(s: &str) -> (r: usize)
    ensures
        r == text::lines_of(s@).len(),
{
    let lines = text::lines(s);
    assert(text::texts(lines@).len() == lines@.len());
    lines.len()
}

fn note_lines(s: &str) -> (r: String)
    ensures
        r@ == lines_note(s@),
{
    let n = text::count(line_count(s));
    text::cat3("(", n.as_str(), " lines)")
}

// ---------------------------------------------------------------------------
// Failed commands
// ---------------------------------------------------------------------------

/// The exit code of the first line `[exit code: ..]`.
pub open spec fn first_exit_code(lines: Seq<Text>) -> Option<Text>
    decreases lines.len(),
{
    if lines.len() == 0 {
        None
    } else {
        match text::between(lines[0], "[exit code: "@, "]"@) {
            Some(code) => Some(code),
            None => first_exit_code(lines.drop_first()),
        }
    }
}

/// Whether an output reports a failed command.
pub open spec fn is_failure(output: Text) -> bool {
    text::has_prefix(output, "[exit code:"@) || text::has_prefix(output, "[stderr]"@)
}

/// What is shown of a failed command.
pub open spec fn failure_summary(output: Text) -> Text {
    let preview = text::first_chars(first_line_of(output), 80);
    match first_exit_code(text::lines_of(output)) {
        Some(code) => "exit "@ + code + ": "@ + preview,
        None => preview,
    }
}

fn find_exit_code(output: &str) -> (r: Option<String>)
    ensures
        text::opt_text(r) == first_exit_code(text::lines_of(output@)),
{
    let lines = text::lines(output);
    let ghost all = text::texts(lines@);
    let mut i: usize = 0;
    assert(all.skip(0) =~= all);
    while i < lines.len()
        invariant
            i <= lines@.len(),
            all == text::texts(lines@),
            all == text::lines_of(output@),
            first_exit_code(all) == first_exit_code(all.skip(i as int)),
        decreases lines@.len() - i,
    {
        assert(all.skip(i as int)[0] == all[i as int]);
        assert(all.skip(i as int).drop_first() =~= all.skip(i + 1));
        let code = text::part_between(lines[i].as_str(), "[exit code: ", "]");
        if code.is_some() {
            return code;
        }
        i = i + 1;
    }
    None
}

fn summarize_failure(output: &str) -> (r: String)
    ensures
        r@ == failure_summary(output@),
{
    let line = first_line(output);
    let preview = text::take_chars(line.as_str(), 80);
    match find_exit_code(output) {
        Some(code) => text::cat4("exit ", code.as_str(), ": ", preview.as_str()),
        None => preview,
    }
}

// ---------------------------------------------------------------------------
// Files and searches
// ---------------------------------------------------------------------------

/// The number before the `|` of a numbered line.
pub open spec fn line_number(line: Text) -> Option<nat> {
    let t = text::trimmed_start(line);
    match text::index_of(t, "|"@) {
        Some(i) => text::parsed_number(text::trimmed(t.take(i)), usize::MAX as nat + 1),
        None => None,
    }
}

/// The total that a line `(showing lines .. of N total)` ends with, where the
/// line is one.
pub open spec fn stated_total(line: Text) -> Option<Option<nat>> {
    match text::between(line, "(showing lines "@, " total)"@) {
        Some(range) => match text::after(range, " of "@) {
            Some(total) => Some(text::parsed_number(text::trimmed(total), usize::MAX as nat + 1)),
            None => None,
        },
        None => None,
    }
}

/// What the lines of a file listing tell: the first number, the last number,
/// and the total.
#[verifier::ext_equal]
pub struct Listing {
    pub first: Option<nat>,
    pub last: Option<nat>,
    pub total: Option<nat>,
}

/// What the lines of a file listing tell.
pub open spec fn listing(lines: Seq<Text>) -> Listing
    decreases lines.len(),
{
    if lines.len() == 0 {
        Listing { first: None, last: None, total: None }
    } else {
        let before = listing(lines.drop_last());
        let number = line_number(lines.last());
        Listing {
            first: if before.first is None {
                number
            } else {
                before.first
            },
            last: if number is Some {
                number
            } else {
                before.last
            },
            total: match stated_total(lines.last()) {
                Some(total) => total,
                None => before.total,
            },
        }
    }
}

/// What is shown of a file that was read.
pub open spec fn read_summary(output: Text) -> Text {
    let l = listing(text::lines_of(output));
    match (l.first, l.last, l.total) {
        (Some(first), Some(last), Some(total)) => if first == 1 && last == total {
            "("@ + text::decimal(total) + " lines, full)"@
        } else {
            "L"@ + text::decimal(first) + "-L"@ + text::decimal(last) + " (of "@ + text::decimal(
                total,
            ) + ")"@
        },
        (Some(first), Some(last), None) => "L"@ + text::decimal(first) + "-L"@ + text::decimal(
            last,
        ),
        _ => lines_note(output),
    }
}

/// What an optional count stands for.
pub open spec fn opt_nat(o: Option<usize>) -> Option<nat> {
    match o {
        Some(n) => Some(n as nat),
        None => None,
    }
}

fn number_of_line(line: &str) -> (r: Option<usize>)
    ensures
        opt_nat(r) == line_number(line@),
{
    let t = text::trim_start(line);
    let a = text::to_chars(t.as_str());
    let bar = text::to_chars("|");
    match text::find(&a, &bar) {
        Some(i) => {
            let head = text::from_chars(&a, 0, i);
            assert(head@ =~= t@.take(i as int));
            let num = text::trim(head.as_str());
            text::parse_usize(num.as_str())
        },
        None => None,
    }
}

fn total_of_line(line: &str) -> (r: Option<Option<usize>>)
    ensures
        match r {
            Some(t) => stated_total(line@) == Some(opt_nat(t)),
            None => stated_total(line@) is None,
        },
{
    match text::part_between(line, "(showing lines ", " total)") {
        Some(range) => match text::part_after(range.as_str(), " of ") {
            Some(total) => {
                let t = text::trim(total.as_str());
                Some(text::parse_usize(t.as_str()))
            },
            None => None,
        },
        None => None,
    }
}

fn summarize_read_output(output: &str) -> (r: String)
    ensures
        r@ == read_summary(output@),
{
    let lines = text::lines(output);
    let ghost all = text::texts(lines@);
    let mut first: Option<usize> = None;
    let mut last: Option<usize> = None;
    let mut total: Option<usize> = None;
    let mut i: usize = 0;
    while i < lines.len()
        invariant
            i <= lines@.len(),
            all == text::texts(lines@),
            listing(all.take(i as int)) == (Listing {
                first: opt_nat(first),
                last: opt_nat(last),
                total: opt_nat(total),
            }),
        decreases lines@.len() - i,
    {
        assert(all.take(i + 1).drop_last() =~= all.take(i as int));
        assert(all.take(i + 1).last() == all[i as int]);
        let line = lines[i].as_str();
        if let Some(n) = number_of_line(line) {
            if first.is_none() {
                first = Some(n);
            }
            last = Some(n);
        }
        if let Some(t) = total_of_line(line) {
            total = t;
        }
        i = i + 1;
    }
    assert(all.take(i as int) =~= all);
    match (first, last, total) {
        (Some(f), Some(l), Some(t)) => {
            let ts = text::count(t);
            if f == 1 && l == t {
                text::cat3("(", ts.as_str(), " lines, full)")
            } else {
                let fs = text::count(f);
                let ls = text::count(l);
                text::cat7("L", fs.as_str(), "-L", ls.as_str(), " (of ", ts.as_str(), ")")
            }
        },
        (Some(f), Some(l), None) => {
            let fs = text::count(f);
            let ls = text::count(l);
            text::cat4("L", fs.as_str(), "-L", ls.as_str())
        },
        _ => note_lines(output),
    }
}

/// The files that the lines of a search name, each before its first `:`.
pub open spec fn matched_files(lines: Seq<Text>) -> Set<Text>
    decreases lines.len(),
{
    if lines.len() == 0 {
        Set::empty()
    } else {
        let before = matched_files(lines.drop_last());
        let file = text::before(lines.last(), ":"@);
        if file.len() > 0 {
            before.insert(file)
        } else {
            before
        }
    }
}

/// What is shown of a search: its first line, with the number of files.
pub open spec fn grep_summary(output: Text) -> Text {
    let first = first_line_of(output);
    if text::has_prefix(first, "Found "@) {
        let lines = text::lines_of(output);
        let files = matched_files(lines.skip(1)).len();
        if files > 0 {
            first + " ("@ + text::decimal(files) + " file(s))"@
        } else {
            first
        }
    } else {
        lines_note(output)
    }
}

fn position_of(list: &Vec<String>, s: &str) -> (r: Option<usize>)
    ensures
        match r {
            Some(i) => i < list@.len() && list@[i as int]@ == s@,
            None => !text::texts(list@).contains(s@),
        },
{
    let mut i: usize = 0;
    while i < list.len()
        invariant
            i <= list@.len(),
            forall|j: int| 0 <= j < i ==> list@[j]@ != s@,
        decreases list@.len() - i,
    {
        if text::same(list[i].as_str(), s) {
            return Some(i);
        }
        i = i + 1;
    }
    None
}

fn count_files(lines: &Vec<String>, from: usize) -> (r: usize)
    requires
        from <= lines@.len(),
    ensures
        r == matched_files(text::texts(lines@).skip(from as int)).len(),
{
    let ghost all = text::texts(lines@).skip(from as int);
    let mut files: Vec<String> = Vec::new();
    let mut i: usize = from;
    assert(text::texts(files@).to_set() =~= Set::<Text>::empty());
    while i < lines.len()
        invariant
            from <= i <= lines@.len(),
            all == text::texts(lines@).skip(from as int),
            text::texts(files@).no_duplicates(),
            text::texts(files@).to_set() == matched_files(all.take(i - from)),
        decreases lines@.len() - i,
    {
        assert(all.take(i + 1 - from).drop_last() =~= all.take(i - from));
        assert(all.take(i + 1 - from).last() == lines@[i as int]@);
        let file = text::part_before(lines[i].as_str(), ":");
        let ghost f = file@;
        let ghost was = text::texts(files@);
        if !file.as_str().is_empty() {
            match position_of(&files, file.as_str()) {
                None => {
                    files.push(file);
                    proof {
                        assert(text::texts(files@) =~= was.push(f));
                        was.lemma_push_to_set_commute(f);
                    }
                },
                Some(k) => {
                    proof {
                        assert(was[k as int] == f);
                        assert(was.to_set().contains(f));
                        assert(was.to_set().insert(f) =~= was.to_set());
                    }
                },
            }
        }
        i = i + 1;
    }
    proof {
        assert(all.take(i - from) =~= all);
        text::texts(files@).unique_seq_to_set();
    }
    files.len()
}

fn summarize_grep_output(output: &str) -> (r: String)
    ensures
        r@ == grep_summary(output@),
{
    let first = first_line(output);
    if text::starts_with(first.as_str(), "Found ") {
        let lines = text::lines(output);
        let ghost all = text::texts(lines@);
        let from: usize = if lines.len() > 0 {
            1
        } else {
            0
        };
        let n: usize = count_files(&lines, from);
        proof {
            if lines@.len() == 0 {
                // A text without lines is empty, and does not begin with "Found ".
                reveal_strlit("Found ");
                lemma_no_lines(output@);
            }
        }
        if n > 0 {
            let ns = text::count(n);
            text::cat4(first.as_str(), " (", ns.as_str(), " file(s))")
        } else {
            first
        }
    } else {
        note_lines(output)
    }
}

/// A text without lines is empty.
proof fn lemma_no_lines(s: Text)
    requires
        text::lines_of(s).len() == 0,
    ensures
        s.len() == 0,
    decreases s.len(),
{
    if s.len() > 0 {
        text::lemma_split_nonempty(s, '\n');
        text::lemma_split_nonempty(s.drop_last(), '\n');
        let before = text::split_at_char(s.drop_last(), '\n');
        if s.last() == '\n' {
            assert(text::split_at_char(s, '\n').len() >= 2);
        } else {
            assert(text::split_at_char(s, '\n').last().len() > 0);
        }
    }
}

// ---------------------------------------------------------------------------
// Structured outputs
// ---------------------------------------------------------------------------

/// The documents in a tool's output: the output itself, its `entries`, and its
/// elements, each where it parses.
pub struct OutputDocs {
    pub whole: Option<Json>,
    pub entries: Option<Json>,
    pub parts: Vec<Option<Json>>,
}

/// What an `OutputDocs` holds.
#[verifier::ext_equal]
pub struct OutputDocsView {
    pub whole: Option<JsonView>,
    pub entries: Option<JsonView>,
    pub parts: Seq<Option<JsonView>>,
}

impl View for OutputDocs {
    type V = OutputDocsView;

    open spec fn view(&self) -> OutputDocsView {
        OutputDocsView {
            whole: json_utils::opt_json(self.whole),
            entries: json_utils::opt_json(self.entries),
            parts: Seq::new(self.parts@.len(), |i: int| json_utils::opt_json(self.parts@[i])),
        }
    }
}

/// The document that a text stands for, where it stands for one.
pub open spec fn parsed_ok(s: Text) -> Option<JsonView> {
    match json::json_parsed(s) {
        Ok(v) => Some(v),
        Err(_) => None,
    }
}

/// The documents in a tool's output.
pub open spec fn output_docs(output: Text) -> OutputDocsView {
    let whole = parsed_ok(output);
    OutputDocsView {
        whole,
        entries: match whole {
            Some(v) => match json::member(v, "entries"@) {
                Some(item) => parsed_ok(item.text),
                None => None,
            },
            None => None,
        },
        parts: match whole {
            Some(v) => match v.elements {
                Some(elements) => elements.map_values(|e: ItemView| parsed_ok(e.text)),
                None => Seq::empty(),
            },
            None => Seq::empty(),
        },
    }
}

fn parse_ok(s: &str) -> (r: Option<Json>)
    ensures
        json_utils::opt_json(r) == parsed_ok(s@),
{
    match json::parse_json(s) {
        Ok(v) => Some(v),
        Err(_) => None,
    }
}

/// Parse a tool's output, its `entries` and its elements.
pub fn read_output(output: &str) -> (r: OutputDocs)
    ensures
        r@ == output_docs(output@),
{
    let whole = parse_ok(output);
    let mut entries: Option<Json> = None;
    let mut parts: Vec<Option<Json>> = Vec::new();
    if let Some(v) = &whole {
        if let Some(item) = v.get("entries") {
            entries = parse_ok(item.text.as_str());
        }
        if let Some(elements) = &v.elements {
            let mut i: usize = 0;
            while i < elements.len()
                invariant
                    i <= elements@.len(),
                    parts@.len() == i,
                    forall|k: int|
                        0 <= k < i ==> json_utils::opt_json(#[trigger] parts@[k]) == parsed_ok(
                            elements@[k]@.text,
                        ),
                decreases elements@.len() - i,
            {
                parts.push(parse_ok(elements[i].text.as_str()));
                i = i + 1;
            }
        }
    }
    let r = OutputDocs { whole, entries, parts };
    assert(r@.parts =~= output_docs(output@).parts);
    r
}

/// One line for each of the first five entries of a memory, those that are
/// strings.
pub open spec fn entry_lines(entries: Seq<ItemView>) -> Text
    decreases entries.len(),
{
    if entries.len() == 0 {
        Seq::empty()
    } else {
        let before = entry_lines(entries.drop_last());
        match entries.last().string {
            Some(s) => before + "\n  · "@ + text::ellipsized(s, 80),
            None => before,
        }
    }
}

/// What is shown of the entries that a memory lists.
pub open spec fn entries_note(entries: Seq<ItemView>, entry_count: nat) -> Text {
    let shown = if entries.len() <= 5 {
        entries
    } else {
        entries.take(5)
    };
    let head = "\n  "@ + text::decimal(entry_count) + " entries:"@ + entry_lines(shown);
    if entries.len() > 5 {
        head + "\n  … and "@ + text::decimal((entries.len() - 5) as nat) + " more"@
    } else {
        head
    }
}

/// What is shown of a memory call.
pub open spec fn memory_summary(output: Text, docs: OutputDocsView) -> Text {
    match docs.whole {
        None => output,
        Some(val) => {
            let success = json::bool_member(val, "success"@) == Some(true);
            let target = json::str_member_or(val, "target"@, "memory"@);
            if !success {
                match json::str_member(val, "error"@) {
                    Some(err) => "memory "@ + target + " error: "@ + err,
                    None => "memory "@ + target + " failed"@,
                }
            } else {
                let head = match json::str_member(val, "message"@) {
                    Some(msg) => "memory "@ + target + ": "@ + msg,
                    None => "memory "@ + target + " ok"@,
                };
                let usage = json::str_member_or(val, "usage"@, Seq::empty());
                let with_usage = if usage.len() > 0 {
                    head + " ("@ + usage + ")"@
                } else {
                    head
                };
                match docs.entries {
                    Some(doc) => match doc.elements {
                        Some(entries) => if entries.len() > 0 {
                            with_usage + entries_note(
                                entries,
                                match json::unsigned_member(val, "entry_count"@) {
                                    Some(n) => n as nat,
                                    None => 0,
                                },
                            )
                        } else {
                            with_usage
                        },
                        None => with_usage,
                    },
                    None => with_usage,
                }
            }
        },
    }
}

fn list_entries(entries: &Vec<json::JsonItem>, entry_count: u64) -> (r: String)
    ensures
        r@ == entries_note(json::items(entries@), entry_count as nat),
{
    let n = text::number(entry_count);
    let head = text::cat3("\n  ", n.as_str(), " entries:");
    let shown: usize = if entries.len() <= 5 {
        entries.len()
    } else {
        5
    };
    let ghost all = json::items(entries@);
    let mut list = String::new();
    let mut i: usize = 0;
    assert(all.take(0) =~= Seq::<ItemView>::empty());
    while i < shown
        invariant
            i <= shown <= entries@.len(),
            all == json::items(entries@),
            list@ == entry_lines(all.take(i as int)),
        decreases shown - i,
    {
        assert(all.take(i + 1).drop_last() =~= all.take(i as int));
        assert(all.take(i + 1).last() == all[i as int]);
        assert(all[i as int] == entries@[i as int]@);
        if let Some(s) = &entries[i].string {
            list.append("\n  · ");
            let e = text::ellipsize(s.as_str(), 80);
            list.append(e.as_str());
        }
        i = i + 1;
    }
    assert(entries@.len() <= 5 ==> all.take(shown as int) =~= all);
    let mut r = text::cat2(head.as_str(), list.as_str());
    if entries.len() > 5 {
        r.append("\n  … and ");
        let more = text::count(entries.len() - 5);
        r.append(more.as_str());
        r.append(" more");
    }
    r
}

fn summarize_memory_output(output: &str, docs: &OutputDocs) -> (r: String)
    ensures
        r@ == memory_summary(output@, docs@),
{
    match &docs.whole {
        None => text::copy(output),
        Some(val) => {
            let success = match val.get_bool("success") {
                Some(b) => b,
                None => false,
            };
            let target = val.get_str_or("target", "memory");
            if !success {
                return match val.get_str("error") {
                    Some(err) => text::cat4("memory ", target.as_str(), " error: ", err.as_str()),
                    None => text::cat3("memory ", target.as_str(), " failed"),
                };
            }
            let mut result = match val.get_str("message") {
                Some(msg) => text::cat4("memory ", target.as_str(), ": ", msg.as_str()),
                None => text::cat3("memory ", target.as_str(), " ok"),
            };
            let usage = val.get_str_or("usage", "");
            proof {
                reveal_strlit("");
                assert(""@ =~= Seq::<char>::empty());
            }
            if !usage.as_str().is_empty() {
                result.append(" (");
                result.append(usage.as_str());
                result.append(")");
            }
            if let Some(doc) = &docs.entries {
                if let Some(entries) = &doc.elements {
                    assert(json::items(entries@).len() == entries@.len());
                    if entries.len() > 0 {
                        let count = match val.get_u64("entry_count") {
                            Some(n) => n,
                            None => 0,
                        };
                        let listed = list_entries(entries, count);
                        result.append(listed.as_str());
                    }
                }
            }
            result
        },
    }
}

/// Whether a delegated task's result says that it was done.
pub open spec fn task_done(part: Option<JsonView>) -> bool {
    match part {
        Some(v) => json::str_member(v, "exit_reason"@) == Some("success"@) || json::str_member(
            v,
            "exit_reason"@,
        ) == Some("completed"@),
        None => false,
    }
}

/// What is shown of delegated tasks.
pub open spec fn delegate_summary(output: Text, docs: OutputDocsView) -> Text {
    match docs.whole {
        None => "delegate_task "@ + lines_note(output),
        Some(val) => match json::str_member(val, "error"@) {
            Some(error) => "delegate_task: "@ + error,
            None => if val.elements is Some {
                text::decimal(
                    docs.parts.filter(|p: Option<JsonView>| task_done(p)).len(),
                ) + "/"@ + text::decimal(val.elements->Some_0.len()) + " tasks completed"@
            } else {
                match json::str_member(val, "summary"@) {
                    Some(summary) => "delegate_task: "@ + text::ellipsized(summary, 80),
                    None => match json::str_member(val, "exit_reason"@) {
                        Some(reason) => "delegate_task: exit_reason="@ + reason,
                        None => "delegate_task "@ + lines_note(output),
                    },
                }
            },
        },
    }
}

fn is_task_done(part: &Option<Json>) -> (r: bool)
    ensures
        r == task_done(json_utils::opt_json(*part)),
{
    match part {
        Some(v) => match v.get_str("exit_reason") {
            Some(reason) => text::same(reason.as_str(), "success") || text::same(
                reason.as_str(),
                "completed",
            ),
            None => false,
        },
        None => false,
    }
}

fn count_done(docs: &OutputDocs) -> (r: usize)
    ensures
        r == docs@.parts.filter(|p: Option<JsonView>| task_done(p)).len(),
{
    let ghost all = docs@.parts;
    let ghost pred = |p: Option<JsonView>| task_done(p);
    let mut n: usize = 0;
    let mut i: usize = 0;
    assert(all.take(0).filter(pred).len() == 0) by {
        reveal(Seq::filter);
        assert(all.take(0) =~= Seq::<Option<JsonView>>::empty());
    }
    while i < docs.parts.len()
        invariant
            i <= docs.parts@.len(),
            n <= i,
            all == docs@.parts,
            pred == (|p: Option<JsonView>| task_done(p)),
            n == all.take(i as int).filter(pred).len(),
        decreases docs.parts@.len() - i,
    {
        proof {
            assert(all.take(i + 1) =~= all.take(i as int).push(all[i as int]));
            all.take(i as int).lemma_filter_len_push(pred, all[i as int]);
        }
        if is_task_done(&docs.parts[i]) {
            n = n + 1;
        }
        i = i + 1;
    }
    assert(all.take(i as int) =~= all);
    n
}

fn summarize_delegate_task(output: &str, docs: &OutputDocs) -> (r: String)
    ensures
        r@ == delegate_summary(output@, docs@),
{
    if let Some(val) = &docs.whole {
        if let Some(error) = val.get_str("error") {
            return text::cat2("delegate_task: ", error.as_str());
        }
        if let Some(results) = &val.elements {
            assert(json::items(results@).len() == results@.len());
            let total = text::count(results.len());
            let done = text::count(count_done(docs));
            return text::cat4(done.as_str(), "/", total.as_str(), " tasks completed");
        }
        if let Some(summary) = val.get_str("summary") {
            let short = text::ellipsize(summary.as_str(), 80);
            return text::cat2("delegate_task: ", short.as_str());
        }
        if let Some(reason) = val.get_str("exit_reason") {
            return text::cat2("delegate_task: exit_reason=", reason.as_str());
        }
    }
    let note = note_lines(output);
    text::cat2("delegate_task ", note.as_str())
}

/// The note on a text, after the name of a server and of a tool.
pub open spec fn mcp_call_summary(output: Text, input: JsonView) -> Text {
    let server = json::str_member_or(input, "server_name"@, "?"@);
    let tool = json::str_member_or(input, "tool_name"@, "?"@);
    let bytes = text::byte_len(output);
    let head = server + "/"@ + tool + " ✓ ("@ + text::decimal(text::lines_of(output).len())
        + " lines"@;
    if bytes > 200 {
        head + ", "@ + text::decimal(bytes) + " chars)"@
    } else {
        head + ")"@
    }
}

fn summarize_mcp_call_tool(output: &str, input: &Json) -> (r: String)
    ensures
        r@ == mcp_call_summary(output@, input@),
{
    let server = input.get_str_or("server_name", "?");
    let tool = input.get_str_or("tool_name", "?");
    let n = text::count(line_count(output));
    let mut r = text::cat6(server.as_str(), "/", tool.as_str(), " ✓ (", n.as_str(), " lines");
    let bytes: usize = text::str_bytes(output);
    if bytes > 200 {
        r.append(", ");
        let b = text::count(bytes);
        r.append(b.as_str());
        r.append(" chars)");
    } else {
        r.append(")");
    }
    r
}

/// What is shown of the tools that a server offers.
pub open spec fn mcp_list_summary(output: Text, input: JsonView) -> Text {
    let server = json::str_member_or(input, "server_name"@, "?"@);
    let tools = lines_passing(output, LineTest::StartsWith('-'));
    if tools > 0 {
        server + ": "@ + text::decimal(tools) + " tool(s)"@
    } else {
        server + ": "@ + lines_note(output)
    }
}

fn summarize_mcp_list_tools(output: &str, input: &Json) -> (r: String)
    ensures
        r@ == mcp_list_summary(output@, input@),
{
    let server = input.get_str_or("server_name", "?");
    let tools: usize = count_lines(output, LineTest::StartsWith('-'));
    if tools > 0 {
        let n = text::count(tools);
        text::cat4(server.as_str(), ": ", n.as_str(), " tool(s)")
    } else {
        let note = note_lines(output);
        text::cat3(server.as_str(), ": ", note.as_str())
    }
}

/// What is shown of the servers that are set up.
pub open spec fn servers_summary(output: Text) -> Text {
    let connected = lines_passing(output, LineTest::Has('●'));
    let total = lines_passing(output, LineTest::HasEither('●', '○'));
    if total > 0 {
        text::decimal(connected) + "/"@ + text::decimal(total) + " servers connected"@
    } else {
        lines_note(output)
    }
}

fn summarize_servers(output: &str) -> (r: String)
    ensures
        r@ == servers_summary(output@),
{
    let connected: usize = count_lines(output, LineTest::Has('●'));
    let total: usize = count_lines(output, LineTest::HasEither('●', '○'));
    if total > 0 {
        let c = text::count(connected);
        let t = text::count(total);
        text::cat4(c.as_str(), "/", t.as_str(), " servers connected")
    } else {
        note_lines(output)
    }
}

/// What is shown of a skill that was read.
pub open spec fn skill_view_summary(output: Text, input: JsonView) -> Text {
    let name = json::str_member_or(input, "name"@, "?"@);
    let n = text::decimal(text::lines_of(output).len());
    match json::str_member(input, "file_path"@) {
        Some(path) => name + " ("@ + path + ", "@ + n + " lines)"@,
        None => name + " ("@ + n + " lines)"@,
    }
}

fn summarize_skill_view(output: &str, input: &Json) -> (r: String)
    ensures
        r@ == skill_view_summary(output@, input@),
{
    let name = input.get_str_or("name", "?");
    let n = text::count(line_count(output));
    match input.get_str("file_path") {
        Some(path) => text::cat6(
            name.as_str(),
            " (",
            path.as_str(),
            ", ",
            n.as_str(),
            " lines)",
        ),
        None => text::cat4(name.as_str(), " (", n.as_str(), " lines)"),
    }
}

// ---------------------------------------------------------------------------
// The summary of an output
// ---------------------------------------------------------------------------

/// What is shown of a tool's output, from the documents in it and the parsed
/// input.
pub open spec fn output_summary(
    tool_name: Text,
    output: Text,
    docs: OutputDocsView,
    input: JsonView,
) -> Text {
    if is_failure(output) {
        failure_summary(output)
    } else if tool_name == "bash"@ {
        if output.len() == 0 || output == "(no output)"@ {
            "(no output)"@
        } else {
            lines_note(output)
        }
    } else if tool_name == "read"@ || tool_name == "read_file"@ {
        read_summary(output)
    } else if tool_name == "glob"@ {
        if text::has_prefix(first_line_of(output), "Found "@) {
            first_line_of(output)
        } else {
            lines_note(output)
        }
    } else if tool_name == "grep"@ {
        grep_summary(output)
    } else if tool_name == "web_search"@ {
        text::decimal(lines_passing(output, LineTest::NonEmpty)) + " results"@
    } else if tool_name == "web_fetch"@ {
        text::decimal(text::byte_len(output)) + " chars"@
    } else if tool_name == "edit"@ {
        match docs.whole {
            Some(doc) => json::str_member_or(doc, "summary"@, output),
            None => output,
        }
    } else if tool_name == "todo"@ {
        first_line_of(output)
    } else if tool_name == "memory"@ {
        memory_summary(output, docs)
    } else if tool_name == "skill_view"@ {
        skill_view_summary(output, input)
    } else if tool_name == "skill_list"@ {
        if text::lines_of(output).len() > 0 && first_line_of(output).len() > 0 {
            first_line_of(output)
        } else {
            lines_note(output)
        }
    } else if tool_name == "mcp_list_tools"@ {
        mcp_list_summary(output, input)
    } else if tool_name == "mcp_call_tool"@ {
        mcp_call_summary(output, input)
    } else if tool_name == "mcp_describe_tool"@ {
        json::str_member_or(input, "server_name"@, "?"@) + "/"@ + json::str_member_or(
            input,
            "tool_name"@,
            "?"@,
        ) + " "@ + lines_note(output)
    } else if tool_name == "mcp_list_servers"@ {
        servers_summary(output)
    } else if tool_name == "delegate_task"@ {
        delegate_summary(output, docs)
    } else {
        output
    }
}

/// Summarise a tool's output, given the documents in it and the parsed input.
pub fn summarize_parsed_output(
    tool_name: &str,
    output: &str,
    docs: &OutputDocs,
    input: &Json,
) -> (r: String)
    ensures
        r@ == output_summary(tool_name@, output@, docs@, input@),
{
    if text::starts_with(output, "[exit code:") || text::starts_with(output, "[stderr]") {
        return summarize_failure(output);
    }
    if text::same(tool_name, "bash") {
        if output.is_empty() || text::same(output, "(no output)") {
            text::copy("(no output)")
        } else {
            note_lines(output)
        }
    } else if text::same(tool_name, "read") || text::same(tool_name, "read_file") {
        summarize_read_output(output)
    } else if text::same(tool_name, "glob") {
        let first = first_line(output);
        if text::starts_with(first.as_str(), "Found ") {
            first
        } else {
            note_lines(output)
        }
    } else if text::same(tool_name, "grep") {
        summarize_grep_output(output)
    } else if text::same(tool_name, "web_search") {
        let n = text::count(count_lines(output, LineTest::NonEmpty));
        text::cat2(n.as_str(), " results")
    } else if text::same(tool_name, "web_fetch") {
        let n = text::count(text::str_bytes(output));
        text::cat2(n.as_str(), " chars")
    } else if text::same(tool_name, "edit") {
        match &docs.whole {
            Some(doc) => doc.get_str_or("summary", output),
            None => text::copy(output),
        }
    } else if text::same(tool_name, "todo") {
        first_line(output)
    } else if text::same(tool_name, "memory") {
        summarize_memory_output(output, docs)
    } else if text::same(tool_name, "skill_view") {
        summarize_skill_view(output, input)
    } else if text::same(tool_name, "skill_list") {
        let first = first_line(output);
        if line_count(output) > 0 && !first.as_str().is_empty() {
            first
        } else {
            note_lines(output)
        }
    } else if text::same(tool_name, "mcp_list_tools") {
        summarize_mcp_list_tools(output, input)
    } else if text::same(tool_name, "mcp_call_tool") {
        summarize_mcp_call_tool(output, input)
    } else if text::same(tool_name, "mcp_describe_tool") {
        let server = input.get_str_or("server_name", "?");
        let tool = input.get_str_or("tool_name", "?");
        let note = note_lines(output);
        text::cat5(server.as_str(), "/", tool.as_str(), " ", note.as_str())
    } else if text::same(tool_name, "mcp_list_servers") {
        summarize_servers(output)
    } else if text::same(tool_name, "delegate_task") {
        summarize_delegate_task(output, docs)
    } else {
        text::copy(output)
    }
}

/// One line for the terminal on what a tool gave back.
pub fn summarize_tool_output(tool_name: &str, output: &str, input_json: &str) -> (r: String)
    ensures
        r@ == output_summary(
            tool_name@,
            output@,
            output_docs(output@),
            json_utils::tool_input_or_empty(input_json@),
        ),
{
    let docs = read_output(output);
    let input = json_utils::parse_tool_input_or_empty(input_json);
    summarize_parsed_output(tool_name, output, &docs, &input)
}

// ---------------------------------------------------------------------------
// The summary of an input
// ---------------------------------------------------------------------------

/// The file that a call names: its `path`, or its `file_path` where it has no
/// `path`.
pub open spec fn path_member(input: JsonView) -> Option<Text> {
    match json::member(input, "path"@) {
        Some(v) => v.string,
        None => json::str_member(input, "file_path"@),
    }
}

/// The file that a call names.
pub fn get_path(input: &Json) -> (r: Option<String>)
    ensures
        text::opt_text(r) == path_member(input@),
{
    match input.get("path") {
        Some(v) => v.string,
        None => input.get_str("file_path"),
    }
}

/// `head value`, or `bare` where there is no value.
pub open spec fn labelled(head: Text, value: Option<Text>, bare: Text) -> Text {
    match value {
        Some(v) => head + v,
        None => bare,
    }
}

fn label(head: &str, value: Option<String>, bare: &str) -> (r: String)
    ensures
        r@ == labelled(head@, text::opt_text(value), bare@),
{
    match value {
        Some(v) => text::cat2(head, v.as_str()),
        None => text::copy(bare),
    }
}

/// `head pattern`, with ` in path` where there is a path.
pub open spec fn search_summary(head: Text, input: JsonView) -> Text {
    let pattern = json::str_member_or(input, "pattern"@, "(unknown)"@);
    let path = json::str_member_or(input, "path"@, Seq::empty());
    if path.len() == 0 {
        head + pattern
    } else {
        head + pattern + " in "@ + path
    }
}

fn summarize_search(head: &str, input: &Json) -> (r: String)
    ensures
        r@ == search_summary(head@, input@),
{
    let pattern = input.get_str_or("pattern", "(unknown)");
    match input.get_str("path") {
        Some(path) => if path.as_str().is_empty() {
            text::cat2(head, pattern.as_str())
        } else {
            text::cat4(head, pattern.as_str(), " in ", path.as_str())
        },
        None => text::cat2(head, pattern.as_str()),
    }
}

/// What is shown of a call that writes a file.
pub open spec fn write_summary(input: JsonView) -> Text {
    match path_member(input) {
        None => "\u{f040} write"@,
        Some(path) => {
            let lines = match json::str_member(input, "content"@) {
                Some(c) => text::lines_of(c).len(),
                None => 0,
            };
            if lines > 0 {
                "\u{f040} write "@ + path + " ("@ + text::decimal(lines) + " lines)"@
            } else {
                "\u{f040} write "@ + path
            }
        },
    }
}

fn summarize_write(input: &Json) -> (r: String)
    ensures
        r@ == write_summary(input@),
{
    match get_path(input) {
        None => text::copy("\u{f040} write"),
        Some(path) => {
            let lines: usize = match input.get_str("content") {
                Some(c) => line_count(c.as_str()),
                None => 0,
            };
            if lines > 0 {
                let n = text::count(lines);
                text::cat5("\u{f040} write ", path.as_str(), " (", n.as_str(), " lines)")
            } else {
                text::cat2("\u{f040} write ", path.as_str())
            }
        },
    }
}

/// What is shown of a call on the memory.
pub open spec fn memory_call_summary(input: JsonView) -> Text {
    let action = json::str_member_or(input, "action"@, "?"@);
    let target = json::str_member_or(input, "target"@, "memory"@);
    let content = json::str_member_or(input, "content"@, Seq::empty());
    let old_text = json::str_member_or(input, "old_text"@, Seq::empty());
    if action == "add"@ {
        "\u{f1c0} memory "@ + target + " add: "@ + text::ellipsized(content, 60)
    } else if action == "replace"@ {
        "\u{f040} memory "@ + target + " replace: "@ + text::first_chars(old_text, 30) + " → "@
            + text::first_chars(content, 30)
    } else if action == "remove"@ {
        "\u{f1f8} memory "@ + target + " remove: "@ + text::first_chars(old_text, 40)
    } else {
        "\u{f1c0} memory "@ + action
    }
}

fn str_or_empty(input: &Json, key: &str) -> (r: String)
    ensures
        r@ == json::str_member_or(input@, key@, Seq::empty()),
{
    match input.get_str(key) {
        Some(s) => s,
        None => String::new(),
    }
}

fn format_memory_summary(input: &Json) -> (r: String)
    ensures
        r@ == memory_call_summary(input@),
{
    let action = input.get_str_or("action", "?");
    let target = input.get_str_or("target", "memory");
    let content = str_or_empty(input, "content");
    let old_text = str_or_empty(input, "old_text");
    if text::same(action.as_str(), "add") {
        let preview = text::ellipsize(content.as_str(), 60);
        text::cat4("\u{f1c0} memory ", target.as_str(), " add: ", preview.as_str())
    } else if text::same(action.as_str(), "replace") {
        let old_preview = text::take_chars(old_text.as_str(), 30);
        let new_preview = text::take_chars(content.as_str(), 30);
        text::cat6(
            "\u{f040} memory ",
            target.as_str(),
            " replace: ",
            old_preview.as_str(),
            " → ",
            new_preview.as_str(),
        )
    } else if text::same(action.as_str(), "remove") {
        let preview = text::take_chars(old_text.as_str(), 40);
        text::cat4("\u{f1f8} memory ", target.as_str(), " remove: ", preview.as_str())
    } else {
        text::cat2("\u{f1c0} memory ", action.as_str())
    }
}

/// The icon of an action on the task list.
pub open spec fn todo_icon(action: Text) -> Text {
    if action == "create"@ {
        "\u{f0ca}"@
    } else if action == "add"@ {
        "\u{f067}"@
    } else if action == "update"@ {
        "\u{f021}"@
    } else if action == "delete"@ {
        "\u{f1f8}"@
    } else if action == "list"@ {
        "\u{f15c}"@
    } else {
        "\u{f0ca}"@
    }
}

fn icon_of_todo(action: &str) -> (r: &'static str)
    ensures
        r@ == todo_icon(action@),
{
    if text::same(action, "create") {
        "\u{f0ca}"
    } else if text::same(action, "add") {
        "\u{f067}"
    } else if text::same(action, "update") {
        "\u{f021}"
    } else if text::same(action, "delete") {
        "\u{f1f8}"
    } else if text::same(action, "list") {
        "\u{f15c}"
    } else {
        "\u{f0ca}"
    }
}

/// `head` with `value` after it where there is one.
pub open spec fn headed(head: Text, sep: Text, value: Text) -> Text {
    if value.len() == 0 {
        head
    } else {
        head + sep + value
    }
}

fn head_with(head: &str, sep: &str, value: &str) -> (r: String)
    ensures
        r@ == headed(head@, sep@, value@),
{
    if value.is_empty() {
        text::copy(head)
    } else {
        text::cat3(head, sep, value)
    }
}

/// What is shown of a tool call, from its parsed input.
pub open spec fn input_summary(tool_name: Text, input: JsonView) -> Text {
    if tool_name == "bash"@ {
        match json::str_member(input, "command"@) {
            Some(s) => "\u{f489} $ "@ + text::trimmed(s),
            None => "\u{f489} bash"@,
        }
    } else if tool_name == "read"@ || tool_name == "read_file"@ {
        labelled("\u{f15c} read "@, path_member(input), "\u{f15c} read"@)
    } else if tool_name == "write"@ {
        write_summary(input)
    } else if tool_name == "edit"@ {
        let path = labelled(Seq::empty(), path_member(input), "file"@);
        if json::bool_member(input, "replace_all"@) == Some(true) {
            "\u{f040} edit "@ + path + " (replace all)"@
        } else {
            "\u{f040} edit "@ + path
        }
    } else if tool_name == "grep"@ {
        search_summary("\u{f002} grep "@, input)
    } else if tool_name == "glob"@ {
        search_summary("\u{f07b} glob "@, input)
    } else if tool_name == "web_search"@ {
        labelled(
            "\u{f0ac} web_search: "@,
            json::str_member(input, "query"@),
            "\u{f0ac} web_search"@,
        )
    } else if tool_name == "web_fetch"@ {
        labelled(
            "\u{f0c1} web_fetch "@,
            json::str_member(input, "url"@),
            "\u{f0c1} web_fetch"@,
        )
    } else if tool_name == "skill_list"@ {
        let cat = json::str_member_or(input, "category"@, Seq::empty());
        let tag = json::str_member_or(input, "tag"@, Seq::empty());
        if cat.len() > 0 {
            "\u{f0ca} skill_list category: "@ + cat
        } else if tag.len() > 0 {
            "\u{f0ca} skill_list tag: "@ + tag
        } else {
            "\u{f0ca} skill_list"@
        }
    } else if tool_name == "skill_view"@ {
        labelled(
            "\u{f06e} skill_view "@,
            json::str_member(input, "name"@),
            "\u{f06e} skill_view"@,
        )
    } else if tool_name == "ask_user"@ {
        "\u{f059} ask_user"@
    } else if tool_name == "memory"@ {
        memory_call_summary(input)
    } else if tool_name == "todo"@ {
        let action = json::str_member_or(input, "action"@, "?"@);
        todo_icon(action) + " todo "@ + action
    } else if tool_name == "delegate_task"@ {
        headed(
            "\u{f0c0} delegate_task"@,
            ": "@,
            text::first_chars(json::str_member_or(input, "goal"@, Seq::empty()), 40),
        )
    } else if tool_name == "skill_manage"@ {
        headed(
            "\u{f013} skill_manage "@ + json::str_member_or(input, "action"@, "?"@),
            " "@,
            json::str_member_or(input, "name"@, Seq::empty()),
        )
    } else if text::has_prefix(tool_name, "mcp_"@) {
        headed(
            "\u{f1e6} "@ + tool_name,
            " on "@,
            json::str_member_or(input, "server_name"@, Seq::empty()),
        )
    } else {
        "\u{f0ad} "@ + tool_name
    }
}

/// Summarise a tool call, given its parsed input.
pub fn summarize_parsed_input(tool_name: &str, input: &Json) -> (r: String)
    ensures
        r@ == input_summary(tool_name@, input@),
{
    if text::same(tool_name, "bash") {
        match input.get_str("command") {
            Some(s) => {
                let t = text::trim(s.as_str());
                text::cat2("\u{f489} $ ", t.as_str())
            },
            None => text::copy("\u{f489} bash"),
        }
    } else if text::same(tool_name, "read") || text::same(tool_name, "read_file") {
        label("\u{f15c} read ", get_path(input), "\u{f15c} read")
    } else if text::same(tool_name, "write") {
        summarize_write(input)
    } else if text::same(tool_name, "edit") {
        let path = match get_path(input) {
            Some(p) => p,
            None => text::copy("file"),
        };
        assert(path@ =~= labelled(Seq::empty(), path_member(input@), "file"@));
        if input.get_bool("replace_all") == Some(true) {
            text::cat3("\u{f040} edit ", path.as_str(), " (replace all)")
        } else {
            text::cat2("\u{f040} edit ", path.as_str())
        }
    } else if text::same(tool_name, "grep") {
        summarize_search("\u{f002} grep ", input)
    } else if text::same(tool_name, "glob") {
        summarize_search("\u{f07b} glob ", input)
    } else if text::same(tool_name, "web_search") {
        label("\u{f0ac} web_search: ", input.get_str("query"), "\u{f0ac} web_search")
    } else if text::same(tool_name, "web_fetch") {
        label("\u{f0c1} web_fetch ", input.get_str("url"), "\u{f0c1} web_fetch")
    } else if text::same(tool_name, "skill_list") {
        let cat = str_or_empty(input, "category");
        let tag = str_or_empty(input, "tag");
        if !cat.as_str().is_empty() {
            text::cat2("\u{f0ca} skill_list category: ", cat.as_str())
        } else if !tag.as_str().is_empty() {
            text::cat2("\u{f0ca} skill_list tag: ", tag.as_str())
        } else {
            text::copy("\u{f0ca} skill_list")
        }
    } else if text::same(tool_name, "skill_view") {
        label("\u{f06e} skill_view ", input.get_str("name"), "\u{f06e} skill_view")
    } else if text::same(tool_name, "ask_user") {
        text::copy("\u{f059} ask_user")
    } else if text::same(tool_name, "memory") {
        format_memory_summary(input)
    } else if text::same(tool_name, "todo") {
        let action = input.get_str_or("action", "?");
        let icon = icon_of_todo(action.as_str());
        text::cat3(icon, " todo ", action.as_str())
    } else if text::same(tool_name, "delegate_task") {
        let goal = str_or_empty(input, "goal");
        let preview = text::take_chars(goal.as_str(), 40);
        head_with("\u{f0c0} delegate_task", ": ", preview.as_str())
    } else if text::same(tool_name, "skill_manage") {
        let action = input.get_str_or("action", "?");
        let name = str_or_empty(input, "name");
        let head = text::cat2("\u{f013} skill_manage ", action.as_str());
        head_with(head.as_str(), " ", name.as_str())
    } else if text::starts_with(tool_name, "mcp_") {
        let server = str_or_empty(input, "server_name");
        let head = text::cat2("\u{f1e6} ", tool_name);
        head_with(head.as_str(), " on ", server.as_str())
    } else {
        text::cat2("\u{f0ad} ", tool_name)
    }
}

/// One line for the terminal on what a tool is called with.
pub fn format_tool_input_summary(tool_name: &str, input_json: &str) -> (r: String)
    ensures
        r@ == input_summary(tool_name@, json_utils::tool_input_or_empty(input_json@)),
{
    let input = json_utils::parse_tool_input_or_empty(input_json);
    summarize_parsed_input(tool_name, &input)
}

/// The user sees what a call is about while it runs: the whole command, the file that is
/// read, the query and the address.
pub proof fn law_calls_are_shown_by_what_they_do(input: JsonView)
    ensures
        json::str_member(input, "command"@) matches Some(s) ==> text::has_suffix(
            input_summary("bash"@, input),
            text::trimmed(s),
        ),
        path_member(input) matches Some(p) ==> text::has_suffix(input_summary("read"@, input), p),
{
    reveal_strlit("bash");
    reveal_strlit("read");
    assert("bash"@[0] == 'b' && "read"@[0] == 'r');
    if let Some(s) = json::str_member(input, "command"@) {
        let shown = input_summary("bash"@, input);
        let t = text::trimmed(s);
        assert(shown.subrange(shown.len() - t.len(), shown.len() as int) =~= t);
    }
    if let Some(p) = path_member(input) {
        let shown = input_summary("read"@, input);
        assert(shown.subrange(shown.len() - p.len(), shown.len() as int) =~= p);
    }
}

/// What a tool without a short form of its own gave back is shown whole; an output that
/// begins like a failure is shown as one, whatever the tool.
pub proof fn law_other_outputs_are_shown_whole(
    name: Text,
    output: Text,
    docs: OutputDocsView,
    input: JsonView,
)
    requires
        name != "bash"@,
        name != "read"@,
        name != "read_file"@,
        name != "glob"@,
        name != "grep"@,
        name != "web_search"@,
        name != "web_fetch"@,
        name != "edit"@,
        name != "todo"@,
        name != "memory"@,
        name != "skill_view"@,
        name != "skill_list"@,
        name != "mcp_list_tools"@,
        name != "mcp_call_tool"@,
        name != "mcp_describe_tool"@,
        name != "mcp_list_servers"@,
        name != "delegate_task"@,
    ensures
        output_summary(name, output, docs, input) == if text::has_prefix(output, "[exit code:"@)
            || text::has_prefix(output, "[stderr]"@) {
            failure_summary(output)
        } else {
            output
        },
{
}

/// What is looked for, where, and which file is written, is shown whole; and so is why a
/// delegation failed.
pub proof fn law_searches_and_writes_are_shown_whole(
    head: Text,
    input: JsonView,
    output: Text,
    docs: OutputDocsView,
    x: Text,
)
    ensures
        json::str_member(input, "pattern"@) == Some(x) ==> text::has_substring(
            search_summary(head, input),
            x,
        ),
        json::str_member(input, "path"@) == Some(x) && x.len() > 0 ==> text::has_substring(
            search_summary(head, input),
            x,
        ),
        path_member(input) == Some(x) ==> text::has_substring(write_summary(input), x),
        (docs.whole matches Some(val) && json::str_member(val, "error"@) == Some(x))
            ==> text::has_substring(delegate_summary(output, docs), x),
{
    let pattern = json::str_member_or(input, "pattern"@, "(unknown)"@);
    let path = json::str_member_or(input, "path"@, Seq::empty());
    lemma_search_shows(head, pattern, path);
    if path_member(input) == Some(x) {
        let lines = match json::str_member(input, "content"@) {
            Some(c) => text::lines_of(c).len(),
            None => 0,
        };
        lemma_write_shows("\u{f040} write "@, x, text::decimal(lines));
    }
    text::lemma_both_stand("delegate_task: "@, x);
}

proof fn lemma_search_shows(head: Text, pattern: Text, path: Text)
    ensures
        text::has_substring(head + pattern, pattern),
        text::has_substring(head + pattern + " in "@ + path, pattern),
        text::has_substring(head + pattern + " in "@ + path, path),
{
    text::lemma_both_stand(head, pattern);
    text::lemma_stands_on(head + pattern, pattern, " in "@);
    text::lemma_stands_on(head + pattern + " in "@, pattern, path);
    text::lemma_both_stand(head + pattern + " in "@, path);
}

proof fn lemma_write_shows(head: Text, path: Text, lines: Text)
    ensures
        text::has_substring(head + path, path),
        text::has_substring(head + path + " ("@ + lines + " lines)"@, path),
{
    text::lemma_both_stand(head, path);
    text::lemma_stands_on(head + path, path, " ("@);
    text::lemma_stands_on(head + path + " ("@, path, lines);
    text::lemma_stands_on(head + path + " ("@ + lines, path, " lines)"@);
}

} // verus!
