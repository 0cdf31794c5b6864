//! Working memory that survives across turns.
//!
//! It tracks what the agent has read, written and done, so that after the
//! conversation was compacted the model still knows the key facts.

use crate::json;
use crate::json::Json;
use crate::json::JsonView;
use crate::text;
use crate::text::Text;
use vstd::prelude::*;
use vstd::string::*;

verus! {

pub const MAX_READ_FILES: usize = 6;

pub const MAX_ACTIVE_ARTIFACTS: usize = 8;

pub const MAX_WORK_LOG: usize = 10;

pub const MAX_USER_GOALS: usize = 5;

/// Files of at most as many lines are kept in full.
pub const FULL_CONTENT_LINE_THRESHOLD: usize = 200;

/// Bytes of one file that are kept in full.
pub const MAX_FULL_CONTENT_CHARS: usize = 4096;

/// Bytes of all files together that are kept in full.
pub const FULL_CONTENT_TOTAL_BUDGET: usize = 12_000;

// ---------------------------------------------------------------------------
// Types
// ---------------------------------------------------------------------------

/// What is kept of a file.
pub enum ReadContent<S = String> {
    /// Its first lines, shortened.
    Preview(S),
    /// All of it.
    Full(S),
}

impl View for ReadContent<String> {
    type V = ReadContent<Text>;

    open spec fn view(&self) -> ReadContent<Text> {
        match *self {
            ReadContent::Preview(s) => ReadContent::Preview(s@),
            ReadContent::Full(s) => ReadContent::Full(s@),
        }
    }
}

/// A file that was read.
pub struct ReadFileEntry {
    pub path: String,
    /// Such as `lines 1-50`.
    pub span: String,
    pub content: ReadContent,
}

/// What a `ReadFileEntry` holds.
#[verifier::ext_equal]
pub struct ReadFileView {
    pub path: Text,
    pub span: Text,
    pub content: ReadContent<Text>,
}

impl View for ReadFileEntry {
    type V = ReadFileView;

    open spec fn view(&self) -> ReadFileView {
        ReadFileView { path: self.path@, span: self.span@, content: self.content@ }
    }
}

/// What a list of files holds.
pub open spec fn files_view(v: Seq<ReadFileEntry>) -> Seq<ReadFileView> {
    Seq::new(v.len(), |i: int| v[i]@)
}

/// One entry of the work log.
pub type WorkLogEntry = String;

/// The objective and what belongs to it.
pub struct TaskFocusState {
    /// The goal that is being worked on.
    pub goal: String,
    /// Recent goals, the latest last.
    pub recent_goals: Vec<String>,
    /// Files and addresses in use.
    pub active_artifacts: Vec<String>,
    /// Work that is known to be complete.
    pub verified_state: Vec<String>,
    /// What comes next.
    pub next_step: String,
}

/// What a `TaskFocusState` holds.
#[verifier::ext_equal]
pub struct FocusView {
    pub goal: Text,
    pub recent_goals: Seq<Text>,
    pub active_artifacts: Seq<Text>,
    pub verified_state: Seq<Text>,
    pub next_step: Text,
}

impl View for TaskFocusState {
    type V = FocusView;

    open spec fn view(&self) -> FocusView {
        FocusView {
            goal: self.goal@,
            recent_goals: text::texts(self.recent_goals@),
            active_artifacts: text::texts(self.active_artifacts@),
            verified_state: text::texts(self.verified_state@),
            next_step: self.next_step@,
        }
    }
}

/// The working memory.
pub struct Carryover {
    /// Files that were read, the latest last.
    pub read_files: Vec<ReadFileEntry>,
    /// Files and addresses that were created or changed, the latest last.
    pub active_artifacts: Vec<String>,
    /// What was done, the latest last.
    pub work_log: Vec<WorkLogEntry>,
    /// What the user asked for, the latest last.
    pub user_goals: Vec<String>,
    /// Work that is known to be complete.
    pub verified_work: Vec<String>,
    pub task_focus: TaskFocusState,
}

/// What a `Carryover` holds.
#[verifier::ext_equal]
pub struct CarryoverView {
    pub read_files: Seq<ReadFileView>,
    pub active_artifacts: Seq<Text>,
    pub work_log: Seq<Text>,
    pub user_goals: Seq<Text>,
    pub verified_work: Seq<Text>,
    pub task_focus: FocusView,
}

impl View for Carryover {
    type V = CarryoverView;

    open spec fn view(&self) -> CarryoverView {
        CarryoverView {
            read_files: files_view(self.read_files@),
            active_artifacts: text::texts(self.active_artifacts@),
            work_log: text::texts(self.work_log@),
            user_goals: text::texts(self.user_goals@),
            verified_work: text::texts(self.verified_work@),
            task_focus: self.task_focus@,
        }
    }
}

/// An empty focus.
pub open spec fn no_focus() -> FocusView {
    FocusView {
        goal: Seq::empty(),
        recent_goals: Seq::empty(),
        active_artifacts: Seq::empty(),
        verified_state: Seq::empty(),
        next_step: Seq::empty(),
    }
}

/// An empty memory.
pub open spec fn no_carryover() -> CarryoverView {
    CarryoverView {
        read_files: Seq::empty(),
        active_artifacts: Seq::empty(),
        work_log: Seq::empty(),
        user_goals: Seq::empty(),
        verified_work: Seq::empty(),
        task_focus: no_focus(),
    }
}

impl Default for TaskFocusState {
    fn default() -> (r: TaskFocusState)
        ensures
            r@ == no_focus(),
    {
        let r = TaskFocusState {
            goal: String::new(),
            recent_goals: Vec::new(),
            active_artifacts: Vec::new(),
            verified_state: Vec::new(),
            next_step: String::new(),
        };
        assert(r@ =~= no_focus());
        r
    }
}

impl Default for Carryover {
    fn default() -> (r: Carryover)
        ensures
            r@ == no_carryover(),
    {
        let r = Carryover {
            read_files: Vec::new(),
            active_artifacts: Vec::new(),
            work_log: Vec::new(),
            user_goals: Vec::new(),
            verified_work: Vec::new(),
            task_focus: TaskFocusState::default(),
        };
        assert(r@ =~= no_carryover());
        r
    }
}

// ---------------------------------------------------------------------------
// Lists of limited length
// ---------------------------------------------------------------------------

/// The last `limit` items.
pub open spec fn capped<T>(s: Seq<T>, limit: int) -> Seq<T> {
    if s.len() > limit {
        s.skip(s.len() - limit)
    } else {
        s
    }
}

/// Anything but `value`.
pub open spec fn other_than(value: Text) -> spec_fn(Text) -> bool {
    |v: Text| v != value
}

/// The list with `value` at its end and nowhere else, cut to its last `limit`
/// items.
pub open spec fn appended_unique(s: Seq<Text>, value: Text, limit: int) -> Seq<Text> {
    capped(s.filter(other_than(value)).push(value), limit)
}

/// Drop items from the front until `limit` are left.
pub fn cap_vec<T>(vec: &mut Vec<T>, limit: usize)
    ensures
        final(vec)@ == capped(old(vec)@, limit as int),
{
    let ghost was = vec@;
    let n: usize = vec.len();
    let mut dropped: usize = 0;
    assert(was.skip(0) =~= was);
    while vec.len() > limit
        invariant
            dropped <= was.len(),
            was.len() > limit ==> dropped <= was.len() - limit,
            was.len() <= limit ==> dropped == 0,
            n == was.len(),
            vec@ == was.skip(dropped as int),
        decreases vec@.len(),
    {
        vec.remove(0);
        assert(vec@ =~= was.skip(dropped + 1));
        dropped = dropped + 1;
    }
}

fn retain_other(vec: &mut Vec<String>, value: &str)
    ensures
        text::texts(final(vec)@) == text::texts(old(vec)@).filter(other_than(value@)),
{
    let ghost all = text::texts(vec@);
    let ghost pred = other_than(value@);
    let mut out: Vec<String> = Vec::new();
    let mut i: usize = 0;
    assert(all.take(0).filter(pred) =~= Seq::<Text>::empty()) by {
        assert(all.take(0) =~= Seq::<Text>::empty());
        reveal(Seq::filter);
    }
    while i < vec.len()
        invariant
            i <= vec@.len(),
            all == text::texts(vec@),
            pred == other_than(value@),
            text::texts(out@) == all.take(i as int).filter(pred),
        decreases vec@.len() - i,
    {
        proof {
            assert(all.take(i + 1) =~= all.take(i as int).push(all[i as int]));
            all.take(i as int).lemma_filter_push(all[i as int], pred);
        }
        if !text::same(vec[i].as_str(), value) {
            text::push_text(&mut out, text::copy(vec[i].as_str()));
        }
        i = i + 1;
    }
    assert(all.take(i as int) =~= all);
    *vec = out;
}

/// Append a value that stands in the list only once, at the end, and keep the
/// last `limit` items.
pub fn append_unique(vec: &mut Vec<String>, value: String, limit: usize)
    ensures
        text::texts(final(vec)@) == appended_unique(
            text::texts(old(vec)@),
            value@,
            limit as int,
        ),
{
    retain_other(vec, value.as_str());
    text::push_text(vec, value);
    let ghost was = vec@;
    cap_vec(vec, limit);
    assert(text::texts(vec@) =~= capped(text::texts(was), limit as int));
}

/// The longest prefix of `s` that fits into `max` bytes.
pub fn truncate_str(s: &str, max: usize) -> (r: String)
    ensures
        r@ == text::prefix_within(s@, max as int),
{
    text::cut_bytes(s, max)
}

// ---------------------------------------------------------------------------
// Files
// ---------------------------------------------------------------------------

/// The content of a line that begins with a line number, six bytes wide, and
/// ` | `.
pub open spec fn numbered_content(line: Text) -> Option<Text> {
    let k = text::fitting(line, 6);
    if text::byte_len(line) >= 9 && text::byte_len(line.take(k)) == 6 && text::occurs_at(
        line,
        " | "@,
        k,
    ) && text::parsed_number(text::trimmed(line.take(k)), usize::MAX as nat + 1) is Some {
        Some(line.skip(k + 3))
    } else {
        None
    }
}

/// What stays of a line of a file listing: its content, and nothing of the
/// lines that speak of the listing.
pub open spec fn stripped_line(line: Text) -> Option<Text> {
    if text::has_prefix(line, "(lines "@) || text::has_prefix(line, "[Note:"@) {
        None
    } else {
        match numbered_content(line) {
            Some(content) => Some(content),
            None => if text::is_blank(line) {
                Some(Seq::empty())
            } else {
                Some(line)
            },
        }
    }
}

/// The content of a file listing.
pub open spec fn stripped(output: Text) -> Text {
    text::joined(
        text::lines_of(output).filter_map(|l: Text| stripped_line(l)),
        "\n"@,
    )
}

fn content_of_numbered(line: &str) -> (r: Option<String>)
    ensures
        text::opt_text(r) == numbered_content(line@),
{
    if text::str_bytes(line) < 9 {
        return None;
    }
    let head = text::cut_bytes(line, 6);
    let k: usize = head.as_str().unicode_len();
    proof {
        text::lemma_fitting(line@, 6);
    }
    if text::str_bytes(head.as_str()) != 6 {
        return None;
    }
    let v = text::to_chars(line);
    let bar = text::to_chars(" | ");
    proof {
        reveal_strlit(" | ");
    }
    if !text::stands_at(&v, &bar, k) {
        return None;
    }
    let num = text::trim(head.as_str());
    if text::parse_usize(num.as_str()).is_some() {
        assert(v@.subrange(k + 3, v@.len() as int) =~= line@.skip(k + 3));
        Some(text::from_chars(&v, k + 3, v.len()))
    } else {
        None
    }
}

fn strip_line(line: &str) -> (r: Option<String>)
    ensures
        text::opt_text(r) == stripped_line(line@),
{
    if text::starts_with(line, "(lines ") || text::starts_with(line, "[Note:") {
        return None;
    }
    match content_of_numbered(line) {
        Some(content) => Some(content),
        None => if text::blank(line) {
            Some(String::new())
        } else {
            Some(text::copy(line))
        },
    }
}

/// The content of a file listing, without line numbers and notes.
pub fn strip_line_numbers(output: &str) -> (r: String)
    ensures
        r@ == stripped(output@),
{
    let lines = text::lines(output);
    let ghost all = text::texts(lines@);
    let ghost f = |l: Text| stripped_line(l);
    let mut out: Vec<String> = Vec::new();
    let mut i: usize = 0;
    assert(all.take(0).filter_map(f) =~= Seq::<Text>::empty()) by {
        assert(all.take(0) =~= Seq::<Text>::empty());
    }
    while i < lines.len()
        invariant
            i <= lines@.len(),
            all == text::texts(lines@),
            f == (|l: Text| stripped_line(l)),
            text::texts(out@) == all.take(i as int).filter_map(f),
        decreases lines@.len() - i,
    {
        proof {
            all.lemma_filter_map_take_succ(f, i as int);
        }
        let ghost was = text::texts(out@);
        if let Some(content) = strip_line(lines[i].as_str()) {
            assert(f(all[i as int]) == Some(content@));
            assert(was.push(content@) =~= was + seq![content@]);
            text::push_text(&mut out, content);
        } else {
            assert(was =~= was + Seq::<Text>::empty());
        }
        i = i + 1;
    }
    assert(all.take(i as int) =~= all);
    text::join(&out, "\n")
}

/// The first lines of a file that are not blank, in one line.
pub open spec fn preview_of(raw: Text) -> Text {
    let lines = text::lines_of(raw).filter(|l: Text| !text::is_blank(l));
    let first = if lines.len() <= 6 {
        lines
    } else {
        lines.take(6)
    };
    text::prefix_within(text::joined(first, " | "@), 320)
}

/// Bytes kept of the files that are kept in full, but for the one at `path`.
pub open spec fn full_bytes_besides(files: Seq<ReadFileView>, path: Text) -> nat
    decreases files.len(),
{
    if files.len() == 0 {
        0
    } else {
        full_bytes_besides(files.drop_last(), path) + (match files.last().content {
            ReadContent::Full(s) => if files.last().path != path {
                text::byte_len(s)
            } else {
                0
            },
            ReadContent::Preview(_) => 0,
        })
    }
}

/// What is kept of a file: all of it where it has few lines and the budget
/// allows, else a preview.
pub open spec fn kept_content(files: Seq<ReadFileView>, path: Text, raw: Text) -> ReadContent<
    Text,
> {
    let full = text::prefix_within(raw, MAX_FULL_CONTENT_CHARS as int);
    if text::lines_of(raw).len() <= FULL_CONTENT_LINE_THRESHOLD && full_bytes_besides(files, path)
        + text::byte_len(full) <= FULL_CONTENT_TOTAL_BUDGET {
        ReadContent::Full(full)
    } else {
        ReadContent::Preview(preview_of(raw))
    }
}

/// `lines a-b`.
pub open spec fn span_of(offset: int, limit: int) -> Text {
    "lines "@ + text::decimal((offset + 1) as nat) + "-"@ + text::decimal(
        (offset + limit) as nat,
    )
}

/// The files with the one at `path` read anew, at the end.
pub open spec fn files_after_read(
    files: Seq<ReadFileView>,
    path: Text,
    offset: int,
    limit: int,
    output: Text,
) -> Seq<ReadFileView> {
    let entry = ReadFileView {
        path,
        span: span_of(offset, limit),
        content: kept_content(files, path, stripped(output)),
    };
    capped(
        files.filter(|e: ReadFileView| e.path != path).push(entry),
        MAX_READ_FILES as int,
    )
}

/// The memory after a file was read.
pub open spec fn after_read(
    c: CarryoverView,
    path: Text,
    offset: int,
    limit: int,
    output: Text,
) -> CarryoverView {
    CarryoverView {
        read_files: files_after_read(c.read_files, path, offset, limit, output),
        ..c
    }
}

fn preview_text(raw: &str) -> (r: String)
    ensures
        r@ == preview_of(raw@),
{
    let lines = text::lines(raw);
    let ghost all = text::texts(lines@);
    let ghost pred = |l: Text| !text::is_blank(l);
    let mut out: Vec<String> = Vec::new();
    let mut i: usize = 0;
    assert(all.take(0).filter(pred) =~= Seq::<Text>::empty()) by {
        assert(all.take(0) =~= Seq::<Text>::empty());
        reveal(Seq::filter);
    }
    while i < lines.len()
        invariant
            i <= lines@.len(),
            all == text::texts(lines@),
            pred == (|l: Text| !text::is_blank(l)),
            text::texts(out@) == all.take(i as int).filter(pred),
        decreases lines@.len() - i,
    {
        proof {
            assert(all.take(i + 1) =~= all.take(i as int).push(all[i as int]));
            all.take(i as int).lemma_filter_push(all[i as int], pred);
        }
        if !text::blank(lines[i].as_str()) {
            text::push_text(&mut out, text::copy(lines[i].as_str()));
        }
        i = i + 1;
    }
    assert(all.take(i as int) =~= all);
    let ghost full = text::texts(out@);
    out.truncate(6);
    assert(text::texts(out@) =~= if full.len() <= 6 {
        full
    } else {
        full.take(6)
    });
    let joined = text::join(&out, " | ");
    truncate_str(joined.as_str(), 320)
}

/// The bytes kept in full besides `path`, or the largest number that fits.
fn sum_full_bytes(files: &Vec<ReadFileEntry>, path: &str) -> (r: usize)
    ensures
        full_bytes_besides(files_view(files@), path@) <= usize::MAX ==> r == full_bytes_besides(
            files_view(files@),
            path@,
        ),
        full_bytes_besides(files_view(files@), path@) > usize::MAX ==> r == usize::MAX,
{
    let ghost all = files_view(files@);
    let mut sum: usize = 0;
    let mut i: usize = 0;
    while i < files.len()
        invariant
            i <= files@.len(),
            all == files_view(files@),
            full_bytes_besides(all.take(i as int), path@) <= usize::MAX ==> sum
                == full_bytes_besides(all.take(i as int), path@),
            full_bytes_besides(all.take(i as int), path@) > usize::MAX ==> sum == usize::MAX,
        decreases files@.len() - i,
    {
        assert(all.take(i + 1).drop_last() =~= all.take(i as int));
        assert(all.take(i + 1).last() == files@[i as int]@);
        if !text::same(files[i].path.as_str(), path) {
            if let ReadContent::Full(s) = &files[i].content {
                sum = sum.saturating_add(text::str_bytes(s.as_str()));
            }
        }
        i = i + 1;
    }
    assert(all.take(i as int) =~= all);
    sum
}

fn retain_other_files(files: &mut Vec<ReadFileEntry>, path: &str)
    ensures
        files_view(final(files)@) == files_view(old(files)@).filter(
            |e: ReadFileView| e.path != path@,
        ),
{
    let ghost all = files_view(files@);
    let ghost pred = |e: ReadFileView| e.path != path@;
    let mut out: Vec<ReadFileEntry> = Vec::new();
    let mut rest: Vec<ReadFileEntry> = Vec::new();
    core::mem::swap(files, &mut rest);
    let ghost mut done: int = 0;
    assert(all.take(0).filter(pred) =~= Seq::<ReadFileView>::empty()) by {
        assert(all.take(0) =~= Seq::<ReadFileView>::empty());
        reveal(Seq::filter);
    }
    assert(files_view(rest@) =~= all.skip(0));
    assert(files_view(out@) =~= Seq::<ReadFileView>::empty());
    while rest.len() > 0
        invariant
            0 <= done <= all.len(),
            pred == (|e: ReadFileView| e.path != path@),
            files_view(rest@) == all.skip(done),
            files_view(out@) == all.take(done).filter(pred),
        decreases rest@.len(),
    {
        let ghost was = files_view(rest@);
        assert(was.len() == rest@.len());
        assert(was.len() == all.len() - done);
        let e = rest.remove(0);
        proof {
            assert(e@ == was[0]);
            assert(e@ == all[done]);
            assert(files_view(rest@) =~= was.skip(1));
            assert(was.skip(1) =~= all.skip(done + 1));
            assert(all.take(done + 1) =~= all.take(done).push(all[done]));
            all.take(done).lemma_filter_push(all[done], pred);
        }
        let ghost ev = e@;
        let ghost kept = files_view(out@);
        if !text::same(e.path.as_str(), path) {
            out.push(e);
            assert(files_view(out@) =~= kept.push(ev));
        }
        proof {
            done = done + 1;
        }
    }
    proof {
        assert(files_view(rest@).len() == 0);
        assert(all.take(done) =~= all);
    }
    *files = out;
}

impl Carryover {
    /// Record that a file was read. A file of few lines is kept in full while
    /// the budget lasts.
    pub fn remember_read_file(&mut self, path: &str, offset: usize, limit: usize, output: &str)
        requires
            offset < usize::MAX,
            offset + limit <= usize::MAX,
        ensures
            final(self)@ == after_read(
                old(self)@,
                path@,
                offset as int,
                limit as int,
                output@,
            ),
    {
        let ghost was = self@;
        let raw = strip_line_numbers(output);
        let lines = text::lines(raw.as_str());
        assert(text::texts(lines@).len() == lines@.len());
        let full = truncate_str(raw.as_str(), MAX_FULL_CONTENT_CHARS);
        let existing: usize = sum_full_bytes(&self.read_files, path);
        let fits = existing <= FULL_CONTENT_TOTAL_BUDGET && text::str_bytes(full.as_str())
            <= FULL_CONTENT_TOTAL_BUDGET - existing;
        let content = if lines.len() <= FULL_CONTENT_LINE_THRESHOLD && fits {
            ReadContent::Full(full)
        } else {
            ReadContent::Preview(preview_text(raw.as_str()))
        };
        assert(content@ == kept_content(was.read_files, path@, raw@));
        let from = text::count(offset + 1);
        let to = text::count(offset + limit);
        let entry = ReadFileEntry {
            path: text::copy(path),
            span: text::cat4("lines ", from.as_str(), "-", to.as_str()),
            content,
        };
        let ghost ev = entry@;
        retain_other_files(&mut self.read_files, path);
        let ghost kept = files_view(self.read_files@);
        self.read_files.push(entry);
        let ghost pushed = self.read_files@;
        assert(files_view(pushed) =~= kept.push(ev));
        cap_vec(&mut self.read_files, MAX_READ_FILES);
        assert(files_view(self.read_files@) =~= capped(
            files_view(pushed),
            MAX_READ_FILES as int,
        ));
    }
}

// ---------------------------------------------------------------------------
// Artifacts, work and goals
// ---------------------------------------------------------------------------

/// The memory with an artifact added.
pub open spec fn with_artifact(c: CarryoverView, artifact: Text) -> CarryoverView {
    let t = text::trimmed(artifact);
    if t.len() == 0 {
        c
    } else {
        CarryoverView {
            active_artifacts: appended_unique(
                c.active_artifacts,
                text::prefix_within(t, 240),
                MAX_ACTIVE_ARTIFACTS as int,
            ),
            ..c
        }
    }
}

/// The memory with an entry added to the work log.
pub open spec fn with_work(c: CarryoverView, entry: Text) -> CarryoverView {
    let t = text::trimmed(entry);
    if t.len() == 0 {
        c
    } else {
        CarryoverView {
            work_log: capped(c.work_log.push(text::prefix_within(t, 320)), MAX_WORK_LOG as int),
            ..c
        }
    }
}

/// A text with its white space reduced to single spaces, shortened.
pub open spec fn normalized_goal(prompt: Text) -> Text {
    text::prefix_within(text::joined(text::words_of(prompt), " "@), 240)
}

/// Whether a text holds no word.
pub open spec fn no_words(prompt: Text) -> bool {
    text::joined(text::words_of(prompt), " "@).len() == 0
}

/// The memory with what the user asked for added.
pub open spec fn with_user_goal(c: CarryoverView, prompt: Text) -> CarryoverView {
    if no_words(prompt) {
        c
    } else {
        CarryoverView {
            user_goals: appended_unique(
                c.user_goals,
                normalized_goal(prompt),
                MAX_USER_GOALS as int,
            ),
            ..c
        }
    }
}

/// The memory with a goal set.
pub open spec fn with_goal(c: CarryoverView, goal: Text) -> CarryoverView {
    if no_words(goal) {
        c
    } else {
        CarryoverView {
            task_focus: FocusView {
                goal: normalized_goal(goal),
                recent_goals: appended_unique(
                    c.task_focus.recent_goals,
                    normalized_goal(goal),
                    MAX_USER_GOALS as int,
                ),
                ..c.task_focus
            },
            ..c
        }
    }
}

/// The memory without a goal.
pub open spec fn without_goal(c: CarryoverView) -> CarryoverView {
    CarryoverView {
        task_focus: FocusView { goal: Seq::empty(), next_step: Seq::empty(), ..c.task_focus },
        ..c
    }
}

fn normalize_goal(prompt: &str) -> (r: Option<String>)
    ensures
        match r {
            Some(g) => !no_words(prompt@) && g@ == normalized_goal(prompt@),
            None => no_words(prompt@),
        },
{
    let words = text::words(prompt);
    let joined = text::join(&words, " ");
    if joined.as_str().is_empty() {
        None
    } else {
        Some(truncate_str(joined.as_str(), 240))
    }
}

impl Carryover {
    /// Record a file or address that is being worked on.
    pub fn remember_artifact(&mut self, artifact: &str)
        ensures
            final(self)@ == with_artifact(old(self)@, artifact@),
    {
        let normalized = text::trim(artifact);
        if normalized.as_str().is_empty() {
            return;
        }
        let s = truncate_str(normalized.as_str(), 240);
        append_unique(&mut self.active_artifacts, s, MAX_ACTIVE_ARTIFACTS);
    }

    /// Record what was done.
    pub fn remember_work(&mut self, entry: &str)
        ensures
            final(self)@ == with_work(old(self)@, entry@),
    {
        let normalized = text::trim(entry);
        if normalized.as_str().is_empty() {
            return;
        }
        let s = truncate_str(normalized.as_str(), 320);
        text::push_text(&mut self.work_log, s);
        let ghost was = self.work_log@;
        cap_vec(&mut self.work_log, MAX_WORK_LOG);
        assert(text::texts(self.work_log@) =~= capped(text::texts(was), MAX_WORK_LOG as int));
    }

    /// Record what the user asked for. This does not make it the goal: only
    /// `set_goal` does.
    pub fn remember_user_goal(&mut self, prompt: &str)
        ensures
            final(self)@ == with_user_goal(old(self)@, prompt@),
    {
        if let Some(goal) = normalize_goal(prompt) {
            append_unique(&mut self.user_goals, goal, MAX_USER_GOALS);
        }
    }

    /// Set the goal that is worked on until it is reached.
    pub fn set_goal(&mut self, goal: &str)
        ensures
            final(self)@ == with_goal(old(self)@, goal@),
    {
        if let Some(g) = normalize_goal(goal) {
            self.task_focus.goal = text::copy(g.as_str());
            append_unique(&mut self.task_focus.recent_goals, g, MAX_USER_GOALS);
        }
    }

    /// Whether there is a goal.
    pub fn has_pending_goal(&self) -> (r: bool)
        ensures
            r == (self@.task_focus.goal.len() > 0),
    {
        !self.task_focus.goal.as_str().is_empty()
    }

    /// Drop the goal: the task is done.
    pub fn clear_goal(&mut self)
        ensures
            final(self)@ == without_goal(old(self)@),
    {
        self.task_focus.goal = String::new();
        self.task_focus.next_step = String::new();
    }

    /// Whether the memory holds anything.
    pub fn has_data(&self) -> (r: bool)
        ensures
            r == holds_data(self@),
    {
        assert(self@.read_files.len() == self.read_files@.len());
        assert(self@.active_artifacts.len() == self.active_artifacts@.len());
        assert(self@.work_log.len() == self.work_log@.len());
        assert(self@.user_goals.len() == self.user_goals@.len());
        self.read_files.len() > 0 || self.active_artifacts.len() > 0 || self.work_log.len() > 0
            || self.user_goals.len() > 0
    }
}

/// Whether a memory holds anything.
pub open spec fn holds_data(c: CarryoverView) -> bool {
    c.read_files.len() > 0 || c.active_artifacts.len() > 0 || c.work_log.len() > 0
        || c.user_goals.len() > 0
}

// ---------------------------------------------------------------------------
// Tool results
// ---------------------------------------------------------------------------

/// The number that a member holds, or a default.
pub open spec fn number_or(input: JsonView, key: Text, default: usize) -> usize {
    match json::unsigned_member(input, key) {
        Some(n) => n as usize,
        None => default,
    }
}

/// Whether the span of a read can be written down.
pub open spec fn span_fits(input: JsonView) -> bool {
    let offset = number_or(input, "offset"@, 0);
    let limit = number_or(input, "limit"@, 200);
    offset < usize::MAX && offset + limit <= usize::MAX
}

/// The first line of an output, shortened.
pub open spec fn output_headline(output: Text) -> Text {
    let line = match text::first_line(output) {
        Some(l) => l,
        None => "no output"@,
    };
    text::prefix_within(text::trimmed(line), 120)
}

/// The member `key` as a text, shortened.
pub open spec fn short_member(input: JsonView, key: Text, max: int) -> Text {
    text::prefix_within(json::str_member_or(input, key, Seq::empty()), max)
}

/// The memory after a read of `path`.
pub open spec fn after_read_call(
    c: CarryoverView,
    input: JsonView,
    output: Text,
    path: Text,
) -> CarryoverView {
    let offset = number_or(input, "offset"@, 0) as int;
    let limit = number_or(input, "limit"@, 200) as int;
    with_work(
        after_read(c, path, offset, limit, output),
        "Read file "@ + path + " ("@ + span_of(offset, limit) + ")"@,
    )
}

/// The memory after a call of a tool that did not fail.
pub open spec fn after_call(
    c: CarryoverView,
    tool_name: Text,
    input: JsonView,
    output: Text,
    path: Option<Text>,
) -> CarryoverView {
    let named = match path {
        Some(p) => with_artifact(c, p),
        None => c,
    };
    if tool_name == "read"@ || tool_name == "read_file"@ {
        match path {
            Some(p) => after_read_call(named, input, output, p),
            None => named,
        }
    } else if tool_name == "write"@ || tool_name == "edit"@ {
        match path {
            Some(p) => with_work(named, "Wrote/edited file "@ + p),
            None => named,
        }
    } else if tool_name == "bash"@ {
        with_work(
            named,
            "Ran bash: "@ + short_member(input, "command"@, 160) + " ["@ + output_headline(output)
                + "]"@,
        )
    } else if tool_name == "glob"@ {
        with_work(named, "Expanded glob "@ + short_member(input, "pattern"@, 180))
    } else if tool_name == "grep"@ {
        with_work(named, "Searched with grep pattern="@ + short_member(input, "pattern"@, 160))
    } else if tool_name == "web_fetch"@ {
        let url = json::str_member_or(input, "url"@, Seq::empty());
        if url.len() > 0 {
            with_work(with_artifact(named, url), "Fetched remote content from "@ + url)
        } else {
            named
        }
    } else if tool_name == "web_search"@ {
        let query = json::str_member_or(input, "query"@, Seq::empty());
        if query.len() > 0 {
            with_work(named, "Web search: "@ + text::prefix_within(query, 180))
        } else {
            named
        }
    } else if tool_name == "skill_view"@ || tool_name == "skill_list"@ {
        let name = json::str_member_or(input, "name"@, Seq::empty());
        if name.len() > 0 {
            with_work(with_artifact(named, "skill:"@ + name), "Loaded skill "@ + name)
        } else {
            named
        }
    } else {
        named
    }
}

/// The memory after a call of a tool.
pub open spec fn recorded(
    c: CarryoverView,
    tool_name: Text,
    input: JsonView,
    output: Text,
    is_error: bool,
    path: Option<Text>,
) -> CarryoverView {
    if is_error {
        c
    } else {
        after_call(c, tool_name, input, output, path)
    }
}

fn text_member(input: &Json, key: &str) -> (r: String)
    ensures
        r@ == json::str_member_or(input@, key@, Seq::empty()),
{
    match input.get_str(key) {
        Some(s) => s,
        None => String::new(),
    }
}

fn headline(output: &str) -> (r: String)
    ensures
        r@ == output_headline(output@),
{
    let line = match text::take_line(output) {
        Some(l) => l,
        None => text::copy("no output"),
    };
    let t = text::trim(line.as_str());
    truncate_str(t.as_str(), 120)
}

/// Whether a call reads a file.
pub open spec fn is_read(tool_name: Text) -> bool {
    tool_name == "read"@ || tool_name == "read_file"@
}

impl Carryover {
    fn record_read(&mut self, input: &Json, output: &str, path: &str)
        requires
            span_fits(input@),
        ensures
            final(self)@ == after_read_call(old(self)@, input@, output@, path@),
    {
        let offset: usize = match input.get_u64("offset") {
            Some(n) => n as usize,
            None => 0,
        };
        let limit: usize = match input.get_u64("limit") {
            Some(n) => n as usize,
            None => 200,
        };
        self.remember_read_file(path, offset, limit, output);
        let from = text::count(offset + 1);
        let to = text::count(offset + limit);
        let span = text::cat4("lines ", from.as_str(), "-", to.as_str());
        let entry = text::cat5("Read file ", path, " (", span.as_str(), ")");
        self.remember_work(entry.as_str());
    }

    /// Record what a tool was called with and gave back.
    pub fn record_tool_result(
        &mut self,
        tool_name: &str,
        tool_input: &Json,
        tool_output: &str,
        is_error: bool,
        resolved_file_path: &Option<String>,
    )
        requires
            is_read(tool_name@) && !is_error && *resolved_file_path is Some ==> span_fits(
                tool_input@,
            ),
        ensures
            final(self)@ == recorded(
                old(self)@,
                tool_name@,
                tool_input@,
                tool_output@,
                is_error,
                text::opt_text(*resolved_file_path),
            ),
    {
        if is_error {
            return;
        }
        if let Some(path) = resolved_file_path {
            self.remember_artifact(path.as_str());
        }
        if text::same(tool_name, "read") || text::same(tool_name, "read_file") {
            if let Some(path) = resolved_file_path {
                self.record_read(tool_input, tool_output, path.as_str());
            }
        } else if text::same(tool_name, "write") || text::same(tool_name, "edit") {
            if let Some(path) = resolved_file_path {
                let entry = text::cat2("Wrote/edited file ", path.as_str());
                self.remember_work(entry.as_str());
            }
        } else if text::same(tool_name, "bash") {
            let command = text_member(tool_input, "command");
            let short = truncate_str(command.as_str(), 160);
            let head = headline(tool_output);
            let entry = text::cat5("Ran bash: ", short.as_str(), " [", head.as_str(), "]");
            self.remember_work(entry.as_str());
        } else if text::same(tool_name, "glob") {
            let pattern = text_member(tool_input, "pattern");
            let short = truncate_str(pattern.as_str(), 180);
            let entry = text::cat2("Expanded glob ", short.as_str());
            self.remember_work(entry.as_str());
        } else if text::same(tool_name, "grep") {
            let pattern = text_member(tool_input, "pattern");
            let short = truncate_str(pattern.as_str(), 160);
            let entry = text::cat2("Searched with grep pattern=", short.as_str());
            self.remember_work(entry.as_str());
        } else if text::same(tool_name, "web_fetch") {
            let url = text_member(tool_input, "url");
            if !url.as_str().is_empty() {
                self.remember_artifact(url.as_str());
                let entry = text::cat2("Fetched remote content from ", url.as_str());
                self.remember_work(entry.as_str());
            }
        } else if text::same(tool_name, "web_search") {
            let query = text_member(tool_input, "query");
            if !query.as_str().is_empty() {
                let short = truncate_str(query.as_str(), 180);
                let entry = text::cat2("Web search: ", short.as_str());
                self.remember_work(entry.as_str());
            }
        } else if text::same(tool_name, "skill_view") || text::same(tool_name, "skill_list") {
            let name = text_member(tool_input, "name");
            if !name.as_str().is_empty() {
                let skill = text::cat2("skill:", name.as_str());
                self.remember_artifact(skill.as_str());
                let entry = text::cat2("Loaded skill ", name.as_str());
                self.remember_work(entry.as_str());
            }
        }
    }
}

/// The first of the members `file_path`, `path` and `root` that holds a text.
pub open spec fn resolved_path(input: JsonView) -> Option<Text> {
    let named = |key: Text|
        match json::str_member(input, key) {
            Some(s) => text::trimmed(s),
            None => Seq::<char>::empty(),
        };
    if named("file_path"@).len() > 0 {
        Some(named("file_path"@))
    } else if named("path"@).len() > 0 {
        Some(named("path"@))
    } else if named("root"@).len() > 0 {
        Some(named("root"@))
    } else {
        None
    }
}

fn trimmed_member(input: &Json, key: &str) -> (r: Option<String>)
    ensures
        match r {
            Some(s) => s@.len() > 0 && json::str_member(input@, key@) is Some && s@
                == text::trimmed(json::str_member(input@, key@)->Some_0),
            None => json::str_member(input@, key@) is Some ==> text::trimmed(
                json::str_member(input@, key@)->Some_0,
            ).len() == 0,
        },
{
    match input.get_str(key) {
        Some(s) => {
            let t = text::trim(s.as_str());
            if t.as_str().is_empty() {
                None
            } else {
                Some(t)
            }
        },
        None => None,
    }
}

/// The file that a tool is called on.
pub fn resolve_file_path(tool_input: &Json) -> (r: Option<String>)
    ensures
        text::opt_text(r) == resolved_path(tool_input@),
{
    if let Some(p) = trimmed_member(tool_input, "file_path") {
        return Some(p);
    }
    if let Some(p) = trimmed_member(tool_input, "path") {
        return Some(p);
    }
    trimmed_member(tool_input, "root")
}

// ---------------------------------------------------------------------------
// The memory as text
// ---------------------------------------------------------------------------

/// A title and a bullet for each item; nothing where there is no item.
pub open spec fn section(title: Text, items: Seq<Text>) -> Seq<Text> {
    if items.len() == 0 {
        Seq::empty()
    } else {
        seq![title] + text::marked(items, "- "@)
    }
}

/// What is said of a file.
pub open spec fn file_parts(f: ReadFileView) -> Seq<Text> {
    match f.content {
        ReadContent::Full(content) => seq![
            "- "@ + f.path + " ("@ + f.span + ", full content preserved):"@,
            "  ````text\n"@ + content + "\n  ````"@,
        ],
        ReadContent::Preview(preview) => seq![
            "- "@ + f.path + " ("@ + f.span + ") — "@ + preview,
        ],
    }
}

/// What is said of files.
pub open spec fn files_parts(files: Seq<ReadFileView>) -> Seq<Text>
    decreases files.len(),
{
    if files.len() == 0 {
        Seq::empty()
    } else {
        files_parts(files.drop_last()) + file_parts(files.last())
    }
}

/// What is said of the files that were read.
pub open spec fn files_section(files: Seq<ReadFileView>) -> Seq<Text> {
    if files.len() == 0 {
        Seq::empty()
    } else {
        seq!["## Files Read"@] + files_parts(files)
    }
}

/// A title and an indented bullet for each item; nothing where there is none.
pub open spec fn subsection(title: Text, items: Seq<Text>) -> Seq<Text> {
    if items.len() == 0 {
        Seq::empty()
    } else {
        seq![title] + text::marked(items, "  - "@)
    }
}

/// What is said of the goal.
pub open spec fn focus_section(f: FocusView) -> Seq<Text> {
    if f.goal.len() == 0 {
        Seq::empty()
    } else {
        seq!["## Task Focus"@, "- Current goal: "@ + f.goal] + (if f.next_step.len() == 0 {
            Seq::empty()
        } else {
            seq!["- Next step: "@ + f.next_step]
        }) + subsection("- Active artifacts:"@, f.active_artifacts) + subsection(
            "- Verified state:"@,
            f.verified_state,
        )
    }
}

/// The lines of the memory as a model reads it.
pub open spec fn context_parts(c: CarryoverView) -> Seq<Text> {
    section("## User Goals"@, c.user_goals) + files_section(c.read_files) + section(
        "## Active Artifacts"@,
        c.active_artifacts,
    ) + section("## Work Done"@, c.work_log) + section(
        "## Verified Completed"@,
        c.verified_work,
    ) + focus_section(c.task_focus)
}

fn push_section(parts: &mut Vec<String>, title: &str, items: &Vec<String>)
    ensures
        text::texts(final(parts)@) == text::texts(old(parts)@) + section(
            title@,
            text::texts(items@),
        ),
{
    let ghost was = text::texts(parts@);
    assert(text::texts(items@).len() == items@.len());
    if items.len() > 0 {
        text::push_text(parts, text::copy(title));
        text::push_marked(parts, items, "- ");
    }
    assert(text::texts(parts@) =~= was + section(title@, text::texts(items@)));
}

fn push_subsection(parts: &mut Vec<String>, title: &str, items: &Vec<String>)
    ensures
        text::texts(final(parts)@) == text::texts(old(parts)@) + subsection(
            title@,
            text::texts(items@),
        ),
{
    let ghost was = text::texts(parts@);
    assert(text::texts(items@).len() == items@.len());
    if items.len() > 0 {
        text::push_text(parts, text::copy(title));
        text::push_marked(parts, items, "  - ");
    }
    assert(text::texts(parts@) =~= was + subsection(title@, text::texts(items@)));
}

fn push_file(parts: &mut Vec<String>, f: &ReadFileEntry)
    ensures
        text::texts(final(parts)@) == text::texts(old(parts)@) + file_parts(f@),
{
    let ghost was = text::texts(parts@);
    match &f.content {
        ReadContent::Full(content) => {
            text::push_text(
                parts,
                text::cat5(
                    "- ",
                    f.path.as_str(),
                    " (",
                    f.span.as_str(),
                    ", full content preserved):",
                ),
            );
            text::push_text(parts, text::cat3("  ````text\n", content.as_str(), "\n  ````"));
        },
        ReadContent::Preview(preview) => {
            text::push_text(
                parts,
                text::cat6(
                    "- ",
                    f.path.as_str(),
                    " (",
                    f.span.as_str(),
                    ") — ",
                    preview.as_str(),
                ),
            );
        },
    }
    assert(text::texts(parts@) =~= was + file_parts(f@));
}

fn push_files(parts: &mut Vec<String>, files: &Vec<ReadFileEntry>)
    ensures
        text::texts(final(parts)@) == text::texts(old(parts)@) + files_section(files_view(files@)),
{
    let ghost was = text::texts(parts@);
    let ghost all = files_view(files@);
    if files.len() == 0 {
        assert(was + files_section(all) =~= was);
        return;
    }
    text::push_text(parts, text::copy("## Files Read"));
    let ghost base = text::texts(parts@);
    let mut i: usize = 0;
    assert(base + files_parts(all.take(0)) =~= base);
    while i < files.len()
        invariant
            i <= files@.len(),
            all == files_view(files@),
            text::texts(parts@) == base + files_parts(all.take(i as int)),
        decreases files@.len() - i,
    {
        assert(all.take(i + 1).drop_last() =~= all.take(i as int));
        assert(all.take(i + 1).last() == files@[i as int]@);
        push_file(parts, &files[i]);
        assert((base + files_parts(all.take(i as int))) + file_parts(all[i as int]) =~= base + (
        files_parts(all.take(i as int)) + file_parts(all[i as int])));
        i = i + 1;
    }
    assert(all.take(i as int) =~= all);
    assert(text::texts(parts@) =~= was + files_section(all));
}

fn push_focus(parts: &mut Vec<String>, f: &TaskFocusState)
    ensures
        text::texts(final(parts)@) == text::texts(old(parts)@) + focus_section(f@),
{
    let ghost was = text::texts(parts@);
    if !f.goal.as_str().is_empty() {
        text::push_text(parts, text::copy("## Task Focus"));
        text::push_text(parts, text::cat2("- Current goal: ", f.goal.as_str()));
        if !f.next_step.as_str().is_empty() {
            text::push_text(parts, text::cat2("- Next step: ", f.next_step.as_str()));
        }
        push_subsection(parts, "- Active artifacts:", &f.active_artifacts);
        push_subsection(parts, "- Verified state:", &f.verified_state);
    }
    assert(text::texts(parts@) =~= was + focus_section(f@));
}

/// The last items first, at most `n` of them.
pub open spec fn latest_first(items: Seq<Text>, n: int) -> Seq<Text> {
    let k = if items.len() < n {
        items.len() as int
    } else {
        n
    };
    Seq::new(k as nat, |i: int| items[items.len() - 1 - i])
}

/// The lines that ask the model to go on with the goal.
pub open spec fn continuation_parts(c: CarryoverView) -> Seq<Text> {
    let f = c.task_focus;
    seq![
        "[system] You stopped before completing the task. Continue working on the goal."@,
        "[system] Goal: "@ + f.goal,
    ] + (if f.next_step.len() > 0 {
        seq!["[system] Next step: "@ + f.next_step]
    } else {
        Seq::empty()
    }) + (if f.active_artifacts.len() > 0 {
        seq!["[system] Active artifacts: "@ + text::joined(f.active_artifacts, ", "@)]
    } else {
        Seq::empty()
    }) + (if c.verified_work.len() > 0 {
        seq![
            "[system] Already completed (do NOT redo): "@ + text::joined(
                latest_first(c.verified_work, 5),
                "; "@,
            ),
        ]
    } else {
        Seq::empty()
    }) + seq![
        "[system] Use the appropriate tools to continue. Do NOT just describe what you would do — actually do it."@,
    ]
}

/// What asks the model to go on with the goal, where there is one.
pub open spec fn continuation(c: CarryoverView) -> Option<Text> {
    if c.task_focus.goal.len() == 0 {
        None
    } else {
        Some(text::joined(continuation_parts(c), "\n"@))
    }
}

fn take_latest(items: &Vec<String>, n: usize) -> (r: Vec<String>)
    ensures
        text::texts(r@) == latest_first(text::texts(items@), n as int),
{
    let ghost all = text::texts(items@);
    let mut out: Vec<String> = Vec::new();
    let mut i: usize = 0;
    while i < items.len() && i < n
        invariant
            i <= items@.len(),
            i <= n,
            out@.len() == i,
            all == text::texts(items@),
            forall|k: int| 0 <= k < i ==> (#[trigger] out@[k])@ == all[all.len() - 1 - k],
        decreases items@.len() - i,
    {
        out.push(text::copy(items[items.len() - 1 - i].as_str()));
        i = i + 1;
    }
    assert(text::texts(out@) =~= latest_first(all, n as int));
    out
}

impl Carryover {
    /// The memory as text for a prompt.
    pub fn to_context_text(&self) -> (r: String)
        ensures
            r@ == text::joined(context_parts(self@), "\n"@),
    {
        let mut parts: Vec<String> = Vec::new();
        push_section(&mut parts, "## User Goals", &self.user_goals);
        push_files(&mut parts, &self.read_files);
        push_section(&mut parts, "## Active Artifacts", &self.active_artifacts);
        push_section(&mut parts, "## Work Done", &self.work_log);
        push_section(&mut parts, "## Verified Completed", &self.verified_work);
        push_focus(&mut parts, &self.task_focus);
        assert(text::texts(parts@) =~= context_parts(self@));
        text::join(&parts, "\n")
    }

    /// What asks the model to go on when it stopped before the goal was reached.
    pub fn build_continuation_prompt(&self) -> (r: Option<String>)
        ensures
            text::opt_text(r) == continuation(self@),
    {
        let f = &self.task_focus;
        if f.goal.as_str().is_empty() {
            return None;
        }
        let mut parts: Vec<String> = Vec::new();
        text::push_text(
            &mut parts,
            text::copy(
                "[system] You stopped before completing the task. Continue working on the goal.",
            ),
        );
        text::push_text(&mut parts, text::cat2("[system] Goal: ", f.goal.as_str()));
        if !f.next_step.as_str().is_empty() {
            text::push_text(&mut parts, text::cat2("[system] Next step: ", f.next_step.as_str()));
        }
        assert(f@.active_artifacts.len() == f.active_artifacts@.len());
        if f.active_artifacts.len() > 0 {
            let list = text::join(&f.active_artifacts, ", ");
            text::push_text(&mut parts, text::cat2("[system] Active artifacts: ", list.as_str()));
        }
        assert(self@.verified_work.len() == self.verified_work@.len());
        if self.verified_work.len() > 0 {
            let recent = take_latest(&self.verified_work, 5);
            let list = text::join(&recent, "; ");
            text::push_text(
                &mut parts,
                text::cat2("[system] Already completed (do NOT redo): ", list.as_str()),
            );
        }
        text::push_text(
            &mut parts,
            text::copy(
                "[system] Use the appropriate tools to continue. Do NOT just describe what you would do — actually do it.",
            ),
        );
        assert(text::texts(parts@) =~= continuation_parts(self@));
        Some(text::join(&parts, "\n"))
    }
}

// ---------------------------------------------------------------------------
// Laws
// ---------------------------------------------------------------------------

/// Bytes of the files that are kept in full.
pub open spec fn full_bytes(files: Seq<ReadFileView>) -> nat
    decreases files.len(),
{
    if files.len() == 0 {
        0
    } else {
        full_bytes(files.drop_last()) + (match files.last().content {
            ReadContent::Full(s) => text::byte_len(s),
            ReadContent::Preview(_) => 0,
        })
    }
}

/// Every list within its limit, no path, artifact or goal twice, and the budget
/// kept.
#[verifier::opaque]
pub open spec fn within_limits(c: CarryoverView) -> bool {
    &&& c.read_files.len() <= MAX_READ_FILES
    &&& c.active_artifacts.len() <= MAX_ACTIVE_ARTIFACTS
    &&& c.work_log.len() <= MAX_WORK_LOG
    &&& c.user_goals.len() <= MAX_USER_GOALS
    &&& c.task_focus.recent_goals.len() <= MAX_USER_GOALS
    &&& c.active_artifacts.no_duplicates()
    &&& c.user_goals.no_duplicates()
    &&& c.task_focus.recent_goals.no_duplicates()
    &&& forall|i: int, j: int|
        0 <= i < j < c.read_files.len() ==> (#[trigger] c.read_files[i]).path != (
        #[trigger] c.read_files[j]).path
    &&& full_bytes(c.read_files) <= FULL_CONTENT_TOTAL_BUDGET
    &&& forall|i: int|
        0 <= i < c.read_files.len() ==> content_fits((#[trigger] c.read_files[i]).content)
    &&& forall|i: int| 0 <= i < c.work_log.len() ==> text::byte_len(#[trigger] c.work_log[i]) <= 320
}

/// Whether what is kept of a file fits: few bytes of a preview, more in full. A limit
/// on bytes is one on characters too.
pub open spec fn content_fits(content: ReadContent<Text>) -> bool {
    match content {
        ReadContent::Full(s) => text::byte_len(s) <= MAX_FULL_CONTENT_CHARS,
        ReadContent::Preview(s) => text::byte_len(s) <= 320,
    }
}

proof fn lemma_appended_unique(s: Seq<Text>, value: Text, limit: int)
    requires
        limit > 0,
        s.no_duplicates(),
    ensures
        appended_unique(s, value, limit).no_duplicates(),
        appended_unique(s, value, limit).len() <= limit,
        appended_unique(s, value, limit).last() == value,
{
    let pred = other_than(value);
    let kept = s.filter(pred);
    lemma_filter_distinct(s, pred);
    assert forall|i: int| 0 <= i < kept.len() implies kept[i] != value by {
        s.lemma_filter_pred(pred, i);
    }
    let all = kept.push(value);
    assert(all.no_duplicates());
    let out = appended_unique(s, value, limit);
    assert forall|i: int, j: int| 0 <= i < out.len() && 0 <= j < out.len() && i != j implies out[i]
        != out[j] by {
        if all.len() > limit {
            let d = all.len() - limit;
            assert(out[i] == all[i + d] && out[j] == all[j + d]);
        }
    }
}

proof fn lemma_filter_distinct(s: Seq<Text>, pred: spec_fn(Text) -> bool)
    requires
        s.no_duplicates(),
    ensures
        s.filter(pred).no_duplicates(),
    decreases s.len(),
{
    reveal(Seq::filter);
    if s.len() > 0 {
        let rest = s.drop_last();
        assert(rest.no_duplicates());
        lemma_filter_distinct(rest, pred);
        let kept = rest.filter(pred);
        if pred(s.last()) {
            assert forall|i: int| 0 <= i < kept.len() implies kept[i] != s.last() by {
                assert(kept.contains(kept[i]));
                rest.lemma_filter_contains_rev(pred, kept[i]);
                let k = choose|k: int| 0 <= k < rest.len() && rest[k] == kept[i];
                assert(s[k] != s[s.len() - 1]);
            }
        }
    }
}

proof fn lemma_full_bytes_skip(files: Seq<ReadFileView>, k: int)
    requires
        0 <= k <= files.len(),
    ensures
        full_bytes(files.skip(k)) <= full_bytes(files),
    decreases files.len(),
{
    if k < files.len() {
        lemma_full_bytes_skip(files.drop_last(), k);
        assert(files.skip(k).drop_last() =~= files.drop_last().skip(k));
    }
}

proof fn lemma_besides(files: Seq<ReadFileView>, path: Text)
    ensures
        full_bytes(files.filter(|e: ReadFileView| e.path != path)) == full_bytes_besides(
            files,
            path,
        ),
        full_bytes_besides(files, path) <= full_bytes(files),
    decreases files.len(),
{
    reveal(Seq::filter);
    let pred = |e: ReadFileView| e.path != path;
    if files.len() > 0 {
        let rest = files.drop_last();
        lemma_besides(rest, path);
        if pred(files.last()) {
            let kept = rest.filter(pred);
            assert(kept.push(files.last()).drop_last() =~= kept);
        }
    }
}

proof fn lemma_paths_distinct(files: Seq<ReadFileView>, pred: spec_fn(ReadFileView) -> bool)
    requires
        forall|i: int, j: int|
            0 <= i < j < files.len() ==> (#[trigger] files[i]).path != (#[trigger] files[j]).path,
    ensures
        forall|i: int, j: int|
            0 <= i < j < files.filter(pred).len() ==> (#[trigger] files.filter(pred)[i]).path != (
            #[trigger] files.filter(pred)[j]).path,
        files.filter(pred).len() <= files.len(),
    decreases files.len(),
{
    reveal(Seq::filter);
    if files.len() > 0 {
        let rest = files.drop_last();
        assert forall|i: int, j: int| 0 <= i < j < rest.len() implies (#[trigger] rest[i]).path
            != (#[trigger] rest[j]).path by {
            assert(files[i].path != files[j].path);
        }
        lemma_paths_distinct(rest, pred);
        let kept = rest.filter(pred);
        if pred(files.last()) {
            assert forall|i: int| 0 <= i < kept.len() implies (#[trigger] kept[i]).path
                != files.last().path by {
                assert(kept.contains(kept[i]));
                rest.lemma_filter_contains_rev(pred, kept[i]);
                let k = choose|k: int| 0 <= k < rest.len() && rest[k] == kept[i];
                assert(files[k].path != files[files.len() - 1].path);
            }
        }
    }
}

/// Reading a file keeps the limits: at most six files, none twice, each within its
/// own limit, and no more than the budget in full. The file is there afterwards, at the
/// end, with the lines that were read. Nothing else of the memory changes.
pub proof fn law_read_keeps_limits(
    c: CarryoverView,
    path: Text,
    offset: int,
    limit: int,
    output: Text,
)
    requires
        within_limits(c),
    ensures
        within_limits(after_read(c, path, offset, limit, output)),
        after_read(c, path, offset, limit, output).read_files.last().path == path,
        after_read(c, path, offset, limit, output).read_files.last().span == "lines "@
            + text::decimal((offset + 1) as nat) + "-"@ + text::decimal((offset + limit) as nat),
        after_read(c, path, offset, limit, output) == (CarryoverView {
            read_files: after_read(c, path, offset, limit, output).read_files,
            ..c
        }),
{
    reveal(within_limits);
    let files = c.read_files;
    let pred = |e: ReadFileView| e.path != path;
    let kept = files.filter(pred);
    let entry = ReadFileView {
        path,
        span: span_of(offset, limit),
        content: kept_content(files, path, stripped(output)),
    };
    lemma_besides(files, path);
    lemma_paths_distinct(files, pred);
    assert forall|i: int| 0 <= i < kept.len() implies (#[trigger] kept[i]).path != path by {
        files.lemma_filter_pred(pred, i);
    }
    let all = kept.push(entry);
    assert(all.drop_last() =~= kept);
    assert(full_bytes(all) <= FULL_CONTENT_TOTAL_BUDGET);
    let raw = stripped(output);
    text::lemma_fitting(raw, MAX_FULL_CONTENT_CHARS as int);
    let lines = text::lines_of(raw).filter(|l: Text| !text::is_blank(l));
    let first = if lines.len() <= 6 {
        lines
    } else {
        lines.take(6)
    };
    text::lemma_fitting(text::joined(first, " | "@), 320);
    assert(content_fits(entry.content));
    assert forall|i: int| 0 <= i < all.len() implies content_fits((#[trigger] all[i]).content) by {
        if i < kept.len() {
            assert(all[i] == kept[i]);
            assert(kept.contains(kept[i]));
            files.lemma_filter_contains_rev(pred, kept[i]);
            let k = choose|k: int| 0 <= k < files.len() && files[k] == kept[i];
            assert(content_fits(files[k].content));
        }
    }
    if all.len() > MAX_READ_FILES {
        lemma_full_bytes_skip(all, all.len() - MAX_READ_FILES);
    }
}

/// A line about work that was done keeps the limits.
pub proof fn law_work_keeps_limits(c: CarryoverView, entry: Text)
    requires
        within_limits(c),
    ensures
        within_limits(with_work(c, entry)),
{
    reveal(within_limits);
    text::lemma_fitting(text::trimmed(entry), 320);
}

/// Recording the result of any tool keeps the limits.
pub proof fn law_record_keeps_limits(
    c: CarryoverView,
    tool_name: Text,
    input: JsonView,
    output: Text,
    is_error: bool,
    path: Option<Text>,
)
    requires
        within_limits(c),
    ensures
        within_limits(recorded(c, tool_name, input, output, is_error, path)),
{
    let named = match path {
        Some(p) => with_artifact(c, p),
        None => c,
    };
    if let Some(p) = path {
        law_artifact_keeps_limits(c, p);
    }
    if tool_name == "read"@ || tool_name == "read_file"@ {
        if let Some(p) = path {
            let offset = number_or(input, "offset"@, 0) as int;
            let limit = number_or(input, "limit"@, 200) as int;
            law_read_keeps_limits(named, p, offset, limit, output);
            law_work_keeps_limits(
                after_read(named, p, offset, limit, output),
                "Read file "@ + p + " ("@ + span_of(offset, limit) + ")"@,
            );
        }
    } else if tool_name == "write"@ || tool_name == "edit"@ {
        if let Some(p) = path {
            law_work_keeps_limits(named, "Wrote/edited file "@ + p);
        }
    } else if tool_name == "bash"@ {
        law_work_keeps_limits(
            named,
            "Ran bash: "@ + short_member(input, "command"@, 160) + " ["@ + output_headline(output)
                + "]"@,
        );
    } else if tool_name == "glob"@ {
        law_work_keeps_limits(named, "Expanded glob "@ + short_member(input, "pattern"@, 180));
    } else if tool_name == "grep"@ {
        law_work_keeps_limits(
            named,
            "Searched with grep pattern="@ + short_member(input, "pattern"@, 160),
        );
    } else if tool_name == "web_fetch"@ {
        let url = json::str_member_or(input, "url"@, Seq::empty());
        law_artifact_keeps_limits(named, url);
        law_work_keeps_limits(with_artifact(named, url), "Fetched remote content from "@ + url);
    } else if tool_name == "web_search"@ {
        let query = json::str_member_or(input, "query"@, Seq::empty());
        law_work_keeps_limits(named, "Web search: "@ + text::prefix_within(query, 180));
    } else if tool_name == "skill_view"@ || tool_name == "skill_list"@ {
        let name = json::str_member_or(input, "name"@, Seq::empty());
        law_artifact_keeps_limits(named, "skill:"@ + name);
        law_work_keeps_limits(
            with_artifact(named, "skill:"@ + name),
            "Loaded skill "@ + name,
        );
    }
}

/// An artifact stands in the list once, at the end, and the limits are kept.
pub proof fn law_artifact_keeps_limits(c: CarryoverView, artifact: Text)
    requires
        within_limits(c),
    ensures
        within_limits(with_artifact(c, artifact)),
        !text::is_blank(artifact) ==> with_artifact(c, artifact).active_artifacts.last()
            == text::prefix_within(text::trimmed(artifact), 240),
{
    reveal(within_limits);
    let t = text::trimmed(artifact);
    if t.len() > 0 {
        lemma_appended_unique(
            c.active_artifacts,
            text::prefix_within(t, 240),
            MAX_ACTIVE_ARTIFACTS as int,
        );
    }
}

/// What the user asks for never becomes the goal by itself, and setting a goal
/// keeps the limits.
pub proof fn law_only_set_goal_sets_the_goal(c: CarryoverView, prompt: Text)
    requires
        within_limits(c),
    ensures
        with_user_goal(c, prompt).task_focus == c.task_focus,
        within_limits(with_user_goal(c, prompt)),
        within_limits(with_goal(c, prompt)),
        !no_words(prompt) ==> with_goal(c, prompt).task_focus.goal == normalized_goal(prompt)
            && with_goal(c, prompt).task_focus.recent_goals.last() == normalized_goal(prompt),
{
    reveal(within_limits);
    if !no_words(prompt) {
        lemma_appended_unique(c.user_goals, normalized_goal(prompt), MAX_USER_GOALS as int);
        lemma_appended_unique(
            c.task_focus.recent_goals,
            normalized_goal(prompt),
            MAX_USER_GOALS as int,
        );
    }
}

/// A goal that was cleared is not pursued: there is nothing to go on with. The limits
/// are kept.
pub proof fn law_cleared_goal_is_not_pursued(c: CarryoverView)
    ensures
        within_limits(c) ==> within_limits(without_goal(c)),
        without_goal(c).task_focus.goal.len() == 0,
        continuation(without_goal(c)) is None,
        without_goal(without_goal(c)) == without_goal(c),
{
    reveal(within_limits);
}

/// A failed call leaves no trace in the memory.
pub proof fn law_failed_call_is_not_recorded(
    c: CarryoverView,
    tool_name: Text,
    input: JsonView,
    output: Text,
    path: Option<Text>,
)
    ensures
        recorded(c, tool_name, input, output, true, path) == c,
{
}

/// Whether a memory holds anything that it can tell.
pub open spec fn holds_something(c: CarryoverView) -> bool {
    ||| c.user_goals.len() > 0
    ||| c.read_files.len() > 0
    ||| c.active_artifacts.len() > 0
    ||| c.work_log.len() > 0
    ||| c.verified_work.len() > 0
    ||| c.task_focus.goal.len() > 0
}

/// The text of a memory is empty exactly where the memory holds nothing. The goal,
/// where there is one, stands in it on a line of its own.
pub proof fn law_context_text_tells_what_there_is(c: CarryoverView)
    ensures
        (text::joined(context_parts(c), "\n"@).len() > 0) == holds_something(c),
        holds_data(c) ==> text::joined(context_parts(c), "\n"@).len() > 0,
        c.task_focus.goal.len() > 0 ==> {
            &&& context_parts(c).contains("- Current goal: "@ + c.task_focus.goal)
            &&& text::has_substring(
                text::joined(context_parts(c), "\n"@),
                "- Current goal: "@ + c.task_focus.goal,
            )
        },
{
    let parts = context_parts(c);
    reveal_strlit("## User Goals");
    reveal_strlit("## Files Read");
    reveal_strlit("## Active Artifacts");
    reveal_strlit("## Work Done");
    reveal_strlit("## Verified Completed");
    reveal_strlit("## Task Focus");
    if !holds_something(c) {
        assert(parts =~= Seq::<Text>::empty());
    } else {
        // The first section that there is begins with its title.
        assert(parts.len() > 0 && parts[0].len() > 0);
        text::lemma_joined_has(parts, "\n"@, 0);
    }
    if c.task_focus.goal.len() > 0 {
        let line = "- Current goal: "@ + c.task_focus.goal;
        let at = parts.len() - focus_section(c.task_focus).len() + 1;
        assert(focus_section(c.task_focus)[1] == line);
        assert(parts[at] == line);
        text::lemma_joined_has(parts, "\n"@, at);
    }
}

proof fn lemma_section_tells(parts: Seq<Text>, title: Text, items: Seq<Text>, from: int, i: int)
    requires
        0 <= i < items.len(),
        0 <= from,
        from + section(title, items).len() <= parts.len(),
        parts.subrange(from, from + section(title, items).len()) == section(title, items),
    ensures
        text::has_substring(text::joined(parts, "\n"@), items[i]),
{
    let own = section(title, items);
    let at = from + 1 + i;
    assert(parts.subrange(from, from + own.len())[1 + i] == parts[at]);
    assert(parts[at] == "- "@ + items[i]);
    text::lemma_joined_has(parts, "\n"@, at);
    text::lemma_both_stand("- "@, items[i]);
    text::lemma_stands_within(text::joined(parts, "\n"@), parts[at], items[i]);
}

proof fn lemma_file_parts_place(files: Seq<ReadFileView>, i: int) -> (at: int)
    requires
        0 <= i < files.len(),
    ensures
        0 <= at,
        at + file_parts(files[i]).len() <= files_parts(files).len(),
        forall|k: int|
            0 <= k < file_parts(files[i]).len() ==> #[trigger] files_parts(files)[at + k]
                == file_parts(files[i])[k],
    decreases files.len(),
{
    let front = files_parts(files.drop_last());
    if i == files.len() - 1 {
        front.len() as int
    } else {
        let at = lemma_file_parts_place(files.drop_last(), i);
        assert forall|k: int| 0 <= k < file_parts(files[i]).len() implies #[trigger] files_parts(
            files,
        )[at + k] == file_parts(files[i])[k] by {
            assert(front[at + k] == file_parts(files[i])[k]);
        }
        at
    }
}

/// The model is told everything that the memory holds: each goal of the user, each file
/// that was read with what is kept of it, each artifact, each piece of work, and what was
/// verified.
pub proof fn law_context_text_tells_everything(c: CarryoverView, i: int)
    ensures
        ({
            let told = text::joined(context_parts(c), "\n"@);
            &&& 0 <= i < c.user_goals.len() ==> text::has_substring(told, c.user_goals[i])
            &&& 0 <= i < c.active_artifacts.len() ==> text::has_substring(
                told,
                c.active_artifacts[i],
            )
            &&& 0 <= i < c.work_log.len() ==> text::has_substring(told, c.work_log[i])
            &&& 0 <= i < c.verified_work.len() ==> text::has_substring(told, c.verified_work[i])
            &&& 0 <= i < c.read_files.len() ==> {
                &&& text::has_substring(told, c.read_files[i].path)
                &&& text::has_substring(told, c.read_files[i].span)
                &&& match c.read_files[i].content {
                    ReadContent::Full(content) => text::has_substring(told, content),
                    ReadContent::Preview(preview) => text::has_substring(told, preview),
                }
            }
        }),
{
    let parts = context_parts(c);
    let s1 = section("## User Goals"@, c.user_goals);
    let s2 = files_section(c.read_files);
    let s3 = section("## Active Artifacts"@, c.active_artifacts);
    let s4 = section("## Work Done"@, c.work_log);
    let s5 = section("## Verified Completed"@, c.verified_work);
    let a2: int = s1.len() as int;
    let a3: int = a2 + s2.len();
    let a4: int = a3 + s3.len();
    let a5: int = a4 + s4.len();
    assert(parts.subrange(0, s1.len() as int) =~= s1);
    assert(parts.subrange(a2, a2 + s2.len()) =~= s2);
    assert(parts.subrange(a3, a3 + s3.len()) =~= s3);
    assert(parts.subrange(a4, a4 + s4.len()) =~= s4);
    assert(parts.subrange(a5, a5 + s5.len()) =~= s5);
    if 0 <= i < c.user_goals.len() {
        lemma_section_tells(parts, "## User Goals"@, c.user_goals, 0, i);
    }
    if 0 <= i < c.active_artifacts.len() {
        lemma_section_tells(parts, "## Active Artifacts"@, c.active_artifacts, a3, i);
    }
    if 0 <= i < c.work_log.len() {
        lemma_section_tells(parts, "## Work Done"@, c.work_log, a4, i);
    }
    if 0 <= i < c.verified_work.len() {
        lemma_section_tells(parts, "## Verified Completed"@, c.verified_work, a5, i);
    }
    if 0 <= i < c.read_files.len() {
        lemma_file_is_told(c, parts, a2, i);
    }
}

proof fn lemma_file_is_told(c: CarryoverView, parts: Seq<Text>, from: int, i: int)
    requires
        0 <= i < c.read_files.len(),
        0 <= from,
        from + files_section(c.read_files).len() <= parts.len(),
        parts.subrange(from, from + files_section(c.read_files).len()) == files_section(
            c.read_files,
        ),
    ensures
        ({
            let told = text::joined(parts, "\n"@);
            let f = c.read_files[i];
            &&& text::has_substring(told, f.path)
            &&& text::has_substring(told, f.span)
            &&& match f.content {
                ReadContent::Full(content) => text::has_substring(told, content),
                ReadContent::Preview(preview) => text::has_substring(told, preview),
            }
        }),
{
    let told = text::joined(parts, "\n"@);
    let f = c.read_files[i];
    let own = files_section(c.read_files);
    let at = lemma_file_parts_place(c.read_files, i);
    let p = from + 1 + at;
    assert(files_parts(c.read_files)[at + 0] == file_parts(f)[0]);
    assert(parts.subrange(from, from + own.len())[1 + at] == parts[p]);
    let line = parts[p];
    assert(line == file_parts(f)[0]);
    text::lemma_joined_has(parts, "\n"@, p);
    match f.content {
        ReadContent::Full(content) => {
            let rest = " ("@ + f.span + ", full content preserved):"@;
            text::lemma_stands_between("- "@, f.path, rest);
            assert(line =~= "- "@ + f.path + rest);
            text::lemma_stands_between(
                "- "@ + f.path + " ("@,
                f.span,
                ", full content preserved):"@,
            );
            assert(files_parts(c.read_files)[at + 1] == file_parts(f)[1]);
            assert(parts.subrange(from, from + own.len())[1 + at + 1] == parts[p + 1]);
            text::lemma_joined_has(parts, "\n"@, p + 1);
            text::lemma_stands_between("  ````text\n"@, content, "\n  ````"@);
            text::lemma_stands_within(told, parts[p + 1], content);
        },
        ReadContent::Preview(preview) => {
            let rest = " ("@ + f.span + ") — "@ + preview;
            text::lemma_stands_between("- "@, f.path, rest);
            assert(line =~= "- "@ + f.path + rest);
            text::lemma_stands_between("- "@ + f.path + " ("@, f.span, ") — "@ + preview);
            assert(line =~= "- "@ + f.path + " ("@ + f.span + (") — "@ + preview));
            text::lemma_both_stand("- "@ + f.path + " ("@ + f.span + ") — "@, preview);
            text::lemma_stands_within(told, line, preview);
        },
    }
    text::lemma_stands_within(told, line, f.path);
    text::lemma_stands_within(told, line, f.span);
}

/// What is added to the memory is its latest entry of that kind, and only the oldest ones
/// make room for it: the artifact and the work as they are, the goal of the user with its
/// words one space apart, each as far as it fits. Nothing else of the memory changes.
pub proof fn law_what_is_added_is_remembered(c: CarryoverView, s: Text)
    ensures
        !text::is_blank(s) ==> {
            let after = with_work(c, s);
            let t = text::trimmed(s);
            &&& after.work_log.len() > 0
            &&& after.work_log.last().is_prefix_of(t)
            &&& text::byte_len(t) <= 320 ==> after.work_log.last() == t
            &&& after.work_log.drop_last() == if c.work_log.len() < 10 {
                c.work_log
            } else {
                c.work_log.skip(c.work_log.len() - 9)
            }
            &&& after == (CarryoverView { work_log: after.work_log, ..c })
        },
        !text::is_blank(s) ==> {
            let after = with_artifact(c, s);
            let t = text::trimmed(s);
            &&& after.active_artifacts.len() > 0
            &&& after.active_artifacts.last().is_prefix_of(t)
            &&& text::byte_len(t) <= 240 ==> after.active_artifacts.last() == t
            &&& after == (CarryoverView { active_artifacts: after.active_artifacts, ..c })
        },
        text::words_of(s).len() > 0 ==> {
            let after = with_user_goal(c, s);
            let t = text::joined(text::words_of(s), " "@);
            &&& after.user_goals.len() > 0
            &&& after.user_goals.last().is_prefix_of(t)
            &&& text::byte_len(t) <= 240 ==> after.user_goals.last() == t
            &&& after == (CarryoverView { user_goals: after.user_goals, ..c })
        },
{
    let t = text::trimmed(s);
    lemma_prefix_within(t, 320);
    lemma_prefix_within(t, 240);
    if !text::is_blank(s) {
        let after = with_work(c, s);
        let grown = c.work_log.push(text::prefix_within(t, 320));
        assert(after.work_log =~= capped(grown, MAX_WORK_LOG as int));
        if c.work_log.len() < 10 {
            assert(after.work_log.drop_last() =~= c.work_log);
        } else {
            assert(after.work_log.drop_last() =~= c.work_log.skip(c.work_log.len() - 9));
        }
    }
    if text::words_of(s).len() > 0 {
        let g = text::joined(text::words_of(s), " "@);
        lemma_prefix_within(g, 240);
        text::lemma_words_are_words(s);
        text::lemma_joined_has(text::words_of(s), " "@, 0);
        assert(g.len() > 0);
    }
}

proof fn lemma_prefix_within(s: Text, max: int)
    requires
        0 <= max,
    ensures
        text::prefix_within(s, max).is_prefix_of(s),
        text::byte_len(s) <= max ==> text::prefix_within(s, max) == s,
{
    text::lemma_fitting(s, max);
    assert(s.take(s.len() as int) =~= s);
}

/// What asks the model to go on names the goal, the next step where there is one, every
/// artifact in focus, and the latest five things that are done.
pub proof fn law_continuation_names_the_goal(c: CarryoverView)
    requires
        c.task_focus.goal.len() > 0,
    ensures
        continuation(c) matches Some(prompt) && {
            &&& text::has_substring(prompt, c.task_focus.goal)
            &&& text::has_substring(prompt, c.task_focus.next_step)
            &&& forall|i: int|
                0 <= i < c.task_focus.active_artifacts.len() ==> text::has_substring(
                    prompt,
                    #[trigger] c.task_focus.active_artifacts[i],
                )
            &&& forall|i: int|
                0 <= i < c.verified_work.len() && i >= c.verified_work.len() - 5
                    ==> text::has_substring(prompt, #[trigger] c.verified_work[i])
        },
{
    let f = c.task_focus;
    let parts = continuation_parts(c);
    let prompt = text::joined(parts, "\n"@);
    lemma_part_tells(parts, 1, "[system] Goal: "@, f.goal);
    let steps: int = if f.next_step.len() > 0 {
        1
    } else {
        0
    };
    let arts: int = if f.active_artifacts.len() > 0 {
        1
    } else {
        0
    };
    if f.next_step.len() > 0 {
        lemma_part_tells(parts, 2, "[system] Next step: "@, f.next_step);
    } else {
        assert(prompt.subrange(0, 0) =~= f.next_step);
        assert(text::occurs_at(prompt, f.next_step, 0));
    }
    assert forall|i: int| 0 <= i < f.active_artifacts.len() implies text::has_substring(
        prompt,
        #[trigger] f.active_artifacts[i],
    ) by {
        let all = text::joined(f.active_artifacts, ", "@);
        lemma_part_tells(parts, 2 + steps, "[system] Active artifacts: "@, all);
        text::lemma_joined_has(f.active_artifacts, ", "@, i);
        text::lemma_stands_within(prompt, all, f.active_artifacts[i]);
    }
    assert forall|i: int|
        0 <= i < c.verified_work.len() && i >= c.verified_work.len() - 5 implies text::has_substring(
        prompt,
        #[trigger] c.verified_work[i],
    ) by {
        let latest = latest_first(c.verified_work, 5);
        let all = text::joined(latest, "; "@);
        lemma_part_tells(
            parts,
            2 + steps + arts,
            "[system] Already completed (do NOT redo): "@,
            all,
        );
        let k = c.verified_work.len() - 1 - i;
        assert(latest[k] == c.verified_work[i]);
        text::lemma_joined_has(latest, "; "@, k);
        text::lemma_stands_within(prompt, all, c.verified_work[i]);
    }
}

proof fn lemma_part_tells(parts: Seq<Text>, at: int, head: Text, words: Text)
    requires
        0 <= at < parts.len(),
        parts[at] == head + words,
    ensures
        text::has_substring(text::joined(parts, "\n"@), words),
{
    text::lemma_joined_has(parts, "\n"@, at);
    text::lemma_both_stand(head, words);
    text::lemma_stands_within(text::joined(parts, "\n"@), parts[at], words);
}

/// A file that was read is kept in full where it is short: its lines without their
/// numbers, as far as they fit.
pub proof fn law_short_files_are_kept_in_full(
    c: CarryoverView,
    path: Text,
    offset: int,
    limit: int,
    output: Text,
)
    requires
        text::lines_of(stripped(output)).len() <= 200,
        text::byte_len(stripped(output)) <= 4096,
        full_bytes_besides(c.read_files, path) + text::byte_len(stripped(output)) <= 12000,
    ensures
        after_read(c, path, offset, limit, output).read_files.last().content
            == ReadContent::Full(stripped(output)),
{
    lemma_prefix_within(stripped(output), 4096);
}

/// An empty memory is within its limits and says nothing.
pub proof fn law_empty_memory()
    ensures
        within_limits(no_carryover()),
        !holds_data(no_carryover()),
        text::joined(context_parts(no_carryover()), "\n"@) == Seq::<char>::empty(),
{
    reveal(within_limits);
    assert(context_parts(no_carryover()) =~= Seq::<Text>::empty());
}

/// A numbered line of a file listing is its content without the number: what stands
/// behind six bytes that hold a number, and the mark.
pub proof fn law_numbers_are_stripped(number: Text, content: Text)
    requires
        text::byte_len(number) == 6,
        text::parsed_number(text::trimmed(number), usize::MAX as nat + 1) is Some,
        !text::has_prefix(number + " | "@ + content, "(lines "@),
        !text::has_prefix(number + " | "@ + content, "[Note:"@),
    ensures
        stripped_line(number + " | "@ + content) == Some(content),
{
    reveal_strlit(" | ");
    let line = number + " | "@ + content;
    let k: int = number.len() as int;
    let f = text::fitting(line, 6);
    assert(line.take(k) =~= number);
    text::lemma_fitting(line, 6);
    assert(f == k) by {
        if f < k {
            assert(text::byte_len(line.take(k)) > 6);
        }
        if f > k {
            let more = line.subrange(k, f);
            assert(line.take(f) =~= number + more);
            text::lemma_byte_len_add(number, more);
            text::lemma_byte_len_bounds(more);
        }
    }
    assert(line.subrange(k, k + 3) =~= " | "@);
    assert(line.skip(k + 3) =~= content);
    assert(line =~= number + (" | "@ + content));
    text::lemma_byte_len_add(number, " | "@ + content);
    text::lemma_byte_len_bounds(" | "@ + content);
}

/// Nothing of a file is lost with the numbers: every line of a listing that is not a note
/// on the listing stands in what is kept, as it is or without its number.
pub proof fn law_stripping_keeps_every_line(output: Text, i: int)
    requires
        0 <= i < text::lines_of(output).len(),
        stripped_line(text::lines_of(output)[i]) is Some,
    ensures
        text::has_substring(stripped(output), stripped_line(text::lines_of(output)[i])->Some_0),
        ({
            let line = text::lines_of(output)[i];
            let kept = stripped_line(line)->Some_0;
            text::has_suffix(line, kept) || text::is_blank(line)
        }),
{
    let lines = text::lines_of(output);
    let f = |l: Text| stripped_line(l);
    let kept = lines.filter_map(f);
    let x = stripped_line(lines[i])->Some_0;
    lemma_kept_line(lines, f, i);
    let k = choose|k: int| 0 <= k < kept.len() && kept[k] == x;
    text::lemma_joined_has(kept, "\n"@, k);
    let line = lines[i];
    if !text::is_blank(line) || numbered_content(line) is Some {
        reveal_strlit(" | ");
        text::lemma_fitting(line, 6);
        assert(" | "@.len() == 3);
        assert(line.subrange(line.len() - x.len(), line.len() as int) =~= x);
    }
}

proof fn lemma_kept_line(lines: Seq<Text>, f: spec_fn(Text) -> Option<Text>, i: int)
    requires
        0 <= i < lines.len(),
        f(lines[i]) is Some,
    ensures
        lines.filter_map(f).contains(f(lines[i])->Some_0),
    decreases lines.len(),
{
    let rest = lines.drop_last();
    let x = f(lines[i])->Some_0;
    let out = lines.filter_map(f);
    if i == lines.len() - 1 {
        assert(out == rest.filter_map(f) + seq![x]);
        assert(out[out.len() - 1] == x);
    } else {
        lemma_kept_line(rest, f, i);
        let inner = rest.filter_map(f);
        let k = choose|k: int| 0 <= k < inner.len() && inner[k] == x;
        assert(out[k] == x);
    }
}

/// What a call did is the latest entry of the work log, in words that name it: the file,
/// the command with the first line of what it said, the pattern, the address, the query or
/// the skill.
pub proof fn law_work_is_logged_by_what_was_done(
    c: CarryoverView,
    input: JsonView,
    output: Text,
    path: Text,
)
    ensures
        after_call(c, "write"@, input, output, Some(path)) == with_work(
            with_artifact(c, path),
            "Wrote/edited file "@ + path,
        ),
        after_call(c, "edit"@, input, output, Some(path)) == after_call(
            c,
            "write"@,
            input,
            output,
            Some(path),
        ),
        json::str_member(input, "pattern"@) matches Some(p) ==> text::byte_len(p) <= 160
            ==> after_call(c, "grep"@, input, output, None) == with_work(
            c,
            "Searched with grep pattern="@ + p,
        ) && after_call(c, "glob"@, input, output, None) == with_work(c, "Expanded glob "@ + p),
        json::str_member(input, "url"@) matches Some(u) ==> u.len() > 0 ==> after_call(
            c,
            "web_fetch"@,
            input,
            output,
            None,
        ) == with_work(with_artifact(c, u), "Fetched remote content from "@ + u),
{
    lemma_tool_names_differ();
    if let Some(p) = json::str_member(input, "pattern"@) {
        if text::byte_len(p) <= 160 {
            lemma_prefix_within(p, 160);
            lemma_prefix_within(p, 180);
        }
    }
}

proof fn lemma_tool_names_differ()
    ensures
        "write"@ != "read"@,
        "write"@ != "read_file"@,
        "edit"@ != "read"@,
        "edit"@ != "read_file"@,
        "grep"@ != "read"@,
        "grep"@ != "read_file"@,
        "grep"@ != "write"@,
        "grep"@ != "edit"@,
        "grep"@ != "bash"@,
        "grep"@ != "glob"@,
        "glob"@ != "read"@,
        "glob"@ != "read_file"@,
        "glob"@ != "write"@,
        "glob"@ != "edit"@,
        "glob"@ != "bash"@,
        "web_fetch"@ != "read"@,
        "web_fetch"@ != "read_file"@,
        "web_fetch"@ != "write"@,
        "web_fetch"@ != "edit"@,
        "web_fetch"@ != "bash"@,
        "web_fetch"@ != "glob"@,
        "web_fetch"@ != "grep"@,
{
    reveal_strlit("read");
    reveal_strlit("read_file");
    reveal_strlit("write");
    reveal_strlit("edit");
    reveal_strlit("bash");
    reveal_strlit("grep");
    reveal_strlit("glob");
    reveal_strlit("web_fetch");
    assert("read"@[0] == 'r' && "read_file"@[0] == 'r' && "write"@[0] == 'w' && "edit"@[0] == 'e');
    assert("bash"@[0] == 'b' && "grep"@[0] == 'g' && "glob"@[0] == 'g' && "web_fetch"@[0] == 'w');
    assert("grep"@[1] == 'r' && "glob"@[1] == 'l');
    assert("web_fetch"@.len() == 9 && "write"@.len() == 5);
}

} // verus!
