//! The index of saved sessions: how it is kept, filtered and listed.

use crate::engine::session;
use crate::engine::session::IndexView;
use crate::engine::session::SessionData;
use crate::engine::session::SessionIndexEntry;
use crate::engine::session::SessionView;
use crate::text;
use crate::text::Text;
use crate::time;
use vstd::prelude::*;
use vstd::string::*;

verus! {

/// How many sessions the index lists.
pub const MAX_INDEXED: usize = 50;

// ---------------------------------------------------------------------------
// Files
// ---------------------------------------------------------------------------

/// The name of the file that a session is saved in.
pub open spec fn file_of(id: Text) -> Text {
    id + ".json"@
}

/// The name of the file that a session is saved in, and loaded from.
pub fn session_file(id: &str) -> (r: String)
    ensures
        r@ == file_of(id@),
{
    text::cat2(id, ".json")
}

/// Whether a file of the sessions directory holds a session: it has the
/// extension `json`, and is not the index.
pub open spec fn names_session(name: Text) -> bool {
    text::has_suffix(name, ".json"@) && name.len() > ".json"@.len() && name != "index.json"@
}

/// Whether a file of the sessions directory holds a session.
pub fn is_session_file(name: &str) -> (r: bool)
    ensures
        r == names_session(name@),
{
    proof {
        reveal_strlit(".json");
    }
    text::ends_with(name, ".json") && text::to_chars(name).len() > 5 && !text::same(
        name,
        "index.json",
    )
}

// ---------------------------------------------------------------------------
// Order
// ---------------------------------------------------------------------------

/// How many of the leading entries are not older than `x`.
pub open spec fn place_of(s: Seq<IndexView>, x: IndexView) -> nat
    decreases s.len(),
{
    if s.len() == 0 || text::precedes(s[0].saved_at, x.saved_at) {
        0
    } else {
        1 + place_of(s.drop_first(), x)
    }
}

/// The entries, newest first; those of the same time in the order they had.
pub open spec fn newest_first(s: Seq<IndexView>) -> Seq<IndexView>
    decreases s.len(),
{
    if s.len() == 0 {
        s
    } else {
        let sorted = newest_first(s.drop_last());
        sorted.insert(place_of(sorted, s.last()) as int, s.last())
    }
}

/// Whether no entry is older than one behind it.
pub open spec fn is_newest_first(s: Seq<IndexView>) -> bool {
    forall|i: int, j: int|
        0 <= i < j < s.len() ==> !text::precedes(
            (#[trigger] s[i]).saved_at,
            (#[trigger] s[j]).saved_at,
        )
}

proof fn lemma_place(s: Seq<IndexView>, x: IndexView)
    ensures
        place_of(s, x) <= s.len(),
        forall|i: int|
            0 <= i < place_of(s, x) ==> !text::precedes((#[trigger] s[i]).saved_at, x.saved_at),
        place_of(s, x) < s.len() ==> text::precedes(
            s[place_of(s, x) as int].saved_at,
            x.saved_at,
        ),
    decreases s.len(),
{
    if s.len() > 0 && !text::precedes(s[0].saved_at, x.saved_at) {
        let rest = s.drop_first();
        lemma_place(rest, x);
        assert forall|i: int| 0 <= i < place_of(s, x) implies !text::precedes(
            (#[trigger] s[i]).saved_at,
            x.saved_at,
        ) by {
            if i > 0 {
                assert(s[i] == rest[i - 1]);
            }
        }
        assert(rest[place_of(rest, x) as int] == s[place_of(s, x) as int] || place_of(rest, x)
            == rest.len());
    }
}

proof fn lemma_insert_sorted(s: Seq<IndexView>, x: IndexView)
    requires
        is_newest_first(s),
    ensures
        is_newest_first(s.insert(place_of(s, x) as int, x)),
        s.insert(place_of(s, x) as int, x).to_multiset() == s.to_multiset().insert(x),
{
    let p = place_of(s, x) as int;
    lemma_place(s, x);
    let r = s.insert(p, x);
    assert forall|i: int, j: int| 0 <= i < j < r.len() implies !text::precedes(
        (#[trigger] r[i]).saved_at,
        (#[trigger] r[j]).saved_at,
    ) by {
        if i < p && j > p {
            assert(!text::precedes(s[i].saved_at, s[j - 1].saved_at));
        } else if i > p {
            assert(!text::precedes(s[i - 1].saved_at, s[j - 1].saved_at));
        } else if i == p {
            let later = s[j - 1].saved_at;
            text::lemma_precedes_is_order(x.saved_at, later, s[p].saved_at);
            text::lemma_precedes_is_order(s[p].saved_at, x.saved_at, later);
            if j - 1 > p {
                assert(!text::precedes(s[p].saved_at, s[j - 1].saved_at));
            }
        } else if j < p {
            assert(!text::precedes(s[i].saved_at, s[j].saved_at));
        }
    }
    s.to_multiset_ensures();
    assert(r.to_multiset() =~= s.to_multiset().insert(x)) by {
        vstd::seq_lib::to_multiset_insert(s, p, x);
    }
}

/// Ordering keeps every entry, leaves none behind an older one, and adds
/// nothing.
pub proof fn law_newest_first(s: Seq<IndexView>)
    ensures
        is_newest_first(newest_first(s)),
        newest_first(s).to_multiset() == s.to_multiset(),
        newest_first(s).len() == s.len(),
    decreases s.len(),
{
    if s.len() > 0 {
        let rest = s.drop_last();
        law_newest_first(rest);
        lemma_insert_sorted(newest_first(rest), s.last());
        lemma_place(newest_first(rest), s.last());
        assert(s =~= rest.push(s.last()));
        rest.to_multiset_ensures();
    }
}

/// Move an entry into an index that is ordered, behind those that are not older.
fn insert_newest(index: &mut Vec<SessionIndexEntry>, entry: SessionIndexEntry)
    requires
        old(index)@.len() < usize::MAX,
    ensures
        session::index_view(final(index)@) == session::index_view(old(index)@).insert(
            place_of(session::index_view(old(index)@), entry@) as int,
            entry@,
        ),
{
    let ghost all = session::index_view(index@);
    let mut i: usize = 0;
    assert(all.skip(0) =~= all);
    while i < index.len() && !text::comes_before(
        index[i].saved_at.as_str(),
        entry.saved_at.as_str(),
    )
        invariant
            i <= index@.len(),
            all == session::index_view(index@),
            place_of(all, entry@) == i + place_of(all.skip(i as int), entry@),
        decreases index@.len() - i,
    {
        assert(all.skip(i as int)[0] == index@[i as int]@);
        assert(all.skip(i as int).drop_first() =~= all.skip(i + 1));
        i = i + 1;
    }
    proof {
        if i < index@.len() {
            assert(all.skip(i as int)[0] == index@[i as int]@);
        }
        assert(place_of(all, entry@) == i);
    }
    index.insert(i, entry);
    assert(session::index_view(index@) =~= all.insert(i as int, entry@));
}

/// Order an index: newest first.
fn sort_newest_first(index: Vec<SessionIndexEntry>) -> (r: Vec<SessionIndexEntry>)
    ensures
        session::index_view(r@) == newest_first(session::index_view(index@)),
{
    let ghost all = session::index_view(index@);
    let mut out: Vec<SessionIndexEntry> = Vec::new();
    let mut i: usize = 0;
    assert(session::index_view(out@) =~= newest_first(all.take(0)));
    while i < index.len()
        invariant
            i <= index.len(),
            out@.len() == i,
            all == session::index_view(index@),
            session::index_view(out@) == newest_first(all.take(i as int)),
        decreases index@.len() - i,
    {
        proof {
            lemma_place(session::index_view(out@), index@[i as int]@);
            assert(all.take(i + 1).drop_last() =~= all.take(i as int));
            assert(all.take(i + 1).last() == index@[i as int]@);
        }
        let ghost before = session::index_view(out@);
        insert_newest(&mut out, index[i].copy());
        assert(session::index_view(out@).len() == before.len() + 1);
        i = i + 1;
    }
    assert(all.take(i as int) =~= all);
    out
}

// ---------------------------------------------------------------------------
// The index
// ---------------------------------------------------------------------------

/// A session as the index lists it.
pub open spec fn entry_of(d: SessionView) -> IndexView {
    IndexView {
        id: d.id,
        saved_at: d.saved_at,
        model: d.model,
        provider: d.provider,
        total_tokens: d.total_tokens,
        one_liner: session::index_line(d),
        entry_count: d.entries.len() as usize,
        title: d.title,
        identity: d.identity,
    }
}

/// A session as the index lists it.
pub fn index_entry(data: &SessionData) -> (r: SessionIndexEntry)
    ensures
        r@ == entry_of(data@),
{
    assert(data@.entries.len() == data.entries@.len());
    SessionIndexEntry {
        id: text::copy(data.id.as_str()),
        saved_at: text::copy(data.saved_at.as_str()),
        model: text::copy(data.model.as_str()),
        provider: text::copy(data.provider.as_str()),
        total_tokens: data.total_tokens,
        one_liner: session::build_index_liner(data),
        entry_count: data.entries.len(),
        title: text::copy(data.title.as_str()),
        identity: text::copy_opt(&data.identity),
    }
}

/// Which entries are of another session.
pub open spec fn of_other_sessions(id: Text) -> spec_fn(IndexView) -> bool {
    |e: IndexView| e.id != id
}

/// An index with a session added, or listed anew: newest first, and no longer
/// than the index may be.
pub open spec fn with_session(index: Seq<IndexView>, d: SessionView) -> Seq<IndexView> {
    let all = newest_first(index.filter(of_other_sessions(d.id)).push(entry_of(d)));
    if all.len() > MAX_INDEXED {
        all.take(MAX_INDEXED as int)
    } else {
        all
    }
}

/// Add a session to the index, or list it anew.
pub fn update_session_index(index: &Vec<SessionIndexEntry>, data: &SessionData) -> (r: Vec<
    SessionIndexEntry,
>)
    ensures
        session::index_view(r@) == with_session(session::index_view(index@), data@),
{
    let ghost all = session::index_view(index@);
    let ghost pred = of_other_sessions(data@.id);
    let mut kept: Vec<SessionIndexEntry> = Vec::new();
    let mut i: usize = 0;
    assert(all.take(0).filter(pred) =~= Seq::<IndexView>::empty()) by {
        assert(all.take(0) =~= Seq::<IndexView>::empty());
        reveal(Seq::filter);
    }
    while i < index.len()
        invariant
            i <= index@.len(),
            all == session::index_view(index@),
            pred == of_other_sessions(data@.id),
            session::index_view(kept@) == all.take(i as int).filter(pred),
        decreases index@.len() - i,
    {
        proof {
            assert(all.take(i + 1) =~= all.take(i as int).push(all[i as int]));
            all.take(i as int).lemma_filter_push(all[i as int], pred);
        }
        if !text::same(index[i].id.as_str(), data.id.as_str()) {
            let ghost was = session::index_view(kept@);
            kept.push(index[i].copy());
            assert(session::index_view(kept@) =~= was.push(all[i as int]));
        }
        i = i + 1;
    }
    assert(all.take(i as int) =~= all);
    let ghost was = session::index_view(kept@);
    kept.push(index_entry(data));
    assert(session::index_view(kept@) =~= was.push(entry_of(data@)));
    let mut sorted = sort_newest_first(kept);
    assert(session::index_view(sorted@).len() == sorted@.len());
    if sorted.len() > MAX_INDEXED {
        let ghost full = session::index_view(sorted@);
        sorted.truncate(MAX_INDEXED);
        assert(session::index_view(sorted@) =~= full.take(MAX_INDEXED as int));
    }
    sorted
}

/// The index of the sessions themselves.
pub open spec fn index_of_sessions(sessions: Seq<SessionView>) -> Seq<IndexView> {
    newest_first(Seq::new(sessions.len(), |i: int| entry_of(sessions[i])))
}

/// Make the index anew from the sessions that could be read.
pub fn rebuild_session_index(sessions: &Vec<SessionData>) -> (r: Vec<SessionIndexEntry>)
    ensures
        session::index_view(r@) == index_of_sessions(session::sessions_view(sessions@)),
{
    let ghost all = session::sessions_view(sessions@);
    let mut out: Vec<SessionIndexEntry> = Vec::new();
    let mut i: usize = 0;
    while i < sessions.len()
        invariant
            i <= sessions@.len(),
            all == session::sessions_view(sessions@),
            out@.len() == i,
            forall|k: int| 0 <= k < i ==> (#[trigger] out@[k])@ == entry_of(all[k]),
        decreases sessions@.len() - i,
    {
        out.push(index_entry(&sessions[i]));
        i = i + 1;
    }
    assert(session::index_view(out@) =~= Seq::new(all.len(), |k: int| entry_of(all[k])));
    sort_newest_first(out)
}

/// The index to go by: the one that was stored, unless it is missing or empty;
/// then the sessions themselves are listed.
pub open spec fn loaded_index(
    stored: Option<Seq<IndexView>>,
    sessions: Seq<SessionView>,
) -> Seq<IndexView> {
    match stored {
        Some(index) if index.len() > 0 => index,
        _ => index_of_sessions(sessions),
    }
}

/// The index to go by, from what was stored and the sessions that could be read.
pub fn load_session_index(
    stored: Option<Vec<SessionIndexEntry>>,
    sessions: &Vec<SessionData>,
) -> (r: Vec<SessionIndexEntry>)
    ensures
        session::index_view(r@) == loaded_index(
            match stored {
                Some(index) => Some(session::index_view(index@)),
                None => None,
            },
            session::sessions_view(sessions@),
        ),
{
    if let Some(index) = stored {
        assert(session::index_view(index@).len() == index@.len());
        if index.len() > 0 {
            return index;
        }
    }
    rebuild_session_index(sessions)
}

/// The file of the session that was saved last.
pub open spec fn latest_file(index: Seq<IndexView>) -> Option<Text> {
    if index.len() > 0 {
        Some(file_of(index[0].id))
    } else {
        None
    }
}

/// The file of the session that was saved last.
pub fn latest_session_file(index: &Vec<SessionIndexEntry>) -> (r: Option<String>)
    ensures
        text::opt_text(r) == latest_file(session::index_view(index@)),
{
    if index.len() > 0 {
        Some(session_file(index[0].id.as_str()))
    } else {
        None
    }
}

/// Which entries are of an identity.
pub open spec fn of_identity(id: Text) -> spec_fn(IndexView) -> bool {
    |e: IndexView| e.identity == Some(id)
}

/// The entries of an identity; all of them where none is asked for.
pub open spec fn filtered_by_identity(
    index: Seq<IndexView>,
    identity: Option<Text>,
) -> Seq<IndexView> {
    match identity {
        Some(id) if id.len() > 0 => index.filter(of_identity(id)),
        _ => index,
    }
}

fn has_identity(e: &SessionIndexEntry, id: &str) -> (r: bool)
    ensures
        r == (e@.identity == Some(id@)),
{
    match &e.identity {
        Some(s) => text::same(s.as_str(), id),
        None => false,
    }
}

/// The entries of an identity; all of them where none is asked for.
pub fn filter_index_by_identity(
    index: &Vec<SessionIndexEntry>,
    identity: &Option<String>,
) -> (r: Vec<SessionIndexEntry>)
    ensures
        session::index_view(r@) == filtered_by_identity(
            session::index_view(index@),
            text::opt_text(*identity),
        ),
{
    let ghost all = session::index_view(index@);
    let everyone = match identity {
        Some(id) => id.as_str().is_empty(),
        None => true,
    };
    let wanted = match identity {
        Some(id) => text::copy(id.as_str()),
        None => String::new(),
    };
    let ghost pred = if everyone {
        |e: IndexView| true
    } else {
        of_identity(wanted@)
    };
    let mut out: Vec<SessionIndexEntry> = Vec::new();
    let mut i: usize = 0;
    assert(all.take(0).filter(pred) =~= Seq::<IndexView>::empty()) by {
        assert(all.take(0) =~= Seq::<IndexView>::empty());
        reveal(Seq::filter);
    }
    while i < index.len()
        invariant
            i <= index@.len(),
            all == session::index_view(index@),
            everyone ==> session::index_view(out@) == all.take(i as int),
            !everyone ==> pred == of_identity(wanted@),
            !everyone ==> session::index_view(out@) == all.take(i as int).filter(pred),
        decreases index@.len() - i,
    {
        proof {
            assert(all.take(i + 1) =~= all.take(i as int).push(all[i as int]));
            all.take(i as int).lemma_filter_push(all[i as int], pred);
        }
        if everyone || has_identity(&index[i], wanted.as_str()) {
            let ghost was = session::index_view(out@);
            out.push(index[i].copy());
            assert(session::index_view(out@) =~= was.push(all[i as int]));
        }
        i = i + 1;
    }
    assert(all.take(i as int) =~= all);
    out
}

// ---------------------------------------------------------------------------
// Laws of the index
// ---------------------------------------------------------------------------

/// However an index is updated, it is ordered newest first and lists no more
/// sessions than it may; every other session that it lists, it listed before;
/// and of the session that was saved it says only what was saved.
pub proof fn law_index_is_kept(index: Seq<IndexView>, d: SessionView)
    ensures
        is_newest_first(with_session(index, d)),
        with_session(index, d).len() <= MAX_INDEXED,
        forall|i: int|
            0 <= i < with_session(index, d).len() ==> {
                let e = #[trigger] with_session(index, d)[i];
                e == entry_of(d) || (e.id != d.id && index.contains(e))
            },
{
    let kept = index.filter(of_other_sessions(d.id));
    let all = kept.push(entry_of(d));
    let sorted = newest_first(all);
    law_newest_first(all);
    let r = with_session(index, d);
    assert forall|i: int, j: int| 0 <= i < j < r.len() implies !text::precedes(
        (#[trigger] r[i]).saved_at,
        (#[trigger] r[j]).saved_at,
    ) by {
        assert(r[i] == sorted[i]);
        assert(r[j] == sorted[j]);
    }
    assert forall|i: int| 0 <= i < r.len() implies {
        let e = #[trigger] r[i];
        e == entry_of(d) || (e.id != d.id && index.contains(e))
    } by {
        let e = r[i];
        assert(e == sorted[i]);
        sorted.to_multiset_ensures();
        all.to_multiset_ensures();
        assert(sorted.contains(e));
        assert(sorted.to_multiset().count(e) > 0);
        assert(all.contains(e));
        let k = choose|k: int| 0 <= k < all.len() && all[k] == e;
        if k < kept.len() {
            assert(kept[k] == e);
            index.lemma_filter_pred(of_other_sessions(d.id), k);
            index.lemma_filter_contains_rev(of_other_sessions(d.id), e);
        }
    }
}

/// Until the index is full, no session is dropped from it.
pub proof fn law_index_drops_nothing(index: Seq<IndexView>, d: SessionView, e: IndexView)
    requires
        index.len() < MAX_INDEXED,
        index.contains(e),
        e.id != d.id,
    ensures
        with_session(index, d).contains(e),
        with_session(index, d).contains(entry_of(d)),
{
    let pred = of_other_sessions(d.id);
    let kept = index.filter(pred);
    let all = kept.push(entry_of(d));
    index.lemma_filter_len(pred);
    law_newest_first(all);
    let k = choose|k: int| 0 <= k < index.len() && index[k] == e;
    index.lemma_filter_contains(pred, k);
    let j = choose|j: int| 0 <= j < kept.len() && kept[j] == e;
    assert(all[j] == e);
    assert(all[kept.len() as int] == entry_of(d));
    all.to_multiset_ensures();
    newest_first(all).to_multiset_ensures();
    assert(with_session(index, d) == newest_first(all));
    assert(all.contains(e) && all.contains(entry_of(d)));
    assert(newest_first(all).to_multiset().count(e) > 0);
    assert(newest_first(all).to_multiset().count(entry_of(d)) > 0);
    assert(newest_first(all).contains(e) && newest_first(all).contains(entry_of(d)));
}

pub(crate) proof fn lemma_saved_first(index: Seq<IndexView>, d: SessionView)
    requires
        later_than_others(index, d),
    ensures
        with_session(index, d).len() > 0,
        with_session(index, d)[0] == entry_of(d),
{
    let pred = of_other_sessions(d.id);
    let kept = index.filter(pred);
    let all = kept.push(entry_of(d));
    let sorted = newest_first(kept);
    law_newest_first(kept);
    assert(all.drop_last() =~= kept);
    if sorted.len() > 0 {
        let e = sorted[0];
        sorted.to_multiset_ensures();
        kept.to_multiset_ensures();
        assert(sorted.contains(e));
        assert(kept.to_multiset().count(e) > 0);
        assert(kept.contains(e));
        let k = choose|k: int| 0 <= k < kept.len() && kept[k] == e;
        index.lemma_filter_pred(pred, k);
        index.lemma_filter_contains_rev(pred, e);
        let m = choose|m: int| 0 <= m < index.len() && index[m] == e;
        assert(text::precedes(index[m].saved_at, d.saved_at));
    }
    assert(place_of(sorted, entry_of(d)) == 0);
    assert(newest_first(all)[0] == entry_of(d));
}

/// Whether a session is saved later than every other that is listed.
pub open spec fn later_than_others(index: Seq<IndexView>, d: SessionView) -> bool {
    forall|i: int|
        0 <= i < index.len() && (#[trigger] index[i]).id != d.id ==> text::precedes(
            index[i].saved_at,
            d.saved_at,
        )
}

/// A session that is saved later than every other that is listed is the latest:
/// the file that it was saved in is the one that is loaded next.
pub proof fn law_saved_session_is_latest(index: Seq<IndexView>, d: SessionView)
    requires
        later_than_others(index, d),
    ensures
        latest_file(with_session(index, d)) == Some(file_of(d.id)),
{
    lemma_saved_first(index, d);
}

/// The session that was saved last is the first that its identity is offered.
pub proof fn law_saved_session_is_offered(index: Seq<IndexView>, d: SessionView)
    requires
        later_than_others(index, d),
    ensures
        ({
            let own = filtered_by_identity(with_session(index, d), d.identity);
            own.len() > 0 && own[0] == entry_of(d)
        }),
{
    lemma_saved_first(index, d);
    let all = with_session(index, d);
    if let Some(id) = d.identity {
        let pred = of_identity(id);
        let head = seq![entry_of(d)];
        assert(all =~= head + all.drop_first());
        Seq::filter_distributes_over_add(head, all.drop_first(), pred);
        assert(head.filter(pred) =~= head) by {
            reveal(Seq::filter);
            assert(head.drop_last() =~= Seq::<IndexView>::empty());
            assert(head.last() == entry_of(d));
        }
    }
}

// ---------------------------------------------------------------------------
// The list
// ---------------------------------------------------------------------------

/// The day and the minute of a time.
pub open spec fn shown_date(local: Text) -> Text {
    text::replaced(text::byte_prefix(local, 16), "T"@, " "@)
}

/// The line of a session in the list, at position `i`.
pub open spec fn list_line(e: IndexView, local: Text, i: int) -> Text {
    text::decimal((i + 1) as nat) + ". **"@ + shown_date(local) + "** — "@ + (if e.title.len()
        == 0 {
        e.one_liner
    } else {
        e.title
    }) + (match e.identity {
        Some(id) => " ["@ + id + "]"@,
        None => ""@,
    })
}

/// The list of sessions, each with its time as it is shown.
pub open spec fn list_text(index: Seq<IndexView>, locals: Seq<Text>) -> Text {
    if index.len() == 0 {
        "No saved sessions found."@
    } else {
        text::joined(
            seq!["### Saved Sessions ("@ + text::decimal(index.len()) + ")\n"@] + Seq::new(
                index.len(),
                |i: int| list_line(index[i], locals[i], i),
            ) + seq![""@, "Use `/restore N` to load a session."@],
            "\n"@,
        )
    }
}

fn show_line(e: &SessionIndexEntry, local: &str, i: usize) -> (r: String)
    requires
        i < usize::MAX,
    ensures
        r@ == list_line(e@, local@, i as int),
{
    proof {
        reveal_strlit("T");
    }
    let n = text::count(i + 1);
    let head = text::take_bytes(local, 16);
    let date = text::replace(head.as_str(), "T", " ");
    let label = if e.title.as_str().is_empty() {
        e.one_liner.as_str()
    } else {
        e.title.as_str()
    };
    let tag = match &e.identity {
        Some(id) => text::cat3(" [", id.as_str(), "]"),
        None => text::copy(""),
    };
    text::cat6(n.as_str(), ". **", date.as_str(), "** — ", label, tag.as_str())
}

/// List sessions, each with its time as it is shown.
pub fn format_session_lines(index: &Vec<SessionIndexEntry>, locals: &Vec<String>) -> (r: String)
    requires
        index@.len() == locals@.len(),
    ensures
        r@ == list_text(session::index_view(index@), text::texts(locals@)),
{
    let ghost all = session::index_view(index@);
    let ghost times = text::texts(locals@);
    if index.len() == 0 {
        return text::copy("No saved sessions found.");
    }
    let mut lines: Vec<String> = Vec::new();
    let n = text::count(index.len());
    let head = text::cat3("### Saved Sessions (", n.as_str(), ")\n");
    let ghost first = head@;
    text::push_text(&mut lines, head);
    let mut i: usize = 0;
    assert(text::texts(lines@) =~= seq![first] + Seq::new(0, |k: int| list_line(all[k], times[k], k)));
    while i < index.len()
        invariant
            i <= index.len(),
            index@.len() == locals@.len(),
            all == session::index_view(index@),
            times == text::texts(locals@),
            text::texts(lines@) == seq![first] + Seq::new(
                i as nat,
                |k: int| list_line(all[k], times[k], k),
            ),
        decreases index@.len() - i,
    {
        let ghost was = text::texts(lines@);
        let line = show_line(&index[i], locals[i].as_str(), i);
        text::push_text(&mut lines, line);
        i = i + 1;
        assert(text::texts(lines@) =~= seq![first] + Seq::new(
            i as nat,
            |k: int| list_line(all[k], times[k], k),
        ));
    }
    text::push_text(&mut lines, text::copy(""));
    text::push_text(&mut lines, text::copy("Use `/restore N` to load a session."));
    assert(text::texts(lines@) =~= seq![first] + Seq::new(
        all.len(),
        |k: int| list_line(all[k], times[k], k),
    ) + seq![""@, "Use `/restore N` to load a session."@]);
    text::join(&lines, "\n")
}

/// The times of entries as they are shown, where it is known how far the zone is
/// ahead of UTC at each of them.
pub open spec fn shown_times(index: Seq<IndexView>, ahead: Seq<Option<i32>>) -> Seq<Text> {
    Seq::new(
        index.len(),
        |i: int|
            time::displayed(index[i].saved_at, time::utc_time(index[i].saved_at), ahead[i]),
    )
}

/// Whether the machine's own zone may be so far ahead of UTC at the times of entries.
pub open spec fn may_be_ahead(index: Seq<IndexView>, ahead: Seq<Option<i32>>) -> bool {
    ahead.len() == index.len() && forall|i: int|
        0 <= i < index.len() ==> time::may_be_ahead_at(index[i].saved_at, #[trigger] ahead[i])
}

/// Whether these may be the times of entries as they are shown in the machine's own
/// zone.
pub open spec fn shows_times(index: Seq<IndexView>, locals: Seq<Text>) -> bool {
    exists|ahead: Seq<Option<i32>>|
        #![trigger may_be_ahead(index, ahead)]
        may_be_ahead(index, ahead) && locals == shown_times(index, ahead)
}

/// List sessions, each with its time in the machine's own zone.
pub fn format_session_list(index: &Vec<SessionIndexEntry>) -> (r: String)
    ensures
        exists|locals: Seq<Text>|
            #![trigger shows_times(session::index_view(index@), locals)]
            shows_times(session::index_view(index@), locals) && r@ == list_text(
                session::index_view(index@),
                locals,
            ),
{
    let ghost all = session::index_view(index@);
    let ghost mut ahead: Seq<Option<i32>> = Seq::empty();
    let mut locals: Vec<String> = Vec::new();
    let mut i: usize = 0;
    while i < index.len()
        invariant
            i <= index@.len(),
            all == session::index_view(index@),
            locals@.len() == i,
            ahead.len() == i,
            forall|k: int|
                0 <= k < i ==> time::may_be_ahead_at(all[k].saved_at, #[trigger] ahead[k]),
            forall|k: int|
                0 <= k < i ==> (#[trigger] locals@[k])@ == time::displayed(
                    all[k].saved_at,
                    time::utc_time(all[k].saved_at),
                    ahead[k],
                ),
        decreases index@.len() - i,
    {
        let shown = time::utc_to_local_display(index[i].saved_at.as_str());
        proof {
            let s = all[i as int].saved_at;
            let a = choose|a: Option<i32>|
                #![trigger time::may_be_ahead_at(s, a)]
                time::may_be_ahead_at(s, a) && shown@ == time::displayed(s, time::utc_time(s), a);
            ahead = ahead.push(a);
        }
        locals.push(shown);
        i = i + 1;
    }
    assert(may_be_ahead(all, ahead));
    assert(text::texts(locals@) =~= shown_times(all, ahead));
    assert(shows_times(all, text::texts(locals@)));
    format_session_lines(index, &locals)
}

/// The index tells of a session what was saved of it: under its id, with its time, model,
/// provider, tokens, title and identity, and how many entries it has.
pub proof fn law_index_tells_what_was_saved(d: SessionView)
    requires
        d.entries.len() <= usize::MAX,
    ensures
        entry_of(d).id == d.id,
        entry_of(d).saved_at == d.saved_at,
        entry_of(d).model == d.model,
        entry_of(d).provider == d.provider,
        entry_of(d).total_tokens == d.total_tokens,
        entry_of(d).title == d.title,
        entry_of(d).identity == d.identity,
        entry_of(d).entry_count == d.entries.len(),
{
}

/// The list that the user is shown has a line for every session, numbered from 1 in the
/// order of the index, with its title, or what it was about where it has none, and its
/// identity.
pub proof fn law_every_session_is_listed(index: Seq<IndexView>, locals: Seq<Text>, i: int)
    requires
        0 <= i < index.len(),
    ensures
        text::has_substring(
            list_text(index, locals),
            if index[i].title.len() == 0 {
                index[i].one_liner
            } else {
                index[i].title
            },
        ),
        text::has_prefix(list_line(index[i], locals[i], i), text::decimal((i + 1) as nat)),
        text::has_substring(list_text(index, locals), list_line(index[i], locals[i], i)),
        index[i].identity matches Some(id) ==> text::has_substring(list_text(index, locals), id),
{
    let lines = Seq::new(index.len(), |k: int| list_line(index[k], locals[k], k));
    let parts = seq!["### Saved Sessions ("@ + text::decimal(index.len()) + ")\n"@] + lines + seq![
        ""@,
        "Use `/restore N` to load a session."@,
    ];
    let all = list_text(index, locals);
    let line = list_line(index[i], locals[i], i);
    assert(parts[1 + i] == line);
    text::lemma_joined_has(parts, "\n"@, 1 + i);
    let e = index[i];
    let name = if e.title.len() == 0 {
        e.one_liner
    } else {
        e.title
    };
    let number = text::decimal((i + 1) as nat);
    let head = number + ". **"@ + shown_date(locals[i]) + "** — "@;
    let tail = match e.identity {
        Some(id) => " ["@ + id + "]"@,
        None => ""@,
    };
    assert(line == head + name + tail);
    text::lemma_stands_between(head, name, tail);
    text::lemma_stands_within(all, line, name);
    assert(line.subrange(0, number.len() as int) =~= number);
    if let Some(id) = e.identity {
        text::lemma_both_stand(head + name, tail);
        text::lemma_stands_between(" ["@, id, "]"@);
        text::lemma_stands_within(line, tail, id);
        text::lemma_stands_within(all, line, id);
    }
}

/// The sessions that are offered under an identity are those of that identity, and all of
/// them; without one, all are.
pub proof fn law_sessions_are_offered_by_identity(
    index: Seq<IndexView>,
    identity: Option<Text>,
    e: IndexView,
)
    ensures
        filtered_by_identity(index, identity).contains(e) == (index.contains(e) && (
        identity matches Some(id) ==> id.len() == 0 || e.identity == Some(id))),
{
    if let Some(id) = identity {
        if id.len() > 0 {
            let pred = of_identity(id);
            let own = index.filter(pred);
            if own.contains(e) {
                index.lemma_filter_contains_rev(pred, e);
                let k = choose|k: int| 0 <= k < own.len() && own[k] == e;
                index.lemma_filter_pred(pred, k);
            }
            if index.contains(e) && e.identity == Some(id) {
                let k = choose|k: int| 0 <= k < index.len() && index[k] == e;
                index.lemma_filter_contains(pred, k);
            }
        }
    }
}

/// The stored list is used wherever there is one, and else the list is made anew.
pub proof fn law_stored_lists_are_used(index: Seq<IndexView>, sessions: Seq<SessionView>)
    ensures
        index.len() > 0 ==> loaded_index(Some(index), sessions) == index,
        loaded_index(Some(Seq::empty()), sessions) == index_of_sessions(sessions),
        loaded_index(None, sessions) == index_of_sessions(sessions),
{
}

/// Every file that is named after a session is one, and the list itself is none.
pub proof fn law_sessions_are_known_by_their_names(id: Text)
    requires
        id.len() > 0,
    ensures
        id != "index"@ ==> names_session(id + ".json"@),
        !names_session("index.json"@),
        !names_session(".json"@),
{
    reveal_strlit(".json");
    reveal_strlit("index.json");
    reveal_strlit("index");
    let name = id + ".json"@;
    assert(name.subrange(name.len() - 5, name.len() as int) =~= ".json"@);
    if name == "index.json"@ {
        assert(id.len() == 5);
        assert(id =~= name.take(5));
        assert("index.json"@.take(5) =~= "index"@);
    }
}

} // verus!
