//! What the loop of the terminal decides.

use crate::engine::messages;
use crate::engine::messages::ConversationEntry;
use crate::engine::messages::EntryView;
use crate::engine::session;
use crate::engine::session::SessionData;
use crate::engine::session::SessionView;
use crate::engine::sub_agent;
use crate::text;
use crate::text::Text;
use vstd::prelude::*;
use vstd::string::*;

verus! {

/// The model that a session begins with: the one that is set, or the default of
/// the provider.
pub fn starting_model(model: &str, default_model: &str) -> (r: String)
    ensures
        r@ == if model@.len() > 0 {
            model@
        } else {
            default_model@
        },
{
    if !model.is_empty() {
        text::copy(model)
    } else {
        text::copy(default_model)
    }
}

/// The frames without a change after which the screen is drawn all the same.
pub const MAX_IDLE_FRAMES: u32 = 100;

/// Whether the screen is drawn: it changed, something is at work, or it has not
/// been drawn for long.
pub open spec fn draws(needs_render: bool, is_active: bool, idle_frames: u32) -> bool {
    needs_render || is_active || idle_frames >= MAX_IDLE_FRAMES
}

/// Decide whether the screen is drawn, and count the frames that were not.
pub fn gate_frame(needs_render: bool, is_active: bool, idle_frames: &mut u32) -> (r: bool)
    ensures
        r == draws(needs_render, is_active, *old(idle_frames)),
        *final(idle_frames) == if r {
            0
        } else {
            *old(idle_frames) + 1
        },
{
    if needs_render || is_active || *idle_frames >= MAX_IDLE_FRAMES {
        *idle_frames = 0;
        true
    } else {
        *idle_frames = *idle_frames + 1;
        false
    }
}

/// The milliseconds that input is waited for.
pub fn poll_millis(is_active: bool) -> (r: u64)
    ensures
        r == if is_active {
            16u64
        } else {
            100u64
        },
{
    if is_active {
        16
    } else {
        100
    }
}

/// The first message of the user, by which a session is named; nothing where
/// there is none.
pub open spec fn first_message(es: Seq<EntryView>) -> Text
    decreases es.len(),
{
    if es.len() == 0 {
        Seq::empty()
    } else if session::is_user_message(es[0]) {
        match session::first_text(es[0].content) {
            Some(s) => s,
            None => Seq::empty(),
        }
    } else {
        first_message(es.drop_first())
    }
}

/// The first message of the user, by which a session is named.
pub fn find_first_message(entries: &Vec<ConversationEntry>) -> (r: String)
    ensures
        r@ == first_message(messages::entries_view(entries@)),
{
    let ghost es = messages::entries_view(entries@);
    let mut i: usize = 0;
    assert(es.skip(0) =~= es);
    while i < entries.len()
        invariant
            i <= entries@.len(),
            es == messages::entries_view(entries@),
            first_message(es) == first_message(es.skip(i as int)),
        decreases entries@.len() - i,
    {
        assert(es.skip(i as int)[0] == entries@[i as int]@);
        assert(es.skip(i as int).drop_first() =~= es.skip(i + 1));
        if session::user_message(&entries[i]) {
            return match session::find_text(&entries[i].content) {
                Some(s) => s,
                None => {
                    let none = String::new();
                    assert(none@ =~= Seq::<char>::empty());
                    none
                },
            };
        }
        i = i + 1;
    }
    let none = String::new();
    assert(none@ =~= Seq::<char>::empty());
    none
}

/// What is saved of a session at its end, where it holds anything.
pub open spec fn ended_session(
    id: Text,
    saved_at: Text,
    model: Text,
    provider: Text,
    cwd: Text,
    entries: Seq<EntryView>,
    total_tokens: u64,
    title: Text,
    identity: Option<Text>,
) -> Option<SessionView> {
    if entries.len() == 0 {
        None
    } else {
        Some(
            SessionView {
                id,
                saved_at,
                model,
                provider,
                cwd,
                entries,
                total_tokens,
                summary: session::summary_of(entries),
                final_response: match sub_agent::last_said(entries) {
                    Some(s) => text::first_chars(s, session::MAX_RESPONSE_CHARS as int),
                    None => Seq::empty(),
                },
                title,
                identity,
            },
        )
    }
}

/// What is saved of a session at its end; nothing of an empty one.
pub fn session_to_save(
    id: String,
    saved_at: String,
    model: String,
    provider: String,
    cwd: String,
    entries: Vec<ConversationEntry>,
    total_tokens: u64,
    title: String,
    identity: Option<String>,
) -> (r: Option<SessionData>)
    ensures
        crate::gateway::commands::opt_session(r) == ended_session(
            id@,
            saved_at@,
            model@,
            provider@,
            cwd@,
            messages::entries_view(entries@),
            total_tokens,
            title@,
            text::opt_text(identity),
        ),
{
    assert(messages::entries_view(entries@).len() == entries@.len());
    if entries.len() == 0 {
        return None;
    }
    let summary = session::build_summary(&entries);
    let final_response = match session::extract_final_response(&entries) {
        Some(s) => text::take_chars(s.as_str(), session::MAX_RESPONSE_CHARS),
        None => {
            let none = String::new();
            assert(none@ =~= Seq::<char>::empty());
            none
        },
    };
    Some(
        SessionData {
            id,
            saved_at,
            model,
            provider,
            cwd,
            entries,
            total_tokens,
            summary,
            final_response,
            title,
            identity,
        },
    )
}

/// What is said at the start where there is a session that can be resumed.
pub open spec fn notice_of(d: SessionView) -> Seq<Text> {
    seq![
        "󰄘 Previous session found. Type `/restore` to restore it."@,
        "   "@ + session::restore_line(d),
    ]
}

/// What is said at the start where there is a session that can be resumed.
pub fn previous_session_notice(data: &SessionData) -> (r: Vec<String>)
    ensures
        text::texts(r@) == notice_of(data@),
{
    let mut out: Vec<String> = Vec::new();
    text::push_text(
        &mut out,
        text::copy("󰄘 Previous session found. Type `/restore` to restore it."),
    );
    let line = session::build_one_liner(data);
    text::push_text(&mut out, text::cat2("   ", line.as_str()));
    assert(text::texts(out@) =~= notice_of(data@));
    out
}

/// The screen is drawn at least once in every so many frames.
pub proof fn law_screen_is_drawn_in_time(needs_render: bool, is_active: bool, idle_frames: u32)
    ensures
        !draws(needs_render, is_active, idle_frames) ==> idle_frames < MAX_IDLE_FRAMES,
{
}

/// A session is saved whole: all its entries, and everything else about it as it is. Only
/// one without entries is not saved.
pub proof fn law_session_is_saved_whole(
    id: Text,
    saved_at: Text,
    model: Text,
    provider: Text,
    cwd: Text,
    entries: Seq<EntryView>,
    total_tokens: u64,
    title: Text,
    identity: Option<Text>,
)
    ensures
        match ended_session(
            id,
            saved_at,
            model,
            provider,
            cwd,
            entries,
            total_tokens,
            title,
            identity,
        ) {
            Some(d) => {
                &&& entries.len() > 0
                &&& d.id == id
                &&& d.saved_at == saved_at
                &&& d.model == model
                &&& d.provider == provider
                &&& d.cwd == cwd
                &&& d.entries == entries
                &&& d.total_tokens == total_tokens
                &&& d.title == title
                &&& d.identity == identity
                &&& sub_agent::last_said(entries) matches Some(s) ==> d.final_response
                    == if s.len() > 2000 {
                    s.take(2000)
                } else {
                    s
                }
                &&& sub_agent::last_said(entries) is None ==> d.final_response.len() == 0
            },
            None => entries.len() == 0,
        },
{
}

/// The message that a session is named by is the first that the user wrote.
pub proof fn law_first_message_is_the_earliest(es: Seq<EntryView>, i: int, words: Text)
    requires
        0 <= i < es.len(),
        session::is_user_message(es[i]),
        session::first_text(es[i].content) == Some(words),
        forall|j: int| 0 <= j < i ==> !session::is_user_message(#[trigger] es[j]),
    ensures
        first_message(es) == words,
    decreases es.len(),
{
    if i > 0 {
        let rest = es.drop_first();
        assert(!session::is_user_message(es[0]));
        assert forall|j: int| 0 <= j < i - 1 implies !session::is_user_message(
            #[trigger] rest[j],
        ) by {
            assert(rest[j] == es[j + 1]);
        }
        law_first_message_is_the_earliest(rest, i - 1, words);
    }
}

/// The user is told of the session before in the line that would announce it.
pub proof fn law_last_session_is_announced(d: SessionView)
    ensures
        notice_of(d).len() == 2,
        text::has_substring(notice_of(d)[1], session::restore_line(d)),
{
    text::lemma_both_stand("   "@, session::restore_line(d));
}

} // verus!
