//! Submitting a prompt.

use crate::gateway::dispatch::MethodError;
use crate::json;
use crate::json::ItemView;
use crate::json::Json;
use crate::json::JsonView;
use crate::text;
use crate::text::Text;
use vstd::prelude::*;
use vstd::string::*;

verus! {

/// The receipt of a prompt that was accepted.
pub struct PromptReceipt<S = String> {
    pub text: S,
    pub image_count: usize,
    pub id: S,
}

impl View for PromptReceipt<String> {
    type V = PromptReceipt<Text>;

    open spec fn view(&self) -> PromptReceipt<Text> {
        PromptReceipt { text: self.text@, image_count: self.image_count, id: self.id@ }
    }
}

/// How many of the elements of a list are strings; none of anything else.
pub open spec fn strings_in(j: JsonView) -> nat {
    match j.elements {
        Some(items) => items.filter(|i: ItemView| i.string is Some).len(),
        None => 0,
    }
}

/// How many pictures come with a prompt.
pub open spec fn image_count(params: JsonView) -> nat {
    match json::member(params, "images"@) {
        Some(item) => match json::json_parsed(item.text) {
            Ok(list) => strings_in(list),
            Err(_) => 0,
        },
        None => 0,
    }
}

/// What is replied to a prompt that is submitted at a time, in nanoseconds
/// since the epoch.
pub open spec fn prompt_reply(params: JsonView, nanos: u128) -> Result<
    PromptReceipt<Text>,
    MethodError<Text>,
> {
    match json::str_member(params, "text"@) {
        None => Err(MethodError::InvalidParams("missing 'text' field"@)),
        Some(text) => Ok(
            PromptReceipt {
                text,
                image_count: image_count(params) as usize,
                id: "q-"@ + text::decimal(nanos as nat),
            },
        ),
    }
}

/// What a receipt or an error holds.
pub open spec fn reply_view(r: Result<PromptReceipt, MethodError>) -> Result<
    PromptReceipt<Text>,
    MethodError<Text>,
> {
    match r {
        Ok(v) => Ok(v@),
        Err(e) => Err(e@),
    }
}

/// How many of the elements of a list are strings.
pub fn count_strings(list: &Json) -> (r: usize)
    ensures
        r == strings_in(list@),
{
    match &list.elements {
        None => 0,
        Some(v) => {
            let ghost all = json::items(v@);
            let ghost pred = |i: ItemView| i.string is Some;
            let mut n: usize = 0;
            let mut i: usize = 0;
            assert(all.take(0).filter(pred).len() == 0) by {
                assert(all.take(0) =~= Seq::<ItemView>::empty());
                reveal(Seq::filter);
            }
            while i < v.len()
                invariant
                    i <= v@.len(),
                    n <= i,
                    all == json::items(v@),
                    pred == (|i: ItemView| i.string is Some),
                    n == all.take(i as int).filter(pred).len(),
                decreases v@.len() - i,
            {
                proof {
                    assert(all.take(i + 1) =~= all.take(i as int).push(all[i as int]));
                    all.take(i as int).lemma_filter_len_push(pred, all[i as int]);
                }
                if v[i].string.is_some() {
                    n = n + 1;
                }
                i = i + 1;
            }
            assert(all.take(i as int) =~= all);
            n
        },
    }
}

/// Answers `prompt.submit`.
pub struct PromptSubmitHandler;

impl PromptSubmitHandler {
    /// A handler.
    pub fn new() -> (r: PromptSubmitHandler)
        ensures
            r == PromptSubmitHandler,
    {
        PromptSubmitHandler
    }

    /// Accept a prompt that is submitted at a time, in nanoseconds since the
    /// epoch.
    pub fn handle(&self, params: &Json, nanos: u128) -> (r: Result<PromptReceipt, MethodError>)
        ensures
            reply_view(r) == prompt_reply(params@, nanos),
    {
        let text = match params.get_str("text") {
            Some(text) => text,
            None => {
                return Err(MethodError::InvalidParams(text::copy("missing 'text' field")));
            },
        };
        let image_count: usize = match params.get("images") {
            Some(item) => match Json::parse(item.text.as_str()) {
                Ok(list) => count_strings(&list),
                Err(_) => 0,
            },
            None => 0,
        };
        let number = text::big_number(nanos);
        Ok(PromptReceipt { text, image_count, id: text::cat2("q-", number.as_str()) })
    }
}

/// A prompt is accepted whole, wherever there is one, and refused where there is none.
pub proof fn law_prompts_are_accepted_whole(params: JsonView, nanos: u128, words: Text)
    ensures
        json::str_member(params, "text"@) == Some(words) ==> (prompt_reply(params, nanos) matches Ok(
            receipt,
        ) && receipt.text == words),
        json::str_member(params, "text"@) is None ==> (prompt_reply(params, nanos) matches Err(
            MethodError::InvalidParams(_),
        )),
{
}

} // verus!
