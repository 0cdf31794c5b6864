//! JSON documents, as deep as the rest of the crate reads them: what stands at
//! the top, and the scalars one level below.

use crate::text;
use crate::text::Text;
use vstd::prelude::*;

verus! {

/// A JSON value as a scalar: its own text, and what it is where it is a string,
/// a number that fits `u64`, or a boolean. A nested array or object keeps its
/// text alone.
pub struct JsonItem {
    pub text: String,
    pub string: Option<String>,
    pub unsigned: Option<u64>,
    pub boolean: Option<bool>,
}

/// A JSON document: the value itself, its elements where it is an array, and
/// its members where it is an object.
pub struct Json {
    pub item: JsonItem,
    pub elements: Option<Vec<JsonItem>>,
    pub members: Option<Vec<(String, JsonItem)>>,
}

/// What a `JsonItem` holds.
#[verifier::ext_equal]
pub struct ItemView {
    pub text: Text,
    pub string: Option<Text>,
    pub unsigned: Option<u64>,
    pub boolean: Option<bool>,
}

/// What a `Json` holds.
#[verifier::ext_equal]
pub struct JsonView {
    pub item: ItemView,
    pub elements: Option<Seq<ItemView>>,
    pub members: Option<Seq<(Text, ItemView)>>,
}

impl View for JsonItem {
    type V = ItemView;

    open spec fn view(&self) -> ItemView {
        ItemView {
            text: self.text@,
            string: text::opt_text(self.string),
            unsigned: self.unsigned,
            boolean: self.boolean,
        }
    }
}

impl View for Json {
    type V = JsonView;

    open spec fn view(&self) -> JsonView {
        JsonView {
            item: self.item@,
            elements: match self.elements {
                Some(v) => Some(items(v@)),
                None => None,
            },
            members: match self.members {
                Some(v) => Some(pairs(v@)),
                None => None,
            },
        }
    }
}

/// What a list of items holds.
pub open spec fn items(v: Seq<JsonItem>) -> Seq<ItemView> {
    Seq::new(v.len(), |i: int| v[i]@)
}

/// What a list of members holds.
pub open spec fn pairs(v: Seq<(String, JsonItem)>) -> Seq<(Text, ItemView)> {
    Seq::new(v.len(), |i: int| (v[i].0@, v[i].1@))
}

/// What a parse came to.
pub open spec fn parse_view(r: Result<Json, String>) -> Result<JsonView, Text> {
    match r {
        Ok(j) => Ok(j@),
        Err(e) => Err(e@),
    }
}

/// What `serde_json::from_str` makes of a text: the document, or the words of
/// the error.
pub uninterp spec fn json_parsed(text: Text) -> Result<JsonView, Text>;

/// `serde_json::from_str::<serde_json::Value>`: the document that a text stands
/// for, or the error's message, a function of the text alone. `JsonItem` takes
/// a value by `as_str`, `as_u64` and `as_bool`, with the text that `to_string`
/// writes for it; the members come in the order of the parsed map.
#[verifier::external_body]
pub(crate) fn parse_json(input: &str) -> (r: Result<Json, String>)
    ensures
        parse_view(r) == json_parsed(input@),
{
    let value: serde_json::Value = serde_json::from_str(input).map_err(|e: serde_json::Error| e.to_string())?;
    let item = |v: &serde_json::Value| JsonItem {
        text: v.to_string(),
        string: v.as_str().map(String::from),
        unsigned: v.as_u64(),
        boolean: v.as_bool(),
    };
    Ok(Json {
        item: item(&value),
        elements: value.as_array().map(|a| a.iter().map(item).collect()),
        members: value.as_object().map(|m| m.iter().map(|(k, v)| (k.clone(), item(v))).collect()),
    })
}

/// The first member named `key`.
pub open spec fn first_member(members: Seq<(Text, ItemView)>, key: Text) -> Option<ItemView>
    decreases members.len(),
{
    if members.len() == 0 {
        None
    } else if members[0].0 == key {
        Some(members[0].1)
    } else {
        first_member(members.drop_first(), key)
    }
}

/// The member of an object named `key`; nothing of any other value.
pub open spec fn member(j: JsonView, key: Text) -> Option<ItemView> {
    match j.members {
        Some(m) => first_member(m, key),
        None => None,
    }
}

/// The member named `key` where it is a string.
pub open spec fn str_member(j: JsonView, key: Text) -> Option<Text> {
    match member(j, key) {
        Some(v) => v.string,
        None => None,
    }
}

/// The member named `key` where it is a string, else `default`.
pub open spec fn str_member_or(j: JsonView, key: Text, default: Text) -> Text {
    match str_member(j, key) {
        Some(v) => v,
        None => default,
    }
}

/// The member named `key` where it is a `u64`.
pub open spec fn unsigned_member(j: JsonView, key: Text) -> Option<u64> {
    match member(j, key) {
        Some(v) => v.unsigned,
        None => None,
    }
}

/// The member named `key` where it is a boolean.
pub open spec fn bool_member(j: JsonView, key: Text) -> Option<bool> {
    match member(j, key) {
        Some(v) => v.boolean,
        None => None,
    }
}

/// The object without members.
pub open spec fn empty_object_view() -> JsonView {
    JsonView {
        item: ItemView { text: "{}"@, string: None, unsigned: None, boolean: None },
        elements: None,
        members: Some(Seq::empty()),
    }
}

impl JsonItem {
    /// A copy of the item.
    pub fn copy(&self) -> (r: JsonItem)
        ensures
            r@ == self@,
    {
        JsonItem {
            text: text::copy(self.text.as_str()),
            string: text::copy_opt(&self.string),
            unsigned: self.unsigned,
            boolean: self.boolean,
        }
    }
}

impl Json {
    /// The document that a text stands for, or why it stands for none.
    pub fn parse(input: &str) -> (r: Result<Json, String>)
        ensures
            parse_view(r) == json_parsed(input@),
    {
        parse_json(input)
    }

    /// The object without members.
    pub fn empty_object() -> (r: Json)
        ensures
            r@ == empty_object_view(),
    {
        let r = Json {
            item: JsonItem {
                text: text::copy("{}"),
                string: None,
                unsigned: None,
                boolean: None,
            },
            elements: None,
            members: Some(Vec::new()),
        };
        assert(r@.members->Some_0 =~= Seq::<(Text, ItemView)>::empty());
        r
    }

    /// A copy of the document.
    pub fn copy(&self) -> (r: Json)
        ensures
            r@ == self@,
    {
        let elements = match &self.elements {
            Some(v) => {
                let mut out: Vec<JsonItem> = Vec::new();
                let mut i: usize = 0;
                while i < v.len()
                    invariant
                        i <= v@.len(),
                        out@.len() == i,
                        forall|k: int| 0 <= k < i ==> out@[k]@ == v@[k]@,
                    decreases v@.len() - i,
                {
                    out.push(v[i].copy());
                    i = i + 1;
                }
                assert(items(out@) =~= items(v@));
                Some(out)
            },
            None => None,
        };
        let members = match &self.members {
            Some(v) => {
                let mut out: Vec<(String, JsonItem)> = Vec::new();
                let mut i: usize = 0;
                while i < v.len()
                    invariant
                        i <= v@.len(),
                        out@.len() == i,
                        forall|k: int|
                            0 <= k < i ==> out@[k].0@ == v@[k].0@ && out@[k].1@ == v@[k].1@,
                    decreases v@.len() - i,
                {
                    out.push((text::copy(v[i].0.as_str()), v[i].1.copy()));
                    i = i + 1;
                }
                assert(pairs(out@) =~= pairs(v@));
                Some(out)
            },
            None => None,
        };
        Json { item: self.item.copy(), elements, members }
    }

    /// The member named `key`.
    pub fn get(&self, key: &str) -> (r: Option<JsonItem>)
        ensures
            match r {
                Some(v) => member(self@, key@) == Some(v@),
                None => member(self@, key@) is None,
            },
    {
        match &self.members {
            Some(m) => {
                let ghost all = pairs(m@);
                let mut i: usize = 0;
                assert(all.skip(0) =~= all);
                while i < m.len()
                    invariant
                        i <= m@.len(),
                        all == pairs(m@),
                        self@.members == Some(all),
                        first_member(all, key@) == first_member(all.skip(i as int), key@),
                    decreases m@.len() - i,
                {
                    assert(all.skip(i as int)[0] == all[i as int]);
                    assert(all.skip(i as int).drop_first() =~= all.skip(i + 1));
                    if text::same(m[i].0.as_str(), key) {
                        return Some(m[i].1.copy());
                    }
                    i = i + 1;
                }
                None
            },
            None => None,
        }
    }

    /// The member named `key` where it is a string.
    pub fn get_str(&self, key: &str) -> (r: Option<String>)
        ensures
            text::opt_text(r) == str_member(self@, key@),
    {
        match self.get(key) {
            Some(v) => v.string,
            None => None,
        }
    }

    /// The member named `key` where it is a string, else `default`.
    pub fn get_str_or(&self, key: &str, default: &str) -> (r: String)
        ensures
            r@ == str_member_or(self@, key@, default@),
    {
        match self.get_str(key) {
            Some(v) => v,
            None => text::copy(default),
        }
    }

    /// The member named `key` where it is a `u64`.
    pub fn get_u64(&self, key: &str) -> (r: Option<u64>)
        ensures
            r == unsigned_member(self@, key@),
    {
        match self.get(key) {
            Some(v) => v.unsigned,
            None => None,
        }
    }

    /// The member named `key` where it is a boolean.
    pub fn get_bool(&self, key: &str) -> (r: Option<bool>)
        ensures
            r == bool_member(self@, key@),
    {
        match self.get(key) {
            Some(v) => v.boolean,
            None => None,
        }
    }
}

} // verus!
