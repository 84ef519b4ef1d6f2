//! Texts for the attributes of the level editor's markup, as far as they
//! need no arithmetic on reals.

use crate::entity::{Body, Entity};
use crate::tags::{Entry, EntryView, Tags};
use vstd::prelude::*;

verus! {

/// A value that gives attributes: names with their texts.
pub trait ToXMLAttributes {
    fn to_xml_attrs(&self) -> Vec<(&'static str, String)>;
}

/// The items of the first `n` lists, one list after the other.
pub open spec fn flat<T>(lists: Seq<Vec<T>>, n: nat) -> Seq<T>
    decreases n,
{
    if n == 0 {
        Seq::empty()
    } else {
        flat(lists, (n - 1) as nat) + lists[n - 1]@
    }
}

/// The attributes of all lists in one list, in their order.
pub fn flatten(deep_attrs: Vec<Vec<(&'static str, String)>>) -> (flattened: Vec<
    (&'static str, String),
>)
    ensures
        flattened@ == flat(deep_attrs@, deep_attrs@.len()),
{
    let mut deep_attrs = deep_attrs;
    let ghost all = deep_attrs@;
    let mut flattened: Vec<(&'static str, String)> = Vec::new();
    let ghost mut taken: nat = 0;
    while deep_attrs.len() > 0
        invariant
            taken + deep_attrs@.len() == all.len(),
            deep_attrs@ == all.skip(taken as int),
            flattened@ == flat(all, taken),
        decreases deep_attrs@.len(),
    {
        let mut attrs = deep_attrs.remove(0);
        assert(attrs == all[taken as int]);
        flattened.append(&mut attrs);
        proof {
            assert(deep_attrs@ =~= all.skip(taken as int + 1));
            taken = taken + 1;
        }
    }
    flattened
}

/// The first `n` texts with a space between each two.
pub open spec fn joined(items: Seq<String>, n: nat) -> Seq<char>
    decreases n,
{
    if n == 0 {
        Seq::empty()
    } else if n == 1 {
        items[0]@
    } else {
        joined(items, (n - 1) as nat) + seq![' '] + items[n - 1]@
    }
}

/// The texts with a space between each two; the empty text for no texts.
pub fn join_as_strings(items: &[String]) -> (text: String)
    ensures
        text@ == joined(items@, items@.len()),
{
    if items.len() == 0 {
        return String::new();
    }
    let mut text = items[0].clone();
    let mut i: usize = 1;
    while i < items.len()
        invariant
            1 <= i <= items@.len(),
            text@ == joined(items@, i as nat),
        decreases items@.len() - i,
    {
        proof {
            reveal_strlit(" ");
            assert(" "@ =~= seq![' ']);
        }
        text.append(" ");
        text.append(items[i].as_str());
        i = i + 1;
    }
    text
}

/// The text of a tag: the key, and behind it `=` and the value where the
/// value is not empty.
pub open spec fn tag_text(tag: EntryView) -> Seq<char> {
    if tag.value.len() == 0 {
        tag.key
    } else {
        tag.key + seq!['='] + tag.value
    }
}

/// The text of a tag.
pub fn tag_to_string(tag: &Entry) -> (text: String)
    ensures
        text@ == tag_text(tag@),
{
    let mut text = tag.key.clone();
    if tag.value.as_str().unicode_len() > 0 {
        proof {
            reveal_strlit("=");
            assert("="@ =~= seq!['=']);
        }
        text.append("=");
        text.append(tag.value.as_str());
    }
    text
}

/// The texts of the tags, in their order, with a space between each two.
pub fn tags_to_string(tags: &Tags) -> (text: String)
    ensures
        exists|texts: Seq<String>|
            texts.len() == tags@.len() && (forall|i: int|
                0 <= i < texts.len() ==> (#[trigger] texts[i])@ == tag_text(tags@[i])) && text@
                == joined(texts, texts.len()),
{
    let mut texts: Vec<String> = Vec::new();
    let mut i: usize = 0;
    while i < tags.0.len()
        invariant
            i <= tags.0@.len(),
            texts@.len() == i,
            forall|k: int| 0 <= k < i ==> (#[trigger] texts@[k])@ == tag_text(tags@[k]),
        decreases tags.0@.len() - i,
    {
        assert(tags@[i as int] == tags.0@[i as int]@);
        texts.push(tag_to_string(&tags.0[i]));
        i = i + 1;
    }
    join_as_strings(texts.as_slice())
}

impl ToXMLAttributes for Entity {
    /// The description, where the entity has one.
    fn to_xml_attrs(&self) -> (attrs: Vec<(&'static str, String)>)
        ensures
            self.desc@.len() == 0 ==> attrs@.len() == 0,
            self.desc@.len() > 0 ==> attrs@.len() == 1 && attrs@[0].0 == "desc" && attrs@[0].1@
                == self.desc@,
    {
        let mut attrs: Vec<(&'static str, String)> = Vec::new();
        if self.desc.as_str().unicode_len() > 0 {
            attrs.push(("desc", self.desc.clone()));
        }
        attrs
    }
}

impl ToXMLAttributes for Body {
    /// Whether the body moves.
    fn to_xml_attrs(&self) -> (attrs: Vec<(&'static str, String)>)
        ensures
            attrs@.len() == 1,
            attrs@[0].0 == "dynamic",
            attrs@[0].1@ == if self.dynamic {
                "true"@
            } else {
                "false"@
            },
    {
        let text = if self.dynamic {
            String::from_str("true")
        } else {
            String::from_str("false")
        };
        let mut attrs: Vec<(&'static str, String)> = Vec::new();
        attrs.push(("dynamic", text));
        attrs
    }
}

} // verus!
