//! A parsed API description as a plain tree of values, and the total
//! accessors the compiler reads it with.

use vstd::prelude::*;
use crate::text::{same_text, text_view};

verus! {

/// One node of a parsed document.
///
/// A mapping keeps its entries in document order. A tagged node (`!tag
/// value` in YAML) wraps the node it decorates; every accessor below looks
/// through tags, while a key lookup matches plain text keys only.
#[derive(Debug, PartialEq, Eq)]
pub enum DocValue {
    Null,
    Bool(bool),
    /// A numeric scalar, as a numeral. The compiler never reads its value.
    Number(String),
    Text(String),
    Sequence(Vec<DocValue>),
    Mapping(Vec<(DocValue, DocValue)>),
    Tagged(String, Box<DocValue>),
}

/// The value of the first entry whose key is the plain text `key`.
pub open spec fn lookup(entries: Seq<(DocValue, DocValue)>, key: Seq<char>) -> Option<DocValue>
    decreases entries.len(),
{
    if entries.len() == 0 {
        None
    } else if entries[0].0 matches DocValue::Text(k) && k@ == key {
        Some(entries[0].1)
    } else {
        lookup(entries.drop_first(), key)
    }
}

impl DocValue {
    /// The node under any tags.
    pub open spec fn untagged(self) -> DocValue
        decreases self,
    {
        match self {
            DocValue::Tagged(_, inner) => inner.untagged(),
            _ => self,
        }
    }

    /// The text of a text node.
    pub open spec fn text(self) -> Option<Seq<char>> {
        match self.untagged() {
            DocValue::Text(t) => Some(t@),
            _ => None,
        }
    }

    /// The value of a boolean node.
    pub open spec fn truth(self) -> Option<bool> {
        match self.untagged() {
            DocValue::Bool(b) => Some(b),
            _ => None,
        }
    }

    /// The items of a sequence node.
    pub open spec fn items(self) -> Option<Seq<DocValue>> {
        match self.untagged() {
            DocValue::Sequence(items) => Some(items@),
            _ => None,
        }
    }

    /// The entries of a mapping node.
    pub open spec fn entries(self) -> Option<Seq<(DocValue, DocValue)>> {
        match self.untagged() {
            DocValue::Mapping(entries) => Some(entries@),
            _ => None,
        }
    }

    /// The value under `key` in a mapping node.
    pub open spec fn field(self, key: Seq<char>) -> Option<DocValue> {
        match self.entries() {
            Some(entries) => lookup(entries, key),
            None => None,
        }
    }

    /// The node under any tags.
    pub fn untag(&self) -> (inner: &DocValue)
        ensures
            *inner == self.untagged(),
            !(*inner is Tagged),
        decreases self,
    {
        match self {
            DocValue::Tagged(_, inner) => inner.untag(),
            _ => self,
        }
    }

    /// The text of a text node, `None` for any other node.
    pub fn as_str(&self) -> (found: Option<&str>)
        ensures
            match found {
                Some(t) => self.text() == Some(t@),
                None => self.text() is None,
            },
    {
        match self.untag() {
            DocValue::Text(t) => Some(t.as_str()),
            _ => None,
        }
    }

    /// The value of a boolean node, `None` for any other node.
    pub fn as_bool(&self) -> (found: Option<bool>)
        ensures
            found == self.truth(),
    {
        match self.untag() {
            DocValue::Bool(b) => Some(*b),
            _ => None,
        }
    }

    /// The items of a sequence node, `None` for any other node.
    pub fn as_sequence(&self) -> (found: Option<&Vec<DocValue>>)
        ensures
            match found {
                Some(items) => self.items() == Some(items@),
                None => self.items() is None,
            },
    {
        match self.untag() {
            DocValue::Sequence(items) => Some(items),
            _ => None,
        }
    }

    /// The entries of a mapping node, `None` for any other node.
    pub fn as_mapping(&self) -> (found: Option<&Vec<(DocValue, DocValue)>>)
        ensures
            match found {
                Some(entries) => self.entries() == Some(entries@),
                None => self.entries() is None,
            },
    {
        match self.untag() {
            DocValue::Mapping(entries) => Some(entries),
            _ => None,
        }
    }

    /// The value under `key` where this node is a mapping that has the key.
    pub fn get(&self, key: &str) -> (found: Option<&DocValue>)
        ensures
            match found {
                Some(v) => self.field(key@) == Some(*v),
                None => self.field(key@) is None,
            },
    {
        match self.as_mapping() {
            Some(entries) => find_entry(entries, key),
            None => None,
        }
    }
}

/// The text of an optional node.
pub open spec fn text_of(v: Option<DocValue>) -> Option<Seq<char>> {
    match v {
        Some(d) => d.text(),
        None => None,
    }
}

/// The boolean of an optional node.
pub open spec fn truth_of(v: Option<DocValue>) -> Option<bool> {
    match v {
        Some(d) => d.truth(),
        None => None,
    }
}

/// The items of an optional node.
pub open spec fn items_of(v: Option<DocValue>) -> Option<Seq<DocValue>> {
    match v {
        Some(d) => d.items(),
        None => None,
    }
}

/// The entries of an optional node.
pub open spec fn entries_of(v: Option<DocValue>) -> Option<Seq<(DocValue, DocValue)>> {
    match v {
        Some(d) => d.entries(),
        None => None,
    }
}

/// The value under `key` of an optional node.
pub open spec fn field_of(v: Option<DocValue>, key: Seq<char>) -> Option<DocValue> {
    match v {
        Some(d) => d.field(key),
        None => None,
    }
}

/// The first item of an optional sequence node.
pub open spec fn first_of(v: Option<DocValue>) -> Option<DocValue> {
    match items_of(v) {
        Some(items) => if items.len() > 0 {
            Some(items[0])
        } else {
            None
        },
        None => None,
    }
}

/// The value of the first entry of `entries` whose key is the plain text `key`.
pub fn find_entry<'a>(entries: &'a Vec<(DocValue, DocValue)>, key: &str) -> (found: Option<
    &'a DocValue,
>)
    ensures
        match found {
            Some(v) => lookup(entries@, key@) == Some(*v),
            None => lookup(entries@, key@) is None,
        },
{
    let mut i: usize = 0;
    assert(entries@.skip(0) =~= entries@);
    while i < entries.len()
        invariant
            i <= entries.len(),
            lookup(entries@, key@) == lookup(entries@.skip(i as int), key@),
        decreases entries.len() - i,
    {
        assert(entries@.skip(i as int)[0] == entries@[i as int]);
        assert(entries@.skip(i as int).drop_first() =~= entries@.skip(i + 1));
        match &entries[i].0 {
            DocValue::Text(k) => {
                if same_text(k.as_str(), key) {
                    return Some(&entries[i].1);
                }
            },
            _ => {},
        }
        i += 1;
    }
    None
}

/// The model of an optional node behind a reference.
pub open spec fn deref_opt(v: Option<&DocValue>) -> Option<DocValue> {
    match v {
        Some(d) => Some(*d),
        None => None,
    }
}

/// A copy of the text of an optional node.
pub fn owned_text(v: Option<&DocValue>) -> (out: Option<String>)
    ensures
        text_view(out) == text_of(deref_opt(v)),
{
    match v {
        Some(d) => match d.as_str() {
            Some(t) => Some(t.to_owned()),
            None => None,
        },
        None => None,
    }
}

} // verus!
