//! The attribute tree through which records are inspected.

use vstd::prelude::*;
use crate::text::{split_dots, split_path};

verus! {

/// A number, held as the bit pattern of its IEEE 754 binary64 encoding.
///
/// Comparisons follow IEEE 754: a NaN is neither equal to nor less than
/// anything, itself included, and the two zeros are equal.
#[derive(Clone, Copy, Debug, PartialEq, Eq, Structural)]
pub struct Number {
    pub bits: u64,
}

impl Number {
    /// Whether the bit pattern encodes a NaN: the exponent is all ones and
    /// the fraction is not zero.
    pub open spec fn is_nan(self) -> bool {
        self.bits % 0x8000_0000_0000_0000 > 0x7ff0_0000_0000_0000
    }

    /// An integer that orders the numbers that are not NaN as their values
    /// do: the magnitude bits, negated where the sign bit is set.
    pub open spec fn key(self) -> int {
        let magnitude = (self.bits % 0x8000_0000_0000_0000) as int;
        if self.bits >= 0x8000_0000_0000_0000 {
            -magnitude
        } else {
            magnitude
        }
    }

    /// Whether the two numbers are equal.
    pub open spec fn spec_equals(self, other: Number) -> bool {
        !self.is_nan() && !other.is_nan() && self.key() == other.key()
    }

    /// Whether this number is less than the other.
    pub open spec fn spec_less(self, other: Number) -> bool {
        !self.is_nan() && !other.is_nan() && self.key() < other.key()
    }

    /// The number with the given bit pattern.
    pub fn from_bits(bits: u64) -> (n: Number)
        ensures
            n.bits == bits,
    {
        Number { bits }
    }

    /// Whether the bit pattern encodes a NaN.
    fn nan(self) -> (r: bool)
        ensures
            r == self.is_nan(),
    {
        self.bits % 0x8000_0000_0000_0000 > 0x7ff0_0000_0000_0000
    }

    /// The integer by which the numbers that are not NaN are ordered.
    fn order_key(self) -> (k: i128)
        ensures
            k == self.key(),
    {
        let magnitude: u64 = self.bits % 0x8000_0000_0000_0000;
        if self.bits >= 0x8000_0000_0000_0000 {
            -(magnitude as i128)
        } else {
            magnitude as i128
        }
    }

    /// Whether the two numbers are equal.
    pub fn equals(self, other: Number) -> (r: bool)
        ensures
            r == self.spec_equals(other),
    {
        !self.nan() && !other.nan() && self.order_key() == other.order_key()
    }

    /// Whether this number is less than the other.
    pub fn less(self, other: Number) -> (r: bool)
        ensures
            r == self.spec_less(other),
    {
        !self.nan() && !other.nan() && self.order_key() < other.order_key()
    }
}

/// A node of a record's attribute tree.
///
/// A number carries, beside its value, the text it is written as; text
/// matching reads the latter. An object is a list of named nodes; a name is
/// looked up by its first entry.
#[derive(Debug)]
pub enum AttrNode {
    Null,
    Bool(bool),
    Number(Number, String),
    String(String),
    Array(Vec<AttrNode>),
    Object(Vec<(String, AttrNode)>),
}

impl AttrNode {
    /// Whether two trees are alike: of the same shape, with the same texts,
    /// numbers, truth values and keys, in the same order.
    pub open spec fn alike(self, other: AttrNode) -> bool
        decreases self,
    {
        match (self, other) {
            (AttrNode::Null, AttrNode::Null) => true,
            (AttrNode::Bool(a), AttrNode::Bool(b)) => a == b,
            (AttrNode::Number(a, s), AttrNode::Number(b, t)) => a == b && s@ == t@,
            (AttrNode::String(s), AttrNode::String(t)) => s@ == t@,
            (AttrNode::Array(a), AttrNode::Array(b)) => a@.len() == b@.len() && forall|i: int|
                0 <= i < a@.len() ==> (#[trigger] a@[i]).alike(b@[i]),
            (AttrNode::Object(a), AttrNode::Object(b)) => a@.len() == b@.len() && forall|i: int|
                0 <= i < a@.len() ==> (#[trigger] a@[i]).0@ == b@[i].0@ && a@[i].1.alike(b@[i].1),
            _ => false,
        }
    }
}

impl Clone for AttrNode {
    /// A tree that is like this one.
    fn clone(&self) -> (copy: Self)
        ensures
            self.alike(copy),
        decreases *self,
    {
        match self {
            AttrNode::Null => AttrNode::Null,
            AttrNode::Bool(b) => AttrNode::Bool(*b),
            AttrNode::Number(n, text) => AttrNode::Number(*n, text.clone()),
            AttrNode::String(s) => AttrNode::String(s.clone()),
            AttrNode::Array(items) => {
                let mut copies: Vec<AttrNode> = Vec::new();
                let mut i: usize = 0;
                while i < items.len()
                    invariant
                        i <= items.len(),
                        *self == AttrNode::Array(*items),
                        copies@.len() == i,
                        forall|j: int| 0 <= j < i ==> (#[trigger] items@[j]).alike(copies@[j]),
                    decreases items.len() - i,
                {
                    proof {
                        assert(decreases_to!(*self => self->Array_0));
                        assert(decreases_to!(*items => items@));
                        assert(decreases_to!(items@ => items@[i as int]));
                    }
                    copies.push(items[i].clone());
                    i += 1;
                }
                AttrNode::Array(copies)
            },
            AttrNode::Object(entries) => {
                let mut copies: Vec<(String, AttrNode)> = Vec::new();
                let mut i: usize = 0;
                while i < entries.len()
                    invariant
                        i <= entries.len(),
                        *self == AttrNode::Object(*entries),
                        copies@.len() == i,
                        forall|j: int|
                            0 <= j < i ==> (#[trigger] entries@[j]).0@ == copies@[j].0@
                                && entries@[j].1.alike(copies@[j].1),
                    decreases entries.len() - i,
                {
                    proof {
                        assert(decreases_to!(*self => self->Object_0));
                        assert(decreases_to!(*entries => entries@));
                        assert(decreases_to!(entries@ => entries@[i as int]));
                        assert(decreases_to!(entries@[i as int] => entries@[i as int].1));
                    }
                    copies.push((entries[i].0.clone(), entries[i].1.clone()));
                    i += 1;
                }
                AttrNode::Object(copies)
            },
        }
    }
}

/// The index of the first entry named `key`, or the number of entries where
/// there is none.
pub open spec fn entry_index(entries: Seq<(String, AttrNode)>, key: Seq<char>) -> int
    decreases entries.len(),
{
    if entries.len() == 0 {
        0
    } else if entries[0].0@ == key {
        0
    } else {
        1 + entry_index(entries.drop_first(), key)
    }
}

/// `entry_index` is the least index whose entry has the name.
pub proof fn lemma_entry_index(entries: Seq<(String, AttrNode)>, key: Seq<char>)
    ensures
        0 <= entry_index(entries, key) <= entries.len(),
        entry_index(entries, key) < entries.len() ==> entries[entry_index(entries, key)].0@ == key,
        forall|i: int| 0 <= i < entry_index(entries, key) ==> (#[trigger] entries[i]).0@ != key,
    decreases entries.len(),
{
    if entries.len() > 0 && entries[0].0@ != key {
        let rest = entries.drop_first();
        lemma_entry_index(rest, key);
        assert forall|i: int| 0 <= i < entry_index(entries, key) implies (#[trigger] entries[i]).0@
            != key by {
            if i > 0 {
                assert(entries[i] == rest[i - 1]);
            }
        }
    }
}

/// An index whose entry has the name, with no such entry before it, is the
/// entry index.
pub proof fn lemma_entry_index_is(entries: Seq<(String, AttrNode)>, key: Seq<char>, at: int)
    requires
        0 <= at <= entries.len(),
        at < entries.len() ==> entries[at].0@ == key,
        forall|i: int| 0 <= i < at ==> (#[trigger] entries[i]).0@ != key,
    ensures
        entry_index(entries, key) == at,
{
    lemma_entry_index(entries, key);
    let first = entry_index(entries, key);
    if first < at {
        assert(entries[first].0@ != key);
    } else if at < first {
        assert(entries[at].0@ != key);
    }
}

/// The texts among the nodes, in order; nodes of other kinds are left out.
pub open spec fn strings_among(nodes: Seq<AttrNode>) -> Seq<Seq<char>>
    decreases nodes.len(),
{
    if nodes.len() == 0 {
        Seq::empty()
    } else {
        let front = strings_among(nodes.drop_last());
        match nodes.last() {
            AttrNode::String(s) => front.push(s@),
            _ => front,
        }
    }
}

impl AttrNode {
    /// The node under `key` in an object; nothing in any other node.
    pub open spec fn spec_child(self, key: Seq<char>) -> Option<AttrNode> {
        match self {
            AttrNode::Object(entries) => {
                let at = entry_index(entries@, key);
                if at < entries@.len() {
                    Some(entries@[at].1)
                } else {
                    None
                }
            },
            _ => None,
        }
    }

    /// The node reached by going down from this node key by key.
    pub open spec fn spec_descend(self, keys: Seq<Seq<char>>) -> Option<AttrNode>
        decreases keys.len(),
    {
        if keys.len() == 0 {
            Some(self)
        } else {
            match self.spec_child(keys[0]) {
                Some(child) => child.spec_descend(keys.drop_first()),
                None => None,
            }
        }
    }

    /// The node at a dot-separated path, if every part of the path leads on.
    pub open spec fn spec_lookup(self, path: Seq<char>) -> Option<AttrNode> {
        self.spec_descend(split_dots(path))
    }

    /// The text of a text, number or truth value; nothing for other nodes.
    pub open spec fn spec_text(self) -> Option<Seq<char>> {
        match self {
            AttrNode::String(s) => Some(s@),
            AttrNode::Number(_, text) => Some(text@),
            AttrNode::Bool(b) => Some(
                if b {
                    "true"@
                } else {
                    "false"@
                },
            ),
            _ => None,
        }
    }

    /// The text of a text or number; nothing for other nodes.
    pub open spec fn spec_plain_text(self) -> Option<Seq<char>> {
        match self {
            AttrNode::String(s) => Some(s@),
            AttrNode::Number(_, text) => Some(text@),
            _ => None,
        }
    }

    /// The texts in an array, in order; nothing for other nodes.
    pub open spec fn spec_strings(self) -> Seq<Seq<char>> {
        match self {
            AttrNode::Array(items) => strings_among(items@),
            _ => Seq::empty(),
        }
    }

    /// The node under `key` in an object.
    pub fn child(&self, key: &String) -> (found: Option<&AttrNode>)
        ensures
            match found {
                Some(node) => self.spec_child(key@) == Some(*node),
                None => self.spec_child(key@) is None,
            },
    {
        match self {
            AttrNode::Object(entries) => {
                let mut i: usize = 0;
                while i < entries.len()
                    invariant
                        i <= entries.len(),
                        *self == AttrNode::Object(*entries),
                        forall|j: int| 0 <= j < i ==> (#[trigger] entries@[j]).0@ != key@,
                    decreases entries.len() - i,
                {
                    if entries[i].0 == *key {
                        proof {
                            lemma_entry_index_is(entries@, key@, i as int);
                        }
                        return Some(&entries[i].1);
                    }
                    i += 1;
                }
                proof {
                    lemma_entry_index_is(entries@, key@, i as int);
                }
                None
            },
            _ => None,
        }
    }

    /// The node at a dot-separated path.
    pub fn lookup(&self, path: &str) -> (found: Option<&AttrNode>)
        ensures
            match found {
                Some(node) => self.spec_lookup(path@) == Some(*node),
                None => self.spec_lookup(path@) is None,
            },
    {
        let keys = split_path(path);
        let ghost all = keys.deep_view();
        let mut current: &AttrNode = self;
        let mut i: usize = 0;
        assert(all.skip(0) =~= all);
        while i < keys.len()
            invariant
                i <= keys.len(),
                all == keys.deep_view(),
                all == split_dots(path@),
                self.spec_descend(all) == current.spec_descend(all.skip(i as int)),
            decreases keys.len() - i,
        {
            proof {
                assert(all.skip(i as int)[0] == keys@[i as int]@);
                assert(all.skip(i as int).drop_first() =~= all.skip(i + 1));
            }
            match current.child(&keys[i]) {
                Some(node) => {
                    current = node;
                },
                None => {
                    return None;
                },
            }
            i += 1;
        }
        Some(current)
    }

    /// The text of a text, number or truth value.
    pub fn text(&self) -> (text: Option<String>)
        ensures
            match text {
                Some(t) => self.spec_text() == Some(t@),
                None => self.spec_text() is None,
            },
    {
        match self {
            AttrNode::String(s) => Some(s.clone()),
            AttrNode::Number(_, text) => Some(text.clone()),
            AttrNode::Bool(b) => {
                if *b {
                    Some("true".to_owned())
                } else {
                    Some("false".to_owned())
                }
            },
            _ => None,
        }
    }

    /// The text of a text or number.
    pub fn plain_text(&self) -> (text: Option<String>)
        ensures
            match text {
                Some(t) => self.spec_plain_text() == Some(t@),
                None => self.spec_plain_text() is None,
            },
    {
        match self {
            AttrNode::String(s) => Some(s.clone()),
            AttrNode::Number(_, text) => Some(text.clone()),
            _ => None,
        }
    }

    /// The texts in an array, in order.
    pub fn strings(&self) -> (texts: Vec<String>)
        ensures
            texts.deep_view() == self.spec_strings(),
    {
        let mut texts: Vec<String> = Vec::new();
        match self {
            AttrNode::Array(items) => {
                let mut i: usize = 0;
                assert(texts.deep_view() =~= strings_among(items@.take(0)));
                while i < items.len()
                    invariant
                        i <= items.len(),
                        texts.deep_view() == strings_among(items@.take(i as int)),
                    decreases items.len() - i,
                {
                    proof {
                        assert(items@.take(i + 1).drop_last() =~= items@.take(i as int));
                    }
                    let ghost before = texts.deep_view();
                    match &items[i] {
                        AttrNode::String(s) => {
                            texts.push(s.clone());
                            assert(texts.deep_view() =~= before.push(s@));
                        },
                        _ => {},
                    }
                    i += 1;
                }
                assert(items@.take(i as int) =~= items@);
            },
            _ => {
                assert(texts.deep_view() =~= Seq::<Seq<char>>::empty());
            },
        }
        texts
    }
}

} // verus!
