//! Filter expressions over the attributes of a record.

use vstd::prelude::*;
use crate::attr::{AttrNode, Number};
use crate::text::{comes_before, contains, lowercase, lowercase_of, occurs_in, text_before};
use crate::types::Record;

verus! {

/// The comparison operators of a filter.
#[derive(Clone, Copy, Debug, PartialEq, Eq, Structural)]
pub enum CompareOp {
    Eq,
    Ne,
    Lt,
    Le,
    Gt,
    Ge,
    Contains,
}

/// A value that a filter compares an attribute with.
#[derive(Debug)]
pub enum FilterValue {
    String(String),
    Number(Number),
    Bool(bool),
}

/// A boolean expression over the attributes of a record.
#[derive(Debug)]
pub enum FilterExpr {
    /// Compares the attribute at a dot-separated path with a value.
    Compare { field: String, op: CompareOp, value: FilterValue },
    /// True where every part is; true where there is none.
    And(Vec<FilterExpr>),
    /// True where some part is; false where there is none.
    Or(Vec<FilterExpr>),
    /// True where the part is false.
    Not(Box<FilterExpr>),
}

/// How two texts compare under an operator. `Contains` is false here: on
/// texts it is decided without regard to case, by [`compared`].
pub open spec fn texts_compared(a: Seq<char>, op: CompareOp, b: Seq<char>) -> bool {
    match op {
        CompareOp::Eq => a == b,
        CompareOp::Ne => a != b,
        CompareOp::Lt => text_before(a, b),
        CompareOp::Le => text_before(a, b) || a == b,
        CompareOp::Gt => text_before(b, a),
        CompareOp::Ge => text_before(b, a) || a == b,
        CompareOp::Contains => false,
    }
}

/// How two numbers compare under an operator. No number contains another.
pub open spec fn numbers_compared(a: Number, op: CompareOp, b: Number) -> bool {
    match op {
        CompareOp::Eq => a.spec_equals(b),
        CompareOp::Ne => !a.spec_equals(b),
        CompareOp::Lt => a.spec_less(b),
        CompareOp::Le => a.spec_less(b) || a.spec_equals(b),
        CompareOp::Gt => b.spec_less(a),
        CompareOp::Ge => b.spec_less(a) || a.spec_equals(b),
        CompareOp::Contains => false,
    }
}

/// Whether an element of an array equals the value: as a text, a number or
/// a truth value of the same kind.
pub open spec fn element_equals(element: AttrNode, target: FilterValue) -> bool {
    match (element, target) {
        (AttrNode::String(s), FilterValue::String(t)) => s@ == t@,
        (AttrNode::Number(n, _), FilterValue::Number(t)) => n.spec_equals(t),
        (AttrNode::Bool(b), FilterValue::Bool(t)) => b == t,
        _ => false,
    }
}

/// Whether an attribute stands in the relation `op` to the value.
///
/// An attribute that is missing, or of another kind than the value, stands
/// in no relation to it. A text contains a text that occurs in it without
/// regard to case; an array contains a value that equals one of its
/// elements; truth values are only equal or unequal.
pub open spec fn compared(attribute: Option<AttrNode>, op: CompareOp, target: FilterValue) -> bool {
    match attribute {
        None => false,
        Some(AttrNode::String(s)) => match target {
            FilterValue::String(t) => if op == CompareOp::Contains {
                occurs_in(lowercase_of(t@), lowercase_of(s@))
            } else {
                texts_compared(s@, op, t@)
            },
            _ => false,
        },
        Some(AttrNode::Number(n, _)) => match target {
            FilterValue::Number(t) => numbers_compared(n, op, t),
            _ => false,
        },
        Some(AttrNode::Bool(b)) => match target {
            FilterValue::Bool(t) => match op {
                CompareOp::Eq => b == t,
                CompareOp::Ne => b != t,
                _ => false,
            },
            _ => false,
        },
        Some(AttrNode::Array(items)) => op == CompareOp::Contains && has_element(items@, target),
        Some(_) => false,
    }
}

/// Whether some element of an array equals the value.
pub open spec fn has_element(items: Seq<AttrNode>, target: FilterValue) -> bool {
    exists|i: int| 0 <= i < items.len() && element_equals(#[trigger] items[i], target)
}

/// Compares two texts under an operator.
pub fn compare_texts(a: &String, op: CompareOp, b: &String) -> (r: bool)
    ensures
        r == texts_compared(a@, op, b@),
{
    match op {
        CompareOp::Eq => *a == *b,
        CompareOp::Ne => !(*a == *b),
        CompareOp::Lt => comes_before(a.as_str(), b.as_str()),
        CompareOp::Le => comes_before(a.as_str(), b.as_str()) || *a == *b,
        CompareOp::Gt => comes_before(b.as_str(), a.as_str()),
        CompareOp::Ge => comes_before(b.as_str(), a.as_str()) || *a == *b,
        CompareOp::Contains => false,
    }
}

/// Compares two numbers under an operator.
pub fn compare_numbers(a: Number, op: CompareOp, b: Number) -> (r: bool)
    ensures
        r == numbers_compared(a, op, b),
{
    match op {
        CompareOp::Eq => a.equals(b),
        CompareOp::Ne => !a.equals(b),
        CompareOp::Lt => a.less(b),
        CompareOp::Le => a.less(b) || a.equals(b),
        CompareOp::Gt => b.less(a),
        CompareOp::Ge => b.less(a) || a.equals(b),
        CompareOp::Contains => false,
    }
}

/// Whether an element of an array equals the value.
pub fn equals_element(element: &AttrNode, target: &FilterValue) -> (r: bool)
    ensures
        r == element_equals(*element, *target),
{
    match (element, target) {
        (AttrNode::String(s), FilterValue::String(t)) => *s == *t,
        (AttrNode::Number(n, _), FilterValue::Number(t)) => n.equals(*t),
        (AttrNode::Bool(b), FilterValue::Bool(t)) => *b == *t,
        _ => false,
    }
}

/// Whether an attribute stands in the relation `op` to the value.
pub fn compare_values(attribute: Option<&AttrNode>, op: CompareOp, target: &FilterValue) -> (r: bool)
    ensures
        r == compared(
            match attribute {
                Some(node) => Some(*node),
                None => None,
            },
            op,
            *target,
        ),
{
    let node = match attribute {
        Some(node) => node,
        None => {
            return false;
        },
    };
    match (node, target) {
        (AttrNode::String(s), FilterValue::String(t)) => {
            if op == CompareOp::Contains {
                let hay = lowercase(s.as_str());
                let needle = lowercase(t.as_str());
                contains(hay.as_str(), needle.as_str())
            } else {
                compare_texts(s, op, t)
            }
        },
        (AttrNode::Number(n, _), FilterValue::Number(t)) => compare_numbers(*n, op, *t),
        (AttrNode::Bool(b), FilterValue::Bool(t)) => match op {
            CompareOp::Eq => *b == *t,
            CompareOp::Ne => *b != *t,
            _ => false,
        },
        (AttrNode::Array(items), _) => {
            if op == CompareOp::Contains {
                let mut i: usize = 0;
                while i < items.len()
                    invariant
                        i <= items.len(),
                        attribute == Some(node),
                        *node == AttrNode::Array(*items),
                        op == CompareOp::Contains,
                        forall|j: int| 0 <= j < i ==> !element_equals(#[trigger] items@[j], *target),
                    decreases items.len() - i,
                {
                    if equals_element(&items[i], target) {
                        assert(0 <= i < items@.len() && element_equals(items@[i as int], *target));
                        return true;
                    }
                    i += 1;
                }
                false
            } else {
                false
            }
        },
        _ => false,
    }
}

impl FilterExpr {
    /// Whether the expression holds of an attribute tree.
    pub open spec fn holds(self, tree: AttrNode) -> bool
        decreases self,
    {
        match self {
            FilterExpr::Compare { field, op, value } => compared(tree.spec_lookup(field@), op, value),
            FilterExpr::And(parts) => forall|i: int|
                0 <= i < parts@.len() ==> (#[trigger] parts@[i]).holds(tree),
            FilterExpr::Or(parts) => exists|i: int|
                0 <= i < parts@.len() && (#[trigger] parts@[i]).holds(tree),
            FilterExpr::Not(part) => !part.holds(tree),
        }
    }

    /// Whether the expression holds of a record.
    pub fn evaluate<T>(&self, record: &Record<T>) -> (r: bool)
        ensures
            r == self.holds(record.attrs),
    {
        self.evaluate_value(&record.attrs)
    }

    /// Whether the expression holds of an attribute tree.
    pub fn evaluate_value(&self, tree: &AttrNode) -> (r: bool)
        ensures
            r == self.holds(*tree),
        decreases *self,
    {
        match self {
            FilterExpr::Compare { field, op, value } => {
                compare_values(tree.lookup(field.as_str()), *op, value)
            },
            FilterExpr::And(parts) => {
                let mut i: usize = 0;
                while i < parts.len()
                    invariant
                        i <= parts.len(),
                        *self == FilterExpr::And(*parts),
                        forall|j: int| 0 <= j < i ==> (#[trigger] parts@[j]).holds(*tree),
                    decreases parts.len() - i,
                {
                    proof {
                        assert(decreases_to!(*self => self->And_0));
                        assert(decreases_to!(*parts => parts@));
                        assert(decreases_to!(parts@ => parts@[i as int]));
                    }
                    if !parts[i].evaluate_value(tree) {
                        return false;
                    }
                    i += 1;
                }
                true
            },
            FilterExpr::Or(parts) => {
                let mut i: usize = 0;
                while i < parts.len()
                    invariant
                        i <= parts.len(),
                        *self == FilterExpr::Or(*parts),
                        forall|j: int| 0 <= j < i ==> !(#[trigger] parts@[j]).holds(*tree),
                    decreases parts.len() - i,
                {
                    proof {
                        assert(decreases_to!(*self => self->Or_0));
                        assert(decreases_to!(*parts => parts@));
                        assert(decreases_to!(parts@ => parts@[i as int]));
                    }
                    if parts[i].evaluate_value(tree) {
                        return true;
                    }
                    i += 1;
                }
                false
            },
            FilterExpr::Not(part) => !part.evaluate_value(tree),
        }
    }
}

impl Clone for FilterValue {
    /// An equal value.
    fn clone(&self) -> (copy: Self)
        ensures
            copy == *self,
    {
        match self {
            FilterValue::String(s) => FilterValue::String(s.clone()),
            FilterValue::Number(n) => FilterValue::Number(*n),
            FilterValue::Bool(b) => FilterValue::Bool(*b),
        }
    }
}

impl Clone for FilterExpr {
    /// An expression that holds of the same trees.
    fn clone(&self) -> (copy: Self)
        ensures
            forall|tree: AttrNode| #[trigger] copy.holds(tree) == self.holds(tree),
        decreases *self,
    {
        match self {
            FilterExpr::Compare { field, op, value } => {
                let copy = FilterExpr::Compare {
                    field: field.clone(),
                    op: *op,
                    value: value.clone(),
                };
                assert(copy == *self);
                copy
            },
            FilterExpr::And(parts) => {
                let mut copies: Vec<FilterExpr> = Vec::new();
                let mut i: usize = 0;
                while i < parts.len()
                    invariant
                        i <= parts.len(),
                        *self == FilterExpr::And(*parts),
                        copies@.len() == i,
                        forall|j: int, tree: AttrNode|
                            0 <= j < i ==> (#[trigger] copies@[j].holds(tree)) == parts@[j].holds(
                                tree,
                            ),
                    decreases parts.len() - i,
                {
                    proof {
                        assert(decreases_to!(*self => self->And_0));
                        assert(decreases_to!(*parts => parts@));
                        assert(decreases_to!(parts@ => parts@[i as int]));
                    }
                    copies.push(parts[i].clone());
                    i += 1;
                }
                let copy = FilterExpr::And(copies);
                proof {
                    assert forall|tree: AttrNode| #[trigger] copy.holds(tree) == self.holds(tree) by {
                        assert(copy is And && copy->And_0 == copies);
                        assert(copy.holds(tree) == (forall|j: int|
                            0 <= j < copy->And_0@.len() ==> (#[trigger] copy->And_0@[j]).holds(tree)));
                        if self.holds(tree) {
                            assert forall|j: int| 0 <= j < copies@.len() implies (
                            #[trigger] copies@[j]).holds(tree) by {
                                assert(parts@[j].holds(tree));
                            }
                        }
                        if copy.holds(tree) {
                            assert forall|j: int| 0 <= j < parts@.len() implies (
                            #[trigger] parts@[j]).holds(tree) by {
                                assert(copies@[j].holds(tree));
                            }
                        }
                    }
                }
                copy
            },
            FilterExpr::Or(parts) => {
                let mut copies: Vec<FilterExpr> = Vec::new();
                let mut i: usize = 0;
                while i < parts.len()
                    invariant
                        i <= parts.len(),
                        *self == FilterExpr::Or(*parts),
                        copies@.len() == i,
                        forall|j: int, tree: AttrNode|
                            0 <= j < i ==> (#[trigger] copies@[j].holds(tree)) == parts@[j].holds(
                                tree,
                            ),
                    decreases parts.len() - i,
                {
                    proof {
                        assert(decreases_to!(*self => self->Or_0));
                        assert(decreases_to!(*parts => parts@));
                        assert(decreases_to!(parts@ => parts@[i as int]));
                    }
                    copies.push(parts[i].clone());
                    i += 1;
                }
                let copy = FilterExpr::Or(copies);
                proof {
                    assert forall|tree: AttrNode| #[trigger] copy.holds(tree) == self.holds(tree) by {
                        assert(copy is Or && copy->Or_0 == copies);
                        assert(copy.holds(tree) == (exists|j: int|
                            0 <= j < copy->Or_0@.len() && (#[trigger] copy->Or_0@[j]).holds(tree)));
                        if self.holds(tree) {
                            let j = choose|j: int|
                                0 <= j < parts@.len() && (#[trigger] parts@[j]).holds(tree);
                            assert(copies@[j].holds(tree));
                        }
                        if copy.holds(tree) {
                            let j = choose|j: int|
                                0 <= j < copies@.len() && (#[trigger] copies@[j]).holds(tree);
                            assert(parts@[j].holds(tree));
                        }
                    }
                }
                copy
            },
            FilterExpr::Not(part) => {
                let inner = (**part).clone();
                let copy = FilterExpr::Not(Box::new(inner));
                proof {
                    assert forall|tree: AttrNode| #[trigger] copy.holds(tree) == self.holds(tree) by {
                        assert(copy is Not && *copy->Not_0 == inner);
                        assert(inner.holds(tree) == part.holds(tree));
                    }
                }
                copy
            },
        }
    }
}

/// Whether a record is let through: the filter holds of it, or there is no
/// filter.
pub open spec fn passes(filters: Option<FilterExpr>, tree: AttrNode) -> bool {
    match filters {
        Some(filter) => filter.holds(tree),
        None => true,
    }
}

/// Whether a record is let through by the filter of a query, if it has one.
pub fn let_through(filters: &Option<FilterExpr>, tree: &AttrNode) -> (r: bool)
    ensures
        r == passes(*filters, *tree),
{
    match filters {
        Some(filter) => filter.evaluate_value(tree),
        None => true,
    }
}

/// The indices of the records of which the filter holds, ascending.
pub open spec fn passing(trees: Seq<AttrNode>, filter: FilterExpr) -> Seq<int>
    decreases trees.len(),
{
    if trees.len() == 0 {
        Seq::empty()
    } else {
        let front = passing(trees.drop_last(), filter);
        if filter.holds(trees.last()) {
            front.push(trees.len() - 1)
        } else {
            front
        }
    }
}

/// The passing indices are indices of records.
pub proof fn lemma_passing_in_range(trees: Seq<AttrNode>, filter: FilterExpr, k: int)
    requires
        0 <= k < passing(trees, filter).len(),
    ensures
        0 <= passing(trees, filter)[k] < trees.len(),
    decreases trees.len(),
{
    if trees.len() > 0 {
        let front = passing(trees.drop_last(), filter);
        if k < front.len() {
            lemma_passing_in_range(trees.drop_last(), filter, k);
        }
    }
}

/// The items of the records of which the filter holds, in the order of the
/// records.
pub fn filter_items<T: Clone>(items: &[Record<T>], filters: &FilterExpr) -> (kept: Vec<T>)
    ensures
        kept@.len() == passing(crate::types::trees(items@), *filters).len(),
        forall|k: int|
            0 <= k < kept@.len() ==> cloned(
                items@[passing(crate::types::trees(items@), *filters)[k]].item,
                #[trigger] kept@[k],
            ),
{
    let ghost all = crate::types::trees(items@);
    let mut kept: Vec<T> = Vec::new();
    let mut i: usize = 0;
    while i < items.len()
        invariant
            i <= items.len(),
            all == crate::types::trees(items@),
            kept@.len() == passing(all.take(i as int), *filters).len(),
            forall|k: int|
                0 <= k < kept@.len() ==> cloned(
                    items@[passing(all.take(i as int), *filters)[k]].item,
                    #[trigger] kept@[k],
                ),
        decreases items.len() - i,
    {
        proof {
            assert(all.take(i + 1).drop_last() =~= all.take(i as int));
            assert(all.take(i + 1).last() == items@[i as int].attrs);
            let indices = passing(all.take(i as int), *filters);
            assert forall|k: int| 0 <= k < kept@.len() implies 0 <= #[trigger] indices[k] < i by {
                lemma_passing_in_range(all.take(i as int), *filters, k);
            }
        }
        if filters.evaluate(&items[i]) {
            kept.push(items[i].item.clone());
        }
        i += 1;
    }
    assert(all.take(i as int) =~= all);
    kept
}

} // verus!
