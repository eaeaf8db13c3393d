//! Rules that configure text search field by field.

use vstd::prelude::*;
use crate::field_scores::{first_index, lemma_first_index_is};
use crate::score::Score;

verus! {

/// How a field's text is matched against the query.
#[derive(Clone, Copy, Debug, PartialEq, Eq, Structural)]
pub enum Matcher {
    /// The field holds the whole query, without regard to case.
    Exact,
    /// Relevance by term frequency and rarity of the terms.
    BM25,
    /// The number of times the field holds a term of the query.
    Tokenized,
    /// Approximate matching; left to the fuzzy searcher, and scored 0 here.
    Fuzzy,
}

/// How a nested object is reached from its parent.
#[derive(Clone, Copy, Debug, PartialEq, Eq, Structural)]
pub enum ObjectAccess {
    Direct,
}

/// The default priority of a field.
pub fn default_priority() -> (priority: u32)
    ensures
        priority == 1,
{
    1
}

/// The default boost of a field.
pub fn default_boost() -> (boost: Score)
    ensures
        boost.micros == 1_000_000,
{
    Score::one()
}

/// How one field is searched: its matcher, and the two factors that its
/// score is multiplied by.
#[derive(Clone, Copy, Debug, PartialEq, Eq, Structural)]
pub struct FieldRule {
    pub matcher: Matcher,
    pub priority: u32,
    pub boost: Score,
}

impl Default for FieldRule {
    /// The rule `Tokenized` with priority 1 and boost 1.
    fn default() -> (rule: Self)
        ensures
            rule == (FieldRule {
                matcher: Matcher::Tokenized,
                priority: 1,
                boost: Score { micros: 1_000_000 },
            }),
    {
        FieldRule { matcher: Matcher::Tokenized, priority: default_priority(), boost: default_boost() }
    }
}

impl FieldRule {
    /// A rule with the given matcher, priority 1 and boost 1.
    pub fn new(matcher: Matcher) -> (rule: Self)
        ensures
            rule == (FieldRule { matcher, priority: 1, boost: Score { micros: 1_000_000 } }),
    {
        FieldRule { matcher, priority: default_priority(), boost: default_boost() }
    }

    /// A rule that matches the whole query, with priority 1 and boost 1.
    pub fn exact() -> (rule: Self)
        ensures
            rule == (FieldRule {
                matcher: Matcher::Exact,
                priority: 1,
                boost: Score { micros: 1_000_000 },
            }),
    {
        Self::new(Matcher::Exact)
    }

    /// A rule that scores by BM25, with priority 1 and boost 1.
    pub fn bm25() -> (rule: Self)
        ensures
            rule == (FieldRule {
                matcher: Matcher::BM25,
                priority: 1,
                boost: Score { micros: 1_000_000 },
            }),
    {
        Self::new(Matcher::BM25)
    }

    /// A rule that counts the terms of the query, with priority 1 and boost 1.
    pub fn tokenized() -> (rule: Self)
        ensures
            rule == (FieldRule {
                matcher: Matcher::Tokenized,
                priority: 1,
                boost: Score { micros: 1_000_000 },
            }),
    {
        Self::new(Matcher::Tokenized)
    }

    /// A rule that leaves the field to the fuzzy searcher, with priority 1 and boost 1.
    pub fn fuzzy() -> (rule: Self)
        ensures
            rule == (FieldRule {
                matcher: Matcher::Fuzzy,
                priority: 1,
                boost: Score { micros: 1_000_000 },
            }),
    {
        Self::new(Matcher::Fuzzy)
    }

    /// The rule with another priority.
    pub fn priority(self, priority: u32) -> (rule: Self)
        ensures
            rule == (FieldRule { priority, ..self }),
    {
        FieldRule { priority, ..self }
    }

    /// The rule with another boost.
    pub fn boost(self, boost: Score) -> (rule: Self)
        ensures
            rule == (FieldRule { boost, ..self }),
    {
        FieldRule { boost, ..self }
    }
}

/// Named rules as mathematical values, in order.
pub open spec fn named_rules<R>(entries: Seq<(String, R)>) -> Seq<(Seq<char>, R)> {
    Seq::new(entries.len(), |i: int| (entries[i].0@, entries[i].1))
}

/// The entries with `rule` under `name`: in place of the first rule of that
/// name, or as a new last entry.
pub open spec fn with_rule<R>(entries: Seq<(Seq<char>, R)>, name: Seq<char>, rule: R) -> Seq<
    (Seq<char>, R),
> {
    let at = first_index(entries, name);
    if at < entries.len() {
        entries.update(at, (name, rule))
    } else {
        entries.push((name, rule))
    }
}

/// Puts `rule` under `name`, in place of the first rule of that name.
fn put_rule<R>(entries: &mut Vec<(String, R)>, name: String, rule: R)
    ensures
        named_rules(final(entries)@) == with_rule(named_rules(old(entries)@), name@, rule),
{
    let ghost before = named_rules(entries@);
    let mut i: usize = 0;
    while i < entries.len()
        invariant
            i <= entries.len(),
            before == named_rules(entries@),
            before == named_rules(old(entries)@),
            forall|j: int| 0 <= j < i ==> (#[trigger] before[j]).0 != name@,
        decreases entries.len() - i,
    {
        if entries[i].0 == name {
            proof {
                assert(before[i as int].0 == name@);
                lemma_first_index_is(before, name@, i as int);
            }
            entries.set(i, (name, rule));
            assert(named_rules(entries@) =~= before.update(i as int, (name@, rule)));
            return ;
        }
        i += 1;
    }
    proof {
        lemma_first_index_is(before, name@, i as int);
    }
    entries.push((name, rule));
    assert(named_rules(entries@) =~= before.push((name@, rule)));
}

/// The rules of a nested object.
#[derive(Clone, Debug)]
pub struct ObjectRule {
    pub access: ObjectAccess,
    pub fields: Vec<(String, FieldRule)>,
}

impl ObjectRule {
    /// A builder for the rules of an object that is a direct attribute of
    /// its parent.
    pub fn direct() -> (builder: ObjectRuleBuilder)
        ensures
            builder.access == ObjectAccess::Direct,
            builder.fields@.len() == 0,
    {
        ObjectRuleBuilder { access: ObjectAccess::Direct, fields: Vec::new() }
    }
}

/// Builds an [`ObjectRule`] field by field.
#[derive(Debug)]
pub struct ObjectRuleBuilder {
    pub access: ObjectAccess,
    pub fields: Vec<(String, FieldRule)>,
}

impl ObjectRuleBuilder {
    /// Sets the rule of a field of the object.
    pub fn field(self, name: &str, rule: FieldRule) -> (builder: Self)
        ensures
            builder.access == self.access,
            named_rules(builder.fields@) == with_rule(named_rules(self.fields@), name@, rule),
    {
        let mut builder = self;
        put_rule(&mut builder.fields, name.to_owned(), rule);
        builder
    }

    /// The rules of the object.
    pub fn build(self) -> (rule: ObjectRule)
        ensures
            rule.access == self.access,
            rule.fields == self.fields,
    {
        ObjectRule { access: self.access, fields: self.fields }
    }
}

/// The rules of a text search: one rule for each field that is searched,
/// by the dot-separated path of the field, and rules for nested objects.
/// The fields are scored in the order in which they were first named.
#[derive(Clone, Debug)]
pub struct SemanticRules {
    pub fields: Vec<(String, FieldRule)>,
    pub objects: Vec<(String, ObjectRule)>,
}

impl SemanticRules {
    /// A builder without rules.
    pub fn builder() -> (builder: SemanticRulesBuilder)
        ensures
            builder.fields@.len() == 0,
            builder.objects@.len() == 0,
    {
        SemanticRulesBuilder { fields: Vec::new(), objects: Vec::new() }
    }
}

impl Default for SemanticRules {
    /// No rules.
    fn default() -> (rules: Self)
        ensures
            rules.fields@.len() == 0,
            rules.objects@.len() == 0,
    {
        SemanticRules { fields: Vec::new(), objects: Vec::new() }
    }
}

/// Builds [`SemanticRules`] rule by rule.
#[derive(Debug)]
pub struct SemanticRulesBuilder {
    pub fields: Vec<(String, FieldRule)>,
    pub objects: Vec<(String, ObjectRule)>,
}

impl SemanticRulesBuilder {
    /// Sets the rule of a field.
    pub fn field(self, name: &str, rule: FieldRule) -> (builder: Self)
        ensures
            named_rules(builder.fields@) == with_rule(named_rules(self.fields@), name@, rule),
            builder.objects == self.objects,
    {
        let mut builder = self;
        put_rule(&mut builder.fields, name.to_owned(), rule);
        builder
    }

    /// Sets the rules of a nested object.
    pub fn object(self, name: &str, rule: ObjectRule) -> (builder: Self)
        ensures
            builder.fields == self.fields,
            named_rules(builder.objects@) == with_rule(named_rules(self.objects@), name@, rule),
    {
        let mut builder = self;
        put_rule(&mut builder.objects, name.to_owned(), rule);
        builder
    }

    /// The rules.
    pub fn build(self) -> (rules: SemanticRules)
        ensures
            rules.fields == self.fields,
            rules.objects == self.objects,
    {
        SemanticRules { fields: self.fields, objects: self.objects }
    }
}

} // verus!
