//! Tag search, with expansion of the query's tags through a graph of
//! related tags.

use vstd::prelude::*;
use vstd::hash_map::StringHashMap;
use vstd::hash_set::StringHashSet;
use crate::attr::AttrNode;
use crate::context::SearchContext;
use crate::field_scores::FieldScores;
use crate::filter::{let_through, passes, FilterExpr};
use crate::sort::{lemma_sorted_copies, sort_by_score, stable_sorted};
use crate::ranking_laws::lemma_found_ids;
use crate::score::{spec_ratio, Score};
use crate::searcher::Searcher;
use crate::searchers::tagged_laws::{law_expansion_is_bounded, vertices};
use crate::text::{lowercase, lowercase_of};
use crate::types::{
    copies_of, copy_of, gathered, match_views, DetailView, MatchView, Query, Record, SearchDetail,
    SearcherKind, SearusMatch,
};

verus! {

/// A tag with the tags it leads to, each with the strength of the relation,
/// which is above 0 and at most 1.
#[derive(Clone, Debug)]
pub struct TagNode {
    pub tag: String,
    pub relationships: Vec<(String, Score)>,
}

/// A directed graph of tags with weighted edges. Cycles are allowed.
///
/// Tags are compared without regard to case: a node is stored under the
/// lowercase form of its tag. Of two nodes with the same tag the later
/// counts.
#[derive(Clone, Debug)]
pub struct TagRelationshipTree {
    pub nodes: Vec<TagNode>,
}

/// The edges of a node as mathematical values.
pub open spec fn edge_views(edges: Seq<(String, Score)>) -> Seq<(Seq<char>, Score)> {
    Seq::new(edges.len(), |i: int| (edges[i].0@, edges[i].1))
}

impl View for TagRelationshipTree {
    type V = Seq<(Seq<char>, Seq<(Seq<char>, Score)>)>;

    open spec fn view(&self) -> Seq<(Seq<char>, Seq<(Seq<char>, Score)>)> {
        Seq::new(
            self.nodes@.len(),
            |i: int| (self.nodes@[i].tag@, edge_views(self.nodes@[i].relationships@)),
        )
    }
}

/// The index of the last node stored under `tag`, or -1 where there is
/// none.
pub open spec fn node_index(graph: Seq<(Seq<char>, Seq<(Seq<char>, Score)>)>, tag: Seq<char>) -> int
    decreases graph.len(),
{
    if graph.len() == 0 {
        -1
    } else if graph.last().0 == tag {
        graph.len() - 1
    } else {
        node_index(graph.drop_last(), tag)
    }
}

/// The edges that leave `tag`; none where the graph has no such node.
pub open spec fn edges_of(graph: Seq<(Seq<char>, Seq<(Seq<char>, Score)>)>, tag: Seq<char>) -> Seq<
    (Seq<char>, Score),
> {
    let at = node_index(graph, tag);
    if at >= 0 {
        graph[at].1
    } else {
        Seq::empty()
    }
}

/// `node_index` is an index of the graph or -1.
pub proof fn lemma_node_index(graph: Seq<(Seq<char>, Seq<(Seq<char>, Score)>)>, tag: Seq<char>)
    ensures
        -1 <= node_index(graph, tag) < graph.len(),
        node_index(graph, tag) >= 0 ==> graph[node_index(graph, tag)].0 == tag,
    decreases graph.len(),
{
    if graph.len() > 0 && graph.last().0 != tag {
        lemma_node_index(graph.drop_last(), tag);
    }
}

/// The state of one breadth-first traversal: the strengths found so far,
/// the tags this traversal has reached, and the tags of the next level with
/// the strength each was first reached with.
pub struct Expansion {
    pub strengths: Map<Seq<char>, Score>,
    pub visited: Set<Seq<char>>,
    pub next: Seq<(Seq<char>, Score)>,
}

/// The state after a tag has been reached with the given strength. The tag
/// keeps the greatest strength it was reached with; it joins the next level
/// if this traversal reaches it for the first time.
pub open spec fn reached(state: Expansion, target: Seq<char>, strength: Score) -> Expansion {
    let best = if state.strengths.contains_key(target) {
        state.strengths[target].spec_larger(strength)
    } else {
        strength
    };
    Expansion {
        strengths: state.strengths.insert(target, best),
        visited: state.visited.insert(target),
        next: if state.visited.contains(target) {
            state.next
        } else {
            state.next.push((target, strength))
        },
    }
}

/// The state after one edge has been followed from a tag of strength
/// `strength`: the target of the edge, in lowercase, is reached with the
/// product of the two strengths.
pub open spec fn relaxed(state: Expansion, strength: Score, edge: (Seq<char>, Score)) -> Expansion {
    reached(state, lowercase_of(edge.0), strength.spec_times(edge.1))
}

/// The state after every edge of one tag has been followed, in order.
pub open spec fn relaxed_all(state: Expansion, strength: Score, edges: Seq<(Seq<char>, Score)>) -> Expansion
    decreases edges.len(),
{
    if edges.len() == 0 {
        state
    } else {
        relaxed(relaxed_all(state, strength, edges.drop_last()), strength, edges.last())
    }
}

/// The state after the edges of every tag of a level have been followed,
/// tag by tag in the order of the level.
pub open spec fn level_expanded(
    graph: Seq<(Seq<char>, Seq<(Seq<char>, Score)>)>,
    state: Expansion,
    level: Seq<(Seq<char>, Score)>,
) -> Expansion
    decreases level.len(),
{
    if level.len() == 0 {
        state
    } else {
        relaxed_all(
            level_expanded(graph, state, level.drop_last()),
            level.last().1,
            edges_of(graph, level.last().0),
        )
    }
}

/// The strengths after `depth` more levels have been expanded, starting
/// with `level`.
pub open spec fn levels_expanded(
    graph: Seq<(Seq<char>, Seq<(Seq<char>, Score)>)>,
    strengths: Map<Seq<char>, Score>,
    visited: Set<Seq<char>>,
    level: Seq<(Seq<char>, Score)>,
    depth: nat,
) -> Map<Seq<char>, Score>
    decreases depth,
{
    if depth == 0 {
        strengths
    } else {
        let after = level_expanded(
            graph,
            Expansion { strengths, visited, next: Seq::empty() },
            level,
        );
        levels_expanded(graph, after.strengths, after.visited, after.next, (depth - 1) as nat)
    }
}

/// The strengths after the traversal that starts from `source` with
/// strength 1.
pub open spec fn source_expanded(
    graph: Seq<(Seq<char>, Seq<(Seq<char>, Score)>)>,
    strengths: Map<Seq<char>, Score>,
    source: Seq<char>,
    depth: nat,
) -> Map<Seq<char>, Score> {
    levels_expanded(
        graph,
        strengths,
        Set::empty().insert(source),
        seq![(source, Score { micros: 1_000_000 })],
        depth,
    )
}

/// The strengths after one traversal from each of the tags, in order.
pub open spec fn sources_expanded(
    graph: Seq<(Seq<char>, Seq<(Seq<char>, Score)>)>,
    strengths: Map<Seq<char>, Score>,
    tags: Seq<Seq<char>>,
    depth: nat,
) -> Map<Seq<char>, Score>
    decreases tags.len(),
{
    if tags.len() == 0 {
        strengths
    } else {
        source_expanded(
            graph,
            sources_expanded(graph, strengths, tags.drop_last(), depth),
            lowercase_of(tags.last()),
            depth,
        )
    }
}

/// The tags in lowercase, each with strength 1.
pub open spec fn seeded(tags: Seq<Seq<char>>) -> Map<Seq<char>, Score>
    decreases tags.len(),
{
    if tags.len() == 0 {
        Map::empty()
    } else {
        seeded(tags.drop_last()).insert(lowercase_of(tags.last()), Score { micros: 1_000_000 })
    }
}

/// The expansion of the tags through the graph: the tags themselves,
/// starting with strength 1, and, unless `depth` is 0 or the graph is empty,
/// every tag that a breadth-first traversal from one of them reaches
/// within `depth` edges. A tag has the greatest strength it was reached
/// with. The strength along an edge is the strength of the tag it leaves,
/// as first reached in that traversal, times the strength of the edge.
pub open spec fn spec_expand(
    graph: Seq<(Seq<char>, Seq<(Seq<char>, Score)>)>,
    tags: Seq<Seq<char>>,
    depth: nat,
) -> Map<Seq<char>, Score> {
    if depth == 0 || graph.len() == 0 {
        seeded(tags)
    } else {
        sources_expanded(graph, seeded(tags), tags, depth)
    }
}

/// With no tag left in the level, further levels change nothing.
pub proof fn lemma_empty_level(
    graph: Seq<(Seq<char>, Seq<(Seq<char>, Score)>)>,
    strengths: Map<Seq<char>, Score>,
    visited: Set<Seq<char>>,
    depth: nat,
)
    ensures
        levels_expanded(graph, strengths, visited, Seq::empty(), depth) == strengths,
    decreases depth,
{
    if depth > 0 {
        lemma_empty_level(graph, strengths, visited, (depth - 1) as nat);
    }
}

/// The tags in lowercase, each with strength 1.
pub fn seed_tags(tags: &Vec<String>) -> (seeds: StringHashMap<Score>)
    ensures
        seeds@ == seeded(tags.deep_view()),
        seeds@.dom().finite(),
{
    let mut seeds: StringHashMap<Score> = StringHashMap::new();
    let ghost all = tags.deep_view();
    let mut i: usize = 0;
    while i < tags.len()
        invariant
            i <= tags.len(),
            all == tags.deep_view(),
            seeds@ == seeded(all.take(i as int)),
            seeds@.dom().finite(),
        decreases tags.len() - i,
    {
        proof {
            assert(all.take(i + 1).drop_last() =~= all.take(i as int));
            assert(all.take(i + 1).last() == tags@[i as int]@);
        }
        seeds.insert(lowercase(tags[i].as_str()), Score::one());
        i += 1;
    }
    assert(all.take(i as int) =~= all);
    seeds
}

/// Records that a tag has been reached with the given strength.
pub fn reach(
    strengths: &mut StringHashMap<Score>,
    visited: &mut StringHashSet,
    next: &mut Vec<(String, Score)>,
    target: String,
    strength: Score,
)
    ensures
        old(strengths)@.dom().finite() ==> final(strengths)@.dom().finite(),
        (Expansion {
            strengths: final(strengths)@,
            visited: final(visited)@,
            next: edge_views(final(next)@),
        }) == reached(
            Expansion {
                strengths: old(strengths)@,
                visited: old(visited)@,
                next: edge_views(old(next)@),
            },
            target@,
            strength,
        ),
{
    let best = match strengths.get(target.as_str()) {
        Some(known) => known.larger(strength),
        None => strength,
    };
    strengths.insert(target.clone(), best);
    if visited.contains(target.as_str()) {
        assert(visited@.insert(target@) =~= visited@);
    } else {
        visited.insert(target.clone());
        next.push((target, strength));
        assert(edge_views(next@) =~= edge_views(old(next)@).push((target@, strength)));
    }
}

/// Follows one edge from a tag of strength `strength`.
fn relax(
    strengths: &mut StringHashMap<Score>,
    visited: &mut StringHashSet,
    next: &mut Vec<(String, Score)>,
    strength: Score,
    edge: &(String, Score),
)
    requires
        old(strengths)@.dom().finite(),
    ensures
        final(strengths)@.dom().finite(),
        (Expansion {
            strengths: final(strengths)@,
            visited: final(visited)@,
            next: edge_views(final(next)@),
        }) == relaxed(
            Expansion {
                strengths: old(strengths)@,
                visited: old(visited)@,
                next: edge_views(old(next)@),
            },
            strength,
            (edge.0@, edge.1),
        ),
{
    reach(strengths, visited, next, lowercase(edge.0.as_str()), strength.times(edge.1));
}

impl TagRelationshipTree {
    /// A graph of the given nodes, each stored under the lowercase form of
    /// its tag.
    pub fn new(nodes: Vec<TagNode>) -> (tree: Self)
        ensures
            tree@.len() == nodes@.len(),
            forall|i: int|
                0 <= i < nodes@.len() ==> (#[trigger] tree@[i]) == (
                    lowercase_of(nodes@[i].tag@),
                    edge_views(nodes@[i].relationships@),
                ),
    {
        let mut stored: Vec<TagNode> = Vec::new();
        for node in it: nodes
            invariant
                it.seq() == nodes@,
                stored@.len() == it.index(),
                forall|i: int|
                    0 <= i < it.index() ==> (#[trigger] stored@[i]).tag@ == lowercase_of(
                        nodes@[i].tag@,
                    ) && stored@[i].relationships == nodes@[i].relationships,
        {
            let TagNode { tag, relationships } = node;
            stored.push(TagNode { tag: lowercase(tag.as_str()), relationships });
        }
        TagRelationshipTree { nodes: stored }
    }

    /// The index of the last node stored under `tag`.
    fn position(&self, tag: &String) -> (at: Option<usize>)
        ensures
            match at {
                Some(i) => i == node_index(self@, tag@) && i < self.nodes@.len(),
                None => node_index(self@, tag@) == -1,
            },
    {
        let mut i: usize = self.nodes.len();
        assert(self@.take(i as int) =~= self@);
        while i > 0
            invariant
                i <= self.nodes.len(),
                node_index(self@, tag@) == node_index(self@.take(i as int), tag@),
            decreases i,
        {
            let ghost upto = self@.take(i as int);
            assert(upto.drop_last() =~= self@.take(i - 1));
            assert(upto.last() == self@[i - 1]);
            i -= 1;
            if self.nodes[i].tag == *tag {
                return Some(i);
            }
        }
        None
    }

    /// Runs the traversal that starts from `source` with strength 1.
    fn expand_source(&self, strengths: &mut StringHashMap<Score>, source: String, max_depth: usize)
        requires
            old(strengths)@.dom().finite(),
        ensures
            final(strengths)@.dom().finite(),
            final(strengths)@ == source_expanded(
                self@,
                old(strengths)@,
                source@,
                max_depth as nat,
            ),
    {
        let ghost goal = source_expanded(self@, strengths@, source@, max_depth as nat);
        let mut visited = StringHashSet::new();
        visited.insert(source.clone());
        let mut level: Vec<(String, Score)> = Vec::new();
        level.push((source, Score::one()));
        assert(edge_views(level@) =~= seq![(source@, Score { micros: 1_000_000 })]);
        let mut depth: usize = 0;
        while depth < max_depth && level.len() > 0
            invariant
                depth <= max_depth,
                strengths@.dom().finite(),
                goal == levels_expanded(
                    self@,
                    strengths@,
                    visited@,
                    edge_views(level@),
                    (max_depth - depth) as nat,
                ),
            decreases max_depth - depth,
        {
            let ghost start = Expansion {
                strengths: strengths@,
                visited: visited@,
                next: Seq::empty(),
            };
            let ghost tags = edge_views(level@);
            let mut next: Vec<(String, Score)> = Vec::new();
            assert(edge_views(next@) =~= Seq::<(Seq<char>, Score)>::empty());
            let mut f: usize = 0;
            while f < level.len()
                invariant
                    f <= level.len(),
                    tags == edge_views(level@),
                    strengths@.dom().finite(),
                    (Expansion {
                        strengths: strengths@,
                        visited: visited@,
                        next: edge_views(next@),
                    }) == level_expanded(self@, start, tags.take(f as int)),
                decreases level.len() - f,
            {
                proof {
                    assert(tags.take(f + 1).drop_last() =~= tags.take(f as int));
                    assert(tags.take(f + 1).last() == (level@[f as int].0@, level@[f as int].1));
                }
                let ghost before = Expansion {
                    strengths: strengths@,
                    visited: visited@,
                    next: edge_views(next@),
                };
                let strength = level[f].1;
                match self.position(&level[f].0) {
                    Some(at) => {
                        let edges = &self.nodes[at].relationships;
                        let ghost all = edge_views(edges@);
                        assert(all == edges_of(self@, level@[f as int].0@));
                        let mut e: usize = 0;
                        while e < edges.len()
                            invariant
                                e <= edges.len(),
                                all == edge_views(edges@),
                                strengths@.dom().finite(),
                                (Expansion {
                                    strengths: strengths@,
                                    visited: visited@,
                                    next: edge_views(next@),
                                }) == relaxed_all(before, strength, all.take(e as int)),
                            decreases edges.len() - e,
                        {
                            proof {
                                assert(all.take(e + 1).drop_last() =~= all.take(e as int));
                                assert(all.take(e + 1).last() == (edges@[e as int].0@, edges@[e as int].1));
                            }
                            relax(strengths, &mut visited, &mut next, strength, &edges[e]);
                            e += 1;
                        }
                        assert(all.take(e as int) =~= all);
                    },
                    None => {
                        proof {
                            lemma_node_index(self@, level@[f as int].0@);
                        }
                    },
                }
                f += 1;
            }
            assert(tags.take(f as int) =~= tags);
            level = next;
            depth += 1;
        }
        proof {
            if depth < max_depth {
                assert(edge_views(level@) =~= Seq::<(Seq<char>, Score)>::empty());
                lemma_empty_level(self@, strengths@, visited@, (max_depth - depth) as nat);
            }
        }
    }

    /// Expands the tags of a query through the graph, up to `max_depth`
    /// edges from each of them.
    ///
    /// The result maps each tag, in lowercase, to its strength. The tags of
    /// the query start with strength 1; every tag that is reached has the
    /// greatest strength it was reached with. A traversal reaches no tag
    /// twice, so cycles end it, and the result has at most as many tags as
    /// the query has tags and the graph has vertices together.
    pub fn expand_tags(&self, query_tags: &Vec<String>, max_depth: usize) -> (expanded: StringHashMap<
        Score,
    >)
        ensures
            expanded@ == spec_expand(self@, query_tags.deep_view(), max_depth as nat),
            expanded@.dom().finite(),
            expanded@.len() <= query_tags@.len() + vertices(self@).len(),
    {
        proof {
            law_expansion_is_bounded(self@, query_tags.deep_view(), max_depth as nat);
        }
        let mut expanded = seed_tags(query_tags);
        if max_depth == 0 || self.nodes.len() == 0 {
            return expanded;
        }
        let ghost all = query_tags.deep_view();
        let ghost seeds = expanded@;
        let mut s: usize = 0;
        while s < query_tags.len()
            invariant
                s <= query_tags.len(),
                all == query_tags.deep_view(),
                expanded@.dom().finite(),
                expanded@ == sources_expanded(self@, seeds, all.take(s as int), max_depth as nat),
            decreases query_tags.len() - s,
        {
            proof {
                assert(all.take(s + 1).drop_last() =~= all.take(s as int));
                assert(all.take(s + 1).last() == query_tags@[s as int]@);
            }
            let source = lowercase(query_tags[s].as_str());
            self.expand_source(&mut expanded, source, max_depth);
            s += 1;
        }
        assert(all.take(s as int) =~= all);
        expanded
    }
}

/// A searcher that scores a record by the tags it shares with the query.
///
/// Tags are compared without regard to case. With a relationship tree and
/// an expansion depth in the query's options, the tags of the query are
/// expanded through the tree first.
#[derive(Clone, Debug)]
pub struct TaggedSearch {
    /// The key of the record attribute that holds the record's tags.
    pub tag_field: String,
    pub trt: Option<TagRelationshipTree>,
}

/// The tags of a record: the texts of the array under `field`.
pub open spec fn item_tags_of(attrs: AttrNode, field: Seq<char>) -> Seq<Seq<char>> {
    match attrs.spec_child(field) {
        Some(node) => node.spec_strings(),
        None => Seq::empty(),
    }
}

/// The tags of a record that the expansion knows, in the order of the
/// record.
pub open spec fn hits(item_tags: Seq<Seq<char>>, expanded: Map<Seq<char>, Score>) -> Seq<Seq<char>>
    decreases item_tags.len(),
{
    if item_tags.len() == 0 {
        Seq::empty()
    } else {
        let front = hits(item_tags.drop_last(), expanded);
        if expanded.contains_key(lowercase_of(item_tags.last())) {
            front.push(item_tags.last())
        } else {
            front
        }
    }
}

/// The sum of the strengths of the tags of a record that the expansion
/// knows.
pub open spec fn hit_strength(item_tags: Seq<Seq<char>>, expanded: Map<Seq<char>, Score>) -> Score
    decreases item_tags.len(),
{
    if item_tags.len() == 0 {
        Score { micros: 0 }
    } else {
        let front = hit_strength(item_tags.drop_last(), expanded);
        if expanded.contains_key(lowercase_of(item_tags.last())) {
            front.spec_plus(expanded[lowercase_of(item_tags.last())])
        } else {
            front
        }
    }
}

/// The score of a record with `matched` known tags of total strength
/// `total`, for a query of `query_len` tags: the share of the query that
/// was matched, times the mean strength of the matched tags.
pub open spec fn tag_score(matched: nat, total: Score, query_len: nat) -> Score {
    spec_ratio(matched, query_len).spec_times(total.spec_shared(matched))
}

/// The match of a record against an expansion of the query's tags, if the
/// record has a tag that the expansion knows.
pub open spec fn tag_match<T>(
    record: Record<T>,
    index: usize,
    field: Seq<char>,
    expanded: Map<Seq<char>, Score>,
    query_len: nat,
) -> Option<MatchView<T>> {
    let item_tags = item_tags_of(record.attrs, field);
    let matched = hits(item_tags, expanded);
    if matched.len() == 0 {
        None
    } else {
        Some(
            MatchView {
                item: record.item,
                score: tag_score(matched.len(), hit_strength(item_tags, expanded), query_len),
                field_scores: Seq::empty(),
                details: seq![
                    DetailView::Tag { matched_tags: matched, total_tags: item_tags.len() },
                ],
                id: index,
            },
        )
    }
}

/// The expansion that a search uses: through the tree where there is one
/// and the options give a depth, else the tags of the query alone.
pub open spec fn expansion_for(
    trt: Option<TagRelationshipTree>,
    depth: Option<usize>,
    tags: Seq<Seq<char>>,
) -> Map<Seq<char>, Score> {
    if trt is Some && depth is Some {
        spec_expand(trt->0@, tags, depth->0 as nat)
    } else {
        seeded(tags)
    }
}

/// For each record, its match if the record passes the filter.
pub open spec fn tag_pick<T>(
    records: Seq<Record<T>>,
    filters: Option<FilterExpr>,
    field: Seq<char>,
    expanded: Map<Seq<char>, Score>,
    query_len: nat,
) -> spec_fn(int) -> Option<MatchView<T>> {
    |i: int|
        if passes(filters, records[i].attrs) {
            tag_match(records[i], i as usize, field, expanded, query_len)
        } else {
            None
        }
}

/// What a tag search finds, before the items are cloned: the matches of the
/// records that pass the filter, by descending score, records of equal
/// score in their order.
pub open spec fn tag_results<T>(
    records: Seq<Record<T>>,
    filters: Option<FilterExpr>,
    field: Seq<char>,
    expanded: Map<Seq<char>, Score>,
    query_len: nat,
) -> Seq<MatchView<T>> {
    stable_sorted(gathered(records.len(), tag_pick(records, filters, field, expanded, query_len)))
}

/// The score of a record with `matched` known tags of total strength
/// `total`, for a query of `query_len` tags.
pub fn score_tags(matched: usize, total: Score, query_len: usize) -> (score: Score)
    ensures
        score == tag_score(matched as nat, total, query_len as nat),
{
    Score::from_ratio(matched, query_len).times(total.shared(matched))
}

impl TaggedSearch {
    /// A searcher that reads the tags under `tags`.
    pub fn new() -> (searcher: Self)
        ensures
            searcher.tag_field@ == "tags"@,
            searcher.trt is None,
    {
        TaggedSearch { tag_field: "tags".to_owned(), trt: None }
    }

    /// A searcher that reads the tags under `tag_field`.
    pub fn with_field(tag_field: &str) -> (searcher: Self)
        ensures
            searcher.tag_field@ == tag_field@,
            searcher.trt is None,
    {
        TaggedSearch { tag_field: tag_field.to_owned(), trt: None }
    }

    /// The searcher with a relationship tree to expand tags through.
    pub fn with_trt(self, trt: TagRelationshipTree) -> (searcher: Self)
        ensures
            searcher.tag_field == self.tag_field,
            searcher.trt == Some(trt),
    {
        let mut searcher = self;
        searcher.trt = Some(trt);
        searcher
    }

    /// The tags of a record.
    fn extract_tags(attrs: &AttrNode, field: &String) -> (tags: Vec<String>)
        ensures
            tags.deep_view() == item_tags_of(*attrs, field@),
    {
        match attrs.child(field) {
            Some(node) => node.strings(),
            None => {
                let tags: Vec<String> = Vec::new();
                assert(tags.deep_view() =~= Seq::<Seq<char>>::empty());
                tags
            },
        }
    }

    /// The expansion of the query's tags that a search uses.
    pub fn expansion(&self, depth: Option<usize>, query_tags: &Vec<String>) -> (expanded: StringHashMap<
        Score,
    >)
        ensures
            expanded@ == expansion_for(self.trt, depth, query_tags.deep_view()),
    {
        match (&self.trt, depth) {
            (Some(trt), Some(depth)) => trt.expand_tags(query_tags, depth),
            _ => seed_tags(query_tags),
        }
    }

    /// Matches one record against an expansion of the query's tags.
    pub fn match_expanded<T: Clone>(
        &self,
        record: &Record<T>,
        index: usize,
        expanded: &StringHashMap<Score>,
        query_len: usize,
    ) -> (found: Option<SearusMatch<T>>)
        ensures
            match found {
                Some(m) => {
                    let expected = tag_match(
                        *record,
                        index,
                        self.tag_field@,
                        expanded@,
                        query_len as nat,
                    );
                    expected is Some && copy_of(m@, expected->0)
                },
                None => tag_match(*record, index, self.tag_field@, expanded@, query_len as nat)
                    is None,
            },
    {
        let item_tags = Self::extract_tags(&record.attrs, &self.tag_field);
        let ghost all = item_tags.deep_view();
        let mut matched_tags: Vec<String> = Vec::new();
        let mut total = Score::zero();
        let mut i: usize = 0;
        assert(matched_tags.deep_view() =~= hits(all.take(0), expanded@));
        while i < item_tags.len()
            invariant
                i <= item_tags.len(),
                all == item_tags.deep_view(),
                matched_tags.deep_view() == hits(all.take(i as int), expanded@),
                total == hit_strength(all.take(i as int), expanded@),
            decreases item_tags.len() - i,
        {
            proof {
                assert(all.take(i + 1).drop_last() =~= all.take(i as int));
                assert(all.take(i + 1).last() == item_tags@[i as int]@);
            }
            let ghost before = matched_tags.deep_view();
            let lower = lowercase(item_tags[i].as_str());
            match expanded.get(lower.as_str()) {
                Some(strength) => {
                    matched_tags.push(item_tags[i].clone());
                    assert(matched_tags.deep_view() =~= before.push(item_tags@[i as int]@));
                    total = total.plus(*strength);
                },
                None => {},
            }
            i += 1;
        }
        assert(all.take(i as int) =~= all);
        if matched_tags.len() == 0 {
            return None;
        }
        let score = score_tags(matched_tags.len(), total, query_len);
        let detail = SearchDetail::Tag { matched_tags, total_tags: item_tags.len() };
        let mut details: Vec<SearchDetail> = Vec::new();
        details.push(detail);
        let m = SearusMatch {
            item: record.item.clone(),
            score,
            field_scores: FieldScores::new(),
            details,
            id: index,
        };
        proof {
            let expected = tag_match(*record, index, self.tag_field@, expanded@, query_len as nat);
            assert(m@.details =~= expected->0.details);
        }
        Some(m)
    }

    /// Matches one record against the tags of a query.
    ///
    /// A record matches if it has a tag that the expansion of the query's
    /// tags knows. Its score is the number of such tags over the number of
    /// tags in the query, times the mean strength of those tags.
    pub fn match_entity<T: Clone>(
        &self,
        record: &Record<T>,
        index: usize,
        query: &Query,
        query_tags: &Vec<String>,
    ) -> (found: Option<SearusMatch<T>>)
        ensures
            match found {
                Some(m) => {
                    let expected = tag_match(
                        *record,
                        index,
                        self.tag_field@,
                        expansion_for(self.trt, query.options.trt_depth, query_tags.deep_view()),
                        query_tags@.len(),
                    );
                    expected is Some && copy_of(m@, expected->0)
                },
                None => tag_match(
                    *record,
                    index,
                    self.tag_field@,
                    expansion_for(self.trt, query.options.trt_depth, query_tags.deep_view()),
                    query_tags@.len(),
                ) is None,
            },
    {
        let expanded = self.expansion(query.options.trt_depth, query_tags);
        self.match_expanded(record, index, &expanded, query_tags.len())
    }

    /// Sorts matches by descending score; matches of equal score keep their
    /// order.
    pub fn sort_results<T>(&self, results: &mut Vec<SearusMatch<T>>)
        ensures
            match_views(final(results)@) == stable_sorted(match_views(old(results)@)),
    {
        let mut taken: Vec<SearusMatch<T>> = Vec::new();
        taken.append(results);
        let mut sorted = sort_by_score(taken);
        results.append(&mut sorted);
    }

    /// The matches of the records that pass the query's filter, by
    /// descending score. Nothing is found without tags in the query.
    pub fn find<T: Clone>(&self, items: &[Record<T>], query: &Query) -> (results: Vec<SearusMatch<T>>)
        ensures
            forall|k: int| 0 <= k < results@.len() ==> (#[trigger] results@[k]).id < items@.len(),
            query.tags is None || query.tags->0@.len() == 0 ==> results@.len() == 0,
            query.tags is Some && query.tags->0@.len() > 0 ==> copies_of(
                match_views(results@),
                tag_results(
                    items@,
                    query.filters,
                    self.tag_field@,
                    expansion_for(self.trt, query.options.trt_depth, query.tags->0.deep_view()),
                    query.tags->0@.len(),
                ),
            ),
    {
        let query_tags = match &query.tags {
            Some(tags) => tags,
            None => {
                return Vec::new();
            },
        };
        if query_tags.len() == 0 {
            return Vec::new();
        }
        let expanded = self.expansion(query.options.trt_depth, query_tags);
        let ghost pick = tag_pick(
            items@,
            query.filters,
            self.tag_field@,
            expanded@,
            query_tags@.len() as nat,
        );
        let mut found: Vec<SearusMatch<T>> = Vec::new();
        let mut i: usize = 0;
        while i < items.len()
            invariant
                i <= items.len(),
                pick == tag_pick(
                    items@,
                    query.filters,
                    self.tag_field@,
                    expanded@,
                    query_tags@.len() as nat,
                ),
                copies_of(match_views(found@), gathered(i as nat, pick)),
            decreases items.len() - i,
        {
            let ghost before = match_views(found@);
            if let_through(&query.filters, &items[i].attrs) {
                match self.match_expanded(&items[i], i, &expanded, query_tags.len()) {
                    Some(m) => {
                        found.push(m);
                        assert(match_views(found@) =~= before.push(m@));
                    },
                    None => {},
                }
            }
            i += 1;
        }
        let ghost gathered_all = gathered(items@.len(), pick);
        let ghost unsorted = match_views(found@);
        let results = sort_by_score(found);
        proof {
            lemma_sorted_copies(unsorted, gathered_all);
            lemma_found_ids(match_views(results@), items@.len(), pick);
            assert forall|k: int| 0 <= k < results@.len() implies (#[trigger] results@[k]).id
                < items@.len() by {
                assert(match_views(results@)[k].id == results@[k].id);
            }
        }
        results
    }
}

impl Default for TaggedSearch {
    /// A searcher that reads the tags under `tags`.
    fn default() -> (searcher: Self)
        ensures
            searcher.tag_field@ == "tags"@,
            searcher.trt is None,
    {
        TaggedSearch::new()
    }
}

impl<T: Clone> Searcher<T> for TaggedSearch {
    /// The kind `Tags`.
    fn kind(&self) -> SearcherKind
        returns
            SearcherKind::Tags,
    {
        SearcherKind::Tags
    }

    /// What [`TaggedSearch::find`] finds among the records of the context.
    fn search(&self, context: &SearchContext<T>, query: &Query) -> (results: Vec<SearusMatch<T>>)
        ensures
            forall|k: int|
                0 <= k < results@.len() ==> (#[trigger] results@[k]).id < context.items@.len(),
            query.tags is None || query.tags->0@.len() == 0 ==> results@.len() == 0,
            query.tags is Some && query.tags->0@.len() > 0 ==> copies_of(
                match_views(results@),
                tag_results(
                    context.items@,
                    query.filters,
                    self.tag_field@,
                    expansion_for(self.trt, query.options.trt_depth, query.tags->0.deep_view()),
                    query.tags->0@.len(),
                ),
            ),
    {
        self.find(context.items, query)
    }
}

} // verus!
