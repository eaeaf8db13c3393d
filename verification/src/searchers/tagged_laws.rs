//! What holds of tag expansion on every graph.

use vstd::prelude::*;
use vstd::set_lib::{lemma_len_subset, lemma_len_union};
use crate::score::Score;
use crate::searchers::tagged::{
    edges_of, lemma_node_index, level_expanded, levels_expanded, node_index, relaxed, relaxed_all,
    seeded, sources_expanded, spec_expand, Expansion,
};
use crate::text::lowercase_of;

verus! {

/// The targets of the edges, in lowercase.
pub open spec fn targets_of(edges: Seq<(Seq<char>, Score)>) -> Seq<Seq<char>> {
    Seq::new(edges.len(), |j: int| lowercase_of(edges[j].0))
}

/// Every tag that the graph names: for each node its tag as stored,
/// followed by the targets of its edges in lowercase.
pub open spec fn vertex_seq(graph: Seq<(Seq<char>, Seq<(Seq<char>, Score)>)>) -> Seq<Seq<char>>
    decreases graph.len(),
{
    if graph.len() == 0 {
        Seq::empty()
    } else {
        vertex_seq(graph.drop_last()).push(graph.last().0) + targets_of(graph.last().1)
    }
}

/// The vertices of the graph: the set of the tags that it names.
pub open spec fn vertices(graph: Seq<(Seq<char>, Seq<(Seq<char>, Score)>)>) -> Set<Seq<char>> {
    vertex_seq(graph).to_set()
}

/// The tags of a query in lowercase.
pub open spec fn seed_seq(tags: Seq<Seq<char>>) -> Seq<Seq<char>> {
    Seq::new(tags.len(), |i: int| lowercase_of(tags[i]))
}

/// Whether the target of every edge of the graph is among `allowed`.
pub open spec fn targets_within(
    graph: Seq<(Seq<char>, Seq<(Seq<char>, Score)>)>,
    allowed: Set<Seq<char>>,
) -> bool {
    forall|k: int, j: int|
        0 <= k < graph.len() && 0 <= j < graph[k].1.len() ==> allowed.contains(
            lowercase_of(#[trigger] graph[k].1[j].0),
        )
}

/// The target of every edge is a vertex.
pub proof fn lemma_targets_are_vertices(graph: Seq<(Seq<char>, Seq<(Seq<char>, Score)>)>)
    ensures
        targets_within(graph, vertices(graph)),
    decreases graph.len(),
{
    if graph.len() > 0 {
        let shorter = graph.drop_last();
        lemma_targets_are_vertices(shorter);
        let front = vertex_seq(shorter).push(graph.last().0);
        let all = vertex_seq(graph);
        assert forall|k: int, j: int|
            0 <= k < graph.len() && 0 <= j < graph[k].1.len() implies vertices(graph).contains(
            lowercase_of(#[trigger] graph[k].1[j].0),
        ) by {
            let target = lowercase_of(graph[k].1[j].0);
            if k < shorter.len() {
                assert(shorter[k] == graph[k]);
                assert(vertices(shorter).contains(lowercase_of(shorter[k].1[j].0)));
                let at = choose|at: int|
                    0 <= at < vertex_seq(shorter).len() && vertex_seq(shorter)[at] == target;
                assert(all[at] == target);
            } else {
                assert(targets_of(graph.last().1)[j] == target);
                assert(all[front.len() + j] == target);
            }
        }
    }
}

/// Following an edge to an allowed target keeps the strengths within the
/// allowed tags.
pub proof fn lemma_relaxed_within(
    state: Expansion,
    strength: Score,
    edge: (Seq<char>, Score),
    allowed: Set<Seq<char>>,
)
    requires
        state.strengths.dom().subset_of(allowed),
        allowed.contains(lowercase_of(edge.0)),
    ensures
        relaxed(state, strength, edge).strengths.dom().subset_of(allowed),
{
}

/// Following edges to allowed targets keeps the strengths within the
/// allowed tags.
pub proof fn lemma_relaxed_all_within(
    state: Expansion,
    strength: Score,
    edges: Seq<(Seq<char>, Score)>,
    allowed: Set<Seq<char>>,
)
    requires
        state.strengths.dom().subset_of(allowed),
        forall|j: int| 0 <= j < edges.len() ==> allowed.contains(lowercase_of(#[trigger] edges[j].0)),
    ensures
        relaxed_all(state, strength, edges).strengths.dom().subset_of(allowed),
    decreases edges.len(),
{
    if edges.len() > 0 {
        let shorter = edges.drop_last();
        assert forall|j: int| 0 <= j < shorter.len() implies allowed.contains(
            lowercase_of(#[trigger] shorter[j].0),
        ) by {
            assert(shorter[j] == edges[j]);
        }
        lemma_relaxed_all_within(state, strength, shorter, allowed);
        assert(allowed.contains(lowercase_of(edges[edges.len() - 1].0)));
        lemma_relaxed_within(relaxed_all(state, strength, shorter), strength, edges.last(), allowed);
    }
}

/// Expanding a level keeps the strengths within the allowed tags.
pub proof fn lemma_level_within(
    graph: Seq<(Seq<char>, Seq<(Seq<char>, Score)>)>,
    state: Expansion,
    level: Seq<(Seq<char>, Score)>,
    allowed: Set<Seq<char>>,
)
    requires
        state.strengths.dom().subset_of(allowed),
        targets_within(graph, allowed),
    ensures
        level_expanded(graph, state, level).strengths.dom().subset_of(allowed),
    decreases level.len(),
{
    if level.len() > 0 {
        lemma_level_within(graph, state, level.drop_last(), allowed);
        let tag = level.last().0;
        lemma_node_index(graph, tag);
        let edges = edges_of(graph, tag);
        let at = node_index(graph, tag);
        assert forall|j: int| 0 <= j < edges.len() implies allowed.contains(
            lowercase_of(#[trigger] edges[j].0),
        ) by {
            assert(allowed.contains(lowercase_of(graph[at].1[j].0)));
        }
        lemma_relaxed_all_within(
            level_expanded(graph, state, level.drop_last()),
            level.last().1,
            edges,
            allowed,
        );
    }
}

/// Expanding levels keeps the strengths within the allowed tags.
pub proof fn lemma_levels_within(
    graph: Seq<(Seq<char>, Seq<(Seq<char>, Score)>)>,
    strengths: Map<Seq<char>, Score>,
    visited: Set<Seq<char>>,
    level: Seq<(Seq<char>, Score)>,
    depth: nat,
    allowed: Set<Seq<char>>,
)
    requires
        strengths.dom().subset_of(allowed),
        targets_within(graph, allowed),
    ensures
        levels_expanded(graph, strengths, visited, level, depth).dom().subset_of(allowed),
    decreases depth,
{
    if depth > 0 {
        let start = Expansion { strengths, visited, next: Seq::empty() };
        lemma_level_within(graph, start, level, allowed);
        let after = level_expanded(graph, start, level);
        lemma_levels_within(
            graph,
            after.strengths,
            after.visited,
            after.next,
            (depth - 1) as nat,
            allowed,
        );
    }
}

/// The traversals from all tags keep the strengths within the allowed tags.
pub proof fn lemma_sources_within(
    graph: Seq<(Seq<char>, Seq<(Seq<char>, Score)>)>,
    strengths: Map<Seq<char>, Score>,
    tags: Seq<Seq<char>>,
    depth: nat,
    allowed: Set<Seq<char>>,
)
    requires
        strengths.dom().subset_of(allowed),
        targets_within(graph, allowed),
    ensures
        sources_expanded(graph, strengths, tags, depth).dom().subset_of(allowed),
    decreases tags.len(),
{
    if tags.len() > 0 {
        lemma_sources_within(graph, strengths, tags.drop_last(), depth, allowed);
        let source = lowercase_of(tags.last());
        lemma_levels_within(
            graph,
            sources_expanded(graph, strengths, tags.drop_last(), depth),
            Set::empty().insert(source),
            seq![(source, Score { micros: 1_000_000 })],
            depth,
            allowed,
        );
    }
}

/// The seeds are the tags of the query in lowercase, each with strength 1.
pub proof fn lemma_seeded(tags: Seq<Seq<char>>)
    ensures
        seeded(tags).dom() =~= seed_seq(tags).to_set(),
        forall|tag: Seq<char>| #[trigger]
            seeded(tags).contains_key(tag) ==> seeded(tags)[tag].micros == 1_000_000,
    decreases tags.len(),
{
    if tags.len() > 0 {
        let shorter = tags.drop_last();
        lemma_seeded(shorter);
        let last = lowercase_of(tags.last());
        assert forall|tag: Seq<char>|
            seeded(tags).dom().contains(tag) <==> seed_seq(tags).to_set().contains(tag) by {
            if seed_seq(shorter).contains(tag) {
                let i = choose|i: int| 0 <= i < seed_seq(shorter).len() && seed_seq(shorter)[i] == tag;
                assert(seed_seq(tags)[i] == tag);
            }
            if tag == last {
                assert(seed_seq(tags)[tags.len() - 1] == tag);
            }
            if seed_seq(tags).contains(tag) {
                let i = choose|i: int| 0 <= i < seed_seq(tags).len() && seed_seq(tags)[i] == tag;
                if i < shorter.len() {
                    assert(seed_seq(shorter)[i] == tag);
                }
            }
        }
    }
}

/// Expansion reaches no tag but the tags of the query and the vertices of
/// the graph. So the expansion is finite, whatever the depth and whatever
/// cycles the graph has, and it has at most as many tags as the query has
/// tags and the graph has vertices together.
pub proof fn law_expansion_is_bounded(
    graph: Seq<(Seq<char>, Seq<(Seq<char>, Score)>)>,
    tags: Seq<Seq<char>>,
    depth: nat,
)
    ensures
        spec_expand(graph, tags, depth).dom().subset_of(
            seed_seq(tags).to_set().union(vertices(graph)),
        ),
        spec_expand(graph, tags, depth).dom().finite(),
        spec_expand(graph, tags, depth).len() <= tags.len() + vertices(graph).len(),
        vertices(graph).len() <= vertex_seq(graph).len(),
{
    broadcast use vstd::seq_lib::seq_to_set_is_finite;

    let seeds = seed_seq(tags).to_set();
    let allowed = seeds.union(vertices(graph));
    lemma_seeded(tags);
    lemma_targets_are_vertices(graph);
    assert(targets_within(graph, allowed));
    assert(seeded(tags).dom().subset_of(allowed));
    if depth == 0 || graph.len() == 0 {
    } else {
        lemma_sources_within(graph, seeded(tags), tags, depth, allowed);
    }
    seed_seq(tags).lemma_cardinality_of_set();
    vertex_seq(graph).lemma_cardinality_of_set();
    lemma_len_union(seeds, vertices(graph));
    lemma_len_subset(spec_expand(graph, tags, depth).dom(), allowed);
}

/// Whether no edge of the graph has a strength above 1.
pub open spec fn edges_at_most_one(graph: Seq<(Seq<char>, Seq<(Seq<char>, Score)>)>) -> bool {
    forall|k: int, j: int|
        0 <= k < graph.len() && 0 <= j < graph[k].1.len() ==> (#[trigger] graph[k].1[j]).1.micros
            <= 1_000_000
}

/// Whether no strength is above 1, and every tag among `seeds` has
/// strength 1.
pub open spec fn strengths_sound(strengths: Map<Seq<char>, Score>, seeds: Set<Seq<char>>) -> bool {
    &&& forall|tag: Seq<char>| #[trigger]
        strengths.contains_key(tag) ==> strengths[tag].micros <= 1_000_000
    &&& forall|tag: Seq<char>| #[trigger]
        seeds.contains(tag) ==> strengths.contains_key(tag) && strengths[tag].micros == 1_000_000
}

/// Whether no tag of the level has a strength above 1.
pub open spec fn level_at_most_one(level: Seq<(Seq<char>, Score)>) -> bool {
    forall|i: int| 0 <= i < level.len() ==> (#[trigger] level[i]).1.micros <= 1_000_000
}

/// Following an edge of strength at most 1 from a tag of strength at most 1
/// keeps the strengths sound.
pub proof fn lemma_relaxed_sound(
    state: Expansion,
    strength: Score,
    edge: (Seq<char>, Score),
    seeds: Set<Seq<char>>,
)
    requires
        strengths_sound(state.strengths, seeds),
        level_at_most_one(state.next),
        strength.micros <= 1_000_000,
        edge.1.micros <= 1_000_000,
    ensures
        strengths_sound(relaxed(state, strength, edge).strengths, seeds),
        level_at_most_one(relaxed(state, strength, edge).next),
{
    let reached = strength.spec_times(edge.1);
    assert(reached.micros <= 1_000_000) by {
        let a = strength.micros as int;
        let b = edge.1.micros as int;
        assert(a * b / 1_000_000 <= 1_000_000) by (nonlinear_arith)
            requires
                0 <= a <= 1_000_000,
                0 <= b <= 1_000_000,
        ;
        assert(a * b >= 0) by (nonlinear_arith)
            requires
                0 <= a,
                0 <= b,
        ;
    }
    let after = relaxed(state, strength, edge);
    let target = lowercase_of(edge.0);
    assert forall|tag: Seq<char>| #[trigger] after.strengths.contains_key(tag) implies after.strengths[tag].micros
        <= 1_000_000 by {
        if tag != target {
            assert(state.strengths.contains_key(tag));
            assert(state.strengths[tag].micros <= 1_000_000);
        } else if state.strengths.contains_key(target) {
            assert(state.strengths[target].micros <= 1_000_000);
        }
    }
    assert forall|tag: Seq<char>| #[trigger] seeds.contains(tag) implies after.strengths.contains_key(
        tag,
    ) && after.strengths[tag].micros == 1_000_000 by {
        assert(state.strengths.contains_key(tag) && state.strengths[tag].micros == 1_000_000);
    }
    assert forall|i: int| 0 <= i < after.next.len() implies (#[trigger] after.next[i]).1.micros
        <= 1_000_000 by {
        if i < state.next.len() {
            assert(state.next[i].1.micros <= 1_000_000);
        }
    }
}

/// Following edges of strength at most 1 keeps the strengths sound.
pub proof fn lemma_relaxed_all_sound(
    state: Expansion,
    strength: Score,
    edges: Seq<(Seq<char>, Score)>,
    seeds: Set<Seq<char>>,
)
    requires
        strengths_sound(state.strengths, seeds),
        level_at_most_one(state.next),
        strength.micros <= 1_000_000,
        forall|j: int| 0 <= j < edges.len() ==> (#[trigger] edges[j]).1.micros <= 1_000_000,
    ensures
        strengths_sound(relaxed_all(state, strength, edges).strengths, seeds),
        level_at_most_one(relaxed_all(state, strength, edges).next),
    decreases edges.len(),
{
    if edges.len() > 0 {
        let shorter = edges.drop_last();
        assert forall|j: int| 0 <= j < shorter.len() implies (#[trigger] shorter[j]).1.micros
            <= 1_000_000 by {
            assert(shorter[j] == edges[j]);
        }
        lemma_relaxed_all_sound(state, strength, shorter, seeds);
        assert(edges[edges.len() - 1].1.micros <= 1_000_000);
        lemma_relaxed_sound(relaxed_all(state, strength, shorter), strength, edges.last(), seeds);
    }
}

/// Expanding a level keeps the strengths sound.
pub proof fn lemma_level_sound(
    graph: Seq<(Seq<char>, Seq<(Seq<char>, Score)>)>,
    state: Expansion,
    level: Seq<(Seq<char>, Score)>,
    seeds: Set<Seq<char>>,
)
    requires
        edges_at_most_one(graph),
        strengths_sound(state.strengths, seeds),
        level_at_most_one(state.next),
        level_at_most_one(level),
    ensures
        strengths_sound(level_expanded(graph, state, level).strengths, seeds),
        level_at_most_one(level_expanded(graph, state, level).next),
    decreases level.len(),
{
    if level.len() > 0 {
        let shorter = level.drop_last();
        assert forall|i: int| 0 <= i < shorter.len() implies (#[trigger] shorter[i]).1.micros
            <= 1_000_000 by {
            assert(shorter[i] == level[i]);
        }
        lemma_level_sound(graph, state, shorter, seeds);
        let tag = level.last().0;
        lemma_node_index(graph, tag);
        let edges = edges_of(graph, tag);
        let at = node_index(graph, tag);
        assert forall|j: int| 0 <= j < edges.len() implies (#[trigger] edges[j]).1.micros
            <= 1_000_000 by {
            assert(graph[at].1[j].1.micros <= 1_000_000);
        }
        assert(level[level.len() - 1].1.micros <= 1_000_000);
        lemma_relaxed_all_sound(
            level_expanded(graph, state, shorter),
            level.last().1,
            edges,
            seeds,
        );
    }
}

/// Expanding levels keeps the strengths sound.
pub proof fn lemma_levels_sound(
    graph: Seq<(Seq<char>, Seq<(Seq<char>, Score)>)>,
    strengths: Map<Seq<char>, Score>,
    visited: Set<Seq<char>>,
    level: Seq<(Seq<char>, Score)>,
    depth: nat,
    seeds: Set<Seq<char>>,
)
    requires
        edges_at_most_one(graph),
        strengths_sound(strengths, seeds),
        level_at_most_one(level),
    ensures
        strengths_sound(levels_expanded(graph, strengths, visited, level, depth), seeds),
    decreases depth,
{
    if depth > 0 {
        let start = Expansion { strengths, visited, next: Seq::empty() };
        lemma_level_sound(graph, start, level, seeds);
        let after = level_expanded(graph, start, level);
        lemma_levels_sound(graph, after.strengths, after.visited, after.next, (depth - 1) as nat, seeds);
    }
}

/// The traversals from all tags keep the strengths sound.
pub proof fn lemma_sources_sound(
    graph: Seq<(Seq<char>, Seq<(Seq<char>, Score)>)>,
    strengths: Map<Seq<char>, Score>,
    tags: Seq<Seq<char>>,
    depth: nat,
    seeds: Set<Seq<char>>,
)
    requires
        edges_at_most_one(graph),
        strengths_sound(strengths, seeds),
    ensures
        strengths_sound(sources_expanded(graph, strengths, tags, depth), seeds),
    decreases tags.len(),
{
    if tags.len() > 0 {
        lemma_sources_sound(graph, strengths, tags.drop_last(), depth, seeds);
        let source = lowercase_of(tags.last());
        let level = seq![(source, Score { micros: 1_000_000 })];
        assert(level_at_most_one(level));
        lemma_levels_sound(
            graph,
            sources_expanded(graph, strengths, tags.drop_last(), depth),
            Set::empty().insert(source),
            level,
            depth,
            seeds,
        );
    }
}

/// In a graph whose edges have strengths of at most 1, expansion gives no
/// tag a strength above 1, and the tags of the query keep strength 1: no
/// path back to a tag of the query, however strong, raises it.
pub proof fn law_strengths_are_bounded(
    graph: Seq<(Seq<char>, Seq<(Seq<char>, Score)>)>,
    tags: Seq<Seq<char>>,
    depth: nat,
)
    requires
        edges_at_most_one(graph),
    ensures
        forall|tag: Seq<char>| #[trigger]
            spec_expand(graph, tags, depth).contains_key(tag) ==> spec_expand(
                graph,
                tags,
                depth,
            )[tag].micros <= 1_000_000,
        forall|i: int|
            0 <= i < tags.len() ==> spec_expand(graph, tags, depth).contains_key(
                lowercase_of(#[trigger] tags[i]),
            ) && spec_expand(graph, tags, depth)[lowercase_of(tags[i])].micros == 1_000_000,
{
    let seeds = seed_seq(tags).to_set();
    lemma_seeded(tags);
    assert(strengths_sound(seeded(tags), seeds)) by {
        assert forall|tag: Seq<char>| seeds.contains(tag) implies seeded(tags).contains_key(tag) by {
            assert(seeded(tags).dom().contains(tag));
        }
    }
    if depth == 0 || graph.len() == 0 {
    } else {
        lemma_sources_sound(graph, seeded(tags), tags, depth, seeds);
    }
    assert forall|i: int| 0 <= i < tags.len() implies seeds.contains(
        lowercase_of(#[trigger] tags[i]),
    ) by {
        assert(seed_seq(tags)[i] == lowercase_of(tags[i]));
    }
}

} // verus!
