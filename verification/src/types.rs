//! Data contracts shared by the engine and the searchers.

use vstd::prelude::*;
use crate::attr::AttrNode;
use crate::field_scores::FieldScores;
use crate::filter::FilterExpr;
use crate::score::Score;

verus! {

/// Marks the types that can stand as the payload of a record. Every type
/// can.
pub trait Searchable {

}

impl<T> Searchable for T {

}

/// A record under search: the caller's item with the attribute tree through
/// which searchers and filters inspect it.
///
/// A record has no identity of its own. Within one search it is identified
/// by its index in the slice that was searched.
#[derive(Clone, Debug)]
pub struct Record<T> {
    pub item: T,
    pub attrs: AttrNode,
}

impl<T> Record<T> {
    /// The record of an item with its attribute tree.
    pub fn new(item: T, attrs: AttrNode) -> (record: Self)
        ensures
            record.item == item,
            record.attrs == attrs,
    {
        Record { item, attrs }
    }
}

/// The attribute trees of a sequence of records, in order.
pub open spec fn trees<T>(records: Seq<Record<T>>) -> Seq<AttrNode> {
    Seq::new(records.len(), |i: int| records[i].attrs)
}

/// The kinds of searcher an engine can hold.
#[derive(Clone, Copy, Debug, PartialEq, Eq, Hash, Structural)]
pub enum SearcherKind {
    Semantic,
    Vector,
    Tags,
    Image,
    Fuzzy,
    Range,
    Geospatial,
    Custom,
}

/// What one searcher found in a record.
#[derive(Clone, Debug)]
pub enum SearchDetail {
    /// Terms of the query found in the record's text.
    Semantic { matched_terms: Vec<String>, field: String, weight: Score },
    /// Distance and similarity of two vectors.
    Vector { distance: Score, similarity: Score },
    /// Tags of the record that the query asked for.
    Tag { matched_tags: Vec<String>, total_tags: usize },
    /// The closest pair of a query term and a term of the record.
    Fuzzy { matched_term: String, original_term: String, similarity: Score },
    /// Similarity of two images.
    Image { similarity: Score },
}

/// A [`SearchDetail`] as a mathematical value.
pub enum DetailView {
    Semantic { matched_terms: Seq<Seq<char>>, field: Seq<char>, weight: Score },
    Vector { distance: Score, similarity: Score },
    Tag { matched_tags: Seq<Seq<char>>, total_tags: nat },
    Fuzzy { matched_term: Seq<char>, original_term: Seq<char>, similarity: Score },
    Image { similarity: Score },
}

impl View for SearchDetail {
    type V = DetailView;

    open spec fn view(&self) -> DetailView {
        match *self {
            SearchDetail::Semantic { matched_terms, field, weight } => DetailView::Semantic {
                matched_terms: matched_terms.deep_view(),
                field: field@,
                weight,
            },
            SearchDetail::Vector { distance, similarity } => DetailView::Vector {
                distance,
                similarity,
            },
            SearchDetail::Tag { matched_tags, total_tags } => DetailView::Tag {
                matched_tags: matched_tags.deep_view(),
                total_tags: total_tags as nat,
            },
            SearchDetail::Fuzzy { matched_term, original_term, similarity } => DetailView::Fuzzy {
                matched_term: matched_term@,
                original_term: original_term@,
                similarity,
            },
            SearchDetail::Image { similarity } => DetailView::Image { similarity },
        }
    }
}

/// The views of a sequence of details, in order.
pub open spec fn detail_views(details: Seq<SearchDetail>) -> Seq<DetailView> {
    Seq::new(details.len(), |i: int| details[i]@)
}

/// A scored record, with the evidence for its score.
///
/// `id` is the index of the record in the slice that was searched, and
/// `item` is that record's item.
#[derive(Clone, Debug)]
pub struct SearusMatch<T> {
    pub item: T,
    pub score: Score,
    pub field_scores: FieldScores,
    pub details: Vec<SearchDetail>,
    pub id: usize,
}

/// A [`SearusMatch`] as a mathematical value.
pub struct MatchView<T> {
    pub item: T,
    pub score: Score,
    pub field_scores: Seq<(Seq<char>, Score)>,
    pub details: Seq<DetailView>,
    pub id: usize,
}

impl<T> View for SearusMatch<T> {
    type V = MatchView<T>;

    open spec fn view(&self) -> MatchView<T> {
        MatchView {
            item: self.item,
            score: self.score,
            field_scores: self.field_scores@,
            details: detail_views(self.details@),
            id: self.id,
        }
    }
}

/// The views of a sequence of matches, in order.
pub open spec fn match_views<T>(matches: Seq<SearusMatch<T>>) -> Seq<MatchView<T>> {
    Seq::new(matches.len(), |i: int| matches[i]@)
}

/// Whether `found` is `expected` with a clone of the item in place of the
/// item.
pub open spec fn copy_of<T: Clone>(found: MatchView<T>, expected: MatchView<T>) -> bool {
    &&& cloned(expected.item, found.item)
    &&& found.score == expected.score
    &&& found.field_scores == expected.field_scores
    &&& found.details == expected.details
    &&& found.id == expected.id
}

/// Whether the matches of `found` are those of `expected`, in order, each
/// with a clone of the item in place of the item.
pub open spec fn copies_of<T: Clone>(found: Seq<MatchView<T>>, expected: Seq<MatchView<T>>) -> bool {
    &&& found.len() == expected.len()
    &&& forall|k: int| 0 <= k < found.len() ==> copy_of(#[trigger] found[k], expected[k])
}

/// The matches that `pick` gives for the indices below `count`, in
/// ascending order of the index.
pub open spec fn gathered<T>(count: nat, pick: spec_fn(int) -> Option<MatchView<T>>) -> Seq<
    MatchView<T>,
>
    decreases count,
{
    if count == 0 {
        Seq::empty()
    } else {
        let front = gathered((count - 1) as nat, pick);
        match pick(count - 1) {
            Some(m) => front.push(m),
            None => front,
        }
    }
}

impl<T> SearusMatch<T> {
    /// A match with no field scores and no details.
    pub fn new(item: T, score: Score, id: usize) -> (m: Self)
        ensures
            m@ == (MatchView {
                item,
                score,
                field_scores: Seq::<(Seq<char>, Score)>::empty(),
                details: Seq::<DetailView>::empty(),
                id,
            }),
    {
        let m = SearusMatch { item, score, field_scores: FieldScores::new(), details: Vec::new(), id };
        assert(m@.details =~= Seq::<DetailView>::empty());
        m
    }

    /// The match with `score` put under `field`.
    pub fn with_field_score(self, field: &str, score: Score) -> (m: Self)
        ensures
            m@ == (MatchView {
                field_scores: crate::field_scores::with_score(self@.field_scores, field@, score),
                ..self@
            }),
    {
        let mut m = self;
        m.field_scores.set(field.to_owned(), score);
        m
    }

    /// The match with one more detail at the end.
    pub fn with_detail(self, detail: SearchDetail) -> (m: Self)
        ensures
            m@ == (MatchView { details: self@.details.push(detail@), ..self@ }),
    {
        let mut m = self;
        m.details.push(detail);
        assert(m@.details =~= self@.details.push(detail@));
        m
    }
}

/// Image data of a query.
#[derive(Clone, Debug)]
pub struct ImageData {
    pub bytes: Vec<u8>,
    pub mime_type: Option<String>,
    pub width: Option<u32>,
    pub height: Option<u32>,
}

/// The default page size.
pub fn default_limit() -> (limit: usize)
    ensures
        limit == 20,
{
    20
}

/// Pagination, weights and expansion depth of a search.
#[derive(Clone, Debug)]
pub struct SearchOptions {
    /// How many of the best results to leave out.
    pub skip: usize,
    /// How many results to return at most.
    pub limit: usize,
    /// A time budget in milliseconds, handed on to searchers and not
    /// enforced.
    pub timeout_ms: u64,
    /// Weights by kind of searcher; the last entry of a kind counts.
    pub weights: Vec<(SearcherKind, Score)>,
    /// How far tags are expanded through a relationship tree, if at all.
    pub trt_depth: Option<usize>,
}

/// The weight of `kind`: that of its last entry, or 1 where it has none.
pub open spec fn spec_weight(weights: Seq<(SearcherKind, Score)>, kind: SearcherKind) -> Score
    decreases weights.len(),
{
    if weights.len() == 0 {
        Score { micros: 1_000_000 }
    } else if weights.last().0 == kind {
        weights.last().1
    } else {
        spec_weight(weights.drop_last(), kind)
    }
}

impl Default for SearchOptions {
    /// No skip, a limit of 20, no time budget, no weights and no expansion.
    fn default() -> (options: Self)
        ensures
            options.skip == 0,
            options.limit == 20,
            options.timeout_ms == 0,
            options.weights@.len() == 0,
            options.trt_depth is None,
            forall|kind: SearcherKind| (#[trigger] options.weight_of(kind)).micros == 1_000_000,
    {
        SearchOptions {
            skip: 0,
            limit: default_limit(),
            timeout_ms: 0,
            weights: Vec::new(),
            trt_depth: None,
        }
    }
}

impl SearchOptions {
    /// The options with another number of results to leave out.
    pub fn skip(self, skip: usize) -> (options: Self)
        ensures
            options == (SearchOptions { skip, ..self }),
    {
        let mut options = self;
        options.skip = skip;
        options
    }

    /// The options with another page size.
    pub fn limit(self, limit: usize) -> (options: Self)
        ensures
            options == (SearchOptions { limit, ..self }),
    {
        let mut options = self;
        options.limit = limit;
        options
    }

    /// The options with another time budget.
    pub fn timeout_ms(self, timeout_ms: u64) -> (options: Self)
        ensures
            options == (SearchOptions { timeout_ms, ..self }),
    {
        let mut options = self;
        options.timeout_ms = timeout_ms;
        options
    }

    /// Sets the weight of a kind of searcher.
    pub fn weight(self, kind: SearcherKind, weight: Score) -> (options: Self)
        ensures
            options.weights@ == self.weights@.push((kind, weight)),
            options.skip == self.skip,
            options.limit == self.limit,
            options.timeout_ms == self.timeout_ms,
            options.trt_depth == self.trt_depth,
            options.weight_of(kind) == weight,
            forall|other: SearcherKind|
                other != kind ==> #[trigger] options.weight_of(other) == self.weight_of(other),
    {
        let mut options = self;
        options.weights.push((kind, weight));
        assert(options.weights@.drop_last() =~= self.weights@);
        options
    }

    /// Sets how far tags are expanded through a relationship tree.
    pub fn trt_depth(self, depth: usize) -> (options: Self)
        ensures
            options == (SearchOptions { trt_depth: Some(depth), ..self }),
    {
        let mut options = self;
        options.trt_depth = Some(depth);
        options
    }

    /// The weight of `kind`.
    pub open spec fn weight_of(self, kind: SearcherKind) -> Score {
        spec_weight(self.weights@, kind)
    }

    /// The weight of `kind`: that of its last entry, or 1 where it has none.
    pub fn weight_for(&self, kind: SearcherKind) -> (weight: Score)
        ensures
            weight == self.weight_of(kind),
    {
        let mut i: usize = self.weights.len();
        assert(self.weights@.take(i as int) =~= self.weights@);
        while i > 0
            invariant
                i <= self.weights.len(),
                spec_weight(self.weights@, kind) == spec_weight(self.weights@.take(i as int), kind),
            decreases i,
        {
            let ghost upto = self.weights@.take(i as int);
            assert(upto.drop_last() =~= self.weights@.take(i - 1));
            assert(upto.last() == self.weights@[i - 1]);
            i -= 1;
            if self.weights[i].0 == kind {
                return self.weights[i].1;
            }
        }
        Score::one()
    }
}

/// A search query. Every part is optional; a searcher reads the parts it
/// understands.
#[derive(Clone, Debug)]
pub struct Query {
    /// Free text.
    pub text: Option<String>,
    /// An embedding vector, each component an IEEE 754 binary32 bit pattern.
    pub vector: Option<Vec<u32>>,
    /// Tags to look for.
    pub tags: Option<Vec<String>>,
    /// An image.
    pub image: Option<ImageData>,
    /// A filter that a record must pass to be scored.
    pub filters: Option<FilterExpr>,
    pub options: SearchOptions,
}

impl Default for Query {
    /// A query with no parts and the default options.
    fn default() -> (query: Self)
        ensures
            query.text is None,
            query.vector is None,
            query.tags is None,
            query.image is None,
            query.filters is None,
            query.options.skip == 0,
            query.options.limit == 20,
            query.options.weights@.len() == 0,
            query.options.trt_depth is None,
    {
        Query {
            text: None,
            vector: None,
            tags: None,
            image: None,
            filters: None,
            options: SearchOptions::default(),
        }
    }
}

impl Query {
    /// A builder of a query with no parts and the default options.
    pub fn builder() -> (builder: QueryBuilder)
        ensures
            builder.text is None,
            builder.vector is None,
            builder.tags is None,
            builder.image is None,
            builder.filters is None,
            builder.options.skip == 0,
            builder.options.limit == 20,
            builder.options.weights@.len() == 0,
            builder.options.trt_depth is None,
    {
        QueryBuilder {
            text: None,
            vector: None,
            tags: None,
            image: None,
            filters: None,
            options: SearchOptions::default(),
        }
    }
}

/// Builds a [`Query`] part by part.
#[derive(Debug)]
pub struct QueryBuilder {
    pub text: Option<String>,
    pub vector: Option<Vec<u32>>,
    pub tags: Option<Vec<String>>,
    pub image: Option<ImageData>,
    pub filters: Option<FilterExpr>,
    pub options: SearchOptions,
}

impl QueryBuilder {
    /// Sets the text of the query.
    pub fn text(self, text: &str) -> (builder: Self)
        ensures
            builder.text is Some,
            builder.text->0@ == text@,
            builder.vector == self.vector,
            builder.tags == self.tags,
            builder.image == self.image,
            builder.filters == self.filters,
            builder.options == self.options,
    {
        let mut builder = self;
        builder.text = Some(text.to_owned());
        builder
    }

    /// Sets the vector of the query.
    pub fn vector(self, vector: Vec<u32>) -> (builder: Self)
        ensures
            builder == (QueryBuilder { vector: Some(vector), ..self }),
    {
        let mut builder = self;
        builder.vector = Some(vector);
        builder
    }

    /// Sets the tags of the query.
    pub fn tags(self, tags: Vec<String>) -> (builder: Self)
        ensures
            builder == (QueryBuilder { tags: Some(tags), ..self }),
    {
        let mut builder = self;
        builder.tags = Some(tags);
        builder
    }

    /// Sets the image of the query.
    pub fn image(self, image: ImageData) -> (builder: Self)
        ensures
            builder == (QueryBuilder { image: Some(image), ..self }),
    {
        let mut builder = self;
        builder.image = Some(image);
        builder
    }

    /// Sets the filter of the query.
    pub fn filters(self, filters: FilterExpr) -> (builder: Self)
        ensures
            builder == (QueryBuilder { filters: Some(filters), ..self }),
    {
        let mut builder = self;
        builder.filters = Some(filters);
        builder
    }

    /// Sets the options of the query.
    pub fn options(self, options: SearchOptions) -> (builder: Self)
        ensures
            builder == (QueryBuilder { options, ..self }),
    {
        let mut builder = self;
        builder.options = options;
        builder
    }

    /// The query.
    pub fn build(self) -> (query: Query)
        ensures
            query.text == self.text,
            query.vector == self.vector,
            query.tags == self.tags,
            query.image == self.image,
            query.filters == self.filters,
            query.options == self.options,
    {
        Query {
            text: self.text,
            vector: self.vector,
            tags: self.tags,
            image: self.image,
            filters: self.filters,
            options: self.options,
        }
    }
}

} // verus!
