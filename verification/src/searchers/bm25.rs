//! BM25 relevance scoring in fixed point.

use vstd::prelude::*;
use vstd::hash_map::StringHashMap;
use crate::score::{score_of, Score};

verus! {

// ---------------------------------------------------------------------
// The natural logarithm of a ratio
// ---------------------------------------------------------------------
/// How often `den` can be doubled without exceeding `num`, and `den` after
/// that many doublings.
pub open spec fn reduced(num: int, den: int) -> (nat, int)
    decreases num - den,
{
    if den >= 1 && 2 * den <= num {
        let further = reduced(num, 2 * den);
        ((further.0 + 1) as nat, further.1)
    } else {
        (0, den)
    }
}

/// The sum of `power / (2k + 1)` over `k` from `from` up to `terms`, where
/// each power is the one before times `square`, in units of 10^-12.
pub open spec fn odd_series(power: int, square: int, from: nat, terms: nat) -> int
    decreases terms - from,
{
    if from >= terms {
        0
    } else {
        power / ((2 * from + 1) as int) + odd_series(
            power * square / 1_000_000_000_000,
            square,
            from + 1,
            terms,
        )
    }
}

/// The natural logarithm of `num / den` for `den <= num < 2 den`, in units
/// of 10^-12: eight terms of `2 (t + t^3 / 3 + t^5 / 5 + ...)` with
/// `t = (num - den) / (num + den)`, each division rounded down.
pub open spec fn ln_near_one(num: int, den: int) -> int {
    let t = (num - den) * 1_000_000_000_000 / (num + den);
    2 * odd_series(t, t * t / 1_000_000_000_000, 0, 8)
}

/// The natural logarithm of `num / den` in millionths, rounded down; zero
/// where the ratio is at most 1 or `den` is zero.
///
/// The ratio is written as `2^e m` with `1 <= m < 2`; its logarithm is
/// `e ln 2 + ln m`, with `ln 2` taken as 0.693147180559.
pub open spec fn spec_ln(num: nat, den: nat) -> Score {
    if den == 0 || num <= den {
        Score { micros: 0 }
    } else {
        let (e, m) = reduced(num as int, den as int);
        score_of((e * 693_147_180_559 + ln_near_one(num as int, m)) / 1_000_000)
    }
}

/// No sum of the series is negative where its first power and the square
/// are not.
pub proof fn lemma_odd_series_sign(power: int, square: int, from: nat, terms: nat)
    requires
        power >= 0,
        square >= 0,
    ensures
        odd_series(power, square, from, terms) >= 0,
    decreases terms - from,
{
    if from < terms {
        let next = power * square / 1_000_000_000_000;
        assert(next >= 0) by (nonlinear_arith)
            requires
                power >= 0,
                square >= 0,
                next == power * square / 1_000_000_000_000,
        ;
        lemma_odd_series_sign(next, square, from + 1, terms);
        assert(power / ((2 * from + 1) as int) >= 0) by (nonlinear_arith)
            requires
                power >= 0,
        ;
    }
}

/// A sum of the series is at most nine eighths of its first power where
/// the square is at most a ninth.
pub proof fn lemma_odd_series_bound(power: int, square: int, from: nat, terms: nat)
    requires
        power >= 0,
        0 <= square <= 111_111_111_111,
    ensures
        8 * odd_series(power, square, from, terms) <= 9 * power,
    decreases terms - from,
{
    if from < terms {
        let next = power * square / 1_000_000_000_000;
        assert(0 <= next && 9 * next <= power) by (nonlinear_arith)
            requires
                power >= 0,
                0 <= square <= 111_111_111_111,
                next == power * square / 1_000_000_000_000,
        ;
        lemma_odd_series_bound(next, square, from + 1, terms);
        assert(power / ((2 * from + 1) as int) <= power) by (nonlinear_arith)
            requires
                power >= 0,
        ;
    }
}

/// What `reduced` leaves is at least 1 and at most `num`, and more than
/// half of `num`.
pub proof fn lemma_reduced(num: int, den: int)
    requires
        1 <= den <= num,
    ensures
        1 <= reduced(num, den).1 <= num,
        num < 2 * reduced(num, den).1,
    decreases num - den,
{
    if 2 * den <= num {
        lemma_reduced(num, 2 * den);
    }
}

/// The logarithm of a ratio that can be halved `e` times without falling
/// below 1 lies between `e ln 2` and `e ln 2 + 0.75`. So a ratio of 2 or
/// more has a logarithm of at least 0.693147.
pub proof fn law_ln_follows_doublings(num: nat, den: nat)
    requires
        1 <= den < num,
    ensures
        spec_ln(num, den).micros >= reduced(num as int, den as int).0 * 693_147
            || spec_ln(num, den).micros == 0xffff_ffff_ffff_ffff,
        spec_ln(num, den).micros <= reduced(num as int, den as int).0 * 693_148 + 750_000,
        2 * den <= num ==> spec_ln(num, den).micros >= 693_147,
{
    let (e, m) = reduced(num as int, den as int);
    lemma_reduced(num as int, den as int);
    let t = (num - m) * 1_000_000_000_000 / (num + m);
    assert(t >= 0) by (nonlinear_arith)
        requires
            num - m >= 0,
            num + m > 0,
            t == (num - m) * 1_000_000_000_000 / (num + m),
    ;
    let square = t * t / 1_000_000_000_000;
    assert(square >= 0) by (nonlinear_arith)
        requires
            t >= 0,
            square == t * t / 1_000_000_000_000,
    ;
    assert(3 * t <= 1_000_000_000_000) by (nonlinear_arith)
        requires
            0 <= num - m,
            0 < num + m,
            3 * (num - m) <= num + m,
            t == (num - m) * 1_000_000_000_000 / (num + m),
    ;
    assert(square <= 111_111_111_111) by (nonlinear_arith)
        requires
            0 <= t,
            3 * t <= 1_000_000_000_000,
            square == t * t / 1_000_000_000_000,
    ;
    lemma_odd_series_sign(t, square, 0, 8);
    lemma_odd_series_bound(t, square, 0, 8);
    let fine = ln_near_one(num as int, m);
    assert(0 <= fine <= 750_000_000_000);
    let total = e * 693_147_180_559 + fine;
    assert(total / 1_000_000 >= e * 693_147) by (nonlinear_arith)
        requires
            total >= e * 693_147_180_559,
            e >= 0,
    ;
    assert(total / 1_000_000 <= e * 693_148 + 750_000) by (nonlinear_arith)
        requires
            total <= e * 693_147_180_559 + 750_000_000_000,
            e >= 0,
    ;
}

/// Eight terms of the series, each division rounded down.
fn ln_near_one_exec(num: u128, den: u128) -> (r: u128)
    requires
        1 <= den <= num,
        num < 2 * den,
        num < 0x1_0000_0000_0000_0000_0000,
    ensures
        r == ln_near_one(num as int, den as int),
        r <= 16_000_000_000_000,
{
    assert((num - den) * 1_000_000_000_000 <= 0x1_0000_0000_0000_0000_0000 * 1_000_000_000_000);
    let t: u128 = (num - den) * 1_000_000_000_000 / (num + den);
    assert(t <= 1_000_000_000_000) by (nonlinear_arith)
        requires
            t == ((num - den) * 1_000_000_000_000) / ((num + den) as int),
            1 <= den <= num,
    ;
    assert(t * t <= 1_000_000_000_000 * 1_000_000_000_000) by (nonlinear_arith)
        requires
            0 <= t <= 1_000_000_000_000,
    ;
    let square: u128 = t * t / 1_000_000_000_000;
    let ghost goal = odd_series(t as int, square as int, 0, 8);
    let mut power: u128 = t;
    let mut sum: u128 = 0;
    let mut k: u128 = 0;
    while k < 8
        invariant
            k <= 8,
            power <= 1_000_000_000_000,
            square <= 1_000_000_000_000,
            sum <= k * 1_000_000_000_000,
            goal == sum + odd_series(power as int, square as int, k as nat, 8),
        decreases 8 - k,
    {
        let term: u128 = power / (2 * k + 1);
        assert(power * square <= 1_000_000_000_000 * 1_000_000_000_000) by (nonlinear_arith)
            requires
                0 <= power <= 1_000_000_000_000,
                0 <= square <= 1_000_000_000_000,
        ;
        sum = sum + term;
        power = power * square / 1_000_000_000_000;
        k = k + 1;
    }
    2 * sum
}

/// The natural logarithm of `num / den` in millionths.
fn ln_ratio(num: u128, den: u128) -> (r: Score)
    requires
        num < 0x1_0000_0000_0000_0000_0000,
    ensures
        r == spec_ln(num as nat, den as nat),
{
    if den == 0 || num <= den {
        return Score::zero();
    }
    let mut m: u128 = den;
    let mut e: u128 = 0;
    while m <= num / 2
        invariant
            1 <= m <= num,
            e < m,
            num < 0x1_0000_0000_0000_0000_0000,
            reduced(num as int, den as int) == ((e + reduced(num as int, m as int).0) as nat, reduced(
                num as int,
                m as int,
            ).1),
        decreases num - m,
    {
        m = 2 * m;
        e = e + 1;
    }
    assert(e * 693_147_180_559 <= 0x1_0000_0000_0000_0000_0000 * 693_147_180_559) by (nonlinear_arith)
        requires
            0 <= e < 0x1_0000_0000_0000_0000_0000,
    ;
    let fine = ln_near_one_exec(num, m);
    let total: u128 = (e * 693_147_180_559 + fine) / 1_000_000;
    if total > 0xffff_ffff_ffff_ffff {
        Score { micros: 0xffff_ffff_ffff_ffff }
    } else {
        Score { micros: total as u64 }
    }
}

// ---------------------------------------------------------------------
// BM25
// ---------------------------------------------------------------------
/// The parameters of BM25: `k1` bounds the gain from repeated terms, `b`
/// says how much the length of a document counts.
#[derive(Clone, Copy, Debug, PartialEq, Eq, Structural)]
pub struct BM25Scorer {
    pub k1: Score,
    pub b: Score,
}

/// The count under `term`, or `otherwise` where there is none.
pub open spec fn count_in(counts: Map<Seq<char>, usize>, term: Seq<char>, otherwise: nat) -> nat {
    if counts.contains_key(term) {
        counts[term] as nat
    } else {
        otherwise
    }
}

/// The inverse document frequency of a term that `df` of `total_docs`
/// documents hold: `ln((N - df + 0.5) / (df + 0.5) + 1)`, which is
/// `ln((2 N + 2) / (2 df + 1))`. It is zero where `df` exceeds `N`.
pub open spec fn spec_idf(df: nat, total_docs: nat) -> Score {
    spec_ln(2 * total_docs + 2, 2 * df + 1)
}

/// The length factor `1 - b + b |D| / avg`; 1 where `avg` is zero.
pub open spec fn length_factor(b: Score, doc_length: nat, avg: Score) -> Score {
    if avg.micros == 0 {
        Score { micros: 1_000_000 }
    } else {
        (Score { micros: 1_000_000 }).spec_minus(b).spec_plus(
            b.spec_times(score_of((doc_length * 1_000_000) as int).spec_over(avg)),
        )
    }
}

/// What one term that occurs `tf` times adds to the score of a document:
/// `idf tf (k1 + 1) / (tf + k1 (1 - b + b |D| / avg))`.
pub open spec fn term_weight(
    scorer: BM25Scorer,
    tf: nat,
    df: nat,
    doc_length: nat,
    avg: Score,
    total_docs: nat,
) -> Score {
    let frequency = score_of((tf * 1_000_000) as int);
    spec_idf(df, total_docs).spec_times(
        frequency.spec_times(scorer.k1.spec_plus(Score { micros: 1_000_000 })).spec_over(
            frequency.spec_plus(scorer.k1.spec_times(length_factor(scorer.b, doc_length, avg))),
        ),
    )
}

/// The BM25 score of a document: the sum of the weights of the terms of
/// the query that the document holds. A term whose document frequency is
/// not known counts as held by one document.
pub open spec fn bm25_score(
    scorer: BM25Scorer,
    terms: Seq<Seq<char>>,
    doc_terms: Map<Seq<char>, usize>,
    doc_length: nat,
    avg: Score,
    doc_freq: Map<Seq<char>, usize>,
    total_docs: nat,
) -> Score
    decreases terms.len(),
{
    if terms.len() == 0 {
        Score { micros: 0 }
    } else {
        let front = bm25_score(
            scorer,
            terms.drop_last(),
            doc_terms,
            doc_length,
            avg,
            doc_freq,
            total_docs,
        );
        let tf = count_in(doc_terms, terms.last(), 0);
        if tf == 0 {
            front
        } else {
            front.spec_plus(
                term_weight(
                    scorer,
                    tf,
                    count_in(doc_freq, terms.last(), 1),
                    doc_length,
                    avg,
                    total_docs,
                ),
            )
        }
    }
}

impl Default for BM25Scorer {
    /// A scorer with `k1 = 1.5` and `b = 0.75`.
    fn default() -> (scorer: Self)
        ensures
            scorer.k1.micros == 1_500_000,
            scorer.b.micros == 750_000,
    {
        BM25Scorer { k1: Score { micros: 1_500_000 }, b: Score { micros: 750_000 } }
    }
}

impl BM25Scorer {
    /// A scorer with `k1 = 1.5` and `b = 0.75`.
    pub fn new() -> (scorer: Self)
        ensures
            scorer.k1.micros == 1_500_000,
            scorer.b.micros == 750_000,
    {
        BM25Scorer { k1: Score { micros: 1_500_000 }, b: Score { micros: 750_000 } }
    }

    /// The inverse document frequency of a term that `df` of `total_docs`
    /// documents hold.
    pub fn idf(&self, df: usize, total_docs: usize) -> (r: Score)
        ensures
            r == spec_idf(df as nat, total_docs as nat),
    {
        ln_ratio(2 * (total_docs as u128) + 2, 2 * (df as u128) + 1)
    }

    /// What one term that occurs `tf` times adds to the score of a document.
    pub fn weigh(
        &self,
        tf: usize,
        df: usize,
        doc_length: usize,
        avg_doc_length: Score,
        total_docs: usize,
    ) -> (r: Score)
        ensures
            r == term_weight(
                *self,
                tf as nat,
                df as nat,
                doc_length as nat,
                avg_doc_length,
                total_docs as nat,
            ),
    {
        let factor = if avg_doc_length.micros == 0 {
            Score::one()
        } else {
            Score::one().minus(self.b).plus(
                self.b.times(Score::from_count(doc_length).over(avg_doc_length)),
            )
        };
        let frequency = Score::from_count(tf);
        let norm = frequency.times(self.k1.plus(Score::one())).over(
            frequency.plus(self.k1.times(factor)),
        );
        self.idf(df, total_docs).times(norm)
    }

    /// The BM25 score of a document for the terms of a query.
    ///
    /// `doc_terms` counts the terms of the document, `doc_length` is the
    /// number of its tokens, `avg_doc_length` the mean over the corpus,
    /// `doc_freq` the number of documents that hold each term, and
    /// `total_docs` the number of documents.
    pub fn score(
        &self,
        query_terms: &Vec<String>,
        doc_terms: &StringHashMap<usize>,
        doc_length: usize,
        avg_doc_length: Score,
        doc_freq: &StringHashMap<usize>,
        total_docs: usize,
    ) -> (r: Score)
        ensures
            r == bm25_score(
                *self,
                query_terms.deep_view(),
                doc_terms@,
                doc_length as nat,
                avg_doc_length,
                doc_freq@,
                total_docs as nat,
            ),
    {
        let ghost all = query_terms.deep_view();
        let mut score = Score::zero();
        let mut i: usize = 0;
        while i < query_terms.len()
            invariant
                i <= query_terms.len(),
                all == query_terms.deep_view(),
                score == bm25_score(
                    *self,
                    all.take(i as int),
                    doc_terms@,
                    doc_length as nat,
                    avg_doc_length,
                    doc_freq@,
                    total_docs as nat,
                ),
            decreases query_terms.len() - i,
        {
            proof {
                assert(all.take(i + 1).drop_last() =~= all.take(i as int));
                assert(all.take(i + 1).last() == query_terms@[i as int]@);
            }
            let term = query_terms[i].as_str();
            let tf: usize = match doc_terms.get(term) {
                Some(n) => *n,
                None => 0,
            };
            if tf != 0 {
                let df: usize = match doc_freq.get(term) {
                    Some(n) => *n,
                    None => 1,
                };
                score = score.plus(self.weigh(tf, df, doc_length, avg_doc_length, total_docs));
            }
            i += 1;
        }
        assert(all.take(i as int) =~= all);
        score
    }
}

} // verus!
