//! Helpers on strings, stated over their sequences of characters.

use vstd::prelude::*;

verus! {

/// The lowercase form of a string, as `str::to_lowercase` gives it.
pub uninterp spec fn lowercase_of(s: Seq<char>) -> Seq<char>;

/// Calls `str::to_lowercase`. It is trusted that the result is the sequence
/// [`lowercase_of`] names: it depends on the characters of `s` alone.
#[verifier::external_body]
pub(crate) fn lowercase(s: &str) -> (lower: String)
    ensures
        lower@ == lowercase_of(s@),
{
    s.to_lowercase()
}

/// Calls `String::push`, which appends one character to the string.
#[verifier::external_body]
pub(crate) fn push_char(s: &mut String, c: char)
    ensures
        final(s)@ == old(s)@.push(c),
{
    s.push(c)
}

/// The characters of a string, in order.
pub fn chars_of(s: &str) -> (chars: Vec<char>)
    ensures
        chars@ == s@,
{
    let mut out: Vec<char> = Vec::new();
    for c in it: s.chars()
        invariant
            it.seq() == s@,
            out@ == it.seq().take(it.index()),
    {
        out.push(c);
    }
    out
}

/// Whether `needle` occurs in `hay` as a run of consecutive characters. The
/// empty text occurs in every text.
pub open spec fn occurs_in(needle: Seq<char>, hay: Seq<char>) -> bool {
    exists|at: int| occurs_at(needle, hay, at)
}

/// Whether `needle` stands in `hay` from index `at` on.
pub open spec fn occurs_at(needle: Seq<char>, hay: Seq<char>, at: int) -> bool {
    &&& 0 <= at
    &&& at + needle.len() <= hay.len()
    &&& hay.subrange(at, at + needle.len()) == needle
}

/// Whether `needle` occurs in `hay`.
pub fn contains(hay: &str, needle: &str) -> (found: bool)
    ensures
        found == occurs_in(needle@, hay@),
{
    let h = chars_of(hay);
    let n = chars_of(needle);
    if n.len() > h.len() {
        assert(!occurs_in(n@, h@));
        return false;
    }
    let last: usize = h.len() - n.len();
    let mut at: usize = 0;
    while at <= last
        invariant
            at <= last + 1,
            last == h.len() - n.len(),
            n.len() <= h.len(),
            h@ == hay@,
            n@ == needle@,
            forall|k: int| 0 <= k < at ==> !occurs_at(n@, h@, k),
        decreases last + 1 - at,
    {
        let mut j: usize = 0;
        while j < n.len() && h[at + j] == n[j]
            invariant
                j <= n.len(),
                at <= last,
                last == h.len() - n.len(),
                n.len() <= h.len(),
                forall|k: int| 0 <= k < j ==> h@[at + k] == n@[k],
            decreases n.len() - j,
        {
            j += 1;
        }
        if j == n.len() {
            assert(h@.subrange(at as int, at + n.len()) =~= n@);
            assert(occurs_at(needle@, hay@, at as int));
            return true;
        }
        assert(!occurs_at(n@, h@, at as int)) by {
            if occurs_at(n@, h@, at as int) {
                assert(h@.subrange(at as int, at + n.len())[j as int] == n@[j as int]);
            }
        }
        at += 1;
    }
    assert(!occurs_in(n@, h@));
    false
}

/// Whether `a` comes before `b` in the order of strings: character by
/// character by code point, a proper prefix before the longer text.
pub open spec fn text_before(a: Seq<char>, b: Seq<char>) -> bool
    decreases a.len(),
{
    if b.len() == 0 {
        false
    } else if a.len() == 0 {
        true
    } else if a[0] != b[0] {
        (a[0] as u32) < (b[0] as u32)
    } else {
        text_before(a.drop_first(), b.drop_first())
    }
}

/// Past a common prefix, the order of two texts is that of what is left.
pub proof fn lemma_text_before_skip(a: Seq<char>, b: Seq<char>, n: int)
    requires
        0 <= n <= a.len(),
        n <= b.len(),
        a.take(n) == b.take(n),
    ensures
        text_before(a, b) == text_before(a.skip(n), b.skip(n)),
    decreases n,
{
    if n > 0 {
        assert(a[0] == a.take(n)[0]);
        assert(b[0] == b.take(n)[0]);
        let a1 = a.drop_first();
        let b1 = b.drop_first();
        assert(a1.take(n - 1) =~= a.take(n).drop_first());
        assert(b1.take(n - 1) =~= b.take(n).drop_first());
        lemma_text_before_skip(a1, b1, n - 1);
        assert(a1.skip(n - 1) =~= a.skip(n));
        assert(b1.skip(n - 1) =~= b.skip(n));
    } else {
        assert(a.skip(0) =~= a);
        assert(b.skip(0) =~= b);
    }
}

/// Whether `a` comes before `b` in the order of strings.
pub fn comes_before(a: &str, b: &str) -> (before: bool)
    ensures
        before == text_before(a@, b@),
{
    let x = chars_of(a);
    let y = chars_of(b);
    let mut i: usize = 0;
    while i < x.len() && i < y.len() && x[i] == y[i]
        invariant
            i <= x.len(),
            i <= y.len(),
            x@.take(i as int) == y@.take(i as int),
        decreases x.len() - i,
    {
        assert(x@.take(i + 1) =~= x@.take(i as int).push(x@[i as int]));
        assert(y@.take(i + 1) =~= y@.take(i as int).push(y@[i as int]));
        i += 1;
    }
    proof {
        lemma_text_before_skip(x@, y@, i as int);
    }
    if i == y.len() {
        false
    } else if i == x.len() {
        true
    } else {
        assert(x@.skip(i as int)[0] == x@[i as int]);
        assert(y@.skip(i as int)[0] == y@[i as int]);
        (x[i] as u32) < (y[i] as u32)
    }
}

/// The texts joined by single spaces.
pub open spec fn spaced(parts: Seq<Seq<char>>) -> Seq<char>
    decreases parts.len(),
{
    if parts.len() == 0 {
        Seq::empty()
    } else if parts.len() == 1 {
        parts[0]
    } else {
        spaced(parts.drop_last()) + seq![' '] + parts.last()
    }
}

/// Joins the texts by single spaces.
pub fn join_spaced(parts: &Vec<String>) -> (joined: String)
    ensures
        joined@ == spaced(parts.deep_view()),
{
    let mut joined = String::new();
    let ghost all = parts.deep_view();
    let mut i: usize = 0;
    while i < parts.len()
        invariant
            i <= parts.len(),
            all == parts.deep_view(),
            joined@ == spaced(all.take(i as int)),
        decreases parts.len() - i,
    {
        proof {
            assert(all.take(i + 1).drop_last() =~= all.take(i as int));
            assert(all.take(i + 1).last() == parts@[i as int]@);
        }
        if i > 0 {
            push_char(&mut joined, ' ');
            assert(joined@ =~= spaced(all.take(i as int)) + seq![' ']);
        }
        joined.append(parts[i].as_str());
        proof {
            if i == 0 {
                assert(joined@ =~= parts@[0]@);
                assert(all.take(1)[0] == parts@[0]@);
            }
        }
        i += 1;
    }
    assert(all.take(i as int) =~= all);
    joined
}

/// A dot-separated path cut at its dots. The parts between two dots, before
/// a leading dot and after a trailing dot are empty texts, and the empty
/// path has one empty part.
pub open spec fn split_dots(path: Seq<char>) -> Seq<Seq<char>>
    decreases path.len(),
{
    if path.len() == 0 {
        seq![Seq::empty()]
    } else {
        let front = split_dots(path.drop_last());
        if path.last() == '.' {
            front.push(Seq::empty())
        } else {
            front.update(front.len() - 1, front.last().push(path.last()))
        }
    }
}

/// Cuts a dot-separated path at its dots.
pub fn split_path(path: &str) -> (parts: Vec<String>)
    ensures
        parts.deep_view() == split_dots(path@),
        parts@.len() >= 1,
{
    let mut done: Vec<String> = Vec::new();
    let mut current = String::new();
    assert(done.deep_view().push(current@) =~= split_dots(path@.take(0)));
    for c in it: path.chars()
        invariant
            it.seq() == path@,
            done.deep_view().push(current@) == split_dots(path@.take(it.index())),
    {
        proof {
            let i = it.index();
            assert(path@.take(i + 1).drop_last() =~= path@.take(i));
            assert(path@.take(i + 1).last() == c);
        }
        let ghost before = done.deep_view().push(current@);
        if c == '.' {
            done.push(current);
            current = String::new();
            assert(done.deep_view().push(current@) =~= before.push(Seq::empty()));
        } else {
            push_char(&mut current, c);
            assert(done.deep_view().push(current@) =~= before.update(
                before.len() - 1,
                before.last().push(c),
            ));
        }
    }
    assert(path@.take(path@.len() as int) =~= path@);
    let ghost all = done.deep_view().push(current@);
    done.push(current);
    assert(done.deep_view() =~= all);
    done
}

} // verus!
