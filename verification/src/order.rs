//! The order in which a scan hands out its candidates.
use crate::model::{Candidate, CandidateView};
use crate::text::chars_of;
use vstd::prelude::*;

verus! {

/// Whether `a` comes strictly before `b` when texts are ordered character
/// by character, a shorter text before its extensions.
pub open spec fn text_before(a: Seq<char>, b: Seq<char>) -> bool
    decreases a.len(),
{
    if b.len() == 0 {
        false
    } else if a.len() == 0 {
        true
    } else if a[0] != b[0] {
        (a[0] as u32) < (b[0] as u32)
    } else {
        text_before(a.drop_first(), b.drop_first())
    }
}

/// Whether `a` comes strictly before `b` in a scan's result: the larger
/// one first; of two of one size the one whose category comes first; of two
/// of one size and category the one whose path comes first.
pub open spec fn ranks_before(a: CandidateView, b: CandidateView) -> bool {
    a.size_bytes > b.size_bytes || (a.size_bytes == b.size_bytes && (text_before(
        a.category,
        b.category,
    ) || (a.category == b.category && text_before(a.path, b.path))))
}

/// Whether a list is in the order of [`ranks_before`].
pub open spec fn in_order(list: Seq<CandidateView>) -> bool {
    forall|i: int, j: int| 0 <= i < j < list.len() ==> !ranks_before(list[j], list[i])
}

/// No text comes before itself, and of two texts at most one comes before
/// the other.
pub proof fn text_before_is_one_way(a: Seq<char>, b: Seq<char>)
    ensures
        !(text_before(a, b) && text_before(b, a)),
    decreases a.len(),
{
    if a.len() > 0 && b.len() > 0 && a[0] == b[0] {
        text_before_is_one_way(a.drop_first(), b.drop_first());
    }
}

/// Of two different texts one comes before the other.
pub proof fn text_before_is_total(a: Seq<char>, b: Seq<char>)
    ensures
        a == b || text_before(a, b) || text_before(b, a),
    decreases a.len(),
{
    if a.len() == 0 || b.len() == 0 {
        if a.len() == 0 && b.len() == 0 {
            assert(a =~= b);
        }
    } else if a[0] == b[0] {
        text_before_is_total(a.drop_first(), b.drop_first());
        if a.drop_first() == b.drop_first() {
            assert(a =~= seq![a[0]] + a.drop_first());
            assert(b =~= seq![b[0]] + b.drop_first());
        }
    } else {
        vstd::utf8::char_u32_cast(a[0], a[0] as u32);
        vstd::utf8::char_u32_cast(b[0], b[0] as u32);
    }
}

/// The order of texts is transitive.
pub proof fn text_before_is_transitive(a: Seq<char>, b: Seq<char>, c: Seq<char>)
    requires
        text_before(a, b),
        text_before(b, c),
    ensures
        text_before(a, c),
    decreases a.len(),
{
    if a.len() > 0 && a[0] == b[0] && b[0] == c[0] {
        text_before_is_transitive(a.drop_first(), b.drop_first(), c.drop_first());
    }
}

/// What comes before one candidate comes before every candidate that the
/// first does not follow.
pub proof fn ranks_before_carries(x: CandidateView, a: CandidateView, b: CandidateView)
    requires
        ranks_before(x, a),
        !ranks_before(b, a),
    ensures
        ranks_before(x, b),
{
    text_before_is_total(a.category, b.category);
    text_before_is_total(a.path, b.path);
    if text_before(x.category, a.category) && text_before(a.category, b.category) {
        text_before_is_transitive(x.category, a.category, b.category);
    }
    if text_before(x.path, a.path) && text_before(a.path, b.path) {
        text_before_is_transitive(x.path, a.path, b.path);
    }
}

/// Of two candidates at most one comes before the other.
pub proof fn ranks_before_is_one_way(a: CandidateView, b: CandidateView)
    ensures
        !(ranks_before(a, b) && ranks_before(b, a)),
{
    text_before_is_one_way(a.category, b.category);
    text_before_is_one_way(a.path, b.path);
}

/// Decides [`text_before`].
pub fn text_precedes(a: &str, b: &str) -> (before: bool)
    ensures
        before == text_before(a@, b@),
{
    let x = chars_of(a);
    let y = chars_of(b);
    let mut i: usize = 0;
    assert(x@.subrange(0, x@.len() as int) =~= x@);
    assert(y@.subrange(0, y@.len() as int) =~= y@);
    while i < x.len() && i < y.len()
        invariant
            i <= x@.len(),
            i <= y@.len(),
            x@ == a@,
            y@ == b@,
            text_before(a@, b@) == text_before(
                x@.subrange(i as int, x@.len() as int),
                y@.subrange(i as int, y@.len() as int),
            ),
        decreases x@.len() - i,
    {
        let ghost xs = x@.subrange(i as int, x@.len() as int);
        let ghost ys = y@.subrange(i as int, y@.len() as int);
        assert(xs[0] == x@[i as int] && ys[0] == y@[i as int]);
        if x[i] != y[i] {
            return (x[i] as u32) < (y[i] as u32);
        }
        assert(xs.drop_first() =~= x@.subrange(i + 1, x@.len() as int));
        assert(ys.drop_first() =~= y@.subrange(i + 1, y@.len() as int));
        i += 1;
    }
    i < y.len()
}

/// Decides [`ranks_before`].
pub fn goes_before(a: &Candidate, b: &Candidate) -> (before: bool)
    ensures
        before == ranks_before(a@, b@),
{
    if a.size_bytes != b.size_bytes {
        return a.size_bytes > b.size_bytes;
    }
    if text_precedes(a.category.as_str(), b.category.as_str()) {
        return true;
    }
    if a.category != b.category {
        return false;
    }
    text_precedes(a.path.as_str(), b.path.as_str())
}

} // verus!
