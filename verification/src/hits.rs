//! Candidate replacements in a text: ranking them, keeping those that do not overlap, and putting a
//! replacement in the place of each.
use crate::pattern::{ordered_spans, spliced, spliced_end, spliced_upto};
use crate::text::{byte_len, char_range, slice_bytes};
use vstd::prelude::*;
use vstd::relations::*;
use vstd::seq_lib::*;
use vstd::string::*;
use vstd::utf8::*;

verus! {

/// A byte range of a text, with a rank by which it competes with others: the lower rank goes first.
#[derive(Clone, Copy, PartialEq, Eq, Structural)]
pub struct Hit {
    /// The lower, the better.
    pub rank: u64,
    /// The first byte.
    pub start: usize,
    /// The byte behind the last.
    pub end: usize,
}

/// The order in which hits are considered: by rank, then by position.
pub open spec fn hit_leq(a: Hit, b: Hit) -> bool {
    ||| a.rank < b.rank
    ||| a.rank == b.rank && a.start < b.start
    ||| a.rank == b.rank && a.start == b.start && a.end <= b.end
}

/// The hits in the order in which they are considered.
pub open spec fn ranked(hits: Seq<Hit>) -> Seq<Hit> {
    hits.sort_by(|a: Hit, b: Hit| hit_leq(a, b))
}

/// Whether two byte ranges share a byte.
#[verifier::allow_in_spec]
pub fn overlaps(a: (usize, usize), b: (usize, usize)) -> bool
    returns
        a.0 < b.1 && b.0 < a.1,
{
    a.0 < b.1 && b.0 < a.1
}

/// Whether `span` overlaps one of `spans`.
pub open spec fn overlaps_any(spans: Seq<(usize, usize)>, span: (usize, usize)) -> bool {
    exists|i: int| 0 <= i < spans.len() && overlaps(span, #[trigger] spans[i])
}

/// Whether `span` overlaps one of `spans`.
pub fn overlaps_one_of(spans: &Vec<(usize, usize)>, span: (usize, usize)) -> (r: bool)
    ensures
        r == overlaps_any(spans@, span),
{
    let mut i: usize = 0;
    while i < spans.len()
        invariant
            i <= spans@.len(),
            forall|k: int| 0 <= k < i ==> !overlaps(span, #[trigger] spans@[k]),
        decreases spans@.len() - i,
    {
        if overlaps(span, spans[i]) {
            return true;
        }
        i += 1;
    }
    false
}

/// Going through `hits` from first to last, the ranges of those that overlap none kept before.
pub open spec fn kept(hits: Seq<Hit>) -> Seq<(usize, usize)>
    decreases hits.len(),
{
    if hits.len() == 0 {
        Seq::empty()
    } else {
        let before = kept(hits.drop_last());
        let span = (hits.last().start, hits.last().end);
        if overlaps_any(before, span) {
            before
        } else {
            before.push(span)
        }
    }
}

/// The order of byte ranges in a text.
pub open spec fn span_leq(a: (usize, usize), b: (usize, usize)) -> bool {
    a.0 < b.0 || (a.0 == b.0 && a.1 <= b.1)
}

/// The byte ranges that win, from left to right.
pub open spec fn chosen(hits: Seq<Hit>) -> Seq<(usize, usize)> {
    kept(ranked(hits)).sort_by(|a: (usize, usize), b: (usize, usize)| span_leq(a, b))
}

/// The order of hits is a total order.
pub proof fn lemma_hit_order()
    ensures
        total_ordering(|a: Hit, b: Hit| hit_leq(a, b)),
{
    let leq = |a: Hit, b: Hit| hit_leq(a, b);
    assert(reflexive(leq));
    assert forall|x: Hit, y: Hit| #[trigger] leq(x, y) && #[trigger] leq(y, x) implies x == y by {
        assert(hit_leq(x, y) && hit_leq(y, x));
    }
    assert(antisymmetric(leq));
    assert(transitive(leq));
    assert(strongly_connected(leq));
}

/// The order of byte ranges is a total order.
pub proof fn lemma_span_order()
    ensures
        total_ordering(|a: (usize, usize), b: (usize, usize)| span_leq(a, b)),
{
    let leq = |a: (usize, usize), b: (usize, usize)| span_leq(a, b);
    assert(reflexive(leq));
    assert forall|x: (usize, usize), y: (usize, usize)| #[trigger]
        leq(x, y) && #[trigger] leq(y, x) implies x == y by {
        assert(span_leq(x, y) && span_leq(y, x));
    }
    assert(antisymmetric(leq));
    assert(transitive(leq));
    assert(strongly_connected(leq));
}

/// A value that is sorted by a total order of its own.
trait Sortable: Sized {
    /// The order.
    spec fn leq(self, other: Self) -> bool;

    /// The order is total.
    proof fn lemma_total()
        ensures
            total_ordering(|a: Self, b: Self| a.leq(b)),
    ;

    /// Whether a value goes before another or is the same.
    fn at_most(&self, other: &Self) -> (r: bool)
        ensures
            r == self.leq(*other),
    ;
}

impl Sortable for Hit {
    spec fn leq(self, other: Self) -> bool {
        hit_leq(self, other)
    }

    proof fn lemma_total() {
        lemma_hit_order();
        assert((|a: Self, b: Self| a.leq(b)) =~= (|a: Hit, b: Hit| hit_leq(a, b)));
    }

    fn at_most(&self, other: &Self) -> bool {
        self.rank < other.rank || (self.rank == other.rank && (self.start < other.start || (
        self.start == other.start && self.end <= other.end)))
    }
}

impl Sortable for (usize, usize) {
    spec fn leq(self, other: Self) -> bool {
        span_leq(self, other)
    }

    proof fn lemma_total() {
        lemma_span_order();
        assert((|a: Self, b: Self| a.leq(b)) =~= (|a: (usize, usize), b: (usize, usize)|
            span_leq(a, b)));
    }

    fn at_most(&self, other: &Self) -> bool {
        self.0 < other.0 || (self.0 == other.0 && self.1 <= other.1)
    }
}

/// Putting a value behind those that go before it and before those that do not keeps a list sorted.
proof fn lemma_inserted<T: Sortable>(before: Seq<T>, at: int, h: T)
    requires
        0 <= at <= before.len(),
        sorted_by(before, |a: T, b: T| a.leq(b)),
        forall|k: int| at <= k < before.len() ==> h.leq(#[trigger] before[k]),
        at > 0 ==> before[at - 1].leq(h),
    ensures
        sorted_by(before.insert(at, h), |a: T, b: T| a.leq(b)),
{
    let leq = |a: T, b: T| a.leq(b);
    let after = before.insert(at, h);
    T::lemma_total();
    assert forall|a: int, b: int| 0 <= a < b < after.len() implies #[trigger] leq(
        after[a],
        after[b],
    ) by {
        if a < at {
            if a < at - 1 {
                assert(leq(before[a], before[at - 1]));
            }
            assert(leq(before[at - 1], h));
            if b < at {
                assert(leq(before[a], before[b]));
            } else if b > at {
                assert(leq(before[a], before[b - 1]));
            }
        } else if a == at {
            assert(h.leq(before[b - 1]));
        } else {
            assert(leq(before[a - 1], before[b - 1]));
        }
    }
}

/// The values in their order.
fn sorted<T: Sortable + Copy>(items: &Vec<T>) -> (r: Vec<T>)
    ensures
        r@ == items@.sort_by(|a: T, b: T| a.leq(b)),
{
    let ghost leq = |a: T, b: T| a.leq(b);
    proof {
        T::lemma_total();
    }
    let mut r: Vec<T> = Vec::new();
    assert(r@ =~= items@.take(0));
    let mut i: usize = 0;
    while i < items.len()
        invariant
            i <= items@.len(),
            leq == (|a: T, b: T| a.leq(b)),
            total_ordering(leq),
            sorted_by(r@, leq),
            r@.len() == i,
            r@.to_multiset() == items@.take(i as int).to_multiset(),
        decreases items@.len() - i,
    {
        let h: T = items[i];
        let mut at: usize = r.len();
        while at > 0 && !r[at - 1].at_most(&h)
            invariant
                at <= r@.len(),
                leq == (|a: T, b: T| a.leq(b)),
                total_ordering(leq),
                forall|k: int| at <= k < r@.len() ==> h.leq(#[trigger] r@[k]),
            decreases at,
        {
            assert(leq(r@[at - 1], h) || leq(h, r@[at - 1]));
            at -= 1;
        }
        let ghost before = r@;
        r.insert(at, h);
        proof {
            lemma_inserted(before, at as int, h);
            to_multiset_insert(before, at as int, h);
            assert(items@.take(i + 1) =~= items@.take(i as int).push(h));
            to_multiset_build(items@.take(i as int), h);
        }
        i += 1;
    }
    proof {
        assert(items@.take(i as int) =~= items@);
        items@.lemma_sort_by_ensures(leq);
        lemma_sorted_unique(r@, items@.sort_by(leq), leq);
    }
    r
}

/// The hits in the order in which they are considered.
pub fn rank_hits(hits: &Vec<Hit>) -> (r: Vec<Hit>)
    ensures
        r@ == ranked(hits@),
{
    assert((|a: Hit, b: Hit| a.leq(b)) =~= (|a: Hit, b: Hit| hit_leq(a, b)));
    sorted(hits)
}

/// The byte ranges from left to right.
fn order_spans(spans: &Vec<(usize, usize)>) -> (r: Vec<(usize, usize)>)
    ensures
        r@ == spans@.sort_by(|a: (usize, usize), b: (usize, usize)| span_leq(a, b)),
{
    assert((|a: (usize, usize), b: (usize, usize)| a.leq(b)) =~= (|
        a: (usize, usize),
        b: (usize, usize),
    | span_leq(a, b)));
    sorted(spans)
}

/// Whether `span` is the range of one of `hits`.
pub open spec fn is_hit(hits: Seq<Hit>, span: (usize, usize)) -> bool {
    exists|k: int|
        0 <= k < hits.len() && (#[trigger] hits[k]).start == span.0 && hits[k].end == span.1
}

/// Each kept range is that of a hit, and no two of them overlap.
pub proof fn lemma_kept(hits: Seq<Hit>)
    ensures
        kept(hits).len() <= hits.len(),
        forall|i: int| 0 <= i < kept(hits).len() ==> is_hit(hits, #[trigger] kept(hits)[i]),
        forall|i: int, j: int|
            0 <= i < kept(hits).len() && 0 <= j < kept(hits).len() && i != j ==> !overlaps(
                #[trigger] kept(hits)[i],
                #[trigger] kept(hits)[j],
            ),
    decreases hits.len(),
{
    if hits.len() > 0 {
        let rest = hits.drop_last();
        lemma_kept(rest);
        let before = kept(rest);
        let span = (hits.last().start, hits.last().end);
        assert forall|i: int| 0 <= i < kept(hits).len() implies is_hit(
            hits,
            #[trigger] kept(hits)[i],
        ) by {
            if i < before.len() {
                assert(kept(hits)[i] == before[i]);
                let k = choose|k: int|
                    0 <= k < rest.len() && (#[trigger] rest[k]).start == before[i].0 && rest[k].end
                        == before[i].1;
                assert(hits[k] == rest[k]);
            } else {
                assert(hits[hits.len() - 1] == hits.last());
            }
        }
        assert forall|i: int, j: int|
            0 <= i < kept(hits).len() && 0 <= j < kept(hits).len() && i != j implies !overlaps(
            #[trigger] kept(hits)[i],
            #[trigger] kept(hits)[j],
        ) by {
            if i < before.len() && j < before.len() {
                assert(!overlaps(before[i], before[j]));
            }
        }
    }
}

/// A permutation has the same elements.
pub proof fn lemma_same_elements<A>(a: Seq<A>, b: Seq<A>)
    requires
        a.to_multiset() == b.to_multiset(),
    ensures
        a.len() == b.len(),
        forall|x: A| a.contains(x) <==> b.contains(x),
{
    broadcast use group_to_multiset_ensures;

    assert(a.len() == a.to_multiset().len());
    assert forall|x: A| a.contains(x) <==> b.contains(x) by {
        assert(a.contains(x) <==> a.to_multiset().count(x) > 0);
        assert(b.contains(x) <==> b.to_multiset().count(x) > 0);
    }
}

/// What stands twice in a sequence stands twice in each permutation of it.
pub proof fn lemma_twice<A>(a: Seq<A>, i: int, j: int, b: Seq<A>) -> (kl: (int, int))
    requires
        a.to_multiset() == b.to_multiset(),
        0 <= i < j < a.len(),
        a[i] == a[j],
    ensures
        0 <= kl.0 < b.len(),
        0 <= kl.1 < b.len(),
        kl.0 != kl.1,
        b[kl.0] == a[i],
        b[kl.1] == a[i],
{
    broadcast use group_to_multiset_ensures;
    broadcast use vstd::multiset::group_multiset_axioms;

    let x = a[i];
    let a2 = a.remove(j);
    assert(a2[i] == x);
    assert(a2.contains(x));
    assert(a2.to_multiset().count(x) > 0);
    assert(a2.to_multiset() == a.to_multiset().remove(x));
    assert(b.to_multiset().count(x) > 0);
    assert(b.contains(x));
    let k = choose|k: int| 0 <= k < b.len() && b[k] == x;
    let b2 = b.remove(k);
    assert(b2.to_multiset() == b.to_multiset().remove(x));
    assert(b2.to_multiset().count(x) > 0);
    assert(b2.contains(x));
    let l = choose|l: int| 0 <= l < b2.len() && b2[l] == x;
    if l < k {
        assert(b[l] == x);
        (k, l)
    } else {
        assert(b[l + 1] == x);
        (k, l + 1)
    }
}

/// The chosen ranges are ranges of hits; they do not overlap and go from left to right.
pub proof fn lemma_chosen(hits: Seq<Hit>)
    requires
        forall|k: int| 0 <= k < hits.len() ==> (#[trigger] hits[k]).start <= hits[k].end,
    ensures
        chosen(hits).len() == kept(ranked(hits)).len(),
        chosen(hits).len() <= hits.len(),
        forall|i: int| 0 <= i < chosen(hits).len() ==> is_hit(hits, #[trigger] chosen(hits)[i]),
        forall|i: int, j: int|
            0 <= i < j < chosen(hits).len() ==> (#[trigger] chosen(hits)[i]).1 <= (
            #[trigger] chosen(hits)[j]).0,
{
    let hleq = |a: Hit, b: Hit| hit_leq(a, b);
    let sleq = |a: (usize, usize), b: (usize, usize)| span_leq(a, b);
    lemma_hit_order();
    lemma_span_order();
    hits.lemma_sort_by_ensures(hleq);
    let order = ranked(hits);
    lemma_same_elements(hits, order);
    lemma_kept(order);
    let keep = kept(order);
    keep.lemma_sort_by_ensures(sleq);
    let c = chosen(hits);
    lemma_same_elements(keep, c);
    assert forall|i: int| 0 <= i < c.len() implies is_hit(hits, #[trigger] c[i]) by {
        assert(c.contains(c[i]));
        assert(keep.contains(c[i]));
        let m = choose|m: int| 0 <= m < keep.len() && keep[m] == c[i];
        let o = choose|o: int|
            0 <= o < order.len() && (#[trigger] order[o]).start == keep[m].0 && order[o].end
                == keep[m].1;
        assert(order.contains(order[o]));
        assert(hits.contains(order[o]));
        let k = choose|k: int| 0 <= k < hits.len() && hits[k] == order[o];
        assert(hits[k].start == c[i].0);
    }
    assert forall|i: int, j: int| 0 <= i < j < c.len() implies (#[trigger] c[i]).1 <= (
    #[trigger] c[j]).0 by {
        assert(sleq(c[i], c[j]));
        assert(c.contains(c[i]) && c.contains(c[j]));
        assert(keep.contains(c[i]) && keep.contains(c[j]));
        if c[i] == c[j] {
            let (k, l) = lemma_twice(c, i, j, keep);
            assert(!overlaps(keep[k], keep[l]));
        } else {
            let k = choose|k: int| 0 <= k < keep.len() && keep[k] == c[i];
            let l = choose|l: int| 0 <= l < keep.len() && keep[l] == c[j];
            assert(!overlaps(keep[k], keep[l]));
        }
    }
}

/// The byte ranges of the winning hits, from left to right.
pub fn choose_hits(hits: &Vec<Hit>) -> (r: Vec<(usize, usize)>)
    ensures
        r@ == chosen(hits@),
{
    let order: Vec<Hit> = rank_hits(hits);
    let mut keep: Vec<(usize, usize)> = Vec::new();
    let mut i: usize = 0;
    while i < order.len()
        invariant
            i <= order@.len(),
            keep@ == kept(order@.take(i as int)),
        decreases order@.len() - i,
    {
        let span: (usize, usize) = (order[i].start, order[i].end);
        assert(order@.take(i + 1).drop_last() =~= order@.take(i as int));
        if !overlaps_one_of(&keep, span) {
            keep.push(span);
        }
        i += 1;
    }
    assert(order@.take(i as int) =~= order@);
    order_spans(&keep)
}

/// `text` with each of the byte ranges `spans` replaced by `replacement`.
pub fn splice(text: &str, spans: &Vec<(usize, usize)>, replacement: &str) -> (r: String)
    requires
        ordered_spans(text@, spans@),
    ensures
        r@ == spliced(text@, spans@, replacement@),
{
    let mut r: String = String::new();
    let mut last: usize = 0;
    let mut i: usize = 0;
    proof {
        encode_utf8_valid_utf8(text@);
        is_char_boundary_start_end_of_seq(encode_utf8(text@));
    }
    while i < spans.len()
        invariant
            i <= spans@.len(),
            ordered_spans(text@, spans@),
            last == spliced_end(spans@.take(i as int)),
            last <= encode_utf8(text@).len(),
            is_char_boundary(encode_utf8(text@), last as int),
            i < spans@.len() ==> last <= spans@[i as int].0,
            r@ == spliced_upto(text@, spans@.take(i as int), replacement@),
        decreases spans@.len() - i,
    {
        assert(spans@.take(i + 1).drop_last() =~= spans@.take(i as int));
        assert(char_range(text@, spans@[i as int].0 as int, spans@[i as int].1 as int));
        r.append(slice_bytes(text, last, spans[i].0));
        r.append(replacement);
        last = spans[i].1;
        i += 1;
        assert(spans@.take(i as int).last() == spans@[i - 1]);
    }
    assert(spans@.take(i as int) =~= spans@);
    let len: usize = byte_len(text);
    r.append(slice_bytes(text, last, len));
    r
}

/// Whether every hit is a byte range of whole characters of `text`.
pub open spec fn hits_in(text: Seq<char>, hits: Seq<Hit>) -> bool {
    forall|k: int|
        0 <= k < hits.len() ==> char_range(
            text,
            (#[trigger] hits[k]).start as int,
            hits[k].end as int,
        )
}

/// `text` with the winning hits replaced by `replacement`, and how many they were.
pub fn replace_hits(text: &str, hits: &Vec<Hit>, replacement: &str) -> (r: (String, usize))
    requires
        hits_in(text@, hits@),
    ensures
        r.0@ == spliced(text@, chosen(hits@), replacement@),
        r.1 == chosen(hits@).len(),
{
    let spans: Vec<(usize, usize)> = choose_hits(hits);
    proof {
        lemma_chosen(hits@);
        assert forall|i: int| 0 <= i < spans@.len() implies char_range(
            text@,
            (#[trigger] spans@[i]).0 as int,
            spans@[i].1 as int,
        ) by {
            assert(is_hit(hits@, chosen(hits@)[i]));
            let k = choose|k: int|
                0 <= k < hits@.len() && (#[trigger] hits@[k]).start == spans@[i].0 && hits@[k].end
                    == spans@[i].1;
            assert(char_range(text@, hits@[k].start as int, hits@[k].end as int));
        }
    }
    (splice(text, &spans, replacement), spans.len())
}

/// Going through the hits from first to last, each one is kept or overlaps one that came before it
/// and was kept.
proof fn lemma_kept_or_beaten(hits: Seq<Hit>, i: int)
    requires
        0 <= i < hits.len(),
    ensures
        kept(hits).contains((hits[i].start, hits[i].end)) || exists|j: int|
            0 <= j < i && overlaps(
                (hits[i].start, hits[i].end),
                (#[trigger] hits[j].start, hits[j].end),
            ) && kept(hits).contains((hits[j].start, hits[j].end)),
    decreases hits.len(),
{
    let rest = hits.drop_last();
    let before = kept(rest);
    let all = kept(hits);
    assert forall|s: (usize, usize)| before.contains(s) implies #[trigger] all.contains(s) by {
        let m = choose|m: int| 0 <= m < before.len() && before[m] == s;
        assert(all[m] == s);
    }
    if i < rest.len() {
        lemma_kept_or_beaten(rest, i);
        if !before.contains((hits[i].start, hits[i].end)) {
            let j = choose|j: int|
                0 <= j < i && overlaps(
                    (rest[i].start, rest[i].end),
                    (#[trigger] rest[j].start, rest[j].end),
                ) && before.contains((rest[j].start, rest[j].end));
            assert(hits[j] == rest[j]);
            assert(all.contains((hits[j].start, hits[j].end)));
        }
    } else {
        let span = (hits[i].start, hits[i].end);
        if overlaps_any(before, span) {
            let m = choose|m: int| 0 <= m < before.len() && overlaps(span, #[trigger] before[m]);
            lemma_kept(rest);
            assert(is_hit(rest, before[m]));
            let j = choose|j: int|
                0 <= j < rest.len() && (#[trigger] rest[j]).start == before[m].0 && rest[j].end
                    == before[m].1;
            assert(hits[j] == rest[j]);
            assert(before.contains(before[m]));
            assert(before[m] == (hits[j].start, hits[j].end));
        } else {
            assert(all == before.push(span));
            assert(all[before.len() as int] == span);
        }
    }
}

/// Which hits win: one that is not chosen overlaps a chosen one that ranks no worse. So nothing that
/// was found is passed over but for a hit that is better or stands before it.
pub proof fn lemma_passed_over(hits: Seq<Hit>, k: int)
    requires
        0 <= k < hits.len(),
    ensures
        chosen(hits).contains((hits[k].start, hits[k].end)) || exists|j: int|
            0 <= j < hits.len() && overlaps(
                (hits[k].start, hits[k].end),
                (#[trigger] hits[j].start, hits[j].end),
            ) && chosen(hits).contains((hits[j].start, hits[j].end)) && (hits[j].rank < hits[k].rank
                || (hits[j].rank == hits[k].rank && hits[j].start <= hits[k].start)),
{
    let hleq = |a: Hit, b: Hit| hit_leq(a, b);
    let sleq = |a: (usize, usize), b: (usize, usize)| span_leq(a, b);
    lemma_hit_order();
    lemma_span_order();
    hits.lemma_sort_by_ensures(hleq);
    let order = ranked(hits);
    lemma_same_elements(hits, order);
    let keep = kept(order);
    keep.lemma_sort_by_ensures(sleq);
    lemma_same_elements(keep, chosen(hits));
    assert(hits.contains(hits[k]));
    assert(order.contains(hits[k]));
    let i = choose|i: int| 0 <= i < order.len() && order[i] == hits[k];
    lemma_kept_or_beaten(order, i);
    if !keep.contains((hits[k].start, hits[k].end)) {
        let o = choose|o: int|
            0 <= o < i && overlaps(
                (order[i].start, order[i].end),
                (#[trigger] order[o].start, order[o].end),
            ) && keep.contains((order[o].start, order[o].end));
        assert(hleq(order[o], order[i]));
        assert(order.contains(order[o]));
        assert(hits.contains(order[o]));
        let j = choose|j: int| 0 <= j < hits.len() && hits[j] == order[o];
        assert(hits[j].start == order[o].start);
    }
}

} // verus!
