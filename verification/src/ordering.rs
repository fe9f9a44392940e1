//! A stable sort of tagged items by line and rank.
use vstd::prelude::*;

verus! {

/// An item to order: its line, its rank among items of the same line, and two payload numbers.
pub type LineItem = (usize, u8, usize, usize);

/// Item `a` may stay before item `b`: its line is smaller, or equal with a rank not larger.
pub open spec fn item_le(a: LineItem, b: LineItem) -> bool {
    a.0 < b.0 || (a.0 == b.0 && a.1 <= b.1)
}

/// `x` placed after the last item of `s` that may stay before it, scanning from the end.
pub open spec fn insert_stable(s: Seq<LineItem>, x: LineItem) -> Seq<LineItem>
    decreases s.len(),
{
    if s.len() == 0 || item_le(s.last(), x) {
        s.push(x)
    } else {
        insert_stable(s.drop_last(), x).push(s.last())
    }
}

/// The items ordered by line and rank, items that compare equal keeping their input order.
pub open spec fn sort_stable(s: Seq<LineItem>) -> Seq<LineItem>
    decreases s.len(),
{
    if s.len() == 0 {
        Seq::empty()
    } else {
        insert_stable(sort_stable(s.drop_last()), s.last())
    }
}

proof fn lemma_insert_at(s: Seq<LineItem>, x: LineItem, p: int)
    requires
        0 <= p <= s.len(),
        p == 0 || item_le(s[p - 1], x),
        forall|j: int| p <= j < s.len() ==> !item_le(s[j], x),
    ensures
        insert_stable(s, x) == s.insert(p, x),
    decreases s.len(),
{
    if s.len() == 0 {
        assert(s.insert(p, x) =~= s.push(x));
    } else if item_le(s.last(), x) {
        assert(p == s.len());
        assert(s.insert(p, x) =~= s.push(x));
    } else {
        lemma_insert_at(s.drop_last(), x, p);
        assert(s.drop_last().insert(p, x).push(s.last()) =~= s.insert(p, x));
    }
}

fn le(a: &LineItem, b: &LineItem) -> (res: bool)
    ensures
        res == item_le(*a, *b),
{
    a.0 < b.0 || (a.0 == b.0 && a.1 <= b.1)
}

/// The items ordered by line and rank, stably.
pub fn sort_line_items(items: &Vec<LineItem>) -> (res: Vec<LineItem>)
    ensures
        res@ == sort_stable(items@),
{
    let mut out: Vec<LineItem> = Vec::new();
    let n = items.len();
    let mut i: usize = 0;
    assert(items@.take(0) =~= Seq::<LineItem>::empty());
    while i < n
        invariant
            n == items@.len(),
            i <= n,
            out@ == sort_stable(items@.take(i as int)),
        decreases n - i,
    {
        let x = items[i];
        let mut p: usize = out.len();
        while p > 0 && !le(&out[p - 1], &x)
            invariant
                p <= out@.len(),
                forall|j: int| p <= j < out@.len() ==> !item_le(out@[j], x),
            decreases p,
        {
            p = p - 1;
        }
        proof {
            lemma_insert_at(out@, x, p as int);
            assert(items@.take(i + 1).drop_last() =~= items@.take(i as int));
            assert(items@.take(i + 1).last() == x);
        }
        out.insert(p, x);
        i = i + 1;
    }
    assert(items@.take(n as int) =~= items@);
    out
}

proof fn lemma_insert_elements(s: Seq<LineItem>, x: LineItem)
    ensures
        forall|y: LineItem| #[trigger] insert_stable(s, x).contains(y) ==> s.contains(y) || y == x,
        insert_stable(s, x).len() == s.len() + 1,
    decreases s.len(),
{
    if s.len() == 0 || item_le(s.last(), x) {
        assert forall|y: LineItem| #[trigger] s.push(x).contains(y) implies s.contains(y) || y == x by {
            let k = choose|k: int| 0 <= k < s.push(x).len() && s.push(x)[k] == y;
            if k < s.len() {
                assert(s[k] == y);
            }
        }
    } else {
        lemma_insert_elements(s.drop_last(), x);
        let t = insert_stable(s.drop_last(), x);
        assert forall|y: LineItem| #[trigger] t.push(s.last()).contains(y) implies s.contains(y) || y == x by {
            let k = choose|k: int| 0 <= k < t.push(s.last()).len() && t.push(s.last())[k] == y;
            if k < t.len() {
                assert(t.contains(y));
                if s.drop_last().contains(y) {
                    let q = choose|q: int| 0 <= q < s.drop_last().len() && s.drop_last()[q] == y;
                    assert(s[q] == y);
                }
            } else {
                assert(s[s.len() - 1] == y);
            }
        }
    }
}

/// Sorting keeps the length and only yields items of the input.
pub proof fn lemma_sort_elements(s: Seq<LineItem>)
    ensures
        sort_stable(s).len() == s.len(),
        forall|y: LineItem| #[trigger] sort_stable(s).contains(y) ==> s.contains(y),
    decreases s.len(),
{
    if s.len() > 0 {
        lemma_sort_elements(s.drop_last());
        lemma_insert_elements(sort_stable(s.drop_last()), s.last());
        assert forall|y: LineItem| #[trigger] sort_stable(s).contains(y) implies s.contains(y) by {
            if sort_stable(s.drop_last()).contains(y) {
                assert(s.drop_last().contains(y));
                let q = choose|q: int| 0 <= q < s.drop_last().len() && s.drop_last()[q] == y;
                assert(s[q] == y);
            } else {
                assert(s[s.len() - 1] == y);
            }
        }
    }
}

} // verus!
