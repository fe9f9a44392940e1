//! Which function owns a source line: line ranges per owner and line markers.
use vstd::prelude::*;
use crate::effect_summary::{opt_view, clone_opt, opt_str_eq};
use crate::text::{chars_lt, str_lt, lemma_chars_lt_irreflexive, lemma_chars_lt_transitive, lemma_chars_lt_total, lemma_chars_lt_asymmetric};

verus! {

/// The order of owners: no owner first, then owner names lexicographically.
pub open spec fn owner_lt(a: Option<Seq<char>>, b: Option<Seq<char>>) -> bool {
    match (a, b) {
        (None, Some(_)) => true,
        (Some(x), Some(y)) => chars_lt(x, y),
        _ => false,
    }
}

pub proof fn lemma_owner_lt_total(a: Option<Seq<char>>, b: Option<Seq<char>>)
    ensures
        a == b || owner_lt(a, b) || owner_lt(b, a),
{
    if let (Some(x), Some(y)) = (a, b) {
        lemma_chars_lt_total(x, y);
    }
}

pub proof fn lemma_owner_lt_transitive(a: Option<Seq<char>>, b: Option<Seq<char>>, c: Option<Seq<char>>)
    requires
        owner_lt(a, b),
        owner_lt(b, c),
    ensures
        owner_lt(a, c),
{
    if let (Some(x), Some(y), Some(z)) = (a, b, c) {
        lemma_chars_lt_transitive(x, y, z);
    }
}

pub proof fn lemma_owner_lt_irreflexive(a: Option<Seq<char>>)
    ensures
        !owner_lt(a, a),
{
    if let Some(x) = a {
        lemma_chars_lt_irreflexive(x);
    }
}

pub fn owner_precedes(a: &Option<String>, b: &Option<String>) -> (res: bool)
    ensures
        res == owner_lt(opt_view(*a), opt_view(*b)),
{
    match (a, b) {
        (None, Some(_)) => true,
        (Some(x), Some(y)) => str_lt(x, y),
        _ => false,
    }
}

/// One owner's line range: the owner and its first and last line.
pub type SpecOwnerRange = (Option<Seq<char>>, int, int);

/// The first and last line seen for each owner, in owner order.
#[derive(Debug, Clone)]
pub struct OwnerRanges {
    entries: Vec<(Option<String>, usize, usize)>,
}

impl View for OwnerRanges {
    type V = Seq<SpecOwnerRange>;

    closed spec fn view(&self) -> Seq<SpecOwnerRange> {
        self.entries@.map_values(
            |e: (Option<String>, usize, usize)| (opt_view(e.0), e.1 as int, e.2 as int),
        )
    }
}

/// The range of `owner` in `ranges`, if it has one.
pub open spec fn range_of(ranges: Seq<SpecOwnerRange>, owner: Option<Seq<char>>) -> Option<(int, int)> {
    if exists|i: int| 0 <= i < ranges.len() && ranges[i].0 == owner {
        let i = choose|i: int| 0 <= i < ranges.len() && ranges[i].0 == owner;
        Some((ranges[i].1, ranges[i].2))
    } else {
        None
    }
}

impl OwnerRanges {
    /// Entries are in strictly increasing owner order and each range has start <= end.
    pub open spec fn wf(&self) -> bool {
        &&& forall|i: int, j: int| 0 <= i < j < self@.len() ==> owner_lt(self@[i].0, self@[j].0)
        &&& forall|i: int| 0 <= i < self@.len() ==> self@[i].1 <= self@[i].2
    }

    /// No owner has a range yet.
    pub fn new() -> (res: OwnerRanges)
        ensures
            res.wf(),
            res@ == Seq::<SpecOwnerRange>::empty(),
    {
        let r = OwnerRanges { entries: Vec::new() };
        assert(r@ =~= Seq::<SpecOwnerRange>::empty());
        r
    }
}

/// Widens the range of `owner` to include `line`, starting it at `line` if the owner has none.
pub fn extend_owner_range(ranges: &mut OwnerRanges, owner: Option<String>, line: usize)
    requires
        old(ranges).wf(),
    ensures
        final(ranges).wf(),
        range_of(final(ranges)@, opt_view(owner)) == Some(
            match range_of(old(ranges)@, opt_view(owner)) {
                Some((s, e)) => (
                    if line < s {
                        line as int
                    } else {
                        s
                    },
                    if line > e {
                        line as int
                    } else {
                        e
                    },
                ),
                None => (line as int, line as int),
            },
        ),
        forall|o: Option<Seq<char>>|
            o != opt_view(owner) ==> range_of(final(ranges)@, o) == range_of(old(ranges)@, o),
{
    let ghost key = opt_view(owner);
    let ghost old_view = ranges@;
    let n = ranges.entries.len();
    let mut i: usize = 0;
    while i < n && owner_precedes(&ranges.entries[i].0, &owner)
        invariant
            n == ranges.entries@.len(),
            i <= n,
            ranges@ == old_view,
            ranges.wf(),
            key == opt_view(owner),
            forall|j: int| 0 <= j < i ==> owner_lt(old_view[j].0, key),
        decreases n - i,
    {
        i = i + 1;
    }
    assert(forall|j: int| 0 <= j < old_view.len() ==> old_view[j] == (
        opt_view(ranges.entries@[j].0),
        ranges.entries@[j].1 as int,
        ranges.entries@[j].2 as int,
    ));
    if i < n && opt_str_eq(&ranges.entries[i].0, &owner) {
        let s = ranges.entries[i].1;
        let e = ranges.entries[i].2;
        let ns = if line < s {
            line
        } else {
            s
        };
        let ne = if line > e {
            line
        } else {
            e
        };
        ranges.entries.set(i, (clone_opt(&ranges.entries[i].0), ns, ne));
        proof {
            let new_view = ranges@;
            assert(new_view =~= old_view.update(i as int, (key, ns as int, ne as int)));
            assert(range_of(old_view, key) == Some((old_view[i as int].1, old_view[i as int].2))) by {
                let w = choose|w: int| 0 <= w < old_view.len() && old_view[w].0 == key;
                if w != i {
                    if w < i {
                        lemma_owner_lt_irreflexive(key);
                    } else {
                        lemma_owner_lt_irreflexive(key);
                    }
                }
            }
            assert(range_of(new_view, key) == Some((ns as int, ne as int))) by {
                assert(new_view[i as int].0 == key);
                let w = choose|w: int| 0 <= w < new_view.len() && new_view[w].0 == key;
                if w != i {
                    lemma_owner_lt_irreflexive(key);
                }
            }
            assert forall|o: Option<Seq<char>>| o != key implies range_of(new_view, o) == range_of(
                old_view,
                o,
            ) by {
                if exists|k: int| 0 <= k < old_view.len() && old_view[k].0 == o {
                    let a = choose|k: int| 0 <= k < old_view.len() && old_view[k].0 == o;
                    assert(new_view[a].0 == o);
                    let b = choose|k: int| 0 <= k < new_view.len() && new_view[k].0 == o;
                    if a != b {
                        if a < b {
                            lemma_owner_lt_irreflexive(o);
                        } else {
                            lemma_owner_lt_irreflexive(o);
                        }
                    }
                } else {
                    assert forall|k: int| 0 <= k < new_view.len() implies new_view[k].0 != o by {
                        if k != i {
                            assert(new_view[k] == old_view[k]);
                        }
                    }
                }
            }
        }
        return;
    }
    proof {
        if i < n {
            lemma_owner_lt_total(old_view[i as int].0, key);
        }
    }
    ranges.entries.insert(i, (owner, line, line));
    proof {
        let new_view = ranges@;
        assert(new_view =~= old_view.insert(i as int, (key, line as int, line as int)));
        assert forall|a: int, b: int| 0 <= a < b < new_view.len() implies owner_lt(
            new_view[a].0,
            new_view[b].0,
        ) by {
            if b < i {
            } else if b == i {
            } else if a < i {
                lemma_owner_lt_transitive(old_view[a].0, key, old_view[i as int].0);
                if b - 1 > i {
                    lemma_owner_lt_transitive(old_view[a].0, old_view[i as int].0, old_view[b - 1].0);
                }
            } else if a == i {
                if b - 1 > i {
                    lemma_owner_lt_transitive(key, old_view[i as int].0, old_view[b - 1].0);
                }
            } else {
            }
        }
        assert forall|k: int| 0 <= k < old_view.len() implies old_view[k].0 != key by {
            if k < i {
                lemma_owner_lt_irreflexive(key);
            } else {
                if k > i {
                    lemma_owner_lt_transitive(key, old_view[i as int].0, old_view[k].0);
                }
                lemma_owner_lt_irreflexive(key);
            }
        }
        assert(range_of(new_view, key) == Some((line as int, line as int))) by {
            assert(new_view[i as int].0 == key);
            let w = choose|w: int| 0 <= w < new_view.len() && new_view[w].0 == key;
            if w < i {
                assert(new_view[w] == old_view[w]);
            } else if w > i {
                assert(new_view[w] == old_view[w - 1]);
            }
        }
        assert forall|o: Option<Seq<char>>| o != key implies range_of(new_view, o) == range_of(
            old_view,
            o,
        ) by {
            if exists|k: int| 0 <= k < old_view.len() && old_view[k].0 == o {
                let a = choose|k: int| 0 <= k < old_view.len() && old_view[k].0 == o;
                let a2 = if a < i {
                    a
                } else {
                    a + 1
                };
                assert(new_view[a2].0 == o);
                let b = choose|k: int| 0 <= k < new_view.len() && new_view[k].0 == o;
                if b != a2 {
                    if b < a2 {
                        lemma_owner_lt_irreflexive(o);
                    } else {
                        lemma_owner_lt_irreflexive(o);
                    }
                }
            } else {
                assert forall|k: int| 0 <= k < new_view.len() implies new_view[k].0 != o by {
                    if k < i {
                        assert(new_view[k] == old_view[k]);
                    } else if k > i {
                        assert(new_view[k] == old_view[k - 1]);
                    }
                }
            }
        }
    }
}

/// Owner `o` has a range, and it holds `line`.
pub open spec fn covers(range: spec_fn(Option<Seq<char>>) -> Option<(int, int)>, o: Seq<char>, line: int) -> bool {
    range(Some(o)) matches Some((s, e)) && s <= line <= e
}

/// The owner of `line`: the least owner name (in owner order) whose range holds the line;
/// failing that, the owner of the last marker at or before the line.
pub open spec fn spec_owner_for_line(
    range: spec_fn(Option<Seq<char>>) -> Option<(int, int)>,
    markers: Seq<(int, Option<Seq<char>>)>,
    line: int,
) -> Option<Seq<char>> {
    if exists|o: Seq<char>| covers(range, o, line) {
        Some(choose|o: Seq<char>| covers(range, o, line) && forall|o2: Seq<char>| covers(range, o2, line) ==> !chars_lt(o2, o))
    } else if exists|k: int| 0 <= k < markers.len() && markers[k].0 <= line {
        let k = choose|k: int|
            0 <= k < markers.len() && markers[k].0 <= line && forall|j: int|
                k < j < markers.len() ==> markers[j].0 > line;
        markers[k].1
    } else {
        None
    }
}

/// The view of a list of line markers.
pub open spec fn markers_view(markers: Seq<(usize, Option<String>)>) -> Seq<(int, Option<Seq<char>>)> {
    markers.map_values(|m: (usize, Option<String>)| (m.0 as int, opt_view(m.1)))
}

/// The owner of `line`.
pub fn owner_for_line(ranges: &OwnerRanges, markers: &[(usize, Option<String>)], line: usize) -> (res:
    Option<String>)
    requires
        ranges.wf(),
    ensures
        opt_view(res) == spec_owner_for_line(|o: Option<Seq<char>>| range_of(ranges@, o), markers_view(markers@), line as int),
{
    let ghost rv = ranges@;
    let ghost range = |o: Option<Seq<char>>| range_of(ranges@, o);
    proof {
        assert forall|i: int| 0 <= i < rv.len() implies #[trigger] range_of(rv, rv[i].0) == Some((rv[i].1, rv[i].2)) by {
            let w = choose|w: int| 0 <= w < rv.len() && rv[w].0 == rv[i].0;
            if w != i {
                lemma_owner_lt_irreflexive(rv[i].0);
            }
        }
    }
    let n = ranges.entries.len();
    let mut i: usize = 0;
    while i < n
        invariant
            n == ranges.entries@.len(),
            rv == ranges@,
            range == (|o: Option<Seq<char>>| range_of(ranges@, o)),
            ranges.wf(),
            i <= n,
            forall|j: int| 0 <= j < i ==> !(rv[j].0 is Some && rv[j].1 <= line <= rv[j].2),
            forall|q: int| 0 <= q < rv.len() ==> #[trigger] range_of(rv, rv[q].0) == Some((rv[q].1, rv[q].2)),
        decreases n - i,
    {
        let e = &ranges.entries[i];
        assert(rv[i as int] == (opt_view(e.0), e.1 as int, e.2 as int));
        if e.0.is_some() && e.1 <= line && line <= e.2 {
            let r = clone_opt(&e.0);
            proof {
                let o = rv[i as int].0->0;
                assert(rv[i as int].0 == Some(o));
                assert(range_of(rv, rv[i as int].0) == Some((rv[i as int].1, rv[i as int].2)));
                assert(range(Some(o)) == Some((rv[i as int].1, rv[i as int].2)));
                assert(covers(range, o, line as int));
                assert forall|o2: Seq<char>| covers(range, o2, line as int) implies !chars_lt(o2, o) by {
                    assert(range_of(rv, Some(o2)) is Some);
                    let w = choose|w: int| 0 <= w < rv.len() && rv[w].0 == Some(o2);
                    assert(range_of(rv, Some(o2)) == Some((rv[w].1, rv[w].2)));
                    if w < i {
                    } else if w > i {
                        assert(owner_lt(rv[i as int].0, rv[w].0));
                        lemma_chars_lt_asymmetric(o, o2);
                    } else {
                        lemma_chars_lt_irreflexive(o);
                    }
                }
                let c = choose|c: Seq<char>| covers(range, c, line as int) && forall|o2: Seq<char>| covers(range, o2, line as int) ==> !chars_lt(o2, c);
                if c != o {
                    lemma_chars_lt_total(c, o);
                }
            }
            return r;
        }
        i = i + 1;
    }
    proof {
        assert forall|o: Seq<char>| !covers(range, o, line as int) by {
            if covers(range, o, line as int) {
                assert(range_of(rv, Some(o)) is Some);
                let w = choose|w: int| 0 <= w < rv.len() && rv[w].0 == Some(o);
                assert(range_of(rv, Some(o)) == Some((rv[w].1, rv[w].2)));
            }
        }
    }
    let ghost mv = markers_view(markers@);
    let m = markers.len();
    let mut k: usize = m;
    while k > 0
        invariant
            m == markers@.len(),
            mv == markers_view(markers@),
            rv == ranges@,
            range == (|o: Option<Seq<char>>| range_of(ranges@, o)),
            k <= m,
            forall|o: Seq<char>| !covers(range, o, line as int),
            forall|j: int| k <= j < m ==> mv[j].0 > line,
        decreases k,
    {
        let idx = k - 1;
        assert(mv[idx as int] == (markers@[idx as int].0 as int, opt_view(markers@[idx as int].1)));
        if markers[idx].0 <= line {
            let r = clone_opt(&markers[idx].1);
            proof {
                let w = choose|w: int|
                    0 <= w < mv.len() && mv[w].0 <= line && forall|j: int|
                        w < j < mv.len() ==> mv[j].0 > line;
                assert(0 <= idx < mv.len() && mv[idx as int].0 <= line && forall|j: int|
                    idx < j < mv.len() ==> mv[j].0 > line);
                if w < idx {
                } else if w > idx {
                }
            }
            return r;
        }
        k = idx;
    }
    None
}

/// The range an owner has after extending ranges by each `(owner, line)` in turn.
pub open spec fn spec_range_after(items: Seq<(Option<Seq<char>>, int)>, o: Option<Seq<char>>) -> Option<(int, int)>
    decreases items.len(),
{
    if items.len() == 0 {
        None
    } else {
        let prev = spec_range_after(items.drop_last(), o);
        let (owner, line) = items.last();
        if owner == o {
            Some(
                match prev {
                    Some((s, e)) => (
                        if line < s {
                            line
                        } else {
                            s
                        },
                        if line > e {
                            line
                        } else {
                            e
                        },
                    ),
                    None => (line, line),
                },
            )
        } else {
            prev
        }
    }
}

/// The line ranges of the owners of the given `(owner, line)` items.
pub fn owner_line_ranges(items: &[(Option<String>, usize)]) -> (res: OwnerRanges)
    ensures
        res.wf(),
        forall|o: Option<Seq<char>>|
            range_of(res@, o) == spec_range_after(
                items@.map_values(|x: (Option<String>, usize)| (opt_view(x.0), x.1 as int)),
                o,
            ),
{
    let ghost iv = items@.map_values(|x: (Option<String>, usize)| (opt_view(x.0), x.1 as int));
    let mut ranges = OwnerRanges::new();
    let n = items.len();
    let mut i: usize = 0;
    assert(iv.take(0) =~= Seq::<(Option<Seq<char>>, int)>::empty());
    assert forall|o: Option<Seq<char>>| range_of(ranges@, o) == spec_range_after(iv.take(0), o) by {}
    while i < n
        invariant
            n == items@.len(),
            i <= n,
            iv == items@.map_values(|x: (Option<String>, usize)| (opt_view(x.0), x.1 as int)),
            ranges.wf(),
            forall|o: Option<Seq<char>>| range_of(ranges@, o) == spec_range_after(iv.take(i as int), o),
        decreases n - i,
    {
        extend_owner_range(&mut ranges, clone_opt(&items[i].0), items[i].1);
        proof {
            assert(iv.take(i + 1).drop_last() =~= iv.take(i as int));
            assert(iv.take(i + 1).last() == iv[i as int]);
        }
        i = i + 1;
    }
    assert(iv.take(n as int) =~= iv);
    ranges
}

} // verus!
