//! Lexicographic order on texts and strictly ascending sequences of texts.

use vstd::prelude::*;
use crate::text::chars_of;

verus! {

/// Strict lexicographic order by character code; a proper prefix comes first.
pub open spec fn lex_lt(a: Seq<char>, b: Seq<char>) -> bool
    decreases a.len(),
{
    if b.len() == 0 {
        false
    } else if a.len() == 0 {
        true
    } else if a[0] != b[0] {
        (a[0] as int) < (b[0] as int)
    } else {
        lex_lt(a.drop_first(), b.drop_first())
    }
}

/// No text comes before itself.
pub proof fn lemma_lex_irreflexive(a: Seq<char>)
    ensures
        !lex_lt(a, a),
    decreases a.len(),
{
    if a.len() > 0 {
        lemma_lex_irreflexive(a.drop_first());
    }
}

/// Of two different texts exactly one comes first.
pub proof fn lemma_lex_total(a: Seq<char>, b: Seq<char>)
    ensures
        a == b || lex_lt(a, b) || lex_lt(b, a),
        !(lex_lt(a, b) && lex_lt(b, a)),
    decreases a.len(),
{
    if a.len() == 0 || b.len() == 0 {
        if a.len() == 0 && b.len() == 0 {
            assert(a =~= b);
        }
    } else if a[0] == b[0] {
        lemma_lex_total(a.drop_first(), b.drop_first());
        if a.drop_first() == b.drop_first() {
            assert(a =~= seq![a[0]] + a.drop_first());
            assert(b =~= seq![b[0]] + b.drop_first());
        }
    }
}

/// The order is transitive.
pub proof fn lemma_lex_transitive(a: Seq<char>, b: Seq<char>, c: Seq<char>)
    requires
        lex_lt(a, b),
        lex_lt(b, c),
    ensures
        lex_lt(a, c),
    decreases a.len(),
{
    if a.len() > 0 && b.len() > 0 && c.len() > 0 {
        if a[0] == b[0] && b[0] == c[0] {
            lemma_lex_transitive(a.drop_first(), b.drop_first(), c.drop_first());
        }
    }
}

/// How two texts stand to each other.
#[derive(Clone, Copy, Debug, PartialEq, Eq, Structural)]
pub enum Relation {
    /// The first comes before the second.
    Before,
    /// The two are the same text.
    Same,
    /// The first comes after the second.
    After,
}

/// The relation of `a` to `b` in lexicographic order.
pub open spec fn relation(a: Seq<char>, b: Seq<char>) -> Relation {
    if a == b {
        Relation::Same
    } else if lex_lt(a, b) {
        Relation::Before
    } else {
        Relation::After
    }
}

/// The code point of `c`.
pub(crate) fn code_of(c: char) -> (n: u32)
    ensures
        n as int == c as int,
{
    c as u32
}

/// Compares two texts lexicographically by character code.
pub fn compare_text(a: &str, b: &str) -> (r: Relation)
    ensures
        r == relation(a@, b@),
{
    let x = chars_of(a);
    let y = chars_of(b);
    let mut i: usize = 0;
    assert(x@.skip(0) =~= x@);
    assert(y@.skip(0) =~= y@);
    while i < x.len() && i < y.len()
        invariant
            i <= x.len(),
            i <= y.len(),
            x@ == a@,
            y@ == b@,
            x@.take(i as int) == y@.take(i as int),
            lex_lt(x@, y@) == lex_lt(x@.skip(i as int), y@.skip(i as int)),
            lex_lt(y@, x@) == lex_lt(y@.skip(i as int), x@.skip(i as int)),
        decreases x.len() - i,
    {
        let ghost xs = x@.skip(i as int);
        let ghost ys = y@.skip(i as int);
        assert(xs[0] == x@[i as int] && ys[0] == y@[i as int]);
        if x[i] != y[i] {
            proof {
                assert(x@.take(i + 1)[i as int] != y@.take(i + 1)[i as int]);
                if x@ == y@ {
                    assert(false);
                }
            }
            if code_of(x[i]) < code_of(y[i]) {
                return Relation::Before;
            } else {
                proof {
                    lemma_lex_total(x@, y@);
                }
                return Relation::After;
            }
        }
        proof {
            assert(xs.drop_first() =~= x@.skip(i + 1));
            assert(ys.drop_first() =~= y@.skip(i + 1));
            assert(x@.take(i + 1) =~= x@.take(i as int).push(x@[i as int]));
            assert(y@.take(i + 1) =~= y@.take(i as int).push(y@[i as int]));
        }
        i += 1;
    }
    proof {
        let xs = x@.skip(i as int);
        let ys = y@.skip(i as int);
        if i == x.len() && i == y.len() {
            assert(x@ =~= x@.take(i as int));
            assert(y@ =~= y@.take(i as int));
        } else if i == x.len() {
            assert(xs.len() == 0 && ys.len() > 0);
        } else {
            assert(ys.len() == 0 && xs.len() > 0);
            lemma_lex_total(x@, y@);
        }
    }
    if i == x.len() && i == y.len() {
        Relation::Same
    } else if i == x.len() {
        Relation::Before
    } else {
        Relation::After
    }
}

/// Every text comes strictly before all later ones, so nothing occurs twice.
pub open spec fn ascending(s: Seq<Seq<char>>) -> bool {
    forall|i: int, j: int| 0 <= i < j < s.len() ==> lex_lt(#[trigger] s[i], #[trigger] s[j])
}

/// Nothing occurs twice in an ascending sequence.
pub proof fn lemma_ascending_distinct(s: Seq<Seq<char>>)
    requires
        ascending(s),
    ensures
        s.no_duplicates(),
{
    assert forall|i: int, j: int| 0 <= i < s.len() && 0 <= j < s.len() && i != j implies s[i]
        != s[j] by {
        lemma_lex_irreflexive(s[i]);
        if i < j {
            assert(lex_lt(s[i], s[j]));
        } else {
            assert(lex_lt(s[j], s[i]));
        }
    }
}

/// The ascending sequence `s` with `x` put in its place, unless it is there already.
pub open spec fn insert_sorted(s: Seq<Seq<char>>, x: Seq<char>) -> Seq<Seq<char>>
    decreases s.len(),
{
    if s.len() == 0 {
        seq![x]
    } else if s.last() == x {
        s
    } else if lex_lt(s.last(), x) {
        s.push(x)
    } else {
        insert_sorted(s.drop_last(), x).push(s.last())
    }
}

/// The distinct texts of `tags` in ascending order.
pub open spec fn sorted_distinct(tags: Seq<Seq<char>>) -> Seq<Seq<char>>
    decreases tags.len(),
{
    if tags.len() == 0 {
        Seq::empty()
    } else {
        insert_sorted(sorted_distinct(tags.drop_last()), tags.last())
    }
}

/// Inserting into an ascending sequence keeps it ascending and adds exactly `x`.
pub proof fn lemma_insert_sorted(s: Seq<Seq<char>>, x: Seq<char>)
    requires
        ascending(s),
    ensures
        ascending(insert_sorted(s, x)),
        forall|t: Seq<char>|
            #![trigger insert_sorted(s, x).contains(t)]
            #![trigger s.contains(t)]
            insert_sorted(s, x).contains(t) <==> (s.contains(t) || t == x),
    decreases s.len(),
{
    let r = insert_sorted(s, x);
    if s.len() == 0 {
        assert forall|t: Seq<char>| r.contains(t) <==> (s.contains(t) || t == x) by {
            if r.contains(t) {
                let i = choose|i: int| 0 <= i < r.len() && r[i] == t;
            }
            if t == x {
                assert(r[0] == t);
            }
        }
    } else if s.last() == x {
        assert forall|t: Seq<char>| r.contains(t) <==> (s.contains(t) || t == x) by {
            if t == x {
                assert(s[s.len() - 1] == t);
            }
        }
    } else if lex_lt(s.last(), x) {
        assert forall|i: int, j: int| 0 <= i < j < r.len() implies lex_lt(
            #[trigger] r[i],
            #[trigger] r[j],
        ) by {
            if j == s.len() {
                if i < s.len() - 1 {
                    assert(lex_lt(s[i], s[s.len() - 1]));
                    lemma_lex_transitive(s[i], s.last(), x);
                }
            } else {
                assert(lex_lt(s[i], s[j]));
            }
        }
        assert forall|t: Seq<char>| r.contains(t) <==> (s.contains(t) || t == x) by {
            if r.contains(t) {
                let i = choose|i: int| 0 <= i < r.len() && r[i] == t;
                if i < s.len() {
                    assert(s[i] == t);
                }
            }
            if s.contains(t) {
                let i = choose|i: int| 0 <= i < s.len() && s[i] == t;
                assert(r[i] == t);
            }
            if t == x {
                assert(r[s.len() as int] == t);
            }
        }
    } else {
        let head = s.drop_last();
        assert(ascending(head)) by {
            assert forall|i: int, j: int| 0 <= i < j < head.len() implies lex_lt(
                #[trigger] head[i],
                #[trigger] head[j],
            ) by {
                assert(lex_lt(s[i], s[j]));
            }
        }
        lemma_insert_sorted(head, x);
        let mid = insert_sorted(head, x);
        lemma_lex_total(s.last(), x);
        assert forall|i: int, j: int| 0 <= i < j < r.len() implies lex_lt(
            #[trigger] r[i],
            #[trigger] r[j],
        ) by {
            if j == mid.len() {
                assert(mid.contains(mid[i]));
                if head.contains(mid[i]) {
                    let k = choose|k: int| 0 <= k < head.len() && head[k] == mid[i];
                    assert(lex_lt(s[k], s[s.len() - 1]));
                }
            } else {
                assert(lex_lt(mid[i], mid[j]));
            }
        }
        assert forall|t: Seq<char>| r.contains(t) <==> (s.contains(t) || t == x) by {
            if r.contains(t) {
                let i = choose|i: int| 0 <= i < r.len() && r[i] == t;
                if i < mid.len() {
                    assert(mid.contains(t));
                    if head.contains(t) {
                        let k = choose|k: int| 0 <= k < head.len() && head[k] == t;
                        assert(s[k] == t);
                    }
                } else {
                    assert(s[s.len() - 1] == t);
                }
            }
            if s.contains(t) {
                let i = choose|i: int| 0 <= i < s.len() && s[i] == t;
                if i < head.len() {
                    assert(head[i] == t);
                    assert(head.contains(t));
                    assert(mid.contains(t));
                    let k = choose|k: int| 0 <= k < mid.len() && mid[k] == t;
                    assert(r[k] == t);
                } else {
                    assert(r[mid.len() as int] == t);
                }
            }
            if t == x {
                assert(mid.contains(t));
                let k = choose|k: int| 0 <= k < mid.len() && mid[k] == t;
                assert(r[k] == t);
            }
        }
    }
}

/// The result of `sorted_distinct` is ascending and holds exactly the texts of `tags`.
pub proof fn lemma_sorted_distinct(tags: Seq<Seq<char>>)
    ensures
        ascending(sorted_distinct(tags)),
        forall|t: Seq<char>|
            #![trigger sorted_distinct(tags).contains(t)]
            #![trigger tags.contains(t)]
            sorted_distinct(tags).contains(t) <==> tags.contains(t),
    decreases tags.len(),
{
    let r = sorted_distinct(tags);
    if tags.len() > 0 {
        let head = tags.drop_last();
        lemma_sorted_distinct(head);
        lemma_insert_sorted(sorted_distinct(head), tags.last());
        assert forall|t: Seq<char>| r.contains(t) <==> tags.contains(t) by {
            if tags.contains(t) {
                let i = choose|i: int| 0 <= i < tags.len() && tags[i] == t;
                if i < head.len() {
                    assert(head[i] == t);
                }
            }
            if head.contains(t) {
                let i = choose|i: int| 0 <= i < head.len() && head[i] == t;
                assert(tags[i] == t);
            }
            if t == tags.last() {
                assert(tags[tags.len() - 1] == t);
            }
        }
    } else {
        assert forall|t: Seq<char>| r.contains(t) <==> tags.contains(t) by {}
    }
}

/// An ascending sequence is the sorted, distinct form of itself.
pub proof fn lemma_sorted_distinct_fixed(s: Seq<Seq<char>>)
    requires
        ascending(s),
    ensures
        sorted_distinct(s) == s,
    decreases s.len(),
{
    if s.len() > 0 {
        let head = s.drop_last();
        assert forall|i: int, j: int| 0 <= i < j < head.len() implies lex_lt(
            #[trigger] head[i],
            #[trigger] head[j],
        ) by {
            assert(lex_lt(s[i], s[j]));
        }
        lemma_sorted_distinct_fixed(head);
        if head.len() > 0 {
            assert(lex_lt(s[head.len() - 1], s[s.len() - 1]));
            assert(head.last() == s[head.len() - 1]);
            lemma_lex_irreflexive(s.last());
        }
        assert(head.push(s.last()) =~= s);
    }
}

/// Two ascending sequences that hold the same texts are the same sequence.
pub proof fn lemma_ascending_unique(a: Seq<Seq<char>>, b: Seq<Seq<char>>)
    requires
        ascending(a),
        ascending(b),
        forall|t: Seq<char>| a.contains(t) <==> b.contains(t),
    ensures
        a == b,
    decreases a.len(),
{
    if a.len() == 0 {
        if b.len() > 0 {
            assert(b.contains(b[0]));
        }
        assert(a =~= b);
    } else if b.len() == 0 {
        assert(a.contains(a[0]));
    } else {
        let x = a.last();
        let y = b.last();
        assert(a.contains(x) && b.contains(y));
        let i = choose|i: int| 0 <= i < b.len() && b[i] == x;
        let j = choose|j: int| 0 <= j < a.len() && a[j] == y;
        lemma_lex_total(x, y);
        lemma_lex_irreflexive(x);
        lemma_lex_irreflexive(y);
        if x != y {
            if i < b.len() - 1 {
                assert(lex_lt(b[i], b[b.len() - 1]));
            }
            if j < a.len() - 1 {
                assert(lex_lt(a[j], a[a.len() - 1]));
            }
        }
        let ha = a.drop_last();
        let hb = b.drop_last();
        assert forall|p: int, q: int| 0 <= p < q < ha.len() implies lex_lt(
            #[trigger] ha[p],
            #[trigger] ha[q],
        ) by {
            assert(lex_lt(a[p], a[q]));
        }
        assert forall|p: int, q: int| 0 <= p < q < hb.len() implies lex_lt(
            #[trigger] hb[p],
            #[trigger] hb[q],
        ) by {
            assert(lex_lt(b[p], b[q]));
        }
        assert forall|t: Seq<char>| ha.contains(t) <==> hb.contains(t) by {
            if ha.contains(t) {
                let p = choose|p: int| 0 <= p < ha.len() && ha[p] == t;
                assert(a[p] == t && a.contains(t));
                assert(lex_lt(a[p], a[a.len() - 1]));
                let q = choose|q: int| 0 <= q < b.len() && b[q] == t;
                lemma_lex_irreflexive(t);
                assert(q < hb.len());
                assert(hb[q] == t);
            }
            if hb.contains(t) {
                let p = choose|p: int| 0 <= p < hb.len() && hb[p] == t;
                assert(b[p] == t && b.contains(t));
                assert(lex_lt(b[p], b[b.len() - 1]));
                let q = choose|q: int| 0 <= q < a.len() && a[q] == t;
                lemma_lex_irreflexive(t);
                assert(q < ha.len());
                assert(ha[q] == t);
            }
        }
        lemma_ascending_unique(ha, hb);
        assert(a =~= ha.push(x));
        assert(b =~= hb.push(y));
    }
}

/// With `p` the place of `x` in the ascending `s`, inserting puts `x` at `p`, or leaves
/// `s` as it is where `x` stands at `p` already.
pub proof fn lemma_insert_at(s: Seq<Seq<char>>, x: Seq<char>, p: int)
    requires
        ascending(s),
        0 <= p <= s.len(),
        forall|i: int| 0 <= i < p ==> lex_lt(#[trigger] s[i], x),
        p < s.len() ==> !lex_lt(s[p], x),
    ensures
        p < s.len() && s[p] == x ==> insert_sorted(s, x) == s,
        !(p < s.len() && s[p] == x) ==> insert_sorted(s, x) == s.insert(p, x),
    decreases s.len() - p,
{
    lemma_lex_irreflexive(x);
    if s.len() == 0 {
        assert(s.insert(0, x) =~= seq![x]);
    } else if p == s.len() {
        assert(lex_lt(s[s.len() - 1], x));
        assert(s.insert(p, x) =~= s.push(x));
    } else {
        assert(p < s.len());
        if p < s.len() - 1 {
            assert(lex_lt(s[p], s[s.len() - 1]));
            lemma_lex_total(s[p], x);
            if lex_lt(s.last(), x) {
                if s[p] == x {
                    lemma_lex_total(s[p], s.last());
                } else {
                    lemma_lex_transitive(s[p], s.last(), x);
                }
            }
            if s.last() == x {
                if s[p] != x {
                    assert(lex_lt(x, s[p]));
                    lemma_lex_transitive(x, s[p], s.last());
                }
            }
            assert(!lex_lt(s.last(), x) && s.last() != x);
            let head = s.drop_last();
            assert forall|i: int, j: int| 0 <= i < j < head.len() implies lex_lt(
                #[trigger] head[i],
                #[trigger] head[j],
            ) by {
                assert(lex_lt(s[i], s[j]));
            }
            assert forall|i: int| 0 <= i < p implies lex_lt(#[trigger] head[i], x) by {
                assert(head[i] == s[i]);
            }
            lemma_insert_at(head, x, p);
            if s[p] == x {
                assert(head.push(s.last()) =~= s);
            } else {
                assert(head.insert(p, x).push(s.last()) =~= s.insert(p, x));
            }
        } else {
            if s.last() != x {
                let head = s.drop_last();
                assert forall|i: int, j: int| 0 <= i < j < head.len() implies lex_lt(
                    #[trigger] head[i],
                    #[trigger] head[j],
                ) by {
                    assert(lex_lt(s[i], s[j]));
                }
                assert forall|i: int| 0 <= i < p implies lex_lt(#[trigger] head[i], x) by {
                    assert(head[i] == s[i]);
                }
                lemma_insert_at(head, x, p);
                assert(head.insert(p, x) =~= head.push(x));
                assert(head.push(x).push(s.last()) =~= s.insert(p, x));
            }
        }
    }
}

/// The distinct texts of `tags` in ascending order.
pub fn sort_distinct(tags: &Vec<String>) -> (r: Vec<String>)
    ensures
        r.deep_view() == sorted_distinct(tags.deep_view()),
{
    let mut r: Vec<String> = Vec::new();
    let mut i: usize = 0;
    assert(tags.deep_view().take(0) =~= Seq::<Seq<char>>::empty());
    assert(r.deep_view() =~= Seq::<Seq<char>>::empty());
    while i < tags.len()
        invariant
            i <= tags.len(),
            r.deep_view() == sorted_distinct(tags.deep_view().take(i as int)),
        decreases tags.len() - i,
    {
        let ghost before = r.deep_view();
        let ghost x = tags@[i as int]@;
        proof {
            let next = tags.deep_view().take(i + 1);
            assert(next.drop_last() =~= tags.deep_view().take(i as int));
            assert(next.last() == x);
            lemma_sorted_distinct(tags.deep_view().take(i as int));
        }
        let mut p: usize = 0;
        let mut found = false;
        let mut stop = false;
        while p < r.len() && !stop
            invariant
                p <= r.len(),
                i < tags.len(),
                x == tags@[i as int]@,
                before == r.deep_view(),
                forall|k: int| 0 <= k < p ==> lex_lt(#[trigger] before[k], x),
                stop ==> p < r.len() && !lex_lt(before[p as int], x),
                stop ==> found == (before[p as int] == x),
                !stop ==> !found,
            decreases r.len() - p, if stop { 0int } else { 1int },
        {
            match compare_text(r[p].as_str(), tags[i].as_str()) {
                Relation::Before => {
                    p += 1;
                },
                Relation::Same => {
                    proof {
                        lemma_lex_irreflexive(x);
                    }
                    found = true;
                    stop = true;
                },
                Relation::After => {
                    stop = true;
                },
            }
        }
        proof {
            lemma_insert_at(before, x, p as int);
        }
        if !found {
            r.insert(p, tags[i].clone());
            assert(r.deep_view() =~= before.insert(p as int, x));
        }
        i += 1;
    }
    assert(tags.deep_view().take(tags.len() as int) =~= tags.deep_view());
    r
}

} // verus!
