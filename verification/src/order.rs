//! The order of strings: lexicographic by character, which is the order of
//! their UTF-8 bytes, and sorted lists of distinct names in that order.
use vstd::prelude::*;
use crate::text::chars_of;

verus! {

/// `a` comes strictly before `b`: at the first differing position `a` has
/// the smaller character, or `a` is a proper prefix of `b`.
pub open spec fn lex_lt(a: Seq<char>, b: Seq<char>) -> bool
    decreases a.len(),
{
    if a.len() == 0 {
        b.len() > 0
    } else if b.len() == 0 {
        false
    } else if (a[0] as int) < (b[0] as int) {
        true
    } else if a[0] == b[0] {
        lex_lt(a.drop_first(), b.drop_first())
    } else {
        false
    }
}

/// The characters of each string of a list.
pub open spec fn texts(v: Seq<String>) -> Seq<Seq<char>> {
    v.map_values(|s: String| s@)
}

/// Every earlier name comes strictly before every later one.
pub open spec fn strictly_sorted(s: Seq<Seq<char>>) -> bool {
    forall|i: int, j: int| 0 <= i < j < s.len() ==> lex_lt(#[trigger] s[i], #[trigger] s[j])
}

pub proof fn lemma_lex_irreflexive(a: Seq<char>)
    ensures
        !lex_lt(a, a),
    decreases a.len(),
{
    if a.len() > 0 {
        lemma_lex_irreflexive(a.drop_first());
    }
}

pub proof fn lemma_lex_transitive(a: Seq<char>, b: Seq<char>, c: Seq<char>)
    requires
        lex_lt(a, b),
        lex_lt(b, c),
    ensures
        lex_lt(a, c),
    decreases a.len(),
{
    if a.len() > 0 && b.len() > 0 && c.len() > 0 {
        if a[0] == b[0] && b[0] == c[0] {
            lemma_lex_transitive(a.drop_first(), b.drop_first(), c.drop_first());
        }
    }
}

/// Two different names are ordered one way or the other.
pub proof fn lemma_lex_total(a: Seq<char>, b: Seq<char>)
    requires
        a != b,
    ensures
        lex_lt(a, b) || lex_lt(b, a),
    decreases a.len(),
{
    if a.len() > 0 && b.len() > 0 && a[0] == b[0] {
        if a.drop_first() == b.drop_first() {
            assert(a =~= seq![a[0]] + a.drop_first());
            assert(b =~= seq![b[0]] + b.drop_first());
        }
        lemma_lex_total(a.drop_first(), b.drop_first());
    } else if a.len() == 0 && b.len() == 0 {
        assert(a =~= b);
    } else if a.len() > 0 && b.len() > 0 {
        assert((a[0] as int) != (b[0] as int));
    }
}

proof fn lemma_lex_skip(a: Seq<char>, b: Seq<char>, i: int)
    requires
        0 <= i <= a.len(),
        i <= b.len(),
        a.subrange(0, i) == b.subrange(0, i),
    ensures
        lex_lt(a, b) == lex_lt(a.subrange(i, a.len() as int), b.subrange(i, b.len() as int)),
    decreases i,
{
    if i > 0 {
        assert(a[0] == a.subrange(0, i)[0]);
        assert(b[0] == b.subrange(0, i)[0]);
        assert(a.drop_first().subrange(0, i - 1) =~= a.subrange(0, i).drop_first());
        assert(b.drop_first().subrange(0, i - 1) =~= b.subrange(0, i).drop_first());
        lemma_lex_skip(a.drop_first(), b.drop_first(), i - 1);
        assert(a.drop_first().subrange(i - 1, a.len() - 1) =~= a.subrange(i, a.len() as int));
        assert(b.drop_first().subrange(i - 1, b.len() - 1) =~= b.subrange(i, b.len() as int));
    } else {
        assert(a.subrange(0, a.len() as int) =~= a);
        assert(b.subrange(0, b.len() as int) =~= b);
    }
}

/// Whether `a` comes strictly before `b` (`<` on strings).
pub fn str_lt(a: &str, b: &str) -> (r: bool)
    ensures
        r == lex_lt(a@, b@),
{
    let x = chars_of(a);
    let y = chars_of(b);
    let mut i: usize = 0;
    while i < x.len() && i < y.len() && x[i] == y[i]
        invariant
            i <= x@.len(),
            i <= y@.len(),
            x@ == a@,
            y@ == b@,
            x@.subrange(0, i as int) == y@.subrange(0, i as int),
        decreases x@.len() - i,
    {
        i = i + 1;
        assert(x@.subrange(0, i as int) =~= y@.subrange(0, i as int));
    }
    proof {
        lemma_lex_skip(x@, y@, i as int);
    }
    let ghost rx = x@.subrange(i as int, x@.len() as int);
    let ghost ry = y@.subrange(i as int, y@.len() as int);
    if i == x.len() {
        i < y.len()
    } else if i == y.len() {
        false
    } else {
        assert(rx[0] == x@[i as int] && ry[0] == y@[i as int]);
        x[i] < y[i]
    }
}

/// Adds a name to a strictly sorted list, where it is not there already.
pub fn insert_sorted_unique(list: &mut Vec<String>, name: &str)
    requires
        strictly_sorted(texts(old(list)@)),
    ensures
        strictly_sorted(texts(final(list)@)),
        texts(final(list)@).to_set() == texts(old(list)@).to_set().insert(name@),
{
    let ghost v0 = texts(list@);
    let mut p: usize = 0;
    while p < list.len() && str_lt(list[p].as_str(), name)
        invariant
            p <= list@.len(),
            texts(list@) == v0,
            strictly_sorted(v0),
            forall|k: int| 0 <= k < p ==> lex_lt(#[trigger] v0[k], name@),
        decreases list@.len() - p,
    {
        p = p + 1;
    }
    if p < list.len() && crate::text::str_eq(list[p].as_str(), name) {
        assert(v0[p as int] == name@);
        assert(v0.to_set().insert(name@) =~= v0.to_set());
        return;
    }
    proof {
        if p < v0.len() {
            assert(!lex_lt(v0[p as int], name@));
            assert(v0[p as int] != name@);
            lemma_lex_total(v0[p as int], name@);
            assert(lex_lt(name@, v0[p as int]));
            assert forall|k: int| p < k < v0.len() implies lex_lt(name@, #[trigger] v0[k]) by {
                lemma_lex_transitive(name@, v0[p as int], v0[k]);
            }
        }
    }
    list.insert(p, String::from_str(name));
    let ghost v1 = texts(list@);
    assert(v1 =~= v0.insert(p as int, name@));
    assert forall|i: int, j: int| 0 <= i < j < v1.len() implies lex_lt(#[trigger] v1[i], #[trigger] v1[j]) by {
        if j < p {
        } else if j == p {
        } else if i < p {
            assert(v1[j] == v0[j - 1]);
            assert(lex_lt(v0[i], v0[j - 1]));
        } else if i == p {
            assert(v1[j] == v0[j - 1]);
        } else {
            assert(v1[i] == v0[i - 1] && v1[j] == v0[j - 1]);
        }
    }
    assert forall|x: Seq<char>| v1.to_set().contains(x) <==> v0.to_set().insert(name@).contains(x) by {
        if v1.to_set().contains(x) {
            let k = choose|k: int| 0 <= k < v1.len() && v1[k] == x;
            if k < p {
                assert(v0[k] == x);
            } else if k > p {
                assert(v0[k - 1] == x);
            }
        }
        if v0.to_set().contains(x) && x != name@ {
            let k = choose|k: int| 0 <= k < v0.len() && v0[k] == x;
            if k < p {
                assert(v1[k] == x);
            } else {
                assert(v1[k + 1] == x);
            }
        }
        if x == name@ {
            assert(v1[p as int] == x);
        }
    }
    assert(v1.to_set() =~= v0.to_set().insert(name@));
}

} // verus!

verus! {

proof fn lemma_to_set_push(s: Seq<Seq<char>>, x: Seq<char>)
    ensures
        s.push(x).to_set() == s.to_set().insert(x),
{
    assert forall|y: Seq<char>| s.push(x).to_set().contains(y) <==> s.to_set().insert(x).contains(y) by {
        if s.push(x).to_set().contains(y) && y != x {
            let k = choose|k: int| 0 <= k < s.push(x).len() && s.push(x)[k] == y;
            assert(s[k] == y);
        }
        if s.to_set().contains(y) {
            let k = choose|k: int| 0 <= k < s.len() && s[k] == y;
            assert(s.push(x)[k] == y);
        }
        if y == x {
            assert(s.push(x)[s.len() as int] == y);
        }
    }
    assert(s.push(x).to_set() =~= s.to_set().insert(x));
}

/// The names of a list in order, distinct and strictly sorted, with `name`
/// added: what sorting and deduplicating the list with `name` gives.
pub fn sorted_names_with(list: &Vec<String>, name: &str) -> (r: Vec<String>)
    ensures
        strictly_sorted(texts(r@)),
        texts(r@).to_set() == texts(list@).to_set().insert(name@),
{
    let mut out: Vec<String> = Vec::new();
    let mut j: usize = 0;
    assert(texts(out@).to_set() =~= texts(list@).subrange(0, 0).to_set());
    while j < list.len()
        invariant
            j <= list@.len(),
            strictly_sorted(texts(out@)),
            texts(out@).to_set() == texts(list@).subrange(0, j as int).to_set(),
        decreases list@.len() - j,
    {
        insert_sorted_unique(&mut out, list[j].as_str());
        proof {
            assert(texts(list@).subrange(0, j + 1) =~= texts(list@).subrange(0, j as int).push(list@[j as int]@));
            lemma_to_set_push(texts(list@).subrange(0, j as int), list@[j as int]@);
        }
        j = j + 1;
    }
    assert(texts(list@).subrange(0, list@.len() as int) =~= texts(list@));
    insert_sorted_unique(&mut out, name);
    out
}

/// Names other than `name`.
pub open spec fn other_text(name: Seq<char>) -> spec_fn(Seq<char>) -> bool {
    |n: Seq<char>| n != name
}

/// The list without the entries equal to `name`, in order.
pub fn without_name(list: &Vec<String>, name: &str) -> (r: Vec<String>)
    ensures
        texts(r@) == texts(list@).filter(other_text(name@)),
{
    let ghost all = texts(list@);
    let ghost keep = other_text(name@);
    let mut out: Vec<String> = Vec::new();
    let mut j: usize = 0;
    assert(texts(out@) =~= all.subrange(0, 0).filter(keep)) by {
        reveal(Seq::filter);
    }
    while j < list.len()
        invariant
            j <= list@.len(),
            all == texts(list@),
            keep == other_text(name@),
            texts(out@) == all.subrange(0, j as int).filter(keep),
        decreases list@.len() - j,
    {
        let ghost before = texts(out@);
        assert(all.subrange(0, j + 1) =~= all.subrange(0, j as int).push(all[j as int]));
        proof {
            all.subrange(0, j as int).lemma_filter_push(all[j as int], keep);
        }
        if !crate::text::str_eq(list[j].as_str(), name) {
            out.push(String::from_str(list[j].as_str()));
            assert(texts(out@) =~= before.push(all[j as int]));
        }
        j = j + 1;
    }
    assert(all.subrange(0, all.len() as int) =~= all);
    out
}

} // verus!
