//! Character-level text operations on `str` and `String`, stated over their
//! `Seq<char>` views.
use vstd::prelude::*;
use vstd::string::*;

verus! {

/// `s` begins with `prefix`.
pub open spec fn has_prefix(s: Seq<char>, prefix: Seq<char>) -> bool {
    prefix.len() <= s.len() && s.subrange(0, prefix.len() as int) == prefix
}

/// `s` ends with `suffix`.
pub open spec fn has_suffix(s: Seq<char>, suffix: Seq<char>) -> bool {
    suffix.len() <= s.len() && s.subrange(s.len() - suffix.len(), s.len() as int) == suffix
}

/// Whether `s` begins with `prefix`.
pub fn starts_with(s: &str, prefix: &str) -> (r: bool)
    ensures
        r == has_prefix(s@, prefix@),
{
    let n = s.unicode_len();
    let m = prefix.unicode_len();
    if m > n {
        return false;
    }
    let mut i: usize = 0;
    while i < m
        invariant
            n == s@.len(),
            m == prefix@.len(),
            m <= n,
            i <= m,
            forall|j: int| 0 <= j < i ==> s@[j] == prefix@[j],
        decreases m - i,
    {
        if s.get_char(i) != prefix.get_char(i) {
            assert(s@.subrange(0, m as int)[i as int] != prefix@[i as int]);
            return false;
        }
        i = i + 1;
    }
    assert(s@.subrange(0, m as int) =~= prefix@);
    true
}

/// Whether `s` ends with `suffix`.
pub fn ends_with(s: &str, suffix: &str) -> (r: bool)
    ensures
        r == has_suffix(s@, suffix@),
{
    let n = s.unicode_len();
    let m = suffix.unicode_len();
    if m > n {
        return false;
    }
    let off = n - m;
    let mut i: usize = 0;
    while i < m
        invariant
            n == s@.len(),
            m == suffix@.len(),
            off == n - m,
            i <= m,
            forall|j: int| 0 <= j < i ==> s@[off + j] == suffix@[j],
        decreases m - i,
    {
        if s.get_char(off + i) != suffix.get_char(i) {
            assert(s@.subrange(off as int, n as int)[i as int] != suffix@[i as int]);
            return false;
        }
        i = i + 1;
    }
    assert(s@.subrange(off as int, n as int) =~= suffix@);
    true
}

/// Whether `a` and `b` hold the same text.
pub fn text_eq(a: &str, b: &str) -> (r: bool)
    ensures
        r == (a@ == b@),
{
    if a.unicode_len() != b.unicode_len() {
        return false;
    }
    let r = starts_with(a, b);
    assert(a@.subrange(0, b@.len() as int) =~= a@);
    r
}

/// The characters of `s`, in order.
pub fn chars_of(s: &str) -> (v: Vec<char>)
    ensures
        v@ == s@,
{
    let n = s.unicode_len();
    let mut v: Vec<char> = Vec::new();
    let mut i: usize = 0;
    while i < n
        invariant
            n == s@.len(),
            i <= n,
            v@ == s@.subrange(0, i as int),
        decreases n - i,
    {
        v.push(s.get_char(i));
        i = i + 1;
        assert(v@ =~= s@.subrange(0, i as int));
    }
    assert(s@.subrange(0, n as int) =~= s@);
    v
}

/// The text of `s` from character `from` up to character `to`.
pub fn substring(s: &str, from: usize, to: usize) -> (r: String)
    requires
        from <= to <= s@.len(),
    ensures
        r@ == s@.subrange(from as int, to as int),
{
    String::from_str(s.substring_char(from, to))
}

/// `a` followed by `b`.
pub fn concat(a: &str, b: &str) -> (r: String)
    ensures
        r@ == a@ + b@,
{
    let mut r = String::from_str(a);
    r.append(b);
    r
}

/// The elements of `list` with `sep` between each two neighbours.
pub open spec fn seq_join(list: Seq<Seq<char>>, sep: Seq<char>) -> Seq<char>
    decreases list.len(),
{
    if list.len() == 0 {
        Seq::empty()
    } else if list.len() == 1 {
        list[0]
    } else {
        seq_join(list.drop_last(), sep) + sep + list.last()
    }
}

/// Joins `list` with `sep` between each two neighbours.
pub fn join(list: &Vec<String>, sep: &str) -> (r: String)
    ensures
        r@ == seq_join(list.deep_view(), sep@),
        list@.len() == 0 ==> r@ == Seq::<char>::empty(),
        list@.len() == 1 ==> r@ == list@[0]@,
        list@.len() == 2 ==> r@ == list@[0]@ + sep@ + list@[1]@,
{
    let ghost views = list.deep_view();
    let mut r = String::new();
    let n = list.len();
    let mut i: usize = 0;
    while i < n
        invariant
            n == list@.len(),
            views == list.deep_view(),
            i <= n,
            r@ == seq_join(views.take(i as int), sep@),
        decreases n - i,
    {
        if i != 0 {
            r.append(sep);
        }
        r.append(list[i].as_str());
        assert(views.take(i + 1).drop_last() =~= views.take(i as int));
        i = i + 1;
    }
    assert(views.take(n as int) =~= views);
    proof {
        if n >= 1 {
            assert(views[0] == list@[0]@);
        }
        if n == 2 {
            assert(views[1] == list@[1]@);
            assert(views.drop_last() =~= seq![views[0]]);
            assert(seq_join(views.drop_last(), sep@) == views[0]);
            assert(views.last() == views[1]);
        }
    }
    r
}

/// Lexicographic order on character sequences by code point, as `Ord` for
/// `str` orders text (UTF-8 preserves the code point order).
pub open spec fn lex_less(a: Seq<char>, b: Seq<char>) -> bool
    decreases a.len(),
{
    if a.len() == 0 {
        b.len() > 0
    } else if b.len() == 0 {
        false
    } else if a[0] != b[0] {
        (a[0] as int) < (b[0] as int)
    } else {
        lex_less(a.drop_first(), b.drop_first())
    }
}

/// `lex_less` never holds both ways, and holds one way between distinct sequences.
pub proof fn lemma_lex_less_total(a: Seq<char>, b: Seq<char>)
    ensures
        !(lex_less(a, b) && lex_less(b, a)),
        !lex_less(a, a),
        a != b ==> lex_less(a, b) || lex_less(b, a),
    decreases a.len(),
{
    if a.len() > 0 && b.len() > 0 {
        lemma_lex_less_total(a.drop_first(), b.drop_first());
        lemma_lex_less_total(a.drop_first(), a.drop_first());
        if a[0] == b[0] && a != b {
            assert(a =~= seq![a[0]] + a.drop_first());
            assert(b =~= seq![b[0]] + b.drop_first());
        }
        if a[0] != b[0] {
            assert((a[0] as int) != (b[0] as int));
        }
    } else if a.len() > 0 {
        lemma_lex_less_total(a.drop_first(), a.drop_first());
    } else if b.len() == 0 {
        assert(a =~= b);
    }
}

/// `lex_less` is transitive.
pub proof fn lemma_lex_less_transitive(a: Seq<char>, b: Seq<char>, c: Seq<char>)
    requires
        lex_less(a, b),
        lex_less(b, c),
    ensures
        lex_less(a, c),
    decreases a.len(),
{
    if a.len() > 0 && b.len() > 0 && c.len() > 0 {
        if a[0] == b[0] && b[0] == c[0] {
            lemma_lex_less_transitive(a.drop_first(), b.drop_first(), c.drop_first());
        }
    }
}

/// `a` comes before `b` exactly when `a` is a proper prefix of `b`, or at the
/// first place where they differ, the character of `a` has the smaller code
/// point.
pub proof fn lemma_lex_less_first_difference(a: Seq<char>, b: Seq<char>)
    ensures
        lex_less(a, b) <==> ((a.len() < b.len() && has_prefix(b, a)) || exists|i: int|
            0 <= i < a.len() && i < b.len() && a.take(i) == b.take(i) && (a[i] as int) < (
            b[i] as int)),
    decreases a.len(),
{
    if a.len() == 0 {
        assert(b.subrange(0, 0) =~= a);
    } else if b.len() == 0 {
    } else if a[0] != b[0] {
        assert(a.take(0) =~= b.take(0));
        if a.len() < b.len() && has_prefix(b, a) {
            assert(b.subrange(0, a.len() as int)[0] == b[0]);
        }
        if exists|i: int| 0 <= i < a.len() && i < b.len() && a.take(i) == b.take(i) && (a[i] as int) < (b[i] as int) {
            let i = choose|i: int| 0 <= i < a.len() && i < b.len() && a.take(i) == b.take(i) && (a[i] as int) < (b[i] as int);
            if i > 0 {
                assert(a.take(i)[0] == b.take(i)[0]);
            }
        }
    } else {
        let a1 = a.drop_first();
        let b1 = b.drop_first();
        lemma_lex_less_first_difference(a1, b1);
        if a1.len() < b1.len() && has_prefix(b1, a1) {
            assert(b.subrange(0, a.len() as int) =~= seq![a[0]] + b1.subrange(0, a1.len() as int));
            assert(a =~= seq![a[0]] + a1);
        }
        if a.len() < b.len() && has_prefix(b, a) {
            assert(b1.subrange(0, a1.len() as int) =~= b.subrange(0, a.len() as int).drop_first());
        }
        if exists|i: int| 0 <= i < a1.len() && i < b1.len() && a1.take(i) == b1.take(i) && (a1[i] as int) < (b1[i] as int) {
            let i = choose|i: int| 0 <= i < a1.len() && i < b1.len() && a1.take(i) == b1.take(i) && (a1[i] as int) < (b1[i] as int);
            assert(a.take(i + 1) =~= seq![a[0]] + a1.take(i));
            assert(b.take(i + 1) =~= seq![b[0]] + b1.take(i));
            assert(a[i + 1] == a1[i] && b[i + 1] == b1[i]);
        }
        if exists|i: int| 0 <= i < a.len() && i < b.len() && a.take(i) == b.take(i) && (a[i] as int) < (b[i] as int) {
            let i = choose|i: int| 0 <= i < a.len() && i < b.len() && a.take(i) == b.take(i) && (a[i] as int) < (b[i] as int);
            assert(i > 0);
            assert(a1.take(i - 1) =~= a.take(i).drop_first());
            assert(b1.take(i - 1) =~= b.take(i).drop_first());
            assert(a1[i - 1] == a[i] && b1[i - 1] == b[i]);
        }
    }
}

/// Whether `a` comes before `b` in the order of `lex_less`.
pub fn str_less(a: &str, b: &str) -> (r: bool)
    ensures
        r == lex_less(a@, b@),
        r <==> ((a@.len() < b@.len() && has_prefix(b@, a@)) || exists|i: int|
            0 <= i < a@.len() && i < b@.len() && a@.take(i) == b@.take(i) && (a@[i] as int) < (
            b@[i] as int)),
{
    proof {
        lemma_lex_less_first_difference(a@, b@);
    }
    let n = a.unicode_len();
    let m = b.unicode_len();
    let mut i: usize = 0;
    assert(a@.skip(0) =~= a@ && b@.skip(0) =~= b@);
    while i < n && i < m
        invariant
            n == a@.len(),
            m == b@.len(),
            i <= n,
            i <= m,
            forall|j: int| 0 <= j < i ==> a@[j] == b@[j],
            lex_less(a@, b@) == lex_less(a@.skip(i as int), b@.skip(i as int)),
            lex_less(a@, b@) <==> ((a@.len() < b@.len() && has_prefix(b@, a@)) || exists|k: int|
                0 <= k < a@.len() && k < b@.len() && a@.take(k) == b@.take(k) && (a@[k] as int) < (
                b@[k] as int)),
        decreases n - i,
    {
        let x = a.get_char(i);
        let y = b.get_char(i);
        assert(a@.skip(i as int)[0] == x && b@.skip(i as int)[0] == y);
        if x != y {
            return (x as u32) < (y as u32);
        }
        assert(a@.skip(i as int).drop_first() =~= a@.skip(i + 1));
        assert(b@.skip(i as int).drop_first() =~= b@.skip(i + 1));
        i = i + 1;
    }
    i < m && i == n
}

/// Every element of `s` comes before every later one.
pub open spec fn strictly_sorted(s: Seq<Seq<char>>) -> bool {
    forall|i: int, j: int| 0 <= i < j < s.len() ==> lex_less(#[trigger] s[i], #[trigger] s[j])
}

/// The strings of `v` in increasing order, each one kept once per occurrence
/// (`sort` on distinct strings).
pub fn sort_distinct(v: &Vec<String>) -> (r: Vec<String>)
    requires
        v.deep_view().no_duplicates(),
    ensures
        strictly_sorted(r.deep_view()),
        r.deep_view().to_multiset() == v.deep_view().to_multiset(),
        r@.len() == v@.len(),
{
    broadcast use vstd::seq_lib::to_multiset_insert, vstd::seq_lib::to_multiset_contains;
    let ghost vv = v.deep_view();
    let mut r: Vec<String> = Vec::new();
    let n = v.len();
    let mut i: usize = 0;
    assert(r.deep_view() =~= Seq::<Seq<char>>::empty());
    assert(vv.take(0) =~= Seq::<Seq<char>>::empty());
    while i < n
        invariant
            n == v@.len(),
            vv == v.deep_view(),
            vv.no_duplicates(),
            i <= n,
            r@.len() == i,
            strictly_sorted(r.deep_view()),
            r.deep_view().to_multiset() == vv.take(i as int).to_multiset(),
        decreases n - i,
    {
        let x = &v[i];
        let ghost rv = r.deep_view();
        // position: every earlier element is smaller than x
        let mut p: usize = 0;
        while p < r.len() && str_less(r[p].as_str(), x.as_str())
            invariant
                p <= r@.len(),
                rv == r.deep_view(),
                forall|k: int| 0 <= k < p ==> lex_less(#[trigger] rv[k], x@),
            decreases r@.len() - p,
        {
            p = p + 1;
        }
        proof {
            // x does not occur among the elements taken so far
            assert(!vv.take(i as int).contains(vv[i as int])) by {
                if vv.take(i as int).contains(vv[i as int]) {
                    let k = choose|k: int| 0 <= k < i && vv.take(i as int)[k] == vv[i as int];
                    assert(vv[k] == vv[i as int]);
                }
            }
            vstd::seq_lib::to_multiset_contains(vv.take(i as int), vv[i as int]);
            assert(x@ == vv[i as int]);
            assert(rv.to_multiset().count(x@) == 0);
            if p < rv.len() {
                assert(!rv.contains(x@)) by {
                    if rv.contains(x@) {
                        let k = choose|k: int| 0 <= k < rv.len() && rv[k] == x@;
                        vstd::seq_lib::to_multiset_contains(rv, x@);
                    }
                }
                assert(rv[p as int] != x@);
                lemma_lex_less_total(rv[p as int], x@);
                assert(lex_less(x@, rv[p as int]));
            }
        }
        r.insert(p, x.clone());
        proof {
            let nv = r.deep_view();
            assert(nv =~= rv.insert(p as int, x@));
            assert forall|a: int, b: int| 0 <= a < b < nv.len() implies lex_less(
                #[trigger] nv[a],
                #[trigger] nv[b],
            ) by {
                if b < p {
                } else if a < p && b == p {
                } else if a < p {
                    lemma_lex_less_transitive(rv[a], x@, rv[p as int]);
                    if b - 1 > p {
                        lemma_lex_less_transitive(rv[a], rv[p as int], rv[b - 1]);
                    }
                } else if a == p {
                    if b - 1 > p {
                        lemma_lex_less_transitive(x@, rv[p as int], rv[b - 1]);
                    }
                } else {
                }
            }
            assert(vv.take(i + 1) =~= vv.take(i as int).push(vv[i as int]));
            assert(vv.take(i as int).push(vv[i as int]) =~= vv.take(i as int).insert(
                i as int,
                vv[i as int],
            ));
            vstd::seq_lib::to_multiset_insert(rv, p as int, x@);
            vstd::seq_lib::to_multiset_insert(vv.take(i as int), i as int, vv[i as int]);
            assert(nv.to_multiset() == vv.take(i + 1).to_multiset());
        }
        i = i + 1;
    }
    assert(vv.take(n as int) =~= vv);
    r
}

} // verus!
