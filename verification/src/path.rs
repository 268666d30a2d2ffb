//! Unix path arithmetic on text: joining and the last component, as
//! `std::path::Path::join` and `Path::file_name` compute them for `/`-separated
//! paths.
use vstd::prelude::*;
use vstd::string::*;
use crate::text::{chars_of, substring};

verus! {

/// `child` appended to `base`: an absolute `child` replaces `base`; otherwise a
/// separator goes between them unless `base` is empty or already ends in one.
pub open spec fn path_join(base: Seq<char>, child: Seq<char>) -> Seq<char> {
    if child.len() > 0 && child[0] == '/' {
        child
    } else if base.len() == 0 || base.last() == '/' {
        base + child
    } else {
        base + seq!['/'] + child
    }
}

/// `s` without its trailing separators.
pub open spec fn trim_trailing_slashes(s: Seq<char>) -> Seq<char>
    decreases s.len(),
{
    if s.len() > 0 && s.last() == '/' {
        trim_trailing_slashes(s.drop_last())
    } else {
        s
    }
}

/// Index just past the last separator of `s` (0 when there is none).
pub open spec fn segment_start(s: Seq<char>) -> int
    decreases s.len(),
{
    if s.len() == 0 {
        0
    } else if s.last() == '/' {
        s.len() as int
    } else {
        segment_start(s.drop_last())
    }
}

pub proof fn lemma_trim_len(s: Seq<char>)
    ensures
        trim_trailing_slashes(s).len() <= s.len(),
        trim_trailing_slashes(s) == s.subrange(0, trim_trailing_slashes(s).len() as int),
        trim_trailing_slashes(s).len() > 0 ==> trim_trailing_slashes(s).last() != '/',
    decreases s.len(),
{
    if s.len() > 0 && s.last() == '/' {
        lemma_trim_len(s.drop_last());
        assert(s.drop_last().subrange(0, trim_trailing_slashes(s).len() as int) =~= s.subrange(
            0,
            trim_trailing_slashes(s).len() as int,
        ));
    } else {
        assert(s.subrange(0, s.len() as int) =~= s);
    }
}

pub proof fn lemma_segment_start(s: Seq<char>)
    ensures
        0 <= segment_start(s) <= s.len(),
        s.len() > 0 && s.last() != '/' ==> segment_start(s) < s.len(),
        forall|i: int| segment_start(s) <= i < s.len() ==> s[i] != '/',
        segment_start(s) > 0 ==> s[segment_start(s) - 1] == '/',
    decreases s.len(),
{
    if s.len() > 0 && s.last() != '/' {
        lemma_segment_start(s.drop_last());
        assert forall|i: int| segment_start(s) <= i < s.len() implies s[i] != '/' by {
            if i < s.len() - 1 {
                assert(s.drop_last()[i] == s[i]);
            }
        }
        if segment_start(s) > 0 {
            assert(s.drop_last()[segment_start(s) - 1] == s[segment_start(s) - 1]);
        }
    }
}

/// The last component of a path, as `Path::file_name` gives it: trailing
/// separators and `.` components do not count, and a path that ends in `..`,
/// or has no ordinary component left, has none.
pub open spec fn file_name_of(s: Seq<char>) -> Option<Seq<char>>
    decreases s.len(),
{
    let t = trim_trailing_slashes(s);
    if t.len() == 0 {
        None
    } else {
        let k = segment_start(t);
        let seg = t.subrange(k, t.len() as int);
        if seg == seq!['.'] {
            proof {
                lemma_trim_len(s);
                lemma_segment_start(t);
            }
            file_name_of(t.subrange(0, k))
        } else if seg == seq!['.', '.'] {
            None
        } else {
            Some(seg)
        }
    }
}

/// Joins `child` onto `base` as `Path::join` does on Unix.
pub fn join_path(base: &str, child: &str) -> (r: String)
    ensures
        r@ == path_join(base@, child@),
        child@.len() > 0 && child@[0] == '/' ==> r@ == child@,
        !(child@.len() > 0 && child@[0] == '/') && (base@.len() == 0 || base@.last() == '/')
            ==> r@ == base@ + child@,
        !(child@.len() > 0 && child@[0] == '/') && base@.len() > 0 && base@.last() != '/' ==> r@
            == base@ + seq!['/'] + child@,
{
    let nb = base.unicode_len();
    let nc = child.unicode_len();
    if nc > 0 && child.get_char(0) == '/' {
        return String::from_str(child);
    }
    let mut r = String::from_str(base);
    if !(nb == 0 || base.get_char(nb - 1) == '/') {
        r.append("/");
        proof {
            reveal_strlit("/");
        }
        assert("/"@ =~= seq!['/']);
    }
    r.append(child);
    r
}

/// Joining a plain name (non-empty, without a separator, neither `.` nor
/// `..`) onto any relative base gives a path whose last component is that
/// name: `file_name` undoes `join_path`.
pub proof fn lemma_join_then_file_name(base: Seq<char>, name: Seq<char>)
    requires
        name.len() > 0,
        forall|i: int| 0 <= i < name.len() ==> name[i] != '/',
        name != seq!['.'],
        name != seq!['.', '.'],
    ensures
        file_name_of(path_join(base, name)) == Some(name),
{
    let x = if base.len() == 0 || base.last() == '/' {
        base
    } else {
        base + seq!['/']
    };
    let j = path_join(base, name);
    assert(j =~= x + name);
    lemma_segment_start_after(x, name);
    assert(j.last() == name.last());
    assert(trim_trailing_slashes(j) == j);
    assert(j.subrange(x.len() as int, j.len() as int) =~= name);
}

/// A last component is a plain name: non-empty, without a separator, and
/// neither `.` nor `..`.
pub proof fn lemma_file_name_plain(s: Seq<char>)
    ensures
        file_name_of(s) matches Some(n) ==> n.len() > 0 && (forall|i: int| 0 <= i < n.len() ==> n[i]
            != '/') && n != seq!['.'] && n != seq!['.', '.'],
    decreases s.len(),
{
    let t = trim_trailing_slashes(s);
    lemma_trim_len(s);
    if t.len() > 0 {
        lemma_segment_start(t);
        let k = segment_start(t);
        let seg = t.subrange(k, t.len() as int);
        if seg == seq!['.'] {
            lemma_file_name_plain(t.subrange(0, k));
        } else if seg != seq!['.', '.'] {
            assert forall|i: int| 0 <= i < seg.len() implies seg[i] != '/' by {
                assert(seg[i] == t[k + i]);
            }
        }
    }
}

proof fn lemma_segment_start_after(x: Seq<char>, name: Seq<char>)
    requires
        x.len() == 0 || x.last() == '/',
        forall|i: int| 0 <= i < name.len() ==> name[i] != '/',
    ensures
        segment_start(x + name) == x.len(),
    decreases name.len(),
{
    if name.len() == 0 {
        assert(x + name =~= x);
    } else {
        lemma_segment_start_after(x, name.drop_last());
        assert((x + name).drop_last() =~= x + name.drop_last());
        assert((x + name).last() == name[name.len() - 1]);
    }
}

/// The range of the last component of `s.take(end)`, if it has one.
fn file_name_range(s: &Vec<char>, end: usize) -> (r: Option<(usize, usize)>)
    requires
        end <= s@.len(),
    ensures
        match r {
            Some((a, b)) => a <= b <= end && file_name_of(s@.take(end as int)) == Some(
                s@.subrange(a as int, b as int),
            ),
            None => file_name_of(s@.take(end as int)) is None,
        },
    decreases end,
{
    let ghost whole = s@.take(end as int);
    let mut e = end;
    while e > 0 && s[e - 1] == '/'
        invariant
            e <= end <= s@.len(),
            whole == s@.take(end as int),
            trim_trailing_slashes(whole) == trim_trailing_slashes(s@.take(e as int)),
        decreases e,
    {
        assert(s@.take(e as int).drop_last() =~= s@.take(e - 1));
        e = e - 1;
    }
    let ghost t = s@.take(e as int);
    assert(trim_trailing_slashes(t) == t);
    if e == 0 {
        return None;
    }
    let mut k = e;
    while k > 0 && s[k - 1] != '/'
        invariant
            k <= e <= s@.len(),
            t == s@.take(e as int),
            segment_start(t) == segment_start(s@.take(k as int)),
        decreases k,
    {
        assert(s@.take(k as int).drop_last() =~= s@.take(k - 1));
        k = k - 1;
    }
    assert(segment_start(t) == k);
    proof {
        lemma_segment_start(t);
    }
    let ghost seg = t.subrange(k as int, e as int);
    assert(seg =~= s@.subrange(k as int, e as int));
    if e - k == 1 && s[k] == '.' {
        assert(seg =~= seq!['.']);
        assert(t.subrange(0, k as int) =~= s@.take(k as int));
        return file_name_range(s, k);
    }
    if e - k == 2 && s[k] == '.' && s[k + 1] == '.' {
        assert(seg =~= seq!['.', '.']);
        return None;
    }
    assert(seg != seq!['.']) by {
        if seg.len() == 1 {
            assert(seg[0] == s[k as int]);
        }
    }
    assert(seg != seq!['.', '.']) by {
        if seg.len() == 2 {
            assert(seg[0] == s[k as int] && seg[1] == s[k + 1]);
        }
    }
    Some((k, e))
}

/// The last component of `path`, as `Path::file_name` gives it.
pub fn file_name(path: &str) -> (r: Option<String>)
    ensures
        match r {
            Some(n) => file_name_of(path@) == Some(n@),
            None => file_name_of(path@) is None,
        },
        r matches Some(n) ==> n@.len() > 0 && (forall|i: int| 0 <= i < n@.len() ==> n@[i] != '/')
            && n@ != seq!['.'] && n@ != seq!['.', '.'],
{
    proof {
        lemma_file_name_plain(path@);
    }
    let v = chars_of(path);
    assert(v@.take(v@.len() as int) =~= path@);
    match file_name_range(&v, v.len()) {
        Some((a, b)) => Some(substring(path, a, b)),
        None => None,
    }
}

} // verus!
