//! GitHub releases: the repository URL, the API address of its latest
//! release, and the choice of the one asset that a pattern names.
use vstd::prelude::*;
use vstd::string::*;
use crate::archive::first_sep;
use crate::error::AppError;
use crate::text::{chars_of, concat, has_prefix, join, seq_join, starts_with, substring, text_eq};

verus! {

/// A downloadable file of a release.
#[derive(Debug)]
pub struct Asset {
    pub name: String,
    pub browser_download_url: String,
}

/// A release: its tag and its assets.
#[derive(Debug)]
pub struct Release {
    pub tag_name: String,
    pub assets: Vec<Asset>,
}

#[verifier::external_type_specification]
#[verifier::external_body]
pub struct ExRegex(regex::Regex);

/// The error message with which `regex::Regex::new` refuses `pattern`, or none
/// when it compiles.
pub uninterp spec fn regex_compile_error(pattern: Seq<char>) -> Option<Seq<char>>;

/// Whether the regular expression `pattern` matches somewhere in `haystack`.
pub uninterp spec fn regex_is_match(pattern: Seq<char>, haystack: Seq<char>) -> bool;

/// A compiled regular expression for asset names, with its source text.
pub struct AssetPattern {
    source: String,
    compiled: regex::Regex,
}

impl View for AssetPattern {
    type V = Seq<char>;

    /// The pattern's source text.
    closed spec fn view(&self) -> Seq<char> {
        self.source@
    }
}

/// Compiles `pattern`.
///
/// Trusted: calls `regex::Regex::new`, which either compiles the pattern or
/// returns an error (invalid syntax, or above the default size limit); both
/// outcomes depend on the pattern alone, and are named by
/// `regex_compile_error`. The compiled regex is kept beside its source, so
/// that `AssetPattern`'s view is the text it was compiled from.
#[verifier::external_body]
fn compile_pattern(pattern: &str) -> (r: Result<AssetPattern, String>)
    ensures
        match r {
            Ok(p) => p@ == pattern@ && regex_compile_error(pattern@) is None,
            Err(e) => regex_compile_error(pattern@) == Some(e@),
        },
{
    match regex::Regex::new(pattern) {
        Ok(re) => Ok(AssetPattern { source: pattern.to_string(), compiled: re }),
        Err(e) => Err(e.to_string()),
    }
}

impl AssetPattern {
    /// Compiles `pattern`, or gives the reason it does not compile.
    pub fn new(pattern: &str) -> (r: Result<AssetPattern, String>)
        ensures
            match r {
                Ok(p) => p@ == pattern@ && regex_compile_error(pattern@) is None,
                Err(e) => regex_compile_error(pattern@) == Some(e@),
            },
    {
        compile_pattern(pattern)
    }

    /// The source text of the pattern.
    pub fn as_str(&self) -> (r: &str)
        ensures
            r@ == self@,
    {
        self.source.as_str()
    }

    /// Whether the pattern matches somewhere in `haystack`.
    ///
    /// Trusted: calls `regex::Regex::is_match` on the regex compiled from
    /// `self@`; its answer depends on the pattern and the haystack alone, and
    /// is named by `regex_is_match`.
    #[verifier::external_body]
    fn matches(&self, haystack: &str) -> (r: bool)
        ensures
            r == regex_is_match(self@, haystack@),
    {
        self.compiled.is_match(haystack)
    }
}

/// The assets whose names the pattern matches, in their order.
pub open spec fn matching(assets: Seq<Asset>, pattern: Seq<char>) -> Seq<Asset>
    decreases assets.len(),
{
    if assets.len() == 0 {
        Seq::empty()
    } else {
        let prev = matching(assets.drop_last(), pattern);
        if regex_is_match(pattern, assets.last().name@) {
            prev.push(assets.last())
        } else {
            prev
        }
    }
}

/// The names of `assets`.
pub open spec fn names(assets: Seq<Asset>) -> Seq<Seq<char>> {
    Seq::new(assets.len(), |i: int| assets[i].name@)
}

/// The separator between the asset names listed in an error.
pub open spec fn listing_sep() -> Seq<char> {
    "\n  "@
}

/// What `select_asset` gives for `assets` and the pattern source `pattern`:
/// the one asset that matches; otherwise an error that lists every asset (none
/// matches) or the matching ones (several match).
pub open spec fn selection(
    assets: Seq<Asset>,
    pattern: Seq<char>,
    r: Result<&Asset, AppError>,
) -> bool {
    let m = matching(assets, pattern);
    if m.len() == 0 {
        r matches Err(AppError::NoMatch { pattern: p, available: a }) && p@ == pattern && a@
            == seq_join(names(assets), listing_sep())
    } else if m.len() == 1 {
        r matches Ok(a) && *a == m[0]
    } else {
        r matches Err(AppError::MultipleMatches { pattern: p, matched: a }) && p@ == pattern && a@
            == seq_join(names(m), listing_sep())
    }
}

/// The names of the assets at `idx`.
fn names_at(assets: &[Asset], idx: &Vec<usize>) -> (r: Vec<String>)
    requires
        forall|k: int| 0 <= k < idx@.len() ==> idx@[k] < assets@.len(),
    ensures
        r.deep_view() == Seq::new(idx@.len(), |k: int| assets@[idx@[k] as int].name@),
{
    let mut r: Vec<String> = Vec::new();
    let n = idx.len();
    let mut k: usize = 0;
    while k < n
        invariant
            n == idx@.len(),
            k <= n,
            forall|j: int| 0 <= j < idx@.len() ==> idx@[j] < assets@.len(),
            r.deep_view() == Seq::new(k as nat, |j: int| assets@[idx@[j] as int].name@),
        decreases n - k,
    {
        let ghost before = r.deep_view();
        let nm = assets[idx[k]].name.clone();
        assert(nm@ == assets@[idx@[k as int] as int].name@);
        r.push(nm);
        assert(r.deep_view() =~= before.push(assets@[idx@[k as int] as int].name@));
        k = k + 1;
        assert(r.deep_view() =~= Seq::new(k as nat, |j: int| assets@[idx@[j] as int].name@));
    }
    r
}

/// Selects the single asset whose name `pattern` matches. No match is an
/// error listing every asset; several matches are an error listing them.
pub fn select_asset<'a>(assets: &'a [Asset], pattern: &AssetPattern) -> (r: Result<
    &'a Asset,
    AppError,
>)
    ensures
        selection(assets@, pattern@, r),
        r is Ok ==> matching(assets@, pattern@).len() == 1,
        r matches Ok(a) ==> regex_is_match(pattern@, a.name@) && assets@.contains(*a),
        matching(assets@, pattern@).len() >= 2 ==> r matches Err(AppError::MultipleMatches { .. }),
        matching(assets@, pattern@).len() == 0 ==> r matches Err(AppError::NoMatch { .. }),
        matching(assets@, pattern@).len() >= 2 ==> (r matches Err(
            AppError::MultipleMatches { pattern: p, matched: l },
        ) && p@ == pattern@ && l@ == seq_join(names(matching(assets@, pattern@)), "\n  "@)),
        matching(assets@, pattern@).len() == 0 ==> (r matches Err(
            AppError::NoMatch { pattern: p, available: l },
        ) && p@ == pattern@ && l@ == seq_join(names(assets@), "\n  "@)),
{
    let n = assets.len();
    let mut idx: Vec<usize> = Vec::new();
    let mut i: usize = 0;
    assert(assets@.take(0) =~= Seq::<Asset>::empty());
    while i < n
        invariant
            n == assets@.len(),
            i <= n,
            forall|k: int| 0 <= k < idx@.len() ==> idx@[k] < i,
            Seq::new(idx@.len(), |k: int| assets@[idx@[k] as int]) == matching(
                assets@.take(i as int),
                pattern@,
            ),
        decreases n - i,
    {
        let ghost before = Seq::new(idx@.len(), |k: int| assets@[idx@[k] as int]);
        assert(assets@.take(i + 1).drop_last() =~= assets@.take(i as int));
        assert(assets@.take(i + 1).last() == assets@[i as int]);
        if pattern.matches(assets[i].name.as_str()) {
            idx.push(i);
            assert(Seq::new(idx@.len(), |k: int| assets@[idx@[k] as int]) =~= before.push(
                assets@[i as int],
            ));
        }
        i = i + 1;
    }
    assert(assets@.take(n as int) =~= assets@);
    let ghost m = matching(assets@, pattern@);
    proof {
        lemma_matching_members(assets@, pattern@);
    }
    if idx.len() == 0 {
        let all: Vec<usize> = {
            let mut all: Vec<usize> = Vec::new();
            let mut j: usize = 0;
            while j < n
                invariant
                    n == assets@.len(),
                    j <= n,
                    all@ == Seq::new(j as nat, |k: int| k as usize),
                decreases n - j,
            {
                all.push(j);
                j = j + 1;
                assert(all@ =~= Seq::new(j as nat, |k: int| k as usize));
            }
            all
        };
        let listed = names_at(assets, &all);
        assert(listed.deep_view() =~= names(assets@));
        Err(
            AppError::NoMatch {
                pattern: String::from_str(pattern.as_str()),
                available: join(&listed, "\n  "),
            },
        )
    } else if idx.len() == 1 {
        assert(m[0] == assets@[idx@[0] as int]);
        assert(m.contains(m[0]));
        assert(assets@.contains(m[0]) && regex_is_match(pattern@, m[0].name@));
        Ok(&assets[idx[0]])
    } else {
        let listed = names_at(assets, &idx);
        assert(listed.deep_view() =~= names(m));
        Err(
            AppError::MultipleMatches {
                pattern: String::from_str(pattern.as_str()),
                matched: join(&listed, "\n  "),
            },
        )
    }
}

/// A parsed URL: its host, its path, and its serialization.
#[derive(Debug, Clone)]
pub struct UrlParts {
    pub host: Option<String>,
    pub path: String,
    pub serialized: String,
}

/// The parts of a parsed URL as plain text.
pub open spec fn parts_view(u: UrlParts) -> (Option<Seq<char>>, Seq<char>, Seq<char>) {
    (
        match u.host {
            Some(h) => Some(h@),
            None => None,
        },
        u.path@,
        u.serialized@,
    )
}

/// What `url::Url::parse` makes of `input`: the host, path and serialization
/// of the URL, or the message of the parse error.
pub uninterp spec fn url_parse_outcome(input: Seq<char>) -> Result<
    (Option<Seq<char>>, Seq<char>, Seq<char>),
    Seq<char>,
>;

/// Parses `input` as a URL.
///
/// Trusted: calls `url::Url::parse` and reads the host (`host_str`), the path
/// (`path`) and the serialization (`as_str`) of the result, or the message of
/// the error; parsing depends on the input alone, and its outcome is named by
/// `url_parse_outcome`.
#[verifier::external_body]
fn parse_url(input: &str) -> (r: Result<UrlParts, String>)
    ensures
        match r {
            Ok(u) => url_parse_outcome(input@) == Ok::<_, Seq<char>>(parts_view(u)),
            Err(e) => url_parse_outcome(input@) == Err::<(Option<Seq<char>>, Seq<char>, Seq<char>), _>(e@),
        },
{
    match url::Url::parse(input) {
        Ok(u) => Ok(
            UrlParts {
                host: u.host_str().map(|h| h.to_string()),
                path: u.path().to_string(),
                serialized: u.as_str().to_string(),
            },
        ),
        Err(e) => Err(e.to_string()),
    }
}

impl UrlParts {
    /// Parses `input` as a URL.
    pub fn parse(input: &str) -> (r: Result<UrlParts, String>)
        ensures
            match r {
                Ok(u) => url_parse_outcome(input@) == Ok::<_, Seq<char>>(parts_view(u)),
                Err(e) => url_parse_outcome(input@) == Err::<(Option<Seq<char>>, Seq<char>, Seq<char>), _>(e@),
            },
    {
        parse_url(input)
    }
}

/// The pieces of `s` between `/`s, as `str::split('/')` yields them.
pub open spec fn split_slash(s: Seq<char>) -> Seq<Seq<char>>
    decreases s.len(),
{
    let k = first_sep(s);
    if k >= s.len() {
        seq![s]
    } else {
        proof {
            lemma_first_sep_bound(s);
        }
        seq![s.take(k)] + split_slash(s.skip(k + 1))
    }
}

pub proof fn lemma_first_sep_bound(s: Seq<char>)
    ensures
        0 <= first_sep(s) <= s.len(),
        forall|j: int| 0 <= j < first_sep(s) ==> s[j] != '/',
        first_sep(s) < s.len() ==> s[first_sep(s)] == '/',
    decreases s.len(),
{
    if s.len() > 0 && s[0] != '/' {
        lemma_first_sep_bound(s.drop_first());
        assert forall|j: int| 0 <= j < first_sep(s) implies s[j] != '/' by {
            if j > 0 {
                assert(s.drop_first()[j - 1] == s[j]);
            }
        }
        if first_sep(s) < s.len() {
            assert(s.drop_first()[first_sep(s) - 1] == s[first_sep(s)]);
        }
    }
}

/// `segs` without its empty elements.
pub open spec fn drop_empty(segs: Seq<Seq<char>>) -> Seq<Seq<char>>
    decreases segs.len(),
{
    if segs.len() == 0 {
        Seq::empty()
    } else if segs[0].len() == 0 {
        drop_empty(segs.drop_first())
    } else {
        seq![segs[0]] + drop_empty(segs.drop_first())
    }
}

/// The non-empty segments of a URL path: what `Url::path_segments` yields
/// (the path split at `/` after its leading `/`; nothing when the path does not
/// begin with `/`), without the empty ones.
pub open spec fn path_segments_nonempty(path: Seq<char>) -> Seq<Seq<char>> {
    if path.len() > 0 && path[0] == '/' {
        drop_empty(split_slash(path.skip(1)))
    } else {
        Seq::empty()
    }
}

/// The non-empty pieces of `s` between `/`s.
fn nonempty_pieces(s: &str) -> (r: Vec<String>)
    ensures
        r.deep_view() == drop_empty(split_slash(s@)),
{
    let v = chars_of(s);
    let n = v.len();
    let mut out: Vec<String> = Vec::new();
    let mut start: usize = 0;
    assert(s@.skip(0) =~= s@);
    assert(out.deep_view() =~= Seq::<Seq<char>>::empty());
    loop
        invariant
            n == v@.len(),
            v@ == s@,
            start <= n,
            drop_empty(split_slash(s@)) == out.deep_view() + drop_empty(
                split_slash(s@.skip(start as int)),
            ),
        decreases n - start,
    {
        let ghost rest = s@.skip(start as int);
        let mut k = start;
        while k < n && v[k] != '/'
            invariant
                start <= k <= n,
                n == v@.len(),
                v@ == s@,
                forall|j: int| start <= j < k ==> v@[j] != '/',
            decreases n - k,
        {
            k = k + 1;
        }
        proof {
            lemma_first_sep_bound(rest);
            assert forall|j: int| 0 <= j < k - start implies rest[j] != '/' by {
                assert(rest[j] == s@[start + j]);
            }
            if k < n {
                assert(rest[k - start] == '/');
            }
            crate::archive::lemma_first_sep_exact(rest, k - start);
        }
        let seg = substring(s, start, k);
        assert(seg@ =~= rest.take(k - start));
        let ghost before = out.deep_view();
        if k - start > 0 {
            out.push(seg);
            assert(out.deep_view() =~= before.push(rest.take(k - start)));
        }
        if k >= n {
            assert(split_slash(rest) == seq![rest]);
            assert(rest =~= rest.take(k - start));
            assert(drop_empty(seq![rest]) =~= (if rest.len() > 0 { seq![rest] } else { Seq::empty() })) by {
                assert(seq![rest].drop_first() =~= Seq::<Seq<char>>::empty());
                assert(drop_empty(Seq::<Seq<char>>::empty()) =~= Seq::<Seq<char>>::empty());
                assert(seq![rest][0] == rest);
            }
            assert(out.deep_view() =~= before + drop_empty(seq![rest]));
            return out;
        }
        proof {
            let sp = seq![rest.take(k - start)] + split_slash(rest.skip(k - start + 1));
            assert(split_slash(rest) == sp);
            assert(sp[0] == rest.take(k - start));
            assert(sp.drop_first() =~= split_slash(rest.skip(k - start + 1)));
            assert(rest.skip(k - start + 1) =~= s@.skip(k + 1));
            if k - start > 0 {
                assert(drop_empty(sp) == seq![rest.take(k - start)] + drop_empty(sp.drop_first()));
                assert(out.deep_view() + drop_empty(split_slash(s@.skip(k + 1))) =~= before + (seq![
                    rest.take(k - start),
                ] + drop_empty(split_slash(s@.skip(k + 1)))));
            } else {
                assert(rest.take(0).len() == 0);
            }
        }
        start = k + 1;
    }
}

/// The non-empty segments of a URL path.
pub fn url_path_segments(path: &str) -> (r: Vec<String>)
    ensures
        r.deep_view() == path_segments_nonempty(path@),
        forall|i: int|
            0 <= i < r.deep_view().len() ==> (#[trigger] r.deep_view()[i]).len() > 0 && no_slash(
                r.deep_view()[i],
            ),
{
    proof {
        lemma_segments_are_names(path@);
    }
    let n = path.unicode_len();
    if n > 0 && path.get_char(0) == '/' {
        let rest = substring(path, 1, n);
        assert(rest@ =~= path@.skip(1));
        nonempty_pieces(rest.as_str())
    } else {
        let r: Vec<String> = Vec::new();
        assert(r.deep_view() =~= Seq::<Seq<char>>::empty());
        r
    }
}

proof fn lemma_drop_empty_concat(a: Seq<Seq<char>>, b: Seq<Seq<char>>)
    ensures
        drop_empty(a + b) == drop_empty(a) + drop_empty(b),
    decreases a.len(),
{
    if a.len() == 0 {
        assert(a + b =~= b);
    } else {
        lemma_drop_empty_concat(a.drop_first(), b);
        assert((a + b).drop_first() =~= a.drop_first() + b);
        assert((a + b)[0] == a[0]);
        if a[0].len() > 0 {
            assert(seq![a[0]] + (drop_empty(a.drop_first()) + drop_empty(b)) =~= (seq![a[0]]
                + drop_empty(a.drop_first())) + drop_empty(b));
        }
    }
}

proof fn lemma_split_trailing_slash(s: Seq<char>)
    ensures
        drop_empty(split_slash(s.push('/'))) == drop_empty(split_slash(s)),
    decreases s.len(),
{
    let t = s.push('/');
    let k = first_sep(s);
    lemma_first_sep_bound(s);
    assert forall|j: int| 0 <= j < k implies t[j] != '/' by {
        assert(t[j] == s[j]);
    }
    crate::archive::lemma_first_sep_exact(t, k);
    if k < s.len() {
        assert(t.take(k) =~= s.take(k));
        assert(t.skip(k + 1) =~= s.skip(k + 1).push('/'));
        lemma_split_trailing_slash(s.skip(k + 1));
        lemma_drop_empty_concat(seq![s.take(k)], split_slash(t.skip(k + 1)));
        lemma_drop_empty_concat(seq![s.take(k)], split_slash(s.skip(k + 1)));
    } else {
        assert(t.take(k) =~= s);
        assert(t.skip(k + 1) =~= Seq::<char>::empty());
        let e = Seq::<char>::empty();
        assert(first_sep(e) == 0);
        assert(split_slash(e) == seq![e]);
        lemma_drop_empty_concat(seq![s], seq![e]);
        assert(drop_empty(seq![e]) =~= Seq::<Seq<char>>::empty()) by {
            assert(seq![e][0].len() == 0);
            assert(seq![e].drop_first() =~= Seq::<Seq<char>>::empty());
            assert(drop_empty(Seq::<Seq<char>>::empty()) =~= Seq::<Seq<char>>::empty());
        }
        assert(split_slash(s) == seq![s]);
        assert(drop_empty(seq![s]) + Seq::<Seq<char>>::empty() =~= drop_empty(seq![s]));
    }
}

/// A trailing `/` does not change the segments of a URL path.
pub proof fn lemma_trailing_slash_same_segments(path: Seq<char>)
    ensures
        path_segments_nonempty(path.push('/')) == path_segments_nonempty(path),
{
    let t = path.push('/');
    if path.len() > 0 && path[0] == '/' {
        assert(t[0] == '/');
        assert(t.skip(1) =~= path.skip(1).push('/'));
        lemma_split_trailing_slash(path.skip(1));
    } else if path.len() == 0 {
        let e = Seq::<char>::empty();
        assert(t.skip(1) =~= e);
        assert(first_sep(e) == 0);
        assert(split_slash(e) == seq![e]);
        assert(drop_empty(seq![e]) =~= Seq::<Seq<char>>::empty()) by {
            assert(seq![e][0].len() == 0);
            assert(seq![e].drop_first() =~= Seq::<Seq<char>>::empty());
            assert(drop_empty(Seq::<Seq<char>>::empty()) =~= Seq::<Seq<char>>::empty());
        }
    } else {
        assert(t[0] == path[0]);
    }
}

/// Whether `x` holds no `/`.
pub open spec fn no_slash(x: Seq<char>) -> bool {
    forall|j: int| 0 <= j < x.len() ==> x[j] != '/'
}

proof fn lemma_split_pieces(s: Seq<char>)
    ensures
        forall|i: int| 0 <= i < split_slash(s).len() ==> no_slash(#[trigger] split_slash(s)[i]),
    decreases s.len(),
{
    lemma_first_sep_bound(s);
    let k = first_sep(s);
    if k < s.len() {
        lemma_split_pieces(s.skip(k + 1));
        let sp = split_slash(s);
        assert forall|i: int| 0 <= i < sp.len() implies no_slash(#[trigger] sp[i]) by {
            if i == 0 {
                assert(sp[0] == s.take(k));
            } else {
                assert(sp[i] == split_slash(s.skip(k + 1))[i - 1]);
            }
        }
    } else {
        assert(split_slash(s)[0] == s);
    }
}

proof fn lemma_drop_empty_pieces(segs: Seq<Seq<char>>)
    requires
        forall|i: int| 0 <= i < segs.len() ==> no_slash(#[trigger] segs[i]),
    ensures
        forall|i: int|
            0 <= i < drop_empty(segs).len() ==> (#[trigger] drop_empty(segs)[i]).len() > 0
                && no_slash(drop_empty(segs)[i]),
    decreases segs.len(),
{
    if segs.len() > 0 {
        let rest = segs.drop_first();
        assert forall|i: int| 0 <= i < rest.len() implies no_slash(#[trigger] rest[i]) by {
            assert(rest[i] == segs[i + 1]);
        }
        lemma_drop_empty_pieces(rest);
        let d = drop_empty(segs);
        if segs[0].len() > 0 {
            assert(no_slash(segs[0]));
            assert(d == seq![segs[0]] + drop_empty(rest));
            assert forall|i: int| 0 <= i < d.len() implies (#[trigger] d[i]).len() > 0 && no_slash(
                d[i],
            ) by {
                if i > 0 {
                    assert(d[i] == drop_empty(rest)[i - 1]);
                } else {
                    assert(d[0] == segs[0]);
                }
            }
        } else {
            assert(d == drop_empty(rest));
        }
    }
}

/// Every segment of a URL path is non-empty and holds no `/`.
pub proof fn lemma_segments_are_names(path: Seq<char>)
    ensures
        forall|i: int|
            0 <= i < path_segments_nonempty(path).len() ==> (#[trigger] path_segments_nonempty(
                path,
            )[i]).len() > 0 && no_slash(path_segments_nonempty(path)[i]),
{
    if path.len() > 0 && path[0] == '/' {
        lemma_split_pieces(path.skip(1));
        lemma_drop_empty_pieces(split_slash(path.skip(1)));
    }
}

/// The path `/owner/repo` has the segments `owner` and `repo`.
pub proof fn lemma_owner_repo_segments(owner: Seq<char>, repo: Seq<char>)
    requires
        owner.len() > 0,
        repo.len() > 0,
        no_slash(owner),
        no_slash(repo),
    ensures
        path_segments_nonempty(seq!['/'] + owner + seq!['/'] + repo) == seq![owner, repo],
{
    let path = seq!['/'] + owner + seq!['/'] + repo;
    let s = path.skip(1);
    assert(s =~= owner + seq!['/'] + repo);
    crate::archive::lemma_first_sep_exact(s, owner.len() as int);
    assert(s.take(owner.len() as int) =~= owner);
    assert(s.skip(owner.len() as int + 1) =~= repo);
    crate::archive::lemma_first_sep_exact(repo, repo.len() as int);
    assert(split_slash(repo) == seq![repo]);
    assert(split_slash(s) =~= seq![owner, repo]);
    let segs = seq![owner, repo];
    assert(segs.drop_first() =~= seq![repo]);
    assert(seq![repo].drop_first() =~= Seq::<Seq<char>>::empty());
    assert(drop_empty(Seq::<Seq<char>>::empty()) =~= Seq::<Seq<char>>::empty());
    assert(drop_empty(seq![repo]) =~= seq![repo]);
    assert(drop_empty(segs) =~= seq![owner, repo]);
}

/// For `https://github.com/owner/repo`, the API address asked for is that
/// of the latest release of `owner/repo`: the request succeeds exactly when
/// that address parses, and then gives its parse.
pub proof fn lemma_repo_url_to_api(
    url: UrlParts,
    owner: Seq<char>,
    repo: Seq<char>,
    r: Result<UrlParts, AppError>,
)
    requires
        url.host matches Some(h) && h@ == "github.com"@,
        url.path@ == seq!['/'] + owner + seq!['/'] + repo,
        owner.len() > 0,
        repo.len() > 0,
        no_slash(owner),
        no_slash(repo),
        api_url_result(url, r),
    ensures
        url_parse_outcome(
            "https://api.github.com/repos/"@ + owner + "/"@ + repo + "/releases/latest"@,
        ) matches Ok(parts) ==> (r matches Ok(u) && parts_view(u) == parts),
        url_parse_outcome(
            "https://api.github.com/repos/"@ + owner + "/"@ + repo + "/releases/latest"@,
        ) matches Err(m) ==> (r matches Err(AppError::UrlConstruct(e)) && e@ == m),
{
    lemma_owner_repo_segments(owner, repo);
}

/// A repository URL with a trailing `/` leads to the same API address as
/// the one without it.
pub proof fn lemma_trailing_slash_same_api_url(
    u: UrlParts,
    v: UrlParts,
    ru: Result<UrlParts, AppError>,
    rv: Result<UrlParts, AppError>,
)
    requires
        v.host == u.host,
        v.path@ == u.path@.push('/'),
        api_url_result(u, ru),
        api_url_result(v, rv),
    ensures
        ru is Ok <==> rv is Ok,
        ru matches Ok(a) ==> rv matches Ok(b) && parts_view(a) == parts_view(b),
{
    lemma_trailing_slash_same_segments(u.path@);
}

/// The assets that `matching` keeps are exactly those of `assets` whose
/// names the pattern matches, in their order, each as often as it occurs.
pub proof fn lemma_matching_members(assets: Seq<Asset>, pattern: Seq<char>)
    ensures
        forall|a: Asset|
            #[trigger] matching(assets, pattern).contains(a) <==> (assets.contains(a)
                && regex_is_match(pattern, a.name@)),
        matching(assets, pattern).len() <= assets.len(),
        (forall|i: int| 0 <= i < assets.len() ==> !regex_is_match(pattern, (#[trigger] assets[i]).name@))
            ==> matching(assets, pattern).len() == 0,
    decreases assets.len(),
{
    if assets.len() > 0 {
        let prev = assets.drop_last();
        lemma_matching_members(prev, pattern);
        let last = assets.last();
        let mp = matching(prev, pattern);
        let ma = matching(assets, pattern);
        let hit = regex_is_match(pattern, last.name@);
        if hit {
            assert(ma == mp.push(last));
        } else {
            assert(ma == mp);
        }
        assert forall|a: Asset| ma.contains(a) <==> (assets.contains(a) && regex_is_match(
            pattern,
            a.name@,
        )) by {
            if ma.contains(a) {
                let j = choose|j: int| 0 <= j < ma.len() && ma[j] == a;
                if j < mp.len() {
                    assert(mp[j] == a);
                    assert(mp.contains(a));
                    assert(prev.contains(a));
                    let k = choose|k: int| 0 <= k < prev.len() && prev[k] == a;
                    assert(assets[k] == prev[k]);
                    assert(assets.contains(a));
                } else {
                    assert(hit && a == last);
                    assert(assets[assets.len() - 1] == a);
                    assert(assets.contains(a));
                }
            }
            if assets.contains(a) && regex_is_match(pattern, a.name@) {
                let k = choose|k: int| 0 <= k < assets.len() && assets[k] == a;
                if k < assets.len() - 1 {
                    assert(prev[k] == a);
                    assert(prev.contains(a));
                    assert(mp.contains(a));
                    let j = choose|j: int| 0 <= j < mp.len() && mp[j] == a;
                    assert(ma[j] == a);
                    assert(ma.contains(a));
                } else {
                    assert(a == last);
                    assert(ma[mp.len() as int] == a);
                    assert(ma.contains(a));
                }
            }
        }
        if forall|i: int| 0 <= i < assets.len() ==> !regex_is_match(pattern, (#[trigger] assets[i]).name@) {
            assert forall|i: int| 0 <= i < prev.len() implies !regex_is_match(pattern, (#[trigger] prev[i]).name@) by {
                assert(prev[i] == assets[i]);
            }
            assert(assets[assets.len() - 1] == last);
        }
    }
}

/// An asset is selected only when exactly one asset name matches; with
/// several matches the selection is refused as ambiguous, with none as
/// missing; the selected asset is one of the assets and its name matches.
pub proof fn lemma_selection_exactly_one(assets: Seq<Asset>, pattern: Seq<char>, r: Result<&Asset, AppError>)
    requires
        selection(assets, pattern, r),
    ensures
        r is Ok ==> matching(assets, pattern).len() == 1,
        r matches Ok(a) ==> regex_is_match(pattern, a.name@) && assets.contains(*a),
        matching(assets, pattern).len() >= 2 ==> r matches Err(AppError::MultipleMatches { .. }),
        matching(assets, pattern).len() == 0 ==> r matches Err(AppError::NoMatch { .. }),
{
    lemma_matching_members(assets, pattern);
    let m = matching(assets, pattern);
    if m.len() == 1 {
        assert(m.contains(m[0]));
        assert(assets.contains(m[0]) && regex_is_match(pattern, m[0].name@));
    }
}

/// The API address is requested only for a `github.com` URL whose path has
/// an owner and a repository segment, and it is the parse of the address
/// built from those two segments.
pub proof fn lemma_api_url_requires_github_repo(url: UrlParts, r: Result<UrlParts, AppError>)
    requires
        api_url_result(url, r),
    ensures
        r is Ok ==> url.host is Some && url.host->Some_0@ == "github.com"@,
        r is Ok ==> path_segments_nonempty(url.path@).len() >= 2,
        r matches Ok(u) ==> url_parse_outcome(
            "https://api.github.com/repos/"@ + path_segments_nonempty(url.path@)[0] + "/"@
                + path_segments_nonempty(url.path@)[1] + "/releases/latest"@,
        ) == Ok::<_, Seq<char>>(parts_view(u)),
        (url.host is None || url.host->Some_0@ != "github.com"@) ==> r matches Err(
            AppError::InvalidHost(_),
        ),
{
}

/// Removing a tag prefix takes off exactly that prefix: the prefix followed
/// by the result gives back the tag; a tag without the prefix is unchanged.
pub proof fn lemma_strip_prefix_exact(tag: Seq<char>, p: Seq<char>)
    ensures
        has_prefix(tag, p) ==> p + stripped_tag(tag, Some(p)) == tag,
        !has_prefix(tag, p) ==> stripped_tag(tag, Some(p)) == tag,
        stripped_tag(tag, None) == tag,
{
    if has_prefix(tag, p) {
        assert(p + tag.skip(p.len() as int) =~= tag);
    }
}

/// The address of the latest release of `owner/repo` in the GitHub API.
pub open spec fn api_url_text(owner: Seq<char>, repo: Seq<char>) -> Seq<char> {
    "https://api.github.com/repos/"@ + owner + "/"@ + repo + "/releases/latest"@
}

/// What `to_api_url` gives for `url`: for a `github.com` URL whose path has
/// an owner and a repository segment, the parsed address of the latest
/// release of that repository; otherwise the error that says which part is
/// wrong.
pub open spec fn api_url_result(url: UrlParts, r: Result<UrlParts, AppError>) -> bool {
    let host = match url.host {
        Some(h) => Some(h@),
        None => None,
    };
    if host != Some("github.com"@) {
        r matches Err(AppError::InvalidHost(h)) && h@ == (match host {
            Some(h) => h,
            None => "<none>"@,
        })
    } else {
        let segs = path_segments_nonempty(url.path@);
        if segs.len() < 2 {
            r matches Err(AppError::InvalidPath(p)) && p@ == url.path@
        } else {
            match url_parse_outcome(api_url_text(segs[0], segs[1])) {
                Ok(parts) => r matches Ok(u) && parts_view(u) == parts,
                Err(m) => r matches Err(AppError::UrlConstruct(e)) && e@ == m,
            }
        }
    }
}

/// The API address of the latest release of the repository that `url`
/// names: the host must be `github.com`, and the first two non-empty path
/// segments name the owner and the repository.
pub fn to_api_url(url: &UrlParts) -> (r: Result<UrlParts, AppError>)
    ensures
        api_url_result(*url, r),
        r is Ok ==> url.host is Some && url.host->Some_0@ == "github.com"@,
        r is Ok ==> path_segments_nonempty(url.path@).len() >= 2,
        r matches Ok(u) ==> url_parse_outcome(
            "https://api.github.com/repos/"@ + path_segments_nonempty(url.path@)[0] + "/"@
                + path_segments_nonempty(url.path@)[1] + "/releases/latest"@,
        ) == Ok::<_, Seq<char>>(parts_view(u)),
        url.host is None ==> (r matches Err(AppError::InvalidHost(h)) && h@ == "<none>"@),
        url.host matches Some(h) ==> (h@ != "github.com"@ ==> (r matches Err(
            AppError::InvalidHost(e),
        ) && e@ == h@)),
        url.host matches Some(h) ==> (h@ == "github.com"@ && path_segments_nonempty(url.path@).len()
            < 2 ==> (r matches Err(AppError::InvalidPath(p)) && p@ == url.path@)),
{
    let is_github = match &url.host {
        Some(h) => text_eq(h.as_str(), "github.com"),
        None => false,
    };
    if !is_github {
        let shown = match &url.host {
            Some(h) => h.clone(),
            None => String::from_str("<none>"),
        };
        return Err(AppError::InvalidHost(shown));
    }
    let segs = url_path_segments(url.path.as_str());
    if segs.len() < 2 {
        return Err(AppError::InvalidPath(url.path.clone()));
    }
    let mut text = concat("https://api.github.com/repos/", segs[0].as_str());
    text.append("/");
    text.append(segs[1].as_str());
    text.append("/releases/latest");
    match parse_url(text.as_str()) {
        Ok(u) => Ok(u),
        Err(m) => Err(AppError::UrlConstruct(m)),
    }
}

/// `tag` without `prefix` when it begins with it (once, case-sensitive).
pub open spec fn stripped_tag(tag: Seq<char>, prefix: Option<Seq<char>>) -> Seq<char> {
    match prefix {
        Some(p) => if has_prefix(tag, p) {
            tag.skip(p.len() as int)
        } else {
            tag
        },
        None => tag,
    }
}

/// The release tag to print: `tag` with one leading `prefix` removed when
/// present.
pub fn strip_tag_prefix(tag: &str, prefix: Option<&str>) -> (r: String)
    ensures
        prefix matches Some(p) ==> (has_prefix(tag@, p@) ==> p@ + r@ == tag@),
        prefix matches Some(p) ==> (!has_prefix(tag@, p@) ==> r@ == tag@),
        prefix is None ==> r@ == tag@,
        r@ == stripped_tag(
            tag@,
            match prefix {
                Some(p) => Some(p@),
                None => None,
            },
        ),
{
    match prefix {
        Some(p) => {
            if starts_with(tag, p) {
                let k = p.unicode_len();
                let w = substring(tag, k, tag.unicode_len());
                assert(w@ =~= tag@.skip(k as int));
                assert(p@ + w@ =~= tag@);
                w
            } else {
                String::from_str(tag)
            }
        },
        None => String::from_str(tag),
    }
}

} // verus!
