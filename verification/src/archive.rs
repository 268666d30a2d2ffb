//! Archive formats, entry paths, and the rules by which a single file or
//! directory entry is picked out of a stream of archive entries.
use vstd::prelude::*;
use vstd::string::*;
use crate::destination::Destination;
use crate::error::AppError;
use crate::path::{file_name, file_name_of, join_path, path_join, trim_trailing_slashes};
use crate::text::{text_eq, chars_of, concat, ends_with, has_prefix, has_suffix, join, seq_join, sort_distinct, starts_with, strictly_sorted, substring};

verus! {

/// Archive formats supported for extraction.
#[derive(Debug, Clone, Copy, PartialEq, Eq, Structural)]
pub enum ArchiveFormat {
    TarGz,
    Zip,
}

/// The format that an asset named `name` has, judged by its suffix.
pub open spec fn format_of(name: Seq<char>) -> Option<ArchiveFormat> {
    if has_suffix(name, ".tar.gz"@) || has_suffix(name, ".tgz"@) {
        Some(ArchiveFormat::TarGz)
    } else if has_suffix(name, ".zip"@) {
        Some(ArchiveFormat::Zip)
    } else {
        None
    }
}

/// Detects the archive format from an asset filename, if supported.
pub fn detect_format(asset_name: &str) -> (r: Option<ArchiveFormat>)
    ensures
        r == format_of(asset_name@),
        (r == Some(ArchiveFormat::TarGz)) <==> (has_suffix(asset_name@, ".tar.gz"@) || has_suffix(
            asset_name@,
            ".tgz"@,
        )),
        (r == Some(ArchiveFormat::Zip)) <==> (!has_suffix(asset_name@, ".tar.gz"@) && !has_suffix(
            asset_name@,
            ".tgz"@,
        ) && has_suffix(asset_name@, ".zip"@)),
{
    if ends_with(asset_name, ".tar.gz") || ends_with(asset_name, ".tgz") {
        Some(ArchiveFormat::TarGz)
    } else if ends_with(asset_name, ".zip") {
        Some(ArchiveFormat::Zip)
    } else {
        None
    }
}

/// `s` without one leading `./` and without its trailing `/`s.
pub open spec fn normalized(s: Seq<char>) -> Seq<char> {
    let t = if has_prefix(s, seq!['.', '/']) {
        s.skip(2)
    } else {
        s
    };
    trim_trailing_slashes(t)
}

/// Strips a leading `./` and the trailing `/`s from an archive entry path.
pub fn normalize_entry_path(s: &str) -> (r: String)
    ensures
        r@ == normalized(s@),
        r@.len() > 0 ==> r@.last() != '/',
        s@.len() >= 2 && s@[0] == '.' && s@[1] == '/' ==> {
            &&& 2 + r@.len() <= s@.len()
            &&& r@ == s@.subrange(2, 2 + r@.len() as int)
            &&& forall|j: int| 2 + r@.len() <= j < s@.len() ==> s@[j] == '/'
        },
        !(s@.len() >= 2 && s@[0] == '.' && s@[1] == '/') ==> {
            &&& r@.len() <= s@.len()
            &&& r@ == s@.subrange(0, r@.len() as int)
            &&& forall|j: int| r@.len() <= j < s@.len() ==> s@[j] == '/'
        },
{
    let v = chars_of(s);
    let n = v.len();
    let start: usize = if n >= 2 && v[0] == '.' && v[1] == '/' {
        2
    } else {
        0
    };
    let ghost dot_slash = seq!['.', '/'];
    proof {
        if n >= 2 && v@[0] == '.' && v@[1] == '/' {
            assert(s@.subrange(0, 2) =~= dot_slash);
        } else if n >= 2 {
            assert(s@.subrange(0, 2)[0] == s@[0]);
            assert(s@.subrange(0, 2)[1] == s@[1]);
            assert(dot_slash[0] == '.' && dot_slash[1] == '/');
            assert(s@.subrange(0, 2) != dot_slash);
        }
        assert(s@.skip(0) =~= s@);
    }
    let ghost t = s@.skip(start as int);
    assert(t == (if has_prefix(s@, dot_slash) { s@.skip(2) } else { s@ }));
    let mut e = n;
    assert(t =~= s@.subrange(start as int, e as int));
    while e > start && v[e - 1] == '/'
        invariant
            start <= e <= n,
            n == v@.len(),
            v@ == s@,
            t == s@.skip(start as int),
            trim_trailing_slashes(t) == trim_trailing_slashes(s@.subrange(start as int, e as int)),
        decreases e,
    {
        assert(s@.subrange(start as int, e as int).drop_last() =~= s@.subrange(
            start as int,
            e - 1,
        ));
        e = e - 1;
    }
    let ghost u = s@.subrange(start as int, e as int);
    assert(trim_trailing_slashes(u) == u);
    let r = substring(s, start, e);
    proof {
        lemma_normalized_shape(s@);
        assert(r@ == normalized(s@));
    }
    r
}

/// Index of the first `/` in `p`, or its length when there is none.
pub open spec fn first_sep(p: Seq<char>) -> int
    decreases p.len(),
{
    if p.len() == 0 || p[0] == '/' {
        0
    } else {
        1 + first_sep(p.drop_first())
    }
}

/// The first `/`-separated component of `p` (what `split('/').next()` gives).
pub open spec fn first_component(p: Seq<char>) -> Seq<char> {
    p.take(first_sep(p))
}

pub proof fn lemma_first_sep_exact(p: Seq<char>, k: int)
    requires
        0 <= k <= p.len(),
        forall|j: int| 0 <= j < k ==> p[j] != '/',
        k == p.len() || p[k] == '/',
    ensures
        first_sep(p) == k,
    decreases p.len(),
{
    if p.len() > 0 && p[0] != '/' {
        lemma_first_sep_exact(p.drop_first(), k - 1);
    }
}

/// The list of top-level names after seeing an entry at `path`: its first
/// component is added unless it is empty or already listed.
pub open spec fn collected(top: Seq<Seq<char>>, path: Seq<char>) -> Seq<Seq<char>> {
    let f = first_component(path);
    if f.len() > 0 && !top.contains(f) {
        top.push(f)
    } else {
        top
    }
}

/// Whether some element of `v` has the text `x`.
fn contains_text(v: &Vec<String>, x: &str) -> (r: bool)
    ensures
        r == v.deep_view().contains(x@),
{
    let n = v.len();
    let mut i: usize = 0;
    while i < n
        invariant
            n == v@.len(),
            i <= n,
            forall|j: int| 0 <= j < i ==> v.deep_view()[j] != x@,
        decreases n - i,
    {
        if text_eq(v[i].as_str(), x) {
            assert(v.deep_view()[i as int] == x@);
            return true;
        }
        i = i + 1;
    }
    false
}

/// Records the top-level component of `norm_path` in `top_level` (each name
/// once), for the message of an entry that was not found.
pub fn collect_top_level(norm_path: &str, top_level: &mut Vec<String>)
    ensures
        final(top_level).deep_view() == collected(old(top_level).deep_view(), norm_path@),
        exists|k: int|
            #![trigger norm_path@.take(k)]
            {
                &&& 0 <= k <= norm_path@.len()
                &&& forall|j: int| 0 <= j < k ==> norm_path@[j] != '/'
                &&& (k == norm_path@.len() || norm_path@[k] == '/')
                &&& if k > 0 && !old(top_level).deep_view().contains(norm_path@.take(k)) {
                    final(top_level).deep_view() == old(top_level).deep_view().push(
                        norm_path@.take(k),
                    )
                } else {
                    final(top_level).deep_view() == old(top_level).deep_view()
                }
            },
{
    let v = chars_of(norm_path);
    let n = v.len();
    let mut k: usize = 0;
    while k < n && v[k] != '/'
        invariant
            n == v@.len(),
            k <= n,
            forall|j: int| 0 <= j < k ==> v@[j] != '/',
        decreases n - k,
    {
        k = k + 1;
    }
    proof {
        lemma_first_sep_exact(norm_path@, k as int);
    }
    let first = substring(norm_path, 0, k);
    assert(first@ == first_component(norm_path@));
    assert(first@ == norm_path@.take(k as int));
    let ghost old_view = top_level.deep_view();
    if k > 0 && !contains_text(top_level, first.as_str()) {
        top_level.push(first);
        assert(top_level.deep_view() =~= old_view.push(first_component(norm_path@)));
    }
    proof {
        let kk = k as int;
        assert(forall|j: int| 0 <= j < kk ==> norm_path@[j] != '/');
        assert(kk == norm_path@.len() || norm_path@[kk] == '/');
        assert(if kk > 0 && !old_view.contains(norm_path@.take(kk)) {
            top_level.deep_view() == old_view.push(norm_path@.take(kk))
        } else {
            top_level.deep_view() == old_view
        });
    }
}

/// Whether a zip entry's unix mode marks a symlink (`S_IFLNK` in the file type
/// bits). Entries without a unix mode count as files.
pub open spec fn zip_mode_is_symlink(mode: Option<u32>) -> bool {
    match mode {
        Some(m) => (m & 0o170000u32) == 0o120000u32,
        None => false,
    }
}

/// Whether a zip entry's unix mode marks a symlink.
pub fn is_symlink_mode(mode: Option<u32>) -> (r: bool)
    ensures
        r == zip_mode_is_symlink(mode),
        mode matches Some(m) ==> (r <==> (m & 0o170000u32) == 0o120000u32),
        mode is None ==> !r,
{
    match mode {
        Some(m) => (m & 0o170000u32) == 0o120000u32,
        None => false,
    }
}

/// `s` with every `\` turned into `/`.
pub open spec fn forward_slashes(s: Seq<char>) -> Seq<char> {
    Seq::new(
        s.len(),
        |i: int|
            if s[i] == '\\' {
                '/'
            } else {
                s[i]
            },
    )
}

/// Turns the `\` separators of an entry name made on Windows into `/`.
pub fn to_forward_slashes(s: &str) -> (r: String)
    ensures
        r@ == forward_slashes(s@),
        r@.len() == s@.len(),
        forall|i: int| 0 <= i < s@.len() && s@[i] == '\\' ==> r@[i] == '/',
        forall|i: int| 0 <= i < s@.len() && s@[i] != '\\' ==> r@[i] == s@[i],
{
    let n = s.unicode_len();
    let mut r = String::new();
    let mut i: usize = 0;
    proof {
        reveal_strlit("/");
    }
    while i < n
        invariant
            n == s@.len(),
            i <= n,
            r@ == forward_slashes(s@).take(i as int),
            "/"@ == seq!['/'],
        decreases n - i,
    {
        let c = s.get_char(i);
        if c == '\\' {
            r.append("/");
        } else {
            r.append(s.substring_char(i, i + 1));
        }
        i = i + 1;
        assert(r@ =~= forward_slashes(s@).take(i as int));
    }
    assert(forward_slashes(s@).take(n as int) =~= forward_slashes(s@));
    r
}

/// What to do with one entry of the archive while a single entry is
/// extracted.
#[derive(Debug)]
pub enum EntryAction {
    /// Nothing: the entry is not selected, or is a directory entry.
    Skip,
    /// A symlink inside the selected directory: it is not extracted, and a
    /// warning names it.
    SkipSymlink(String),
    /// Write the entry's content to this path and read on.
    Write(String),
    /// Write the entry's content to this path: it is the selected entry
    /// itself, so the rest of the archive is not read.
    WriteAndStop(String),
}

/// The selected entry's path followed by `/`: entries under it belong to the
/// selected directory.
pub open spec fn dir_prefix_of(entry: Seq<char>) -> Seq<char> {
    entry + seq!['/']
}

/// What one (normalized) entry path calls for, given the selected entry and
/// the landing path: `r` is the result that `EntryMatcher::step` returns.
pub open spec fn step_outcome(
    entry: Seq<char>,
    dest: Seq<char>,
    path: Seq<char>,
    is_dir: bool,
    is_symlink: bool,
    r: Result<EntryAction, AppError>,
) -> bool {
    if is_dir {
        r matches Ok(EntryAction::Skip)
    } else if path == entry {
        if is_symlink {
            r matches Err(AppError::SymlinkEntry(n)) && n@ == entry
        } else {
            r matches Ok(EntryAction::WriteAndStop(p)) && p@ == dest
        }
    } else if has_prefix(path, dir_prefix_of(entry)) {
        if is_symlink {
            r matches Ok(EntryAction::SkipSymlink(n)) && n@ == path
        } else {
            r matches Ok(EntryAction::Write(p)) && p@ == path_join(
                dest,
                path.skip(entry.len() as int + 1),
            )
        }
    } else {
        r matches Ok(EntryAction::Skip)
    }
}

/// Whether an entry at `path` is written out (and so counts as a match).
pub open spec fn step_writes(entry: Seq<char>, path: Seq<char>, is_dir: bool, is_symlink: bool) -> bool {
    !is_dir && !is_symlink && (path == entry || has_prefix(path, dir_prefix_of(entry)))
}

/// The top-level names listed after seeing the entry paths `paths` in turn.
pub open spec fn collect_all(paths: Seq<Seq<char>>) -> Seq<Seq<char>>
    decreases paths.len(),
{
    if paths.len() == 0 {
        Seq::empty()
    } else {
        collected(collect_all(paths.drop_last()), paths.last())
    }
}

/// Picks a single file or directory entry out of the entries of an archive,
/// read one after another, and says where each selected one is written.
pub struct EntryMatcher {
    norm_entry: String,
    dir_prefix: String,
    dest: String,
    matched: bool,
    top_level: Vec<String>,
    seen: Ghost<Seq<Seq<char>>>,
}

impl EntryMatcher {
    #[verifier::type_invariant]
    spec fn inv(self) -> bool {
        &&& self.dir_prefix@ == dir_prefix_of(self.norm_entry@)
        &&& self.top_level.deep_view() == collect_all(self.seen@)
    }

    /// The selected entry, normalized.
    pub closed spec fn entry(&self) -> Seq<char> {
        self.norm_entry@
    }

    /// Where the selected entry lands.
    pub closed spec fn dest(&self) -> Seq<char> {
        self.dest@
    }

    /// Whether some entry has been written.
    pub closed spec fn matched(&self) -> bool {
        self.matched
    }

    /// The top-level names seen so far, in the order first seen.
    pub closed spec fn top_level(&self) -> Seq<Seq<char>> {
        self.top_level.deep_view()
    }

    /// The normalized paths of the entries seen so far (entries whose path
    /// is empty are not counted).
    pub closed spec fn seen(&self) -> Seq<Seq<char>> {
        self.seen@
    }

    /// A matcher for the entry `entry` (normalized here), to land at `dest`.
    pub fn new(entry: &str, dest: &str) -> (m: Self)
        ensures
            m.entry() == normalized(entry@),
            m.dest() == dest@,
            !m.matched(),
            m.top_level() == Seq::<Seq<char>>::empty(),
            m.seen() == Seq::<Seq<char>>::empty(),
    {
        let norm_entry = normalize_entry_path(entry);
        let dir_prefix = concat(norm_entry.as_str(), "/");
        proof {
            reveal_strlit("/");
            assert("/"@ =~= seq!['/']);
        }
        let top_level: Vec<String> = Vec::new();
        assert(top_level.deep_view() =~= Seq::<Seq<char>>::empty());
        EntryMatcher {
            norm_entry,
            dir_prefix,
            dest: String::from_str(dest),
            matched: false,
            top_level,
            seen: Ghost(Seq::empty()),
        }
    }

    /// Takes in the next entry, at the normalized path `norm_path`: records its
    /// top-level name and says what to do with it. A directory entry is
    /// skipped; the selected entry itself is written to the landing path
    /// (unless it is a symlink: an error); a file under the selected directory
    /// is written below the landing path (a symlink there is skipped).
    pub fn step(&mut self, norm_path: &str, is_dir: bool, is_symlink: bool) -> (r: Result<
        EntryAction,
        AppError,
    >)
        ensures
            final(self).entry() == old(self).entry(),
            final(self).dest() == old(self).dest(),
            final(self).seen() == old(self).seen().push(norm_path@),
            final(self).top_level() == collected(old(self).top_level(), norm_path@),
            final(self).matched() == (old(self).matched() || step_writes(
                old(self).entry(),
                norm_path@,
                is_dir,
                is_symlink,
            )),
            step_outcome(old(self).entry(), old(self).dest(), norm_path@, is_dir, is_symlink, r),
            is_dir ==> (r matches Ok(EntryAction::Skip)) && final(self).matched() == old(
                self,
            ).matched(),
            !is_dir && !is_symlink && norm_path@ == old(self).entry() ==> (r matches Ok(
                EntryAction::WriteAndStop(p),
            ) && p@ == old(self).dest()) && final(self).matched(),
            !is_dir && is_symlink && norm_path@ == old(self).entry() ==> (r matches Err(
                AppError::SymlinkEntry(n),
            ) && n@ == old(self).entry()),
            forall|rel: Seq<char>|
                !is_dir && norm_path@ == old(self).entry() + seq!['/'] + rel ==> (if is_symlink {
                    (r matches Ok(EntryAction::SkipSymlink(n)) && n@ == norm_path@)
                        && final(self).matched() == old(self).matched()
                } else {
                    (r matches Ok(EntryAction::Write(p)) && p@ == path_join(old(self).dest(), rel))
                        && final(self).matched()
                }),
            norm_path@ != old(self).entry() && !has_prefix(norm_path@, old(self).entry() + seq!['/'])
                ==> (r matches Ok(EntryAction::Skip)) && final(self).matched() == old(
                self,
            ).matched(),
            r matches Ok(EntryAction::WriteAndStop(_)) ==> norm_path@ == old(self).entry(),
            r is Err ==> final(self).matched() == old(self).matched(),
    {
        proof {
            use_type_invariant(&*self);
        }
        let ghost seen = self.seen@;
        let mut top = self.top_level.clone();
        proof {
            assert(top.deep_view() =~= self.top_level.deep_view());
            assert(seen.push(norm_path@).drop_last() =~= seen);
        }
        collect_top_level(norm_path, &mut top);
        *self = EntryMatcher {
            norm_entry: self.norm_entry.clone(),
            dir_prefix: self.dir_prefix.clone(),
            dest: self.dest.clone(),
            matched: self.matched,
            top_level: top,
            seen: Ghost(seen.push(norm_path@)),
        };
        proof {
            assert forall|q: Seq<char>| norm_path@ == self.norm_entry@ + seq!['/'] + q implies (
            norm_path@.len() > self.norm_entry@.len() && has_prefix(norm_path@, self.dir_prefix@)
                && q == norm_path@.skip(self.norm_entry@.len() as int + 1)) by {
                assert(norm_path@.subrange(0, self.dir_prefix@.len() as int) =~= self.dir_prefix@);
                assert(q =~= norm_path@.skip(self.norm_entry@.len() as int + 1));
            }
        }
        if is_dir {
            return Ok(EntryAction::Skip);
        }
        if text_eq(self.norm_entry.as_str(), norm_path) {
            if is_symlink {
                return Err(AppError::SymlinkEntry(self.norm_entry.clone()));
            }
            self.matched = true;
            return Ok(EntryAction::WriteAndStop(self.dest.clone()));
        }
        if starts_with(norm_path, self.dir_prefix.as_str()) {
            if is_symlink {
                return Ok(EntryAction::SkipSymlink(String::from_str(norm_path)));
            }
            let k = self.dir_prefix.unicode_len();
            let rel = substring(norm_path, k, norm_path.unicode_len());
            assert(rel@ =~= norm_path@.skip(self.norm_entry@.len() as int + 1));
            assert forall|q: Seq<char>| norm_path@ == self.norm_entry@ + seq!['/'] + q implies q
                == rel@ by {
                assert(q =~= norm_path@.skip(self.norm_entry@.len() as int + 1));
            }
            self.matched = true;
            return Ok(EntryAction::Write(join_path(self.dest.as_str(), rel.as_str())));
        }
        Ok(EntryAction::Skip)
    }

    /// Takes in the next entry of a tar archive, at the raw path `raw_path`.
    pub fn step_tar(&mut self, raw_path: &str, is_dir: bool, is_symlink: bool) -> (r: Result<
        EntryAction,
        AppError,
    >)
        ensures
            final(self).entry() == old(self).entry(),
            final(self).dest() == old(self).dest(),
            final(self).seen() == old(self).seen().push(normalized(raw_path@)),
            final(self).top_level() == collected(old(self).top_level(), normalized(raw_path@)),
            final(self).matched() == (old(self).matched() || step_writes(
                old(self).entry(),
                normalized(raw_path@),
                is_dir,
                is_symlink,
            )),
            step_outcome(
                old(self).entry(),
                old(self).dest(),
                normalized(raw_path@),
                is_dir,
                is_symlink,
                r,
            ),
            is_dir ==> (r matches Ok(EntryAction::Skip)) && final(self).matched() == old(
                self,
            ).matched(),
    {
        let norm = normalize_entry_path(raw_path);
        self.step(norm.as_str(), is_dir, is_symlink)
    }

    /// Takes in the next entry of a zip archive: `enclosed_name` is its name
    /// made safe by the zip reader (none when unsafe), `unix_mode` its unix
    /// mode if it has one. `\` separators count as `/`; an entry whose
    /// normalized name is empty is skipped and not counted.
    pub fn step_zip(&mut self, enclosed_name: Option<&str>, is_dir: bool, unix_mode: Option<u32>) -> (r:
        Result<EntryAction, AppError>)
        ensures
            ({
                let raw = match enclosed_name {
                    Some(n) => n@,
                    None => Seq::<char>::empty(),
                };
                let p = normalized(forward_slashes(raw));
                if p.len() == 0 {
                    &&& r matches Ok(EntryAction::Skip)
                    &&& final(self).entry() == old(self).entry()
                    &&& final(self).dest() == old(self).dest()
                    &&& final(self).seen() == old(self).seen()
                    &&& final(self).top_level() == old(self).top_level()
                    &&& final(self).matched() == old(self).matched()
                } else {
                    &&& final(self).entry() == old(self).entry()
                    &&& final(self).dest() == old(self).dest()
                    &&& final(self).seen() == old(self).seen().push(p)
                    &&& final(self).top_level() == collected(old(self).top_level(), p)
                    &&& final(self).matched() == (old(self).matched() || step_writes(
                        old(self).entry(),
                        p,
                        is_dir,
                        zip_mode_is_symlink(unix_mode),
                    ))
                    &&& step_outcome(
                        old(self).entry(),
                        old(self).dest(),
                        p,
                        is_dir,
                        zip_mode_is_symlink(unix_mode),
                        r,
                    )
                }
            }),
            is_dir ==> (r matches Ok(EntryAction::Skip)) && final(self).matched() == old(
                self,
            ).matched(),
    {
        let raw = match enclosed_name {
            Some(n) => String::from_str(n),
            None => String::new(),
        };
        let fwd = to_forward_slashes(raw.as_str());
        let norm = normalize_entry_path(fwd.as_str());
        if norm.unicode_len() == 0 {
            return Ok(EntryAction::Skip);
        }
        let symlink = is_symlink_mode(unix_mode);
        self.step(norm.as_str(), is_dir, symlink)
    }

    /// The end of the archive: an error naming the selected entry and the
    /// top-level names seen, sorted and one per line, when nothing was
    /// written.
    pub fn finish(&self) -> (r: Result<(), AppError>)
        ensures
            self.top_level() == collect_all(self.seen()),
            self.matched() ==> r is Ok,
            !self.matched() ==> exists|sorted: Seq<Seq<char>>|
                {
                    &&& strictly_sorted(sorted)
                    &&& sorted.to_multiset() == self.top_level().to_multiset()
                    &&& r matches Err(AppError::EntryNotFound(n, l)) && n@ == self.entry() && l@
                        == seq_join(sorted, "\n  "@)
                },
    {
        proof {
            use_type_invariant(self);
            lemma_collect_all_distinct(self.seen@);
        }
        if self.matched {
            return Ok(());
        }
        let sorted = sort_distinct(&self.top_level);
        let listing = join(&sorted, "\n  ");
        Err(AppError::EntryNotFound(self.norm_entry.clone(), listing))
    }
}

/// Every name that `collected` lists is the non-empty first component of a
/// path seen, each such component is listed, and none is listed twice.
pub proof fn lemma_collect_all_distinct(paths: Seq<Seq<char>>)
    ensures
        collect_all(paths).no_duplicates(),
        forall|x: Seq<char>|
            collect_all(paths).contains(x) <==> (x.len() > 0 && exists|i: int|
                0 <= i < paths.len() && first_component(#[trigger] paths[i]) == x),
    decreases paths.len(),
{
    if paths.len() > 0 {
        let prev = paths.drop_last();
        lemma_collect_all_distinct(prev);
        let c = collect_all(prev);
        let f = first_component(paths.last());
        assert forall|x: Seq<char>|
            collect_all(paths).contains(x) <==> (x.len() > 0 && exists|i: int|
                0 <= i < paths.len() && first_component(#[trigger] paths[i]) == x) by {
            if collect_all(paths).contains(x) {
                if c.contains(x) {
                    let i = choose|i: int| 0 <= i < prev.len() && first_component(#[trigger] prev[i]) == x;
                    assert(paths[i] == prev[i]);
                } else {
                    assert(x == f);
                    assert(paths[paths.len() - 1] == paths.last());
                }
            }
            if x.len() > 0 && exists|i: int| 0 <= i < paths.len() && first_component(#[trigger] paths[i]) == x {
                let i = choose|i: int| 0 <= i < paths.len() && first_component(#[trigger] paths[i]) == x;
                if i < paths.len() - 1 {
                    assert(prev[i] == paths[i]);
                    assert(c.contains(x));
                    if f.len() > 0 && !c.contains(f) {
                        assert(c.push(f)[c.index_of(x)] == x);
                    }
                } else {
                    if !c.contains(f) {
                        assert(c.push(f)[c.len() as int] == f);
                    }
                }
            }
        }
        if f.len() > 0 && !c.contains(f) {
            assert forall|a: int, b: int| 0 <= a < b < c.push(f).len() implies c.push(f)[a] != c.push(f)[b] by {
                if b == c.len() {
                    assert(c.push(f)[a] == c[a]);
                }
            }
        }
    }
}

/// A directory entry is never written and never stops reading: whatever its
/// path, even the selected entry's own, the step skips it and the match does
/// not change.
pub proof fn lemma_directory_entries_skipped(
    entry: Seq<char>,
    dest: Seq<char>,
    path: Seq<char>,
    is_symlink: bool,
    r: Result<EntryAction, AppError>,
)
    requires
        step_outcome(entry, dest, path, true, is_symlink, r),
    ensures
        r matches Ok(EntryAction::Skip),
        !step_writes(entry, path, true, is_symlink),
{
}

/// Only the selected entry itself, or a file below the selected directory, is
/// written; an entry is written below the landing path exactly at its path
/// relative to the selected directory; everything else is skipped.
pub proof fn lemma_step_writes_only_selected(
    entry: Seq<char>,
    dest: Seq<char>,
    path: Seq<char>,
    is_dir: bool,
    is_symlink: bool,
    r: Result<EntryAction, AppError>,
)
    requires
        step_outcome(entry, dest, path, is_dir, is_symlink, r),
    ensures
        r matches Ok(EntryAction::WriteAndStop(q)) ==> !is_dir && !is_symlink && path == entry
            && q@ == dest,
        r matches Ok(EntryAction::Write(q)) ==> !is_dir && !is_symlink && path != entry && exists|
            rel: Seq<char>,
        |
            path == entry + seq!['/'] + rel && q@ == path_join(dest, rel),
        r matches Ok(EntryAction::SkipSymlink(q)) ==> !is_dir && is_symlink && q@ == path
            && has_prefix(path, entry + seq!['/']),
        r is Err ==> !is_dir && is_symlink && path == entry,
        r matches Err(e) ==> (e matches AppError::SymlinkEntry(n) && n@ == entry),
        step_writes(entry, path, is_dir, is_symlink) <==> (r matches Ok(EntryAction::Write(_))
            || r matches Ok(EntryAction::WriteAndStop(_))),
        !is_dir && !is_symlink && path == entry ==> r matches Ok(EntryAction::WriteAndStop(_)),
        !is_dir && path != entry && !has_prefix(path, entry + seq!['/']) ==> r matches Ok(
            EntryAction::Skip,
        ),
{
    if r matches Ok(EntryAction::Write(q)) {
        let rel = path.skip(entry.len() as int + 1);
        assert(path =~= entry + seq!['/'] + rel);
    }
}

/// A format is detected only from the suffixes `.tar.gz` and `.tgz` (tar
/// archives compressed with gzip) and `.zip`; any other name, a bare `.gz`
/// among them, has none.
pub proof fn lemma_format_by_suffix(name: Seq<char>)
    ensures
        (format_of(name) == Some(ArchiveFormat::TarGz)) <==> (has_suffix(name, ".tar.gz"@)
            || has_suffix(name, ".tgz"@)),
        (format_of(name) == Some(ArchiveFormat::Zip)) <==> (!has_suffix(name, ".tar.gz"@)
            && !has_suffix(name, ".tgz"@) && has_suffix(name, ".zip"@)),
        (format_of(name) is None) <==> (!has_suffix(name, ".tar.gz"@) && !has_suffix(
            name,
            ".tgz"@,
        ) && !has_suffix(name, ".zip"@)),
{
}

/// A normalized entry path has no trailing `/`, and it is the path itself,
/// or the path after one leading `./`, without its trailing `/`s.
pub proof fn lemma_normalized_shape(s: Seq<char>)
    ensures
        normalized(s).len() > 0 ==> normalized(s).last() != '/',
        s.len() >= 2 && s[0] == '.' && s[1] == '/' ==> {
            &&& 2 + normalized(s).len() <= s.len()
            &&& normalized(s) == s.subrange(2, 2 + normalized(s).len() as int)
            &&& forall|j: int| 2 + normalized(s).len() <= j < s.len() ==> s[j] == '/'
        },
        !(s.len() >= 2 && s[0] == '.' && s[1] == '/') ==> {
            &&& normalized(s).len() <= s.len()
            &&& normalized(s) == s.subrange(0, normalized(s).len() as int)
            &&& forall|j: int| normalized(s).len() <= j < s.len() ==> s[j] == '/'
        },
{
    let t = if has_prefix(s, seq!['.', '/']) {
        s.skip(2)
    } else {
        s
    };
    crate::path::lemma_trim_len(t);
    lemma_trim_only_slashes(t);
    if s.len() >= 2 && s[0] == '.' && s[1] == '/' {
        assert(s.subrange(0, 2) =~= seq!['.', '/']);
        let n = normalized(s).len() as int;
        assert(normalized(s) =~= s.subrange(2, 2 + n));
        assert forall|j: int| 2 + n <= j < s.len() implies s[j] == '/' by {
            assert(t[j - 2] == s[j]);
        }
    } else if s.len() >= 2 {
        assert(s.subrange(0, 2)[0] == s[0] && s.subrange(0, 2)[1] == s[1]);
        assert(seq!['.', '/'][0] == '.' && seq!['.', '/'][1] == '/');
    }
}

proof fn lemma_trim_only_slashes(t: Seq<char>)
    ensures
        forall|j: int| trim_trailing_slashes(t).len() <= j < t.len() ==> t[j] == '/',
    decreases t.len(),
{
    if t.len() > 0 && t.last() == '/' {
        lemma_trim_only_slashes(t.drop_last());
        assert forall|j: int| trim_trailing_slashes(t).len() <= j < t.len() implies t[j] == '/' by {
            if j < t.len() - 1 {
                assert(t.drop_last()[j] == t[j]);
            }
        }
    }
}

/// A zip entry is a symlink exactly when the file type bits of its unix mode
/// are `S_IFLNK` (octal 120000).
pub proof fn lemma_zip_symlink_mode(m: u32)
    ensures
        zip_mode_is_symlink(Some(m)) <==> (m & 0o170000u32) == 0o120000u32,
        !zip_mode_is_symlink(None),
{
}

/// A single entry lands at an exact destination verbatim, and inside an
/// `Into` directory under its last name; a whole archive lands in the
/// directory itself.
pub proof fn lemma_landing(entry: Option<Seq<char>>, dest: Destination)
    ensures
        entry is Some ==> (dest matches Destination::Exact(p) ==> landing_of(entry, dest) == p@),
        entry is None ==> (dest matches Destination::Into(d) ==> landing_of(entry, dest) == d@),
        dest matches Destination::Into(d) ==> (entry matches Some(e) ==> (file_name_of(
            normalized(e),
        ) matches Some(n) ==> landing_of(entry, dest) == path_join(d@, n))),
{
}

/// Where an extraction lands: a whole archive (no `entry`) unpacks into the
/// directory of `dest`; a single entry lands at an exact `dest` verbatim, or
/// inside the directory `dest` under the entry's own last name (the whole
/// normalized entry path when it has none).
pub open spec fn landing_of(entry: Option<Seq<char>>, dest: Destination) -> Seq<char> {
    match entry {
        None => match dest {
            Destination::Into(d) => d@,
            Destination::Exact(p) => p@,
        },
        Some(e) => match dest {
            Destination::Exact(p) => p@,
            Destination::Into(d) => {
                let norm = normalized(e);
                path_join(
                    d@,
                    match file_name_of(norm) {
                        Some(n) => n,
                        None => norm,
                    },
                )
            },
        },
    }
}

/// The filesystem path of the extracted result. A whole archive cannot land
/// at an exact path, so `entry` must be given when `dest` is `Exact`.
pub fn extraction_landing(entry: Option<&str>, dest: &Destination) -> (r: String)
    requires
        entry is None ==> dest is Into,
    ensures
        r@ == landing_of(
            match entry {
                Some(e) => Some(e@),
                None => None,
            },
            *dest,
        ),
        entry is Some ==> (dest matches Destination::Exact(p) ==> r@ == p@),
        entry is None ==> (dest matches Destination::Into(d) ==> r@ == d@),
        entry matches Some(e) ==> (dest matches Destination::Into(d) ==> (file_name_of(
            normalized(e@),
        ) matches Some(n) ==> r@ == path_join(d@, n))),
{
    match entry {
        None => match dest {
            Destination::Into(d) => d.clone(),
            Destination::Exact(p) => p.clone(),
        },
        Some(e) => match dest {
            Destination::Exact(p) => p.clone(),
            Destination::Into(d) => {
                let norm = normalize_entry_path(e);
                let base = match file_name(norm.as_str()) {
                    Some(n) => n,
                    None => norm,
                };
                join_path(d.as_str(), base.as_str())
            },
        },
    }
}

} // verus!
