//! The selection of a single entry over a whole archive: what a tar stream
//! of entries calls for, and the complete plan for a zip archive held in
//! memory, read from its bytes.
use vstd::prelude::*;
use vstd::string::*;
use crate::archive::{
    collected, dir_prefix_of, forward_slashes, normalized, zip_mode_is_symlink, EntryAction,
    EntryMatcher,
};
use crate::error::AppError;
use crate::path::path_join;
use crate::text::{has_prefix, seq_join, strictly_sorted};

verus! {

/// The kind of an action in a run.
pub enum ActionKind {
    /// Nothing to do.
    Skip,
    /// A symlink inside the selected directory, not extracted (a warning).
    SkipSymlink,
    /// A write; reading goes on.
    Write,
    /// The write of the selected entry itself, after which reading stops.
    WriteAndStop,
}

/// Whether reading goes on, and if not, why it stopped.
pub enum RunStatus {
    /// Reading goes on.
    Reading,
    /// Stopped after writing the selected entry.
    Stopped,
    /// Stopped at the selected entry, which is a symlink.
    AtSymlink,
    /// Stopped at an entry that could not be read, with the error's message.
    Unreadable(Seq<char>),
}

/// Where the selection stands after some entries: the actions so far
/// (entry index, kind, path), whether something was written, the top-level
/// names seen, and whether reading goes on.
pub struct RunState {
    pub acts: Seq<(int, ActionKind, Seq<char>)>,
    pub matched: bool,
    pub top: Seq<Seq<char>>,
    pub status: RunStatus,
}

/// The state before any entry.
pub open spec fn run_start() -> RunState {
    RunState {
        acts: Seq::empty(),
        matched: false,
        top: Seq::empty(),
        status: RunStatus::Reading,
    }
}

/// The entry at index `i`, at the normalized path `p`, taken in while
/// `entry` is selected to land at `dest` (the rules of `EntryMatcher::step`).
pub open spec fn apply_step(
    st: RunState,
    i: int,
    p: Seq<char>,
    is_dir: bool,
    is_symlink: bool,
    entry: Seq<char>,
    dest: Seq<char>,
) -> RunState {
    let top = collected(st.top, p);
    if is_dir {
        RunState { top: top, ..st }
    } else if p == entry {
        if is_symlink {
            RunState { top: top, status: RunStatus::AtSymlink, ..st }
        } else {
            RunState {
                acts: st.acts.push((i, ActionKind::WriteAndStop, dest)),
                matched: true,
                top: top,
                status: RunStatus::Stopped,
                ..st
            }
        }
    } else if has_prefix(p, dir_prefix_of(entry)) {
        if is_symlink {
            RunState { acts: st.acts.push((i, ActionKind::SkipSymlink, p)), top: top, ..st }
        } else {
            RunState {
                acts: st.acts.push(
                    (i, ActionKind::Write, path_join(dest, p.skip(entry.len() as int + 1))),
                ),
                matched: true,
                top: top,
                ..st
            }
        }
    } else {
        RunState { top: top, ..st }
    }
}

/// In a run, a directory entry adds no action, leaves the match as it was
/// and does not stop reading.
pub proof fn lemma_run_skips_directories(
    st: RunState,
    i: int,
    p: Seq<char>,
    is_symlink: bool,
    entry: Seq<char>,
    dest: Seq<char>,
)
    ensures
        apply_step(st, i, p, true, is_symlink, entry, dest).acts == st.acts,
        apply_step(st, i, p, true, is_symlink, entry, dest).matched == st.matched,
        apply_step(st, i, p, true, is_symlink, entry, dest).status == st.status,
{
}

/// The selection over the entries of a tar stream, each given by its raw
/// path, whether it is a directory and whether it is a symlink.
pub open spec fn tar_run(ts: Seq<(Seq<char>, bool, bool)>, entry: Seq<char>, dest: Seq<char>) -> RunState
    decreases ts.len(),
{
    if ts.len() == 0 {
        run_start()
    } else {
        let prev = tar_run(ts.drop_last(), entry, dest);
        if !(prev.status is Reading) {
            prev
        } else {
            let t = ts.last();
            apply_step(prev, ts.len() - 1, normalized(t.0), t.1, t.2, entry, dest)
        }
    }
}

/// One call of `EntryMatcher::step` (and so of `step_tar` and `step_zip`)
/// takes the selection one entry further exactly as `apply_step` does: the
/// same top-level names, the same match, and the action it returns is the
/// one the run records (an error is the stop at a selected symlink).
pub proof fn lemma_step_follows_run(
    st: RunState,
    i: usize,
    p: Seq<char>,
    is_dir: bool,
    is_symlink: bool,
    entry: Seq<char>,
    dest: Seq<char>,
    r: Result<EntryAction, AppError>,
)
    requires
        st.status is Reading,
        crate::archive::step_outcome(entry, dest, p, is_dir, is_symlink, r),
    ensures
        ({
            let nx = apply_step(st, i as int, p, is_dir, is_symlink, entry, dest);
            &&& nx.top == collected(st.top, p)
            &&& nx.matched == (st.matched || crate::archive::step_writes(
                entry,
                p,
                is_dir,
                is_symlink,
            ))
            &&& match r {
                Err(_) => nx.status is AtSymlink && nx.acts == st.acts,
                Ok(EntryAction::Skip) => nx.status is Reading && nx.acts == st.acts,
                Ok(a) => {
                    &&& nx.acts == st.acts.push(action_view(i, a))
                    &&& (nx.status is Stopped <==> a is WriteAndStop)
                    &&& !(nx.status is AtSymlink)
                },
            }
        }),
{
}

/// The normalized path of a zip entry whose safe name is `name` (none when
/// the name is unsafe): `\` counts as `/`.
pub open spec fn zip_entry_path(name: Option<Seq<char>>) -> Seq<char> {
    normalized(
        forward_slashes(
            match name {
                Some(n) => n,
                None => Seq::empty(),
            },
        ),
    )
}

/// The selection over the entries of a zip archive: each entry is its safe
/// name, whether it is a directory and its unix mode, or the message of the
/// error met when reading it. Entries whose path is empty are passed over.
pub open spec fn zip_run(
    es: Seq<Result<(Option<Seq<char>>, bool, Option<u32>), Seq<char>>>,
    entry: Seq<char>,
    dest: Seq<char>,
) -> RunState
    decreases es.len(),
{
    if es.len() == 0 {
        run_start()
    } else {
        let prev = zip_run(es.drop_last(), entry, dest);
        if !(prev.status is Reading) {
            prev
        } else {
            match es.last() {
                Err(m) => RunState { status: RunStatus::Unreadable(m), ..prev },
                Ok(e) => {
                    let p = zip_entry_path(e.0);
                    if p.len() == 0 {
                        prev
                    } else {
                        apply_step(
                            prev,
                            es.len() - 1,
                            p,
                            e.1,
                            zip_mode_is_symlink(e.2),
                            entry,
                            dest,
                        )
                    }
                },
            }
        }
    }
}

/// Once reading has stopped, later entries change nothing.
pub proof fn lemma_zip_run_stops(
    es: Seq<Result<(Option<Seq<char>>, bool, Option<u32>), Seq<char>>>,
    k: int,
    entry: Seq<char>,
    dest: Seq<char>,
)
    requires
        0 <= k <= es.len(),
        !(zip_run(es.take(k), entry, dest).status is Reading),
    ensures
        zip_run(es, entry, dest) == zip_run(es.take(k), entry, dest),
    decreases es.len() - k,
{
    if k < es.len() {
        assert(es.drop_last().take(k) =~= es.take(k));
        lemma_zip_run_stops(es.drop_last(), k, entry, dest);
    } else {
        assert(es.take(k) =~= es);
    }
}

/// Whether an action of kind `kind` on `path` can come from an entry at the
/// normalized path `p`: no directory entry gives one; a write that stops is
/// the selected entry itself, written at the landing path; any other write is
/// a file below the selected directory, written at its relative path below
/// the landing path; a skipped symlink lies below the selected directory.
pub open spec fn action_fits(
    p: Seq<char>,
    is_dir: bool,
    is_symlink: bool,
    entry: Seq<char>,
    dest: Seq<char>,
    kind: ActionKind,
    path: Seq<char>,
) -> bool {
    &&& !is_dir
    &&& match kind {
        ActionKind::Skip => false,
        ActionKind::WriteAndStop => !is_symlink && p == entry && path == dest,
        ActionKind::Write => !is_symlink && exists|rel: Seq<char>|
            p == entry + seq!['/'] + rel && path == path_join(dest, rel),
        ActionKind::SkipSymlink => is_symlink && path == p && has_prefix(p, entry + seq!['/']),
    }
}

/// Whether the action `a` fits the entry of the zip listing `es` that it
/// names by index.
pub open spec fn zip_action_fits(
    es: Seq<Result<(Option<Seq<char>>, bool, Option<u32>), Seq<char>>>,
    entry: Seq<char>,
    dest: Seq<char>,
    a: (int, ActionKind, Seq<char>),
) -> bool {
    &&& 0 <= a.0 < es.len()
    &&& es[a.0] matches Ok(e)
    &&& action_fits(zip_entry_path(e.0), e.1, zip_mode_is_symlink(e.2), entry, dest, a.1, a.2)
}

/// Whether the action `a` writes something.
pub open spec fn is_write(a: (int, ActionKind, Seq<char>)) -> bool {
    a.1 is Write || a.1 is WriteAndStop
}

/// Over a whole zip archive: every action concerns an entry that was read
/// and fits it (no directory entry gives one; a stopping write is the
/// selected entry at the landing path; other writes are files below the
/// selected directory, at their relative paths below the landing path),
/// entries are acted on in order, reading stops after a write only at the
/// selected entry, and something counts as written exactly when some action
/// writes.
pub proof fn lemma_zip_run_actions(
    es: Seq<Result<(Option<Seq<char>>, bool, Option<u32>), Seq<char>>>,
    entry: Seq<char>,
    dest: Seq<char>,
)
    ensures
        forall|k: int|
            0 <= k < zip_run(es, entry, dest).acts.len() ==> zip_action_fits(
                es,
                entry,
                dest,
                #[trigger] zip_run(es, entry, dest).acts[k],
            ),
        forall|k: int, l: int|
            0 <= k < l < zip_run(es, entry, dest).acts.len() ==> zip_run(es, entry, dest).acts[k].0
                < zip_run(es, entry, dest).acts[l].0,
        zip_run(es, entry, dest).status is Stopped ==> zip_run(es, entry, dest).acts.len() > 0
            && zip_run(es, entry, dest).acts.last().1 is WriteAndStop,
        zip_run(es, entry, dest).matched <==> exists|k: int|
            0 <= k < zip_run(es, entry, dest).acts.len() && is_write(
                #[trigger] zip_run(es, entry, dest).acts[k],
            ),
    decreases es.len(),
{
    if es.len() > 0 {
        let pre = es.drop_last();
        lemma_zip_run_actions(pre, entry, dest);
        let prev = zip_run(pre, entry, dest);
        let cur = zip_run(es, entry, dest);
        let n = es.len() - 1;
        assert forall|k: int| 0 <= k < prev.acts.len() implies zip_action_fits(
            es,
            entry,
            dest,
            #[trigger] prev.acts[k],
        ) by {
            assert(zip_action_fits(pre, entry, dest, prev.acts[k]));
            assert(es[prev.acts[k].0] == pre[prev.acts[k].0]);
        }
        if prev.status is Reading {
            if let Ok(e) = es.last() {
                let p = zip_entry_path(e.0);
                if p.len() > 0 {
                    let sl = zip_mode_is_symlink(e.2);
                    assert(es[n] == es.last());
                    if cur.acts.len() > prev.acts.len() {
                        assert(cur.acts == prev.acts.push(cur.acts.last()));
                        let a = cur.acts.last();
                        assert(a.0 == n);
                        if a.1 is Write {
                            let rel = p.skip(entry.len() as int + 1);
                            assert(p =~= entry + seq!['/'] + rel);
                        }
                        assert(zip_action_fits(es, entry, dest, a));
                        assert forall|k: int| 0 <= k < cur.acts.len() implies zip_action_fits(
                            es,
                            entry,
                            dest,
                            #[trigger] cur.acts[k],
                        ) by {
                            if k < prev.acts.len() {
                                assert(cur.acts[k] == prev.acts[k]);
                            }
                        }
                        assert forall|k: int, l: int|
                            0 <= k < l < cur.acts.len() implies cur.acts[k].0 < cur.acts[l].0 by {
                            assert(cur.acts[k] == prev.acts[k]);
                            if l < prev.acts.len() {
                                assert(cur.acts[l] == prev.acts[l]);
                            }
                        }
                        if cur.matched {
                            if prev.matched {
                                let k = choose|k: int|
                                    0 <= k < prev.acts.len() && is_write(#[trigger] prev.acts[k]);
                                assert(cur.acts[k] == prev.acts[k]);
                            } else {
                                assert(is_write(cur.acts[cur.acts.len() - 1]));
                            }
                        }
                        if exists|k: int| 0 <= k < cur.acts.len() && is_write(#[trigger] cur.acts[k]) {
                            let k = choose|k: int|
                                0 <= k < cur.acts.len() && is_write(#[trigger] cur.acts[k]);
                            if k < prev.acts.len() {
                                assert(cur.acts[k] == prev.acts[k]);
                            }
                        }
                    }
                }
            }
        }
    }
}

/// On entries whose names hold no `\` and normalize to a non-empty path, a
/// zip archive and a tar stream of the same entries (same names, same
/// directory flags, symlinks marked alike) select alike: the same actions
/// at the same indices and the same outcome.
pub proof fn lemma_zip_and_tar_agree(
    zs: Seq<Result<(Option<Seq<char>>, bool, Option<u32>), Seq<char>>>,
    ts: Seq<(Seq<char>, bool, bool)>,
    entry: Seq<char>,
    dest: Seq<char>,
)
    requires
        zs.len() == ts.len(),
        forall|i: int|
            0 <= i < zs.len() ==> {
                &&& (#[trigger] zs[i]) matches Ok(z)
                &&& z.0 == Some(ts[i].0)
                &&& z.1 == ts[i].1
                &&& zip_mode_is_symlink(z.2) == ts[i].2
                &&& !ts[i].0.contains('\\')
                &&& normalized(ts[i].0).len() > 0
            },
    ensures
        zip_run(zs, entry, dest) == tar_run(ts, entry, dest),
    decreases zs.len(),
{
    if zs.len() > 0 {
        let n = zs.len() - 1;
        lemma_zip_and_tar_agree(zs.drop_last(), ts.drop_last(), entry, dest);
        assert(zs[n] == zs.last());
        let t = ts.last();
        assert(t == ts[n]);
        assert(forward_slashes(t.0) =~= t.0) by {
            assert forall|j: int| 0 <= j < t.0.len() implies t.0[j] != '\\' by {
                if t.0[j] == '\\' {
                    assert(t.0.contains('\\'));
                }
            }
        }
    }
}

/// What is known of a zip entry without decompressing it.
#[derive(Debug)]
pub struct ZipEntryInfo {
    /// The name made safe by the zip reader (none when it is unsafe).
    pub enclosed_name: Option<String>,
    pub is_dir: bool,
    pub unix_mode: Option<u32>,
}

/// A zip entry as plain values.
pub open spec fn info_view(e: ZipEntryInfo) -> (Option<Seq<char>>, bool, Option<u32>) {
    (
        match e.enclosed_name {
            Some(n) => Some(n@),
            None => None,
        },
        e.is_dir,
        e.unix_mode,
    )
}

/// The entries of a listing as plain values.
pub open spec fn listing_view(v: Seq<Result<ZipEntryInfo, String>>) -> Seq<
    Result<(Option<Seq<char>>, bool, Option<u32>), Seq<char>>,
> {
    Seq::new(
        v.len(),
        |i: int|
            match v[i] {
                Ok(e) => Ok(info_view(e)),
                Err(m) => Err(m@),
            },
    )
}

/// What the zip reader makes of the archive `data`: for each entry in order,
/// its safe name, directory flag and unix mode, or the message of the error
/// met when opening it; or the message of the error met when reading the
/// archive's directory.
pub uninterp spec fn zip_listing(data: Seq<u8>) -> Result<
    Seq<Result<(Option<Seq<char>>, bool, Option<u32>), Seq<char>>>,
    Seq<char>,
>;

/// Lists the entries of the zip archive `data`.
///
/// Trusted: calls `zip::ZipArchive::new` on the bytes, then
/// `ZipArchive::by_index` for every index below `len()`, and reads each
/// entry's `enclosed_name` (as text, lossily), `is_dir` and `unix_mode`; or
/// takes the message of an error. The archive is in memory, so the outcome
/// depends on the bytes alone, and is named by `zip_listing`.
#[verifier::external_body]
fn zip_entries(data: &[u8]) -> (r: Result<Vec<Result<ZipEntryInfo, String>>, String>)
    ensures
        match r {
            Ok(v) => zip_listing(data@) == Ok::<_, Seq<char>>(listing_view(v@)),
            Err(e) => zip_listing(data@) == Err::<
                Seq<Result<(Option<Seq<char>>, bool, Option<u32>), Seq<char>>>,
                _,
            >(e@),
        },
{
    let mut archive = zip::ZipArchive::new(std::io::Cursor::new(data)).map_err(|e| e.to_string())?;
    let mut out = Vec::new();
    for i in 0..archive.len() {
        out.push(archive.by_index(i).map(|f| ZipEntryInfo {
            enclosed_name: f.enclosed_name().map(|p| p.to_string_lossy().into_owned()),
            is_dir: f.is_dir(),
            unix_mode: f.unix_mode(),
        }).map_err(|e| e.to_string()));
    }
    Ok(out)
}

/// The extraction of one entry from a zip archive, decided in full before
/// anything is written: copy or warn about the entries in `actions`, in
/// order, then end with `outcome`.
#[derive(Debug)]
pub struct ZipPlan {
    /// Each action with the index of the archive entry it concerns.
    pub actions: Vec<(usize, EntryAction)>,
    pub outcome: Result<(), AppError>,
}

/// An action as (entry index, kind, path).
pub open spec fn action_view(i: usize, a: EntryAction) -> (int, ActionKind, Seq<char>) {
    match a {
        EntryAction::Skip => (i as int, ActionKind::Skip, Seq::empty()),
        EntryAction::SkipSymlink(p) => (i as int, ActionKind::SkipSymlink, p@),
        EntryAction::Write(p) => (i as int, ActionKind::Write, p@),
        EntryAction::WriteAndStop(p) => (i as int, ActionKind::WriteAndStop, p@),
    }
}

/// The actions of a plan as (entry index, kind, path).
pub open spec fn actions_view(v: Seq<(usize, EntryAction)>) -> Seq<(int, ActionKind, Seq<char>)> {
    Seq::new(v.len(), |k: int| action_view(v[k].0, v[k].1))
}

/// How a run ends: at a selected symlink, at an unreadable entry, with the
/// selected entry written, or with an error that names the top-level entries
/// seen, sorted.
pub open spec fn run_outcome(st: RunState, entry: Seq<char>, o: Result<(), AppError>) -> bool {
    if st.status is AtSymlink {
        o matches Err(AppError::SymlinkEntry(n)) && n@ == entry
    } else if st.status is Unreadable {
        o matches Err(AppError::ArchiveRead(m)) && m@ == st.status->Unreadable_0
    } else if st.matched {
        o is Ok
    } else {
        exists|sorted: Seq<Seq<char>>|
            {
                &&& strictly_sorted(sorted)
                &&& sorted.to_multiset() == st.top.to_multiset()
                &&& o matches Err(AppError::EntryNotFound(n, l)) && n@ == entry && l@ == seq_join(
                    sorted,
                    "\n  "@,
                )
            }
    }
}

/// What `plan_zip_entry` gives for the archive `data`.
pub open spec fn zip_plan_result(
    data: Seq<u8>,
    entry: Seq<char>,
    dest: Seq<char>,
    r: Result<ZipPlan, AppError>,
) -> bool {
    match zip_listing(data) {
        Err(m) => r matches Err(AppError::ArchiveRead(e)) && e@ == m,
        Ok(es) => {
            let st = zip_run(es, normalized(entry), dest);
            &&& r is Ok
            &&& actions_view(r->Ok_0.actions@) == st.acts
            &&& run_outcome(st, normalized(entry), r->Ok_0.outcome)
        },
    }
}

/// Plans the extraction of the entry `entry` from the zip archive `data`,
/// to land at `landing`.
pub fn plan_zip_entry(data: &[u8], entry: &str, landing: &str) -> (r: Result<ZipPlan, AppError>)
    ensures
        zip_plan_result(data@, entry@, landing@, r),
        zip_listing(data@) matches Err(m) ==> (r matches Err(AppError::ArchiveRead(e)) && e@ == m),
        zip_listing(data@) is Ok ==> r is Ok,
        r matches Ok(plan) ==> zip_listing(data@) matches Ok(es) && plan_fits(
            es,
            normalized(entry@),
            landing@,
            plan,
        ),
{
    let r = plan_zip_steps(data, entry, landing);
    proof {
        if let Ok(es) = zip_listing(data@) {
            lemma_zip_plan_fits(es, normalized(entry@), landing@, r->Ok_0);
        }
    }
    r
}

/// Whether the plan fits the zip listing `es`: each action fits the entry
/// it names, the entries are acted on in order, and a plan that ends well
/// writes something.
pub open spec fn plan_fits(
    es: Seq<Result<(Option<Seq<char>>, bool, Option<u32>), Seq<char>>>,
    entry: Seq<char>,
    dest: Seq<char>,
    plan: ZipPlan,
) -> bool {
    let acts = actions_view(plan.actions@);
    &&& forall|k: int| 0 <= k < acts.len() ==> zip_action_fits(es, entry, dest, #[trigger] acts[k])
    &&& forall|k: int, l: int| 0 <= k < l < acts.len() ==> acts[k].0 < acts[l].0
    &&& plan.outcome is Ok ==> exists|k: int| 0 <= k < acts.len() && is_write(#[trigger] acts[k])
}

/// A plan made for a listing fits it.
proof fn lemma_zip_plan_fits(
    es: Seq<Result<(Option<Seq<char>>, bool, Option<u32>), Seq<char>>>,
    entry: Seq<char>,
    dest: Seq<char>,
    plan: ZipPlan,
)
    requires
        ({
            let st = zip_run(es, entry, dest);
            &&& actions_view(plan.actions@) == st.acts
            &&& run_outcome(st, entry, plan.outcome)
        }),
    ensures
        plan_fits(es, entry, dest, plan),
{
    lemma_zip_run_actions(es, entry, dest);
}

/// The steps of `plan_zip_entry`.
fn plan_zip_steps(data: &[u8], entry: &str, landing: &str) -> (r: Result<ZipPlan, AppError>)
    ensures
        zip_plan_result(data@, entry@, landing@, r),
{
    let listing = match zip_entries(data) {
        Ok(v) => v,
        Err(m) => return Err(AppError::ArchiveRead(m)),
    };
    let ghost es = listing_view(listing@);
    let ghost ne = normalized(entry@);
    let mut m = EntryMatcher::new(entry, landing);
    let mut actions: Vec<(usize, EntryAction)> = Vec::new();
    let n = listing.len();
    let mut i: usize = 0;
    assert(es.take(0) =~= Seq::<Result<(Option<Seq<char>>, bool, Option<u32>), Seq<char>>>::empty());
    assert(actions_view(actions@) =~= Seq::<(int, ActionKind, Seq<char>)>::empty());
    while i < n
        invariant
            n == listing@.len(),
            es == listing_view(listing@),
            zip_listing(data@) == Ok::<_, Seq<char>>(es),
            ne == normalized(entry@),
            i <= n,
            m.entry() == ne,
            m.dest() == landing@,
            ({
                let st = zip_run(es.take(i as int), ne, landing@);
                &&& st.status is Reading
                &&& st.acts == actions_view(actions@)
                &&& st.matched == m.matched()
                &&& st.top == m.top_level()
            }),
        decreases n - i,
    {
        let ghost prev = zip_run(es.take(i as int), ne, landing@);
        assert(es.take(i + 1).drop_last() =~= es.take(i as int));
        assert(es.take(i + 1).last() == es[i as int]);
        let ghost before = actions_view(actions@);
        match &listing[i] {
            Err(msg) => {
                proof {
                    lemma_zip_run_stops(es, i + 1, ne, landing@);
                }
                return Ok(ZipPlan { actions, outcome: Err(AppError::ArchiveRead(msg.clone())) });
            },
            Ok(info) => {
                assert(es[i as int] == Ok::<_, Seq<char>>(info_view(*info)));
                let name: Option<&str> = match &info.enclosed_name {
                    Some(s) => Some(s.as_str()),
                    None => None,
                };
                let step = m.step_zip(name, info.is_dir, info.unix_mode);
                match step {
                    Err(e) => {
                        proof {
                            lemma_zip_run_stops(es, i + 1, ne, landing@);
                        }
                        return Ok(ZipPlan { actions, outcome: Err(e) });
                    },
                    Ok(EntryAction::Skip) => {},
                    Ok(a) => {
                        let stop = match &a {
                            EntryAction::WriteAndStop(_) => true,
                            _ => false,
                        };
                        actions.push((i, a));
                        assert(actions_view(actions@) =~= before.push(
                            action_view(i, actions@.last().1),
                        ));
                        if stop {
                            proof {
                                lemma_zip_run_stops(es, i + 1, ne, landing@);
                            }
                            let outcome = m.finish();
                            return Ok(ZipPlan { actions, outcome });
                        }
                    },
                }
            },
        }
        i = i + 1;
    }
    assert(es.take(n as int) =~= es);
    let outcome = m.finish();
    Ok(ZipPlan { actions, outcome })
}

/// The plan for a zip archive whose entries correspond to those of a tar
/// stream (same names without `\`, non-empty once normalized, same directory
/// flags, symlinks marked alike) holds the actions and the outcome that the
/// stream's entries call for, entry by entry.
pub proof fn lemma_zip_plan_as_tar(
    data: Seq<u8>,
    zs: Seq<Result<(Option<Seq<char>>, bool, Option<u32>), Seq<char>>>,
    ts: Seq<(Seq<char>, bool, bool)>,
    entry: Seq<char>,
    dest: Seq<char>,
    r: Result<ZipPlan, AppError>,
)
    requires
        zip_listing(data) == Ok::<_, Seq<char>>(zs),
        zs.len() == ts.len(),
        forall|i: int|
            0 <= i < zs.len() ==> {
                &&& (#[trigger] zs[i]) matches Ok(z)
                &&& z.0 == Some(ts[i].0)
                &&& z.1 == ts[i].1
                &&& zip_mode_is_symlink(z.2) == ts[i].2
                &&& !ts[i].0.contains('\\')
                &&& normalized(ts[i].0).len() > 0
            },
        zip_plan_result(data, entry, dest, r),
    ensures
        r is Ok,
        actions_view(r->Ok_0.actions@) == tar_run(ts, normalized(entry), dest).acts,
        run_outcome(tar_run(ts, normalized(entry), dest), normalized(entry), r->Ok_0.outcome),
{
    lemma_zip_and_tar_agree(zs, ts, normalized(entry), dest);
}

} // verus!
