use vstd::prelude::*;

use crate::db::{BuildMode, Db, FullBuildInfo, Outcome, RecordValue, Status, StoreError, WorkKey};
use crate::nightlies::views;
use crate::text::{chars_of, string_of};

verus! {

/// A toolchain, named after its nightly.
pub struct Toolchain {
    name: String,
}

impl View for Toolchain {
    type V = Seq<char>;

    closed spec fn view(&self) -> Seq<char> {
        self.name@
    }
}

impl Toolchain {
    /// The toolchain `nightly-<nightly>`.
    pub fn from_nightly(nightly: &str) -> (r: Toolchain)
        ensures
            r@ == "nightly-"@ + nightly@,
    {
        let mut cs = chars_of("nightly-");
        let rest = chars_of(nightly);
        let ghost first = cs@;
        let mut i: usize = 0;
        while i < rest.len()
            invariant
                i <= rest.len(),
                cs@ == first + rest@.take(i as int),
            decreases rest.len() - i,
        {
            cs.push(rest[i]);
            i += 1;
            assert(cs@ =~= first + rest@.take(i as int));
        }
        assert(rest@.take(i as int) =~= rest@);
        Toolchain { name: string_of(&cs) }
    }

    /// The toolchain's name, as handed to the tools.
    pub fn name(&self) -> (r: &String)
        ensures
            r@ == self@,
    {
        &self.name
    }
}

/// What running a build tool for one target came to.
#[derive(Debug)]
pub enum ToolRun {
    /// The tool could not be started.
    SpawnFailed,
    /// The tool ran to its end; `stderr` is `None` when its standard error
    /// was not valid UTF-8.
    Exited { success: bool, stderr: Option<String> },
}

/// A fault of the orchestration, as opposed to a build that failed.
#[derive(Clone, Copy, Debug, PartialEq, Eq, Structural)]
pub enum Fault {
    /// A tool could not be started.
    Spawn,
    /// A tool's output could not be decoded.
    Decode,
    /// The store refused a write.
    Store(StoreError),
}

/// The record that a tool run yields, or the fault that it is.
pub open spec fn classify_spec(run: ToolRun) -> Result<RecordValue, Fault> {
    match run {
        ToolRun::SpawnFailed => Err(Fault::Spawn),
        ToolRun::Exited { success, stderr } => match stderr {
            None => Err(Fault::Decode),
            Some(text) => Ok((if success { Status::Pass } else { Status::Error }, text@)),
        },
    }
}

/// A tool that ran passed when it exited successfully, and failed otherwise,
/// with its standard error as the diagnostic text; a tool that could not be
/// started, or whose output cannot be decoded, is a fault.
pub fn classify(run: &ToolRun) -> (r: Result<(Status, String), Fault>)
    ensures
        match classify_spec(*run) {
            Ok(v) => r matches Ok(p) && p.0 == v.0 && p.1@ == v.1,
            Err(f) => r == Err::<(Status, String), Fault>(f),
        },
{
    match run {
        ToolRun::SpawnFailed => Err(Fault::Spawn),
        ToolRun::Exited { success, stderr } => match stderr {
            None => Err(Fault::Decode),
            Some(text) => {
                let status = if *success {
                    Status::Pass
                } else {
                    Status::Error
                };
                Ok((status, text.clone()))
            },
        },
    }
}

/// The records after storing what `run` yields under `key`, or the fault.
pub open spec fn attempt_spec(
    records: Map<WorkKey, RecordValue>,
    key: WorkKey,
    run: ToolRun,
) -> Result<Map<WorkKey, RecordValue>, Fault> {
    match classify_spec(run) {
        Err(f) => Err(f),
        Ok(v) => if records.contains_key(key) {
            Err(Fault::Store(StoreError::DuplicateRecord))
        } else {
            Ok(records.insert(key, v))
        },
    }
}

/// Stores the build record that a tool run for the key yields; a fault
/// stores nothing.
pub fn record_attempt(db: &mut Db, nightly: &str, target: &str, mode: BuildMode, run: &ToolRun) -> (r:
    Result<(), Fault>)
    ensures
        final(db).markers() == old(db).markers(),
        match attempt_spec(old(db).records(), (nightly@, target@, mode), *run) {
            Ok(m) => r is Ok && final(db).records() == m,
            Err(f) => r == Err::<(), Fault>(f) && final(db).records() == old(db).records(),
        },
{
    let (status, stderr) = match classify(run) {
        Ok(p) => p,
        Err(f) => return Err(f),
    };
    let info = FullBuildInfo {
        nightly: nightly.to_owned(),
        target: target.to_owned(),
        status,
        stderr,
        mode,
    };
    match db.insert(info) {
        Ok(()) => Ok(()),
        Err(e) => Err(Fault::Store(e)),
    }
}

/// The records after attempting the targets `targets` in order, one tool run
/// each from `runs`, skipping those that hold a record; and whether a fault
/// ended the pass (nothing after it is attempted).
pub open spec fn building(
    records: Map<WorkKey, RecordValue>,
    nightly: Seq<char>,
    mode: BuildMode,
    targets: Seq<Seq<char>>,
    runs: Seq<ToolRun>,
) -> (Map<WorkKey, RecordValue>, bool)
    decreases targets.len(),
{
    if targets.len() == 0 || runs.len() == 0 {
        (records, false)
    } else if records.contains_key((nightly, targets[0], mode)) {
        building(records, nightly, mode, targets.drop_first(), runs.drop_first())
    } else {
        match classify_spec(runs[0]) {
            Err(_) => (records, true),
            Ok(v) => building(
                records.insert((nightly, targets[0], mode), v),
                nightly,
                mode,
                targets.drop_first(),
                runs.drop_first(),
            ),
        }
    }
}

/// The targets that lack a build record for the nightly and mode, in order.
pub fn pending_targets(db: &Db, nightly: &str, mode: BuildMode, targets: &Vec<String>) -> (r: Vec<
    String,
>)
    ensures
        views(r@) == views(targets@).filter(
            |t: Seq<char>| !db.records().contains_key((nightly@, t, mode)),
        ),
{
    let mut out: Vec<String> = Vec::new();
    let mut i: usize = 0;
    assert(views(targets@).take(0) =~= seq![]);
    assert(views(out@) =~= seq![]);
    while i < targets.len()
        invariant
            i <= targets.len(),
            views(out@) == views(targets@).take(i as int).filter(
                |t: Seq<char>| !db.records().contains_key((nightly@, t, mode)),
            ),
        decreases targets.len() - i,
    {
        let ghost before = views(out@);
        proof {
            let t = views(targets@).take(i as int);
            assert(views(targets@).take(i + 1) =~= t.push(targets@[i as int]@));
            t.lemma_filter_push(
                targets@[i as int]@,
                |t: Seq<char>| !db.records().contains_key((nightly@, t, mode)),
            );
        }
        if db.needs_build(nightly, targets[i].as_str(), mode) {
            out.push(targets[i].clone());
            assert(views(out@) =~= before.push(targets@[i as int]@));
        }
        i += 1;
    }
    assert(views(targets@).take(i as int) =~= views(targets@));
    out
}

/// Attempts the targets in order, given the tool run of each, skipping those
/// that hold a record, until a fault; returns whether a fault ended the
/// attempts. Records written stay; no marker is written.
pub fn attempt_targets(
    db: &mut Db,
    nightly: &str,
    mode: BuildMode,
    targets: &Vec<String>,
    runs: &Vec<ToolRun>,
) -> (faulted: bool)
    requires
        runs.len() == targets.len(),
    ensures
        final(db).markers() == old(db).markers(),
        (final(db).records(), faulted) == building(
            old(db).records(),
            nightly@,
            mode,
            views(targets@),
            runs@,
        ),
{
    let ghost goal = building(db.records(), nightly@, mode, views(targets@), runs@);
    let ghost markers0 = db.markers();
    let mut i: usize = 0;
    let mut faulted = false;
    assert(views(targets@).skip(0) =~= views(targets@));
    assert(runs@.skip(0) =~= runs@);
    while i < targets.len() && !faulted
        invariant
            i <= targets.len(),
            runs.len() == targets.len(),
            db.markers() == markers0,
            !faulted ==> building(
                db.records(),
                nightly@,
                mode,
                views(targets@).skip(i as int),
                runs@.skip(i as int),
            ) == goal,
            faulted ==> goal == (db.records(), true),
        decreases targets.len() - i,
    {
        let target = targets[i].as_str();
        let ghost ts = views(targets@).skip(i as int);
        let ghost rs = runs@.skip(i as int);
        assert(ts[0] == target@ && rs[0] == runs@[i as int]);
        assert(ts.drop_first() =~= views(targets@).skip(i + 1));
        assert(rs.drop_first() =~= runs@.skip(i + 1));
        if db.needs_build(nightly, target, mode) {
            match record_attempt(db, nightly, target, mode, &runs[i]) {
                Ok(()) => {},
                Err(_) => {
                    faulted = true;
                },
            }
        }
        i += 1;
    }
    if !faulted {
        assert(views(targets@).skip(i as int).len() == 0);
    }
    faulted
}

/// The building step for a (nightly, mode) pair, given the tool run of each
/// target: attempts the targets in order, skipping those that hold a record,
/// until a fault; then writes the pair's completion marker, `Broken` after a
/// fault and `Completed` otherwise. Records already written stay. A pair that
/// holds a marker is left alone (`None`).
pub fn build_targets(
    db: &mut Db,
    nightly: &str,
    mode: BuildMode,
    targets: &Vec<String>,
    runs: &Vec<ToolRun>,
) -> (r: Option<Outcome>)
    requires
        runs.len() == targets.len(),
    ensures
        old(db).markers().contains_key((nightly@, mode)) ==> r is None && final(db).records()
            == old(db).records() && final(db).markers() == old(db).markers(),
        !old(db).markers().contains_key((nightly@, mode)) ==> ({
            let (recs, faulted) = building(
                old(db).records(),
                nightly@,
                mode,
                views(targets@),
                runs@,
            );
            let outcome = if faulted {
                Outcome::Broken
            } else {
                Outcome::Completed
            };
            &&& r == Some(outcome)
            &&& final(db).records() == recs
            &&& final(db).markers() == old(db).markers().insert((nightly@, mode), outcome)
        }),
{
    if db.is_nightly_finished(nightly, mode) {
        return None;
    }
    let faulted = attempt_targets(db, nightly, mode, targets, runs);
    if faulted {
        let _ = db.finish_nightly_as_broken(nightly, mode);
        Some(Outcome::Broken)
    } else {
        let _ = db.finish_nightly(nightly, mode);
        Some(Outcome::Completed)
    }
}

/// The stages that the lifecycle of one (nightly, mode) pair goes through.
#[derive(Clone, Copy, Debug, PartialEq, Eq, Structural)]
pub enum Stage {
    /// Acquire the toolchain and its components.
    Install,
    /// Ask the toolchain for its targets.
    Enumerate,
    /// Attempt every target.
    Build,
    /// Write the pair's completion marker with this outcome.
    Finish(Outcome),
    /// Release the toolchain.
    Uninstall,
    Done,
}

/// The stage after `stage`, given whether its work succeeded: a fault before
/// the marker is written leads to a `Broken` marker; the toolchain is released
/// whatever happened.
pub open spec fn next_stage_spec(stage: Stage, ok: bool) -> Stage {
    match stage {
        Stage::Install => if ok {
            Stage::Enumerate
        } else {
            Stage::Finish(Outcome::Broken)
        },
        Stage::Enumerate => if ok {
            Stage::Build
        } else {
            Stage::Finish(Outcome::Broken)
        },
        Stage::Build => if ok {
            Stage::Finish(Outcome::Completed)
        } else {
            Stage::Finish(Outcome::Broken)
        },
        Stage::Finish(_) => Stage::Uninstall,
        Stage::Uninstall => Stage::Done,
        Stage::Done => Stage::Done,
    }
}

/// The stage after `stage`, given whether its work succeeded.
pub fn next_stage(stage: Stage, ok: bool) -> (r: Stage)
    ensures
        r == next_stage_spec(stage, ok),
{
    match stage {
        Stage::Install => if ok {
            Stage::Enumerate
        } else {
            Stage::Finish(Outcome::Broken)
        },
        Stage::Enumerate => if ok {
            Stage::Build
        } else {
            Stage::Finish(Outcome::Broken)
        },
        Stage::Build => if ok {
            Stage::Finish(Outcome::Completed)
        } else {
            Stage::Finish(Outcome::Broken)
        },
        Stage::Finish(_) => Stage::Uninstall,
        Stage::Uninstall => Stage::Done,
        Stage::Done => Stage::Done,
    }
}

/// The stages visited from `stage` on, one per event, `stage` included.
pub open spec fn stage_trace(stage: Stage, events: Seq<bool>) -> Seq<Stage>
    decreases events.len(),
{
    if events.len() == 0 {
        seq![stage]
    } else {
        seq![stage] + stage_trace(next_stage_spec(stage, events[0]), events.drop_first())
    }
}

/// From `Install`, whatever the work at each stage comes to, the lifecycle
/// writes exactly one marker, then releases the toolchain, and is done within
/// five steps; the marker is `Completed` exactly when installing, enumerating
/// and building all succeeded.
pub proof fn lemma_lifecycle_finishes(events: Seq<bool>)
    requires
        events.len() >= 5,
    ensures
        ({
            let trace = stage_trace(Stage::Install, events);
            &&& trace[5] == Stage::Done
            &&& exists|i: int| 0 < i < 5 && (#[trigger] trace[i]) is Finish && trace[i + 1]
                == Stage::Uninstall
            &&& forall|i: int, j: int|
                0 <= i < j <= 5 && (#[trigger] trace[i]) is Finish && (#[trigger] trace[j]) is Finish
                    ==> false
            &&& forall|i: int|
                0 <= i <= 5 && #[trigger] trace[i] is Finish ==> (trace[i] == Stage::Finish(
                    Outcome::Completed,
                ) <==> events[0] && events[1] && events[2])
        }),
{
    reveal_with_fuel(stage_trace, 7);
    let e = events;
    let t = stage_trace(Stage::Install, e);
    let s1 = next_stage_spec(Stage::Install, e[0]);
    let s2 = next_stage_spec(s1, e[1]);
    let s3 = next_stage_spec(s2, e[2]);
    let s4 = next_stage_spec(s3, e[3]);
    let s5 = next_stage_spec(s4, e[4]);
    assert(e.drop_first()[0] == e[1]);
    assert(e.drop_first().drop_first()[0] == e[2]);
    assert(e.drop_first().drop_first().drop_first()[0] == e[3]);
    assert(e.drop_first().drop_first().drop_first().drop_first()[0] == e[4]);
    assert(t[0] == Stage::Install);
    assert(t[1] == s1);
    assert(t[2] == s2);
    assert(t[3] == s3);
    assert(t[4] == s4);
    assert(t[5] == s5);
    if !e[0] {
        assert(t[1] is Finish && t[2] == Stage::Uninstall);
    } else if !e[1] {
        assert(t[2] is Finish && t[3] == Stage::Uninstall);
    } else {
        assert(t[3] is Finish && t[4] == Stage::Uninstall);
    }
}

/// Whether `c` has the Unicode `White_Space` property.
pub open spec fn is_white_space(c: char) -> bool {
    let v = c as u32;
    (0x9 <= v <= 0xd) || v == 0x20 || v == 0x85 || v == 0xa0 || v == 0x1680 || (0x2000 <= v
        <= 0x200a) || v == 0x2028 || v == 0x2029 || v == 0x202f || v == 0x205f || v == 0x3000
}

/// Whether `c` has the Unicode `White_Space` property.
fn white_space(c: char) -> (r: bool)
    ensures
        r == is_white_space(c),
{
    let v = c as u32;
    (0x9 <= v && v <= 0xd) || v == 0x20 || v == 0x85 || v == 0xa0 || v == 0x1680 || (0x2000 <= v
        && v <= 0x200a) || v == 0x2028 || v == 0x2029 || v == 0x202f || v == 0x205f || v == 0x3000
}

/// The words of `s`, given that `cur` was already read of the current word:
/// the maximal runs of characters that are not white space.
pub open spec fn words_from(s: Seq<char>, cur: Seq<char>) -> Seq<Seq<char>>
    decreases s.len(),
{
    if s.len() == 0 {
        if cur.len() == 0 {
            seq![]
        } else {
            seq![cur]
        }
    } else if is_white_space(s[0]) {
        (if cur.len() == 0 {
            seq![]
        } else {
            seq![cur]
        }) + words_from(s.drop_first(), seq![])
    } else {
        words_from(s.drop_first(), cur.push(s[0]))
    }
}

/// The targets that `rustc --print target-list` printed: its words, in order.
pub fn target_list(output: &str) -> (r: Vec<String>)
    ensures
        views(r@) == words_from(output@, seq![]),
{
    let cs = chars_of(output);
    let mut out: Vec<String> = Vec::new();
    let mut cur: Vec<char> = Vec::new();
    let mut i: usize = 0;
    assert(cs@.skip(0) =~= cs@);
    assert(views(out@) + words_from(cs@, seq![]) =~= words_from(cs@, seq![]));
    while i < cs.len()
        invariant
            i <= cs.len(),
            cs@ == output@,
            views(out@) + words_from(cs@.skip(i as int), cur@) == words_from(output@, seq![]),
        decreases cs.len() - i,
    {
        let c = cs[i];
        let ghost rest = cs@.skip(i as int);
        let ghost before = views(out@);
        let ghost old_cur = cur@;
        assert(rest.drop_first() =~= cs@.skip(i + 1));
        assert(rest[0] == c);
        if white_space(c) {
            if cur.len() > 0 {
                out.push(string_of(&cur));
                assert(views(out@) =~= before + seq![old_cur]);
            } else {
                assert(views(out@) =~= before + seq![]);
            }
            cur = Vec::new();
            assert(views(out@) + words_from(cs@.skip(i + 1), cur@) =~= before + words_from(
                rest,
                old_cur,
            ));
        } else {
            cur.push(c);
        }
        i += 1;
    }
    assert(cs@.skip(i as int) =~= seq![]);
    let ghost before = views(out@);
    if cur.len() > 0 {
        out.push(string_of(&cur));
        assert(views(out@) =~= before + seq![cur@]);
    } else {
        assert(views(out@) =~= before + seq![]);
    }
    out
}

/// How many target attempts run at once: the configured width (at least
/// one); else half the available parallelism (two when unknown), at least one.
pub open spec fn jobs_spec(configured: Option<usize>, available: Option<usize>) -> int {
    match configured {
        Some(n) => if n == 0 {
            1
        } else {
            n as int
        },
        None => {
            let half = (match available {
                Some(a) => a as int,
                None => 2,
            }) / 2;
            if half == 0 {
                1
            } else {
                half
            }
        },
    }
}

/// The width of the pool of target attempts.
pub fn parallel_jobs(configured: Option<usize>, available: Option<usize>) -> (r: usize)
    ensures
        r == jobs_spec(configured, available),
        r >= 1,
{
    match configured {
        Some(n) => if n == 0 {
            1
        } else {
            n
        },
        None => {
            let half = match available {
                Some(a) => a,
                None => 2,
            } / 2;
            if half == 0 {
                1
            } else {
                half
            }
        },
    }
}

/// A record that exists before a building pass is kept by it, unchanged.
pub proof fn lemma_building_keeps(
    records: Map<WorkKey, RecordValue>,
    nightly: Seq<char>,
    mode: BuildMode,
    targets: Seq<Seq<char>>,
    runs: Seq<ToolRun>,
    k: WorkKey,
)
    requires
        records.contains_key(k),
    ensures
        building(records, nightly, mode, targets, runs).0.contains_key(k),
        building(records, nightly, mode, targets, runs).0[k] == records[k],
    decreases targets.len(),
{
    if targets.len() > 0 && runs.len() > 0 && !records.contains_key((nightly, targets[0], mode)) {
        if let Ok(v) = classify_spec(runs[0]) {
            lemma_building_keeps(
                records.insert((nightly, targets[0], mode), v),
                nightly,
                mode,
                targets.drop_first(),
                runs.drop_first(),
                k,
            );
        }
    } else if targets.len() > 0 && runs.len() > 0 {
        lemma_building_keeps(records, nightly, mode, targets.drop_first(), runs.drop_first(), k);
    }
}

/// Dispatching a work key a second time does nothing: after a first attempt
/// stored its record, the key needs no build (so no tool is run again), a
/// second store is refused, and a pass that lists the target twice ends as
/// one that lists it once, whatever the second tool run would have been.
pub proof fn lemma_attempt_idempotent(
    records: Map<WorkKey, RecordValue>,
    nightly: Seq<char>,
    target: Seq<char>,
    mode: BuildMode,
    first: ToolRun,
    second: ToolRun,
)
    requires
        attempt_spec(records, (nightly, target, mode), first) is Ok,
    ensures
        ({
            let after = attempt_spec(records, (nightly, target, mode), first)->Ok_0;
            &&& after.contains_key((nightly, target, mode))
            &&& attempt_spec(after, (nightly, target, mode), second) is Err
            &&& building(records, nightly, mode, seq![target, target], seq![first, second])
                == building(records, nightly, mode, seq![target], seq![first])
            &&& building(records, nightly, mode, seq![target], seq![first]) == (after, false)
        }),
{
    let key = (nightly, target, mode);
    let after = attempt_spec(records, key, first)->Ok_0;
    let two = seq![target, target];
    let one = seq![target];
    assert(two.drop_first() =~= one);
    assert(seq![first, second].drop_first() =~= seq![second]);
    assert(one.drop_first() =~= seq![]);
    assert(seq![second].drop_first() =~= seq![]);
    assert(seq![first].drop_first() =~= seq![]);
    assert(building(after, nightly, mode, one, seq![second]) == building(
        after,
        nightly,
        mode,
        seq![],
        seq![],
    ));
}

/// A fault while attempting a target that lacked a record ends the pass as
/// broken; records that existed before are kept unchanged, and no target
/// listed after the faulted one that lacked a record gets one.
pub proof fn lemma_fault_isolation(
    records: Map<WorkKey, RecordValue>,
    nightly: Seq<char>,
    mode: BuildMode,
    targets: Seq<Seq<char>>,
    runs: Seq<ToolRun>,
    j: int,
)
    requires
        runs.len() == targets.len(),
        targets.no_duplicates(),
        0 <= j < targets.len(),
        !records.contains_key((nightly, targets[j], mode)),
        classify_spec(runs[j]) is Err,
    ensures
        ({
            let (recs, faulted) = building(records, nightly, mode, targets, runs);
            &&& faulted
            &&& forall|k: WorkKey| #[trigger]
                records.contains_key(k) ==> recs.contains_key(k) && recs[k] == records[k]
            &&& forall|i: int|
                j < i < targets.len() && !records.contains_key((nightly, #[trigger] targets[i], mode))
                    ==> !recs.contains_key((nightly, targets[i], mode))
        }),
    decreases targets.len(),
{
    assert forall|k: WorkKey| #[trigger] records.contains_key(k) implies building(
        records,
        nightly,
        mode,
        targets,
        runs,
    ).0.contains_key(k) && building(records, nightly, mode, targets, runs).0[k] == records[k] by {
        lemma_building_keeps(records, nightly, mode, targets, runs, k);
    }
    if j > 0 {
        let ts = targets.drop_first();
        let rs = runs.drop_first();
        assert(ts[j - 1] == targets[j] && rs[j - 1] == runs[j]);
        assert(ts.no_duplicates()) by {
            assert forall|a: int, b: int| 0 <= a < b < ts.len() implies ts[a] != ts[b] by {
                assert(ts[a] == targets[a + 1] && ts[b] == targets[b + 1]);
            }
        }
        assert(targets[0] != targets[j]);
        if records.contains_key((nightly, targets[0], mode)) {
            lemma_fault_isolation(records, nightly, mode, ts, rs, j - 1);
            assert forall|i: int|
                j < i < targets.len() && !records.contains_key((nightly, #[trigger] targets[i], mode))
                    implies !building(records, nightly, mode, targets, runs).0.contains_key(
                (nightly, targets[i], mode),
            ) by {
                assert(ts[i - 1] == targets[i]);
            }
        } else if let Ok(v) = classify_spec(runs[0]) {
            let recs1 = records.insert((nightly, targets[0], mode), v);
            lemma_fault_isolation(recs1, nightly, mode, ts, rs, j - 1);
            assert forall|i: int|
                j < i < targets.len() && !records.contains_key((nightly, #[trigger] targets[i], mode))
                    implies !building(records, nightly, mode, targets, runs).0.contains_key(
                (nightly, targets[i], mode),
            ) by {
                assert(ts[i - 1] == targets[i]);
                assert(targets[0] != targets[i]);
                assert(!recs1.contains_key((nightly, ts[i - 1], mode)));
            }
        }
    }
}

/// A pass resumed after some targets already hold records, in which no tool
/// run of a target without a record faults, ends without a fault (so with a
/// `Completed` marker): the existing records are kept unchanged and no tool
/// run is used for them, each target without a record gets the record of its
/// own run, and no other record appears.
pub proof fn lemma_resume_completes(
    records: Map<WorkKey, RecordValue>,
    nightly: Seq<char>,
    mode: BuildMode,
    targets: Seq<Seq<char>>,
    runs: Seq<ToolRun>,
)
    requires
        runs.len() == targets.len(),
        targets.no_duplicates(),
        forall|i: int|
            0 <= i < targets.len() && !records.contains_key((nightly, #[trigger] targets[i], mode))
                ==> classify_spec(runs[i]) is Ok,
    ensures
        ({
            let (recs, faulted) = building(records, nightly, mode, targets, runs);
            &&& !faulted
            &&& forall|k: WorkKey| #[trigger]
                records.contains_key(k) ==> recs.contains_key(k) && recs[k] == records[k]
            &&& forall|i: int|
                0 <= i < targets.len() && !records.contains_key((nightly, #[trigger] targets[i], mode))
                    ==> recs.contains_key((nightly, targets[i], mode)) && recs[(
                    nightly,
                    targets[i],
                    mode,
                )] == classify_spec(runs[i])->Ok_0
            &&& forall|k: WorkKey| #[trigger]
                recs.contains_key(k) ==> records.contains_key(k) || exists|i: int|
                    0 <= i < targets.len() && k == (nightly, targets[i], mode)
        }),
    decreases targets.len(),
{
    assert forall|k: WorkKey| #[trigger] records.contains_key(k) implies building(
        records,
        nightly,
        mode,
        targets,
        runs,
    ).0.contains_key(k) && building(records, nightly, mode, targets, runs).0[k] == records[k] by {
        lemma_building_keeps(records, nightly, mode, targets, runs, k);
    }
    if targets.len() > 0 {
        let ts = targets.drop_first();
        let rs = runs.drop_first();
        let k0 = (nightly, targets[0], mode);
        assert(ts.no_duplicates()) by {
            assert forall|a: int, b: int| 0 <= a < b < ts.len() implies ts[a] != ts[b] by {
                assert(ts[a] == targets[a + 1] && ts[b] == targets[b + 1]);
            }
        }
        let recs1 = if records.contains_key(k0) {
            records
        } else {
            records.insert(k0, classify_spec(runs[0])->Ok_0)
        };
        assert forall|i: int|
            0 <= i < ts.len() && !recs1.contains_key((nightly, #[trigger] ts[i], mode))
                implies classify_spec(rs[i]) is Ok by {
            assert(ts[i] == targets[i + 1] && rs[i] == runs[i + 1]);
        }
        lemma_resume_completes(recs1, nightly, mode, ts, rs);
        let recs = building(recs1, nightly, mode, ts, rs).0;
        assert(building(records, nightly, mode, targets, runs) == building(recs1, nightly, mode, ts, rs));
        assert forall|i: int|
            0 <= i < targets.len() && !records.contains_key((nightly, #[trigger] targets[i], mode))
                implies recs.contains_key((nightly, targets[i], mode)) && recs[(
                nightly,
                targets[i],
                mode,
            )] == classify_spec(runs[i])->Ok_0 by {
            if i == 0 {
                lemma_building_keeps(recs1, nightly, mode, ts, rs, k0);
            } else {
                assert(ts[i - 1] == targets[i] && rs[i - 1] == runs[i]);
                assert(targets[0] != targets[i]);
            }
        }
        assert forall|k: WorkKey| #[trigger] recs.contains_key(k) implies records.contains_key(k)
            || exists|i: int| 0 <= i < targets.len() && k == (nightly, targets[i], mode) by {
            if !records.contains_key(k) && k != k0 && !recs1.contains_key(k) {
                let i = choose|i: int| 0 <= i < ts.len() && k == (nightly, ts[i], mode);
                assert(ts[i] == targets[i + 1]);
            }
        }
    }
}

} // verus!
