use vstd::prelude::*;

use crate::text::text_eq;


verus! {

/// The two independent kinds of work done for each nightly and target.
#[derive(Clone, Copy, Debug, PartialEq, Eq, Hash, Structural)]
pub enum BuildMode {
    /// `-Zbuild-std=core`
    Core,
    /// `cargo miri setup`
    MiriStd,
}

impl BuildMode {
    /// The textual name of the mode, as stored and shown.
    pub fn as_str(&self) -> (r: &'static str)
        ensures
            r@ == self.name(),
    {
        match self {
            BuildMode::Core => {
                proof { reveal_strlit("core"); }
                "core"
            },
            BuildMode::MiriStd => {
                proof { reveal_strlit("miri-std"); }
                "miri-std"
            },
        }
    }

    /// The mode that `s` names, if any.
    pub fn from_name(s: &str) -> (r: Option<BuildMode>)
        ensures
            r matches Some(m) ==> m.name() == s@,
            r is None <==> s@ != BuildMode::Core.name() && s@ != BuildMode::MiriStd.name(),
    {
        proof {
            reveal_strlit("core");
            reveal_strlit("miri-std");
            assert("core"@ =~= BuildMode::Core.name());
            assert("miri-std"@ =~= BuildMode::MiriStd.name());
        }
        if text_eq(s, "core") {
            Some(BuildMode::Core)
        } else if text_eq(s, "miri-std") {
            Some(BuildMode::MiriStd)
        } else {
            None
        }
    }

    pub open spec fn name(&self) -> Seq<char> {
        match self {
            BuildMode::Core => seq!['c', 'o', 'r', 'e'],
            BuildMode::MiriStd => seq!['m', 'i', 'r', 'i', '-', 's', 't', 'd'],
        }
    }
}

/// The result of one build attempt.
#[derive(Clone, Copy, Debug, PartialEq, Eq, Structural)]
pub enum Status {
    /// The tool ran and reported failure: a valid outcome, not a fault.
    Error,
    Pass,
}

impl Status {
    /// The textual name of the status, as stored and shown.
    pub fn as_str(&self) -> (r: &'static str)
        ensures
            r@ == self.name(),
    {
        match self {
            Status::Error => {
                proof { reveal_strlit("error"); }
                "error"
            },
            Status::Pass => {
                proof { reveal_strlit("pass"); }
                "pass"
            },
        }
    }

    /// The status that `s` names, if any.
    pub fn from_name(s: &str) -> (r: Option<Status>)
        ensures
            r matches Some(st) ==> st.name() == s@,
            r is None <==> s@ != Status::Error.name() && s@ != Status::Pass.name(),
    {
        proof {
            reveal_strlit("error");
            reveal_strlit("pass");
            assert("error"@ =~= Status::Error.name());
            assert("pass"@ =~= Status::Pass.name());
        }
        if text_eq(s, "error") {
            Some(Status::Error)
        } else if text_eq(s, "pass") {
            Some(Status::Pass)
        } else {
            None
        }
    }

    pub open spec fn name(&self) -> Seq<char> {
        match self {
            Status::Error => seq!['e', 'r', 'r', 'o', 'r'],
            Status::Pass => seq!['p', 'a', 's', 's'],
        }
    }
}

/// How the work on a (nightly, mode) pair ended.
#[derive(Clone, Copy, Debug, PartialEq, Eq, Structural)]
pub enum Outcome {
    /// Every target was attempted.
    Completed,
    /// A fault of the orchestration ended the attempt partway.
    Broken,
}

impl Outcome {
    /// The textual name of the outcome, as stored.
    pub fn as_str(&self) -> (r: &'static str)
        ensures
            r@ == self.name(),
    {
        match self {
            Outcome::Completed => {
                proof { reveal_strlit("completed"); }
                "completed"
            },
            Outcome::Broken => {
                proof { reveal_strlit("broken"); }
                "broken"
            },
        }
    }

    /// The outcome that `s` names, if any.
    pub fn from_name(s: &str) -> (r: Option<Outcome>)
        ensures
            r matches Some(o) ==> o.name() == s@,
            r is None <==> s@ != Outcome::Completed.name() && s@ != Outcome::Broken.name(),
    {
        proof {
            reveal_strlit("completed");
            reveal_strlit("broken");
            assert("completed"@ =~= Outcome::Completed.name());
            assert("broken"@ =~= Outcome::Broken.name());
        }
        if text_eq(s, "completed") {
            Some(Outcome::Completed)
        } else if text_eq(s, "broken") {
            Some(Outcome::Broken)
        } else {
            None
        }
    }

    pub open spec fn name(&self) -> Seq<char> {
        match self {
            Outcome::Completed => seq!['c', 'o', 'm', 'p', 'l', 'e', 't', 'e', 'd'],
            Outcome::Broken => seq!['b', 'r', 'o', 'k', 'e', 'n'],
        }
    }
}

/// A stored build record, without its diagnostic text.
#[derive(Debug)]
pub struct BuildInfo {
    pub nightly: String,
    pub target: String,
    pub status: Status,
    pub mode: BuildMode,
}

/// A stored build record.
#[derive(Debug)]
pub struct FullBuildInfo {
    pub nightly: String,
    pub target: String,
    pub status: Status,
    pub stderr: String,
    pub mode: BuildMode,
}

/// A (nightly, mode) pair that holds a completion marker.
#[derive(Debug)]
pub struct FinishedNightly {
    pub nightly: String,
    pub mode: BuildMode,
}

/// A completion marker: the pair and how its work ended.
#[derive(Debug)]
pub struct CompletionMarker {
    pub nightly: String,
    pub mode: BuildMode,
    pub outcome: Outcome,
}

/// What identifies one unit of work: nightly, target and mode.
pub type WorkKey = (Seq<char>, Seq<char>, BuildMode);

/// What a build record holds besides its key: status and diagnostic text.
pub type RecordValue = (Status, Seq<char>);

/// What identifies a completion marker: nightly and mode.
pub type PairKey = (Seq<char>, BuildMode);

pub open spec fn record_entry(r: FullBuildInfo) -> (WorkKey, RecordValue) {
    ((r.nightly@, r.target@, r.mode), (r.status, r.stderr@))
}

pub open spec fn marker_entry(m: CompletionMarker) -> (PairKey, Outcome) {
    ((m.nightly@, m.mode), m.outcome)
}

/// The map of a sequence of (key, value) entries; a later entry wins.
pub open spec fn to_map<K, V>(s: Seq<(K, V)>) -> Map<K, V>
    decreases s.len(),
{
    if s.len() == 0 {
        Map::empty()
    } else {
        to_map(s.drop_last()).insert(s.last().0, s.last().1)
    }
}

pub open spec fn keys_unique<K, V>(s: Seq<(K, V)>) -> bool {
    forall|i: int, j: int| 0 <= i < j < s.len() ==> #[trigger] s[i].0 != #[trigger] s[j].0
}

proof fn lemma_to_map_push<K, V>(s: Seq<(K, V)>, e: (K, V))
    ensures
        to_map(s.push(e)) == to_map(s).insert(e.0, e.1),
{
    assert(s.push(e).drop_last() =~= s);
}

proof fn lemma_to_map_has<K, V>(s: Seq<(K, V)>, j: int)
    requires
        0 <= j < s.len(),
        keys_unique(s),
    ensures
        to_map(s).contains_key(s[j].0),
        to_map(s)[s[j].0] == s[j].1,
    decreases s.len(),
{
    if j < s.len() - 1 {
        let t = s.drop_last();
        assert(t[j] == s[j]);
        assert(keys_unique(t)) by {
            assert forall|a: int, b: int| 0 <= a < b < t.len() implies #[trigger] t[a].0 != #[trigger] t[b].0 by {
                assert(t[a] == s[a] && t[b] == s[b]);
            }
        }
        lemma_to_map_has(t, j);
        assert(s[j].0 != s[s.len() - 1].0);
    }
}

proof fn lemma_to_map_lacks<K, V>(s: Seq<(K, V)>, k: K)
    requires
        forall|i: int| 0 <= i < s.len() ==> #[trigger] s[i].0 != k,
    ensures
        !to_map(s).contains_key(k),
    decreases s.len(),
{
    if s.len() > 0 {
        let t = s.drop_last();
        assert forall|i: int| 0 <= i < t.len() implies #[trigger] t[i].0 != k by {
            assert(t[i] == s[i]);
        }
        lemma_to_map_lacks(t, k);
    }
}

/// Why the store refused a write.
#[derive(Clone, Copy, Debug, PartialEq, Eq, Structural)]
pub enum StoreError {
    /// A build record for the same nightly, target and mode exists.
    DuplicateRecord,
    /// A completion marker for the same nightly and mode exists.
    DuplicateMarker,
}

/// The completion store: append-only build records, at most one per work
/// key, and completion markers, at most one per (nightly, mode) pair.
pub struct Db {
    records: Vec<FullBuildInfo>,
    markers: Vec<CompletionMarker>,
}

impl Db {
    /// The build records, as entries in the order of insertion.
    pub closed spec fn record_entries(&self) -> Seq<(WorkKey, RecordValue)> {
        self.records@.map_values(|r: FullBuildInfo| record_entry(r))
    }

    /// The completion markers, as entries in the order of insertion.
    pub closed spec fn marker_entries(&self) -> Seq<(PairKey, Outcome)> {
        self.markers@.map_values(|m: CompletionMarker| marker_entry(m))
    }

    /// The build records, by work key.
    pub open spec fn records(&self) -> Map<WorkKey, RecordValue> {
        to_map(self.record_entries())
    }

    /// The completion markers, by (nightly, mode) pair.
    pub open spec fn markers(&self) -> Map<PairKey, Outcome> {
        to_map(self.marker_entries())
    }

    /// No two records share a work key, and no two markers a pair.
    #[verifier::type_invariant]
    spec fn inv(self) -> bool {
        keys_unique(self.record_entries()) && keys_unique(self.marker_entries())
    }

    /// An empty store.
    pub fn new() -> (r: Db)
        ensures
            r.record_entries().len() == 0,
            r.marker_entries().len() == 0,
            r.records() == Map::<WorkKey, RecordValue>::empty(),
            r.markers() == Map::<PairKey, Outcome>::empty(),
    {
        let r = Db { records: Vec::new(), markers: Vec::new() };
        assert(r.record_entries() =~= seq![]);
        assert(r.marker_entries() =~= seq![]);
        r
    }

    /// The index of the record for the key, if there is one.
    fn find_record(&self, nightly: &String, target: &String, mode: BuildMode) -> (r: Option<usize>)
        ensures
            r is None <==> !self.records().contains_key((nightly@, target@, mode)),
            r matches Some(i) ==> i < self.records@.len() && self.record_entries()[i as int].0 == (
                nightly@,
                target@,
                mode,
            ),
    {
        let ghost k = (nightly@, target@, mode);
        let mut i: usize = 0;
        while i < self.records.len()
            invariant
                i <= self.records.len(),
                k == (nightly@, target@, mode),
                forall|j: int| 0 <= j < i ==> #[trigger] self.record_entries()[j].0 != k,
            decreases self.records.len() - i,
        {
            let r = &self.records[i];
            if r.nightly == *nightly && r.target == *target && r.mode == mode {
                proof {
                    use_type_invariant(self);
                    lemma_to_map_has(self.record_entries(), i as int);
                }
                return Some(i);
            }
            assert(self.record_entries()[i as int].0 != k);
            i += 1;
        }
        proof {
            lemma_to_map_lacks(self.record_entries(), k);
        }
        None
    }

    /// The index of the marker for the pair, if there is one.
    fn find_marker(&self, nightly: &String, mode: BuildMode) -> (r: Option<usize>)
        ensures
            r is None <==> !self.markers().contains_key((nightly@, mode)),
            r matches Some(i) ==> i < self.markers@.len() && self.marker_entries()[i as int].0 == (
                nightly@,
                mode,
            ),
    {
        let ghost k = (nightly@, mode);
        let mut i: usize = 0;
        while i < self.markers.len()
            invariant
                i <= self.markers.len(),
                k == (nightly@, mode),
                forall|j: int| 0 <= j < i ==> #[trigger] self.marker_entries()[j].0 != k,
            decreases self.markers.len() - i,
        {
            let m = &self.markers[i];
            if m.nightly == *nightly && m.mode == mode {
                proof {
                    use_type_invariant(self);
                    lemma_to_map_has(self.marker_entries(), i as int);
                }
                return Some(i);
            }
            assert(self.marker_entries()[i as int].0 != k);
            i += 1;
        }
        proof {
            lemma_to_map_lacks(self.marker_entries(), k);
        }
        None
    }

    /// Stores a build record; refused when one exists for the same key.
    pub fn insert(&mut self, info: FullBuildInfo) -> (r: Result<(), StoreError>)
        ensures
            final(self).markers() == old(self).markers(),
            old(self).records().contains_key(record_entry(info).0) ==> r == Err::<(), StoreError>(
                StoreError::DuplicateRecord,
            ) && final(self).records() == old(self).records(),
            !old(self).records().contains_key(record_entry(info).0) ==> r is Ok && final(self).records() == old(self).records().insert(record_entry(info).0, record_entry(info).1),
    {
        if self.find_record(&info.nightly, &info.target, info.mode).is_some() {
            return Err(StoreError::DuplicateRecord);
        }
        proof {
            use_type_invariant(&*self);
        }
        let ghost before = self.record_entries();
        let ghost e = record_entry(info);
        proof {
            assert forall|j: int| 0 <= j < before.len() implies #[trigger] before[j].0 != e.0 by {
                if before[j].0 == e.0 {
                    lemma_to_map_has(before, j);
                }
            }
        }
        let mut records: Vec<FullBuildInfo> = Vec::new();
        std::mem::swap(&mut records, &mut self.records);
        records.push(info);
        assert(records@.map_values(|r: FullBuildInfo| record_entry(r)) =~= before.push(e));
        self.records = records;
        assert(self.record_entries() =~= before.push(e));
        proof {
            lemma_to_map_push(before, e);
        }
        Ok(())
    }

    /// Every build record, without diagnostic text, in the order of insertion.
    pub fn build_status(&self) -> (r: Vec<BuildInfo>)
        ensures
            keys_unique(self.record_entries()),
            r@.len() == self.record_entries().len(),
            forall|i: int|
                0 <= i < r@.len() ==> self.record_entries()[i] == (
                    (#[trigger] r@[i].nightly@, r@[i].target@, r@[i].mode),
                    (r@[i].status, self.record_entries()[i].1.1),
                ),
    {
        proof {
            use_type_invariant(self);
        }
        let mut out: Vec<BuildInfo> = Vec::new();
        let mut i: usize = 0;
        while i < self.records.len()
            invariant
                i <= self.records.len(),
                out@.len() == i,
                forall|j: int|
                    0 <= j < i ==> self.record_entries()[j] == (
                        (#[trigger] out@[j].nightly@, out@[j].target@, out@[j].mode),
                        (out@[j].status, self.record_entries()[j].1.1),
                    ),
            decreases self.records.len() - i,
        {
            let r = &self.records[i];
            out.push(
                BuildInfo {
                    nightly: r.nightly.clone(),
                    target: r.target.clone(),
                    status: r.status,
                    mode: r.mode,
                },
            );
            i += 1;
        }
        out
    }

    /// The build record for the key, if there is one.
    pub fn build_status_full(&self, nightly: &str, target: &str, mode: BuildMode) -> (r: Option<
        FullBuildInfo,
    >)
        ensures
            r is Some <==> self.records().contains_key((nightly@, target@, mode)),
            r matches Some(info) ==> record_entry(info) == (
                (nightly@, target@, mode),
                self.records()[(nightly@, target@, mode)],
            ),
    {
        let n = nightly.to_owned();
        let t = target.to_owned();
        match self.find_record(&n, &t, mode) {
            None => None,
            Some(i) => {
                let r = &self.records[i];
                proof {
                    use_type_invariant(self);
                    lemma_to_map_has(self.record_entries(), i as int);
                }
                Some(
                    FullBuildInfo {
                        nightly: r.nightly.clone(),
                        target: r.target.clone(),
                        status: r.status,
                        stderr: r.stderr.clone(),
                        mode: r.mode,
                    },
                )
            },
        }
    }

    /// Whether the key still lacks a build record: the check made before any
    /// work is done for it.
    pub fn needs_build(&self, nightly: &str, target: &str, mode: BuildMode) -> (r: bool)
        ensures
            r == !self.records().contains_key((nightly@, target@, mode)),
    {
        let n = nightly.to_owned();
        let t = target.to_owned();
        self.find_record(&n, &t, mode).is_none()
    }

    /// Every pair that holds a completion marker, in the order of insertion.
    pub fn finished_nightlies(&self) -> (r: Vec<FinishedNightly>)
        ensures
            keys_unique(self.marker_entries()),
            r@.len() == self.marker_entries().len(),
            forall|i: int|
                0 <= i < r@.len() ==> self.marker_entries()[i].0 == (
                    #[trigger] r@[i].nightly@,
                    r@[i].mode,
                ),
    {
        proof {
            use_type_invariant(self);
        }
        let mut out: Vec<FinishedNightly> = Vec::new();
        let mut i: usize = 0;
        while i < self.markers.len()
            invariant
                i <= self.markers.len(),
                out@.len() == i,
                forall|j: int|
                    0 <= j < i ==> self.marker_entries()[j].0 == (
                        #[trigger] out@[j].nightly@,
                        out@[j].mode,
                    ),
            decreases self.markers.len() - i,
        {
            let m = &self.markers[i];
            out.push(FinishedNightly { nightly: m.nightly.clone(), mode: m.mode });
            i += 1;
        }
        out
    }

    /// Whether the pair holds a completion marker, of either outcome.
    pub fn is_nightly_finished(&self, nightly: &str, mode: BuildMode) -> (r: bool)
        ensures
            r == self.markers().contains_key((nightly@, mode)),
    {
        let n = nightly.to_owned();
        self.find_marker(&n, mode).is_some()
    }

    /// Stores a completion marker; refused when the pair holds one.
    fn add_marker(&mut self, nightly: &str, mode: BuildMode, outcome: Outcome) -> (r: Result<
        (),
        StoreError,
    >)
        ensures
            final(self).records() == old(self).records(),
            old(self).markers().contains_key((nightly@, mode)) ==> r == Err::<(), StoreError>(
                StoreError::DuplicateMarker,
            ) && final(self).markers() == old(self).markers(),
            !old(self).markers().contains_key((nightly@, mode)) ==> r is Ok && final(self).markers() == old(self).markers().insert((nightly@, mode), outcome),
    {
        let n = nightly.to_owned();
        if self.find_marker(&n, mode).is_some() {
            return Err(StoreError::DuplicateMarker);
        }
        proof {
            use_type_invariant(&*self);
        }
        let ghost before = self.marker_entries();
        let ghost e = ((nightly@, mode), outcome);
        proof {
            assert forall|j: int| 0 <= j < before.len() implies #[trigger] before[j].0 != e.0 by {
                if before[j].0 == e.0 {
                    lemma_to_map_has(before, j);
                }
            }
        }
        let mut markers: Vec<CompletionMarker> = Vec::new();
        std::mem::swap(&mut markers, &mut self.markers);
        markers.push(CompletionMarker { nightly: n, mode, outcome });
        assert(markers@.map_values(|m: CompletionMarker| marker_entry(m)) =~= before.push(e));
        self.markers = markers;
        assert(self.marker_entries() =~= before.push(e));
        proof {
            lemma_to_map_push(before, e);
        }
        Ok(())
    }

    /// Marks the pair as done with every target attempted.
    pub fn finish_nightly(&mut self, nightly: &str, mode: BuildMode) -> (r: Result<(), StoreError>)
        ensures
            final(self).records() == old(self).records(),
            old(self).markers().contains_key((nightly@, mode)) ==> r == Err::<(), StoreError>(
                StoreError::DuplicateMarker,
            ) && final(self).markers() == old(self).markers(),
            !old(self).markers().contains_key((nightly@, mode)) ==> r is Ok && final(self).markers() == old(self).markers().insert((nightly@, mode), Outcome::Completed),
    {
        self.add_marker(nightly, mode, Outcome::Completed)
    }

    /// Marks the pair as given up after a fault of the orchestration.
    pub fn finish_nightly_as_broken(&mut self, nightly: &str, mode: BuildMode) -> (r: Result<
        (),
        StoreError,
    >)
        ensures
            final(self).records() == old(self).records(),
            old(self).markers().contains_key((nightly@, mode)) ==> r == Err::<(), StoreError>(
                StoreError::DuplicateMarker,
            ) && final(self).markers() == old(self).markers(),
            !old(self).markers().contains_key((nightly@, mode)) ==> r is Ok && final(self).markers() == old(self).markers().insert((nightly@, mode), Outcome::Broken),
    {
        self.add_marker(nightly, mode, Outcome::Broken)
    }
}

} // verus!
