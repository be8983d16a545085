use does_it_build::db::{BuildMode, Db, FullBuildInfo, Outcome, Status, StoreError};
use does_it_build::executor::{
    build_targets, classify, next_stage, parallel_jobs, pending_targets, record_attempt, target_list, Fault,
    Stage, ToolRun, Toolchain,
};

fn exited(success: bool, stderr: &str) -> ToolRun {
    ToolRun::Exited { success, stderr: Some(stderr.to_string()) }
}

fn targets(names: &[&str]) -> Vec<String> {
    names.iter().map(|s| s.to_string()).collect()
}

#[test]
fn classify_each_kind_of_run() {
    assert_eq!(classify(&exited(true, "")), Ok((Status::Pass, String::new())));
    assert_eq!(classify(&exited(false, "boom")), Ok((Status::Error, "boom".to_string())));
    assert_eq!(classify(&ToolRun::SpawnFailed), Err(Fault::Spawn));
    assert_eq!(classify(&ToolRun::Exited { success: true, stderr: None }), Err(Fault::Decode));
}

#[test]
fn idempotent_attempt() {
    let mut db = Db::new();
    assert!(db.needs_build("2024-08-22", "x86_64-unknown-linux-gnu", BuildMode::Core));
    record_attempt(&mut db, "2024-08-22", "x86_64-unknown-linux-gnu", BuildMode::Core, &exited(false, "e"))
        .unwrap();
    // The second dispatch sees the record and runs nothing.
    assert!(!db.needs_build("2024-08-22", "x86_64-unknown-linux-gnu", BuildMode::Core));
    assert_eq!(
        record_attempt(&mut db, "2024-08-22", "x86_64-unknown-linux-gnu", BuildMode::Core, &exited(true, "")),
        Err(Fault::Store(StoreError::DuplicateRecord))
    );
    assert_eq!(db.build_status().len(), 1);
    let full = db.build_status_full("2024-08-22", "x86_64-unknown-linux-gnu", BuildMode::Core).unwrap();
    assert_eq!(full.status, Status::Error);
    assert_eq!(full.stderr, "e");
    // The other mode is a different unit of work.
    assert!(db.needs_build("2024-08-22", "x86_64-unknown-linux-gnu", BuildMode::MiriStd));
}

#[test]
fn idempotent_pass_lists_target_twice() {
    let mut db = Db::new();
    let ts = targets(&["a", "a"]);
    let runs = vec![exited(true, ""), ToolRun::SpawnFailed];
    assert_eq!(build_targets(&mut db, "2024-08-22", BuildMode::Core, &ts, &runs), Some(Outcome::Completed));
    assert_eq!(db.build_status().len(), 1);
}

#[test]
fn fault_isolation() {
    let mut db = Db::new();
    let ts = targets(&["a", "b", "c", "d"]);
    let runs = vec![exited(true, ""), exited(false, "no"), ToolRun::SpawnFailed, exited(true, "")];
    let outcome = build_targets(&mut db, "2024-08-22", BuildMode::Core, &ts, &runs);
    assert_eq!(outcome, Some(Outcome::Broken));
    assert!(db.build_status_full("2024-08-22", "a", BuildMode::Core).is_some());
    assert_eq!(db.build_status_full("2024-08-22", "b", BuildMode::Core).unwrap().status, Status::Error);
    assert!(db.build_status_full("2024-08-22", "c", BuildMode::Core).is_none());
    assert!(db.build_status_full("2024-08-22", "d", BuildMode::Core).is_none());
    assert!(db.is_nightly_finished("2024-08-22", BuildMode::Core));
    assert!(!db.is_nightly_finished("2024-08-22", BuildMode::MiriStd));
    let finished = db.finished_nightlies();
    assert_eq!(finished.len(), 1);
    assert_eq!(finished[0].nightly, "2024-08-22");
    assert_eq!(finished[0].mode, BuildMode::Core);
}

#[test]
fn resumability() {
    let mut db = Db::new();
    db.insert(FullBuildInfo {
        nightly: "2024-08-22".to_string(),
        target: "a".to_string(),
        status: Status::Pass,
        stderr: String::new(),
        mode: BuildMode::MiriStd,
    })
    .unwrap();
    let ts = targets(&["a", "b", "c"]);
    assert_eq!(pending_targets(&db, "2024-08-22", BuildMode::MiriStd, &ts), targets(&["b", "c"]));
    // The run given for the recorded target would fault; it must not be used.
    let runs = vec![ToolRun::SpawnFailed, exited(false, "b failed"), exited(true, "")];
    let outcome = build_targets(&mut db, "2024-08-22", BuildMode::MiriStd, &ts, &runs);
    assert_eq!(outcome, Some(Outcome::Completed));
    assert_eq!(db.build_status().len(), 3);
    assert_eq!(db.build_status_full("2024-08-22", "a", BuildMode::MiriStd).unwrap().status, Status::Pass);
    assert_eq!(db.build_status_full("2024-08-22", "b", BuildMode::MiriStd).unwrap().stderr, "b failed");
    assert!(db.is_nightly_finished("2024-08-22", BuildMode::MiriStd));
    // A finished pair is left alone.
    assert_eq!(build_targets(&mut db, "2024-08-22", BuildMode::MiriStd, &ts, &runs), None);
}

#[test]
fn markers_are_unique() {
    let mut db = Db::new();
    db.finish_nightly("2024-08-22", BuildMode::Core).unwrap();
    assert_eq!(db.finish_nightly("2024-08-22", BuildMode::Core), Err(StoreError::DuplicateMarker));
    assert_eq!(
        db.finish_nightly_as_broken("2024-08-22", BuildMode::Core),
        Err(StoreError::DuplicateMarker)
    );
    db.finish_nightly_as_broken("2024-08-22", BuildMode::MiriStd).unwrap();
    assert_eq!(db.finished_nightlies().len(), 2);
}

#[test]
fn build_status_lists_records_in_order() {
    let mut db = Db::new();
    for (t, s) in [("b", Status::Error), ("a", Status::Pass)] {
        db.insert(FullBuildInfo {
            nightly: "2024-08-23".to_string(),
            target: t.to_string(),
            status: s,
            stderr: "x".to_string(),
            mode: BuildMode::Core,
        })
        .unwrap();
    }
    let all = db.build_status();
    assert_eq!(all[0].target, "b");
    assert_eq!(all[0].status, Status::Error);
    assert_eq!(all[1].target, "a");
    assert_eq!(all[1].nightly, "2024-08-23");
}

#[test]
fn names_of_modes_statuses_and_toolchains() {
    assert_eq!(BuildMode::Core.as_str(), "core");
    assert_eq!(BuildMode::MiriStd.as_str(), "miri-std");
    assert_eq!(Status::Pass.as_str(), "pass");
    assert_eq!(Status::Error.as_str(), "error");
    assert_eq!(Toolchain::from_nightly("2024-08-22").name(), "nightly-2024-08-22");
}

#[test]
fn target_list_splits_on_white_space() {
    assert_eq!(
        target_list("aarch64-apple-darwin\nx86_64-unknown-linux-gnu\r\n  wasm32-unknown-unknown\n"),
        vec!["aarch64-apple-darwin", "x86_64-unknown-linux-gnu", "wasm32-unknown-unknown"]
    );
    assert!(target_list("").is_empty());
    assert!(target_list(" \t\n").is_empty());
    assert_eq!(target_list("a\u{2003}b"), vec!["a", "b"]);
}

#[test]
fn parallel_jobs_width() {
    assert_eq!(parallel_jobs(Some(5), Some(16)), 5);
    assert_eq!(parallel_jobs(Some(0), Some(16)), 1);
    assert_eq!(parallel_jobs(None, Some(16)), 8);
    assert_eq!(parallel_jobs(None, Some(1)), 1);
    assert_eq!(parallel_jobs(None, None), 1);
}

#[test]
fn names_parse_back() {
    assert_eq!(BuildMode::from_name("core"), Some(BuildMode::Core));
    assert_eq!(BuildMode::from_name("miri-std"), Some(BuildMode::MiriStd));
    assert_eq!(BuildMode::from_name("Core"), None);
    assert_eq!(Status::from_name("pass"), Some(Status::Pass));
    assert_eq!(Status::from_name("error"), Some(Status::Error));
    assert_eq!(Status::from_name(""), None);
    assert_eq!(Outcome::from_name("completed"), Some(Outcome::Completed));
    assert_eq!(Outcome::from_name("broken"), Some(Outcome::Broken));
    assert_eq!(Outcome::Broken.as_str(), "broken");
    assert_eq!(Outcome::Completed.as_str(), "completed");
    assert_eq!(Outcome::from_name("brokenx"), None);
}

#[test]
fn empty_store() {
    let db = Db::new();
    assert!(db.build_status().is_empty());
    assert!(db.finished_nightlies().is_empty());
    assert!(db.build_status_full("2024-08-22", "a", BuildMode::Core).is_none());
    assert!(!db.is_nightly_finished("2024-08-22", BuildMode::Core));
}

#[test]
fn attempt_faults_store_nothing() {
    let mut db = Db::new();
    assert_eq!(
        record_attempt(&mut db, "2024-08-22", "a", BuildMode::Core, &ToolRun::SpawnFailed),
        Err(Fault::Spawn)
    );
    assert_eq!(
        record_attempt(
            &mut db,
            "2024-08-22",
            "a",
            BuildMode::Core,
            &ToolRun::Exited { success: false, stderr: None }
        ),
        Err(Fault::Decode)
    );
    assert!(db.build_status().is_empty());
}

#[test]
fn lifecycle_stages() {
    assert_eq!(next_stage(Stage::Install, true), Stage::Enumerate);
    assert_eq!(next_stage(Stage::Install, false), Stage::Finish(Outcome::Broken));
    assert_eq!(next_stage(Stage::Enumerate, true), Stage::Build);
    assert_eq!(next_stage(Stage::Enumerate, false), Stage::Finish(Outcome::Broken));
    assert_eq!(next_stage(Stage::Build, true), Stage::Finish(Outcome::Completed));
    assert_eq!(next_stage(Stage::Build, false), Stage::Finish(Outcome::Broken));
    assert_eq!(next_stage(Stage::Finish(Outcome::Broken), false), Stage::Uninstall);
    assert_eq!(next_stage(Stage::Uninstall, false), Stage::Done);
    assert_eq!(next_stage(Stage::Done, true), Stage::Done);
}
