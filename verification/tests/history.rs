use pic_core::document::RevisionId;
use pic_core::limits::ResourceLimits;
use pic_core::project::history::{
    expect_revision, AssetRef, CommitRecord, CommitRef, History, Manifest, StepRecord,
    PIXEL_SEMANTICS,
};
use pic_core::project::storage::hash;
use pic_core::{ErrorCode, PicError};

fn source() -> AssetRef {
    AssetRef { sha256: hash(b"original image bytes"), bytes: 20 }
}

fn rev(n: usize) -> RevisionId {
    RevisionId(format!("r{n}"))
}

fn step(number: usize, base: usize) -> StepRecord {
    StepRecord {
        op_id: format!("op{number}"),
        base_revision: rev(base),
        revision: rev(number),
        input_assets: vec![source()],
        result_assets: vec![],
        operation: Ok(()),
    }
}

fn manifest(commits: usize, current: usize, tip: usize) -> Manifest {
    Manifest {
        schema_version: 1,
        pixel_semantics: PIXEL_SEMANTICS.into(),
        engine_version: "0.1.0".into(),
        source: source(),
        imported_from: "input.png".into(),
        initial_revision: rev(0),
        current_revision: rev(current),
        tip_revision: rev(tip),
        commits: (1..=commits)
            .map(|c| CommitRef { commit_id: format!("c{c}"), sha256: hash(format!("c{c}").as_bytes()) })
            .collect(),
    }
}

/// c1 = r0 -> r1 -> r2 (one undo group), c2 = r2 -> r3.
fn records() -> Vec<CommitRecord> {
    vec![
        CommitRecord { commit_id: "c1".into(), base_revision: rev(0), revision: rev(2), steps: vec![step(1, 0), step(2, 1)] },
        CommitRecord { commit_id: "c2".into(), base_revision: rev(2), revision: rev(3), steps: vec![step(3, 2)] },
    ]
}

fn load(m: &Manifest, records: &[CommitRecord]) -> Result<History, PicError> {
    let limits = ResourceLimits::default();
    let mut history = History::begin(m, 300, &limits)?;
    for record in records {
        assert!(history.read_limit(&limits) >= 100);
        history.add_commit(m, record, 100, &limits)?;
    }
    history.finish(m)?;
    Ok(history)
}

#[test]
fn committed_history_loads_and_reports_paths_and_boundaries() {
    let m = manifest(2, 3, 3);
    let history = load(&m, &records()).unwrap();
    assert_eq!(history.len(), 3);
    assert_eq!(history.commit_count(), 2);
    assert_eq!(history.metadata_bytes(), 500);
    assert_eq!(history.steps_to("r3").unwrap(), vec![1, 2, 3]);
    assert_eq!(history.steps_to("r0").unwrap(), Vec::<usize>::new());
    assert_eq!(history.steps_to("r9").unwrap_err().code, ErrorCode::RevisionNotFound);
    let stops: Vec<String> = history.boundaries("r3").unwrap().into_iter().map(|r| r.0).collect();
    assert_eq!(stops, ["r0", "r2", "r3"]);
    assert_eq!(history.revision_number("r2"), Some(2));
    assert_eq!(history.revision_number("r02"), None);
}

#[test]
fn undo_and_redo_move_by_whole_groups() {
    let m = manifest(2, 3, 3);
    let history = load(&m, &records()).unwrap();
    assert_eq!(history.cursor_target("r3", "r3", false).unwrap(), 2);
    assert_eq!(history.cursor_target("r3", "r2", false).unwrap(), 0);
    assert_eq!(history.cursor_target("r3", "r0", false).unwrap_err().code, ErrorCode::HistoryBoundary);
    assert_eq!(history.cursor_target("r3", "r0", true).unwrap(), 2);
    assert_eq!(history.cursor_target("r3", "r2", true).unwrap(), 3);
    assert_eq!(history.cursor_target("r3", "r3", true).unwrap_err().code, ErrorCode::HistoryBoundary);
    assert_eq!(history.cursor_target("r3", "r1", false).unwrap_err().code, ErrorCode::InvalidProject);
    assert_eq!(history.cursor_target("r7", "r3", false).unwrap_err().code, ErrorCode::RevisionNotFound);
    // What undo takes away, redo brings back.
    let undone = history.cursor_target("r3", "r3", false).unwrap();
    assert_eq!(history.cursor_target("r3", &format!("r{undone}"), true).unwrap(), 3);
}

#[test]
fn new_commits_take_the_next_identities() {
    let m = manifest(2, 3, 3);
    let history = load(&m, &records()).unwrap();
    let limits = ResourceLimits::default();
    let plan = history.plan_commit("r2", 2, &limits).unwrap();
    assert_eq!(plan.commit_id, "c3");
    assert_eq!(plan.base_revision.0, "r2");
    assert_eq!(plan.revision.0, "r5");
    let ids: Vec<(String, String, String)> = plan
        .steps
        .iter()
        .map(|s| (s.op_id.clone(), s.base_revision.0.clone(), s.revision.0.clone()))
        .collect();
    assert_eq!(
        ids,
        [
            ("op4".to_string(), "r2".to_string(), "r4".to_string()),
            ("op5".to_string(), "r4".to_string(), "r5".to_string())
        ]
    );
    assert_eq!(history.plan_commit("r2", 0, &limits).unwrap_err().code, ErrorCode::InvalidArgument);
    assert_eq!(history.plan_commit("r8", 1, &limits).unwrap_err().code, ErrorCode::RevisionNotFound);
    let tight = ResourceLimits { max_history_operations: 4, ..ResourceLimits::default() };
    assert_eq!(history.plan_commit("r3", 2, &tight).unwrap_err().code, ErrorCode::ResourceLimit);
    assert!(history.check_metadata_budget(300, 100, &limits).is_ok());
    let small = ResourceLimits { max_project_bytes: 599, ..ResourceLimits::default() };
    assert_eq!(history.check_metadata_budget(300, 100, &small).unwrap_err().code, ErrorCode::ResourceLimit);
}

#[test]
fn malformed_records_and_cursors_are_refused() {
    let mut bad_order = records();
    bad_order.swap(0, 1);
    assert_eq!(load(&manifest(2, 3, 3), &bad_order).unwrap_err().code, ErrorCode::InvalidProject);
    let mut bad_step = records();
    bad_step[0].steps[1].op_id = "op7".into();
    assert_eq!(load(&manifest(2, 3, 3), &bad_step).unwrap_err().code, ErrorCode::InvalidProject);
    let mut failed_op = records();
    failed_op[1].steps[0].operation = Err(PicError::new(ErrorCode::UnknownOperation, "unknown"));
    assert_eq!(load(&manifest(2, 3, 3), &failed_op).unwrap_err().code, ErrorCode::UnknownOperation);
    let mut extra_asset = records();
    extra_asset[0].steps[0].result_assets.push(source());
    assert_eq!(load(&manifest(2, 3, 3), &extra_asset).unwrap_err().code, ErrorCode::InvalidProject);
    assert_eq!(load(&manifest(2, 1, 3), &records()).unwrap_err().code, ErrorCode::InvalidProject);
    assert_eq!(load(&manifest(2, 3, 4), &records()).unwrap_err().code, ErrorCode::InvalidProject);
    let mut wrong_semantics = manifest(2, 3, 3);
    wrong_semantics.pixel_semantics = "srgb_u8".into();
    assert_eq!(load(&wrong_semantics, &records()).unwrap_err().code, ErrorCode::UnsupportedVersion);
    let mut path_source = manifest(2, 3, 3);
    path_source.source.sha256 = "../escape".into();
    assert_eq!(load(&path_source, &records()).unwrap_err().code, ErrorCode::UnsafePath);
    assert!(expect_revision("r3", "r3").is_ok());
    assert_eq!(expect_revision("r3", "r2").unwrap_err().code, ErrorCode::RevisionConflict);
}

#[test]
fn revising_a_step_starts_from_the_revision_it_edited() {
    let m = manifest(2, 3, 3);
    let history = load(&m, &records()).unwrap();
    assert_eq!(history.revise_point("r3", "r2").unwrap(), (1, 1));
    assert_eq!(history.revise_point("r3", "r1").unwrap(), (0, 0));
    assert_eq!(history.revise_point("r3", "r3").unwrap(), (2, 2));
    assert_eq!(history.revise_point("r2", "r3").unwrap_err().code, ErrorCode::RevisionNotFound);
    assert_eq!(history.revise_point("r9", "r1").unwrap_err().code, ErrorCode::RevisionNotFound);
}

#[test]
fn active_revisions_follow_the_tip_history() {
    let m = manifest(2, 3, 3);
    let history = load(&m, &records()).unwrap();
    let active: Vec<String> = history.active_revisions("r3").unwrap().into_iter().map(|r| r.0).collect();
    assert_eq!(active, ["r0", "r1", "r2", "r3"]);
    let active: Vec<String> = history.active_revisions("r0").unwrap().into_iter().map(|r| r.0).collect();
    assert_eq!(active, ["r0"]);
    assert_eq!(history.active_revisions("r4").unwrap_err().code, ErrorCode::RevisionNotFound);
}

#[test]
fn a_planned_commit_reads_back_as_the_new_tip() {
    let limits = ResourceLimits::default();
    let before = manifest(2, 3, 3);
    let history = load(&before, &records()).unwrap();
    let plan = history.plan_commit("r2", 2, &limits).unwrap();
    assert_eq!(plan.commit_id, "c3");
    assert_eq!(plan.revision.0, "r5");
    let record = CommitRecord {
        commit_id: plan.commit_id.clone(),
        base_revision: plan.base_revision.clone(),
        revision: plan.revision.clone(),
        steps: plan
            .steps
            .iter()
            .map(|s| StepRecord {
                op_id: s.op_id.clone(),
                base_revision: s.base_revision.clone(),
                revision: s.revision.clone(),
                input_assets: vec![source()],
                result_assets: vec![],
                operation: Ok(()),
            })
            .collect(),
    };
    let after = manifest(3, 5, 5);
    let mut all = records();
    all.push(record);
    let reloaded = load(&after, &all).unwrap();
    assert_eq!(reloaded.len(), 5);
    assert_eq!(reloaded.steps_to("r5").unwrap(), vec![1, 2, 4, 5]);
    let stops: Vec<String> = reloaded.boundaries("r5").unwrap().into_iter().map(|r| r.0).collect();
    assert_eq!(stops, ["r0", "r2", "r5"]);
    assert_eq!(reloaded.cursor_target("r5", "r5", false).unwrap(), 2);
    assert_eq!(reloaded.cursor_target("r5", "r2", true).unwrap(), 5);
    assert_eq!(reloaded.cursor_target("r5", "r5", true).unwrap_err().code, ErrorCode::HistoryBoundary);
    assert_eq!(reloaded.cursor_target("r5", "r0", false).unwrap_err().code, ErrorCode::HistoryBoundary);
}
