use rustup_core::diskio::{Disk, IoAction};
use rustup_core::fetch::{
    backoff_delay, next_fetch_step, FetchDecision, FetchError, FetchOutcome, FetchState,
    RetryPolicy,
};
use rustup_core::manifest::{manifest_wf, plan, Manifest, PackageMeta, PlanError, Profile, Rename};
use rustup_core::orchestrator::{
    all_verified, cancel_install, commit_install, note_package_outcome, remove_toolchain,
    start_install, unpack_to_staging, OpStage,
};
use rustup_core::settings::{Settings, ToolchainId};

fn s(x: &str) -> String {
    x.to_string()
}

const TRIPLE: &str = "x86_64-known-triple";

fn pkg(component: &str, checksum: u64) -> PackageMeta {
    PackageMeta {
        component: s(component),
        target: s(TRIPLE),
        url: format!("https://dist.example/{component}-{TRIPLE}.tar.xz"),
        checksum,
        len: 1000,
    }
}

/// A manifest declaring compiler, build-tool and std-lib for one target.
fn stable_manifest() -> Manifest {
    Manifest {
        packages: vec![pkg("compiler", 11), pkg("build-tool", 22), pkg("std-lib", 33)],
        renames: vec![],
    }
}

fn stable_id() -> ToolchainId {
    ToolchainId::Official { channel: s("stable"), target: s(TRIPLE) }
}

fn policy() -> RetryPolicy {
    RetryPolicy { max_attempts: 3, base_delay_ms: 100 }
}

#[test]
fn plan_is_idempotent() {
    let m = stable_manifest();
    let targets = vec![s(TRIPLE)];
    let p1 = plan(&m, Profile::Default, &vec![], &vec![], &vec![], &targets).unwrap();
    assert_eq!(p1.to_add.len(), 3);
    assert!(p1.to_remove.is_empty());

    // Apply the plan: the installed sets become the declared sets.
    let installed: Vec<String> = p1.to_add.iter().map(|p| p.component.clone()).collect();
    let p2 = plan(&m, Profile::Default, &installed, &targets, &vec![], &targets).unwrap();
    assert!(p2.to_add.is_empty());
    assert!(p2.to_remove.is_empty());
}

#[test]
fn plan_recognizes_renamed_components() {
    let mut m = stable_manifest();
    m.packages.push(pkg("linter", 44));
    m.renames = vec![Rename { from: s("old-linter"), to: s("linter") }];
    let targets = vec![s(TRIPLE)];
    // The linter is already installed under its old name: it must be seen as
    // satisfied, not removed and re-added.
    let installed = vec![s("compiler"), s("build-tool"), s("std-lib"), s("old-linter")];
    let p = plan(&m, Profile::Default, &installed, &targets, &vec![], &targets).unwrap();
    assert!(p.to_add.is_empty(), "unexpected additions: {:?}", p.to_add.len());
    assert!(p.to_remove.is_empty());
}

#[test]
fn plan_reports_unavailable_requests() {
    let m = stable_manifest();
    let targets = vec![s(TRIPLE)];
    match plan(&m, Profile::Default, &vec![], &vec![], &vec![s("debugger")], &targets) {
        Err(PlanError::Unavailable { name }) => assert_eq!(name, "debugger"),
        _ => panic!("expected Unavailable"),
    }
    match plan(&m, Profile::Default, &vec![], &vec![], &vec![], &vec![s("riscv-unknown")]) {
        Err(PlanError::Unavailable { name }) => assert_eq!(name, "riscv-unknown"),
        _ => panic!("expected Unavailable"),
    }
}

#[test]
fn manifest_wf_rejects_circular_renames() {
    let mut m = stable_manifest();
    assert!(manifest_wf(&m));
    m.renames = vec![Rename { from: s("old-linter"), to: s("linter") }];
    assert!(manifest_wf(&m));
    // A rename target that is itself a rename source is malformed.
    m.renames.push(Rename { from: s("linter"), to: s("newest-linter") });
    assert!(!manifest_wf(&m));
    // A package listed under a rename source is malformed too.
    let mut m2 = stable_manifest();
    m2.renames = vec![Rename { from: s("compiler"), to: s("compiler2") }];
    assert!(!manifest_wf(&m2));
}

#[test]
fn fetch_policy_retries_then_fails() {
    let p = policy();
    let st = FetchState { attempts_used: 0, checksum_retry_used: false };
    // Transport failures back off exponentially up to the bound.
    let (st, d) = next_fetch_step(&p, &st, 11, FetchOutcome::TransportFailed);
    assert_eq!(d, FetchDecision::Retry { delay_ms: 100 });
    let (st, d) = next_fetch_step(&p, &st, 11, FetchOutcome::TransportFailed);
    assert_eq!(d, FetchDecision::Retry { delay_ms: 200 });
    let (_, d) = next_fetch_step(&p, &st, 11, FetchOutcome::TransportFailed);
    assert_eq!(d, FetchDecision::Fail { error: FetchError::NetworkError });
    assert_eq!(backoff_delay(100, 4), 1600);
}

#[test]
fn fetch_policy_never_accepts_mismatched_digest() {
    let p = policy();
    let st = FetchState { attempts_used: 0, checksum_retry_used: false };
    // A mismatch is retried once against the same source, then surfaced.
    let (st, d) = next_fetch_step(&p, &st, 11, FetchOutcome::Delivered { digest: 999 });
    assert_eq!(d, FetchDecision::Retry { delay_ms: 0 });
    let (_, d) = next_fetch_step(&p, &st, 11, FetchOutcome::Delivered { digest: 999 });
    assert_eq!(d, FetchDecision::Fail { error: FetchError::ChecksumMismatch });
    // A matching digest is accepted.
    let st = FetchState { attempts_used: 0, checksum_retry_used: false };
    let (_, d) = next_fetch_step(&p, &st, 11, FetchOutcome::Delivered { digest: 11 });
    assert_eq!(d, FetchDecision::Accept);
}

#[test]
fn checksum_mismatch_commits_nothing() {
    let m = stable_manifest();
    let settings = Settings::new();
    let mut disk = Disk::new();
    let targets = vec![s(TRIPLE)];
    let mut op = start_install(
        &m,
        Profile::Default,
        &vec![],
        &targets,
        &settings,
        &stable_id(),
        s("/tc/stable"),
    )
    .unwrap();
    // Every delivery carries a corrupted digest: the package fails and the
    // operation with it; no file ever reaches a live directory.
    let d = note_package_outcome(&mut op, &policy(), 0, FetchOutcome::Delivered { digest: 999 });
    assert_eq!(d, FetchDecision::Retry { delay_ms: 0 });
    let d = note_package_outcome(&mut op, &policy(), 0, FetchOutcome::Delivered { digest: 999 });
    assert_eq!(d, FetchDecision::Fail { error: FetchError::ChecksumMismatch });
    assert_eq!(op.stage, OpStage::Failed);
    assert!(!all_verified(&op));
    cancel_install(&mut op, &mut disk);
    assert!(disk.live.is_empty());
    assert!(disk.staging.is_none());
}

fn fetch_all(op: &mut rustup_core::orchestrator::Operation) {
    let n = op.packages.len();
    for i in 0..n {
        let digest = op.packages[i].checksum;
        let d = note_package_outcome(op, &policy(), i, FetchOutcome::Delivered { digest });
        assert_eq!(d, FetchDecision::Accept);
    }
    assert!(all_verified(op));
}

#[test]
fn install_scenario_default_profile() {
    // Install profile `default` for channel `stable`: the manifest declares
    // compiler, build-tool and std-lib, and exactly those become installed;
    // the registry gains one entry and the default toolchain is set.
    let m = stable_manifest();
    let mut settings = Settings::new();
    let mut disk = Disk::new();
    let targets = vec![s(TRIPLE)];
    let mut op = start_install(
        &m,
        Profile::Default,
        &vec![],
        &targets,
        &settings,
        &stable_id(),
        s("/tc/stable"),
    )
    .unwrap();
    assert_eq!(op.stage, OpStage::Fetching);
    assert_eq!(op.packages.len(), 3);
    fetch_all(&mut op);
    let actions = unpack_to_staging(&mut op, &mut disk);
    assert_eq!(actions.len(), 3);
    assert_eq!(op.stage, OpStage::Committing);
    commit_install(&mut op, &mut disk, &mut settings, 777);
    assert_eq!(op.stage, OpStage::Done);

    assert_eq!(settings.installed.len(), 1);
    let tc = settings.find_installed(&stable_id()).unwrap();
    let mut comps = tc.components.clone();
    comps.sort();
    assert_eq!(comps, vec![s("build-tool"), s("compiler"), s("std-lib")]);
    assert_eq!(tc.targets, vec![s(TRIPLE)]);
    assert_eq!(tc.install_time, 777);
    assert!(settings.default_toolchain().unwrap().same_as(&stable_id()));
    assert_eq!(disk.live.len(), 1);
    assert_eq!(disk.live[0].files.len(), 3);
}

#[test]
fn interrupt_before_commit_changes_nothing() {
    let m = stable_manifest();
    let mut settings = Settings::new();
    settings.set_default(ToolchainId::Custom { name: s("old-default") });
    let mut disk = Disk::new();
    let targets = vec![s(TRIPLE)];
    let mut op = start_install(
        &m,
        Profile::Default,
        &vec![],
        &targets,
        &settings,
        &stable_id(),
        s("/tc/stable"),
    )
    .unwrap();
    fetch_all(&mut op);
    let _actions = unpack_to_staging(&mut op, &mut disk);
    // The staging directory is populated; interrupt before commit.
    assert!(disk.staging.is_some());
    cancel_install(&mut op, &mut disk);
    assert_eq!(op.stage, OpStage::Failed);
    // Live directories and the settings value are exactly as before.
    assert!(disk.live.is_empty());
    assert!(disk.staging.is_none());
    assert!(settings.installed.is_empty());
    assert!(settings.overrides.is_empty());
    assert!(settings
        .default_toolchain()
        .unwrap()
        .same_as(&ToolchainId::Custom { name: s("old-default") }));
}

#[test]
fn shared_content_is_hard_linked() {
    // Two toolchains installing a file with the same checksum: the second
    // install links the first's copy instead of storing the bytes again.
    let m = stable_manifest();
    let mut settings = Settings::new();
    let mut disk = Disk::new();
    let targets = vec![s(TRIPLE)];

    let mut op = start_install(
        &m,
        Profile::Default,
        &vec![],
        &targets,
        &settings,
        &stable_id(),
        s("/tc/stable"),
    )
    .unwrap();
    fetch_all(&mut op);
    let first_actions = unpack_to_staging(&mut op, &mut disk);
    assert!(first_actions.iter().all(|a| matches!(a, IoAction::WriteFile { .. })));
    commit_install(&mut op, &mut disk, &mut settings, 1);

    // A second toolchain whose packages carry identical checksums.
    let other = ToolchainId::Official { channel: s("beta"), target: s(TRIPLE) };
    let mut op2 = start_install(
        &m,
        Profile::Default,
        &vec![],
        &targets,
        &settings,
        &other,
        s("/tc/beta"),
    )
    .unwrap();
    fetch_all(&mut op2);
    let second_actions = unpack_to_staging(&mut op2, &mut disk);
    for a in &second_actions {
        match a {
            IoAction::HardLink { source_dir, .. } => assert_eq!(source_dir, "/tc/stable"),
            IoAction::WriteFile { .. } => panic!("identical content written twice"),
        }
    }
    commit_install(&mut op2, &mut disk, &mut settings, 2);
    assert_eq!(disk.live.len(), 2);
}

#[test]
fn no_op_update_completes_immediately() {
    let m = stable_manifest();
    let mut settings = Settings::new();
    let mut disk = Disk::new();
    let targets = vec![s(TRIPLE)];
    let mut op = start_install(
        &m,
        Profile::Default,
        &vec![],
        &targets,
        &settings,
        &stable_id(),
        s("/tc/stable"),
    )
    .unwrap();
    fetch_all(&mut op);
    unpack_to_staging(&mut op, &mut disk);
    commit_install(&mut op, &mut disk, &mut settings, 1);

    // Recomputing against the committed state is a no-op: no fetching.
    let op2 = start_install(
        &m,
        Profile::Default,
        &vec![],
        &targets,
        &settings,
        &stable_id(),
        s("/tc/stable"),
    )
    .unwrap();
    assert_eq!(op2.stage, OpStage::Done);
    assert!(op2.packages.is_empty());
}

#[test]
fn remove_unregisters_then_deletes() {
    let m = stable_manifest();
    let mut settings = Settings::new();
    let mut disk = Disk::new();
    let targets = vec![s(TRIPLE)];
    let mut op = start_install(
        &m,
        Profile::Default,
        &vec![],
        &targets,
        &settings,
        &stable_id(),
        s("/tc/stable"),
    )
    .unwrap();
    fetch_all(&mut op);
    unpack_to_staging(&mut op, &mut disk);
    commit_install(&mut op, &mut disk, &mut settings, 1);

    assert!(remove_toolchain(&mut settings, &mut disk, &stable_id()));
    assert!(settings.installed.is_empty());
    assert!(disk.live.is_empty());
    assert!(!remove_toolchain(&mut settings, &mut disk, &stable_id()));
}
