//! Install orchestration: sequencing plan, fetch, unpack and commit for one
//! add/update/remove operation. Commit is the atomicity boundary: nothing
//! before it changes the settings value or a live toolchain directory, and
//! everything after it is recorded durably.

use vstd::prelude::*;
use vstd::string::StringExecFns;
use crate::settings::{
    Settings, SettingsView, ToolchainId, ToolchainIdView, InstalledToolchain,
    InstalledToolchainView, installed_remove, clone_strings,
};
use crate::manifest::{
    Manifest, ManifestView, PackageMetaView, Profile, PlanError, PlanErrorView, plan,
    plan_err_post, desired_components_vec, enumerates_desired, pairs_contain, pair_desired,
    pair_existing, component_desired, lemma_plan_idempotent,
};
use crate::dispatch::lemma_installed_unique;
use crate::fetch::{RetryPolicy, FetchState, FetchOutcome, FetchDecision, next_fetch_step};
use crate::diskio::{
    Disk, DiskView, FileEntry, FileEntryView, ToolchainDirView, IoAction, commit_spec,
    stage_all_spec, stage_file_spec,
};

verus! {

broadcast use vstd::seq_lib::lemma_seq_contains_after_push;

/// Where an operation stands. `Failed` is terminal and reachable from any
/// stage; there is no rollback after `Committing` begins.
#[derive(Clone, Copy, PartialEq, Eq, Structural, Debug)]
pub enum OpStage {
    /// Packages are being fetched and verified.
    Fetching,
    /// Everything is verified; staging may proceed.
    Unpacking,
    /// The staging directory is fully populated and may be published.
    Committing,
    /// The operation committed.
    Done,
    /// The operation failed before commit; nothing observable changed.
    Failed,
}

/// One add or update operation in flight.
pub struct Operation {
    pub id: ToolchainId,
    /// Directory the toolchain will live in.
    pub dir: String,
    /// The declared component set the install will reach.
    pub components: Vec<String>,
    /// The declared target set.
    pub targets: Vec<String>,
    /// One package per (component, target) pair to add.
    pub packages: Vec<crate::manifest::PackageMeta>,
    /// File names (relative paths) of the pairs to remove.
    pub removed_names: Vec<String>,
    /// Which packages have been fetched and verified.
    pub verified: Vec<bool>,
    /// Per-package retry progress.
    pub fetch_states: Vec<FetchState>,
    pub stage: OpStage,
}

impl Operation {
    pub open spec fn wf(self) -> bool {
        &&& self.verified@.len() == self.packages@.len()
        &&& self.fetch_states@.len() == self.packages@.len()
    }

    /// Every package of the operation has been fetched and verified.
    pub open spec fn all_verified_spec(self) -> bool {
        forall|i: int| 0 <= i < self.verified@.len() ==> self.verified@[i]
    }
}

/// The file name under which a (component, target) pair's tree is staged.
pub open spec fn pair_name_spec(c: Seq<char>, t: Seq<char>) -> Seq<char> {
    c + "-"@ + t
}

/// The file name under which a (component, target) pair's tree is staged.
pub fn pair_name(c: &str, t: &str) -> (r: String)
    ensures
        r@ == pair_name_spec(c@, t@),
{
    let mut s = String::from_str(c);
    s.append("-");
    s.append(t);
    assert(s@ =~= pair_name_spec(c@, t@));
    s
}

/// The component set of the registry entry for `id`, empty when none.
pub open spec fn registry_components(s: SettingsView, id: ToolchainIdView) -> Seq<Seq<char>> {
    if exists|i: int| 0 <= i < s.installed.len() && (#[trigger] s.installed[i]).id == id {
        s.installed[choose|i: int|
            0 <= i < s.installed.len() && (#[trigger] s.installed[i]).id == id].components
    } else {
        Seq::empty()
    }
}

/// The target set of the registry entry for `id`, empty when none.
pub open spec fn registry_targets(s: SettingsView, id: ToolchainIdView) -> Seq<Seq<char>> {
    if exists|i: int| 0 <= i < s.installed.len() && (#[trigger] s.installed[i]).id == id {
        s.installed[choose|i: int|
            0 <= i < s.installed.len() && (#[trigger] s.installed[i]).id == id].targets
    } else {
        Seq::empty()
    }
}

/// The directory of the registry entry for `id`, empty when none.
pub open spec fn registry_dir(s: SettingsView, id: ToolchainIdView) -> Seq<char> {
    if exists|i: int| 0 <= i < s.installed.len() && (#[trigger] s.installed[i]).id == id {
        s.installed[choose|i: int|
            0 <= i < s.installed.len() && (#[trigger] s.installed[i]).id == id].dir
    } else {
        Seq::empty()
    }
}

/// A pair the operation must add: declared for the request and not yet
/// installed.
pub open spec fn pair_to_add(
    m: ManifestView,
    profile: Profile,
    rc: Seq<Seq<char>>,
    rt: Seq<Seq<char>>,
    ec: Seq<Seq<char>>,
    et: Seq<Seq<char>>,
    c: Seq<char>,
    t: Seq<char>,
) -> bool {
    pair_desired(m, profile, rc, rt, c, t) && !pair_existing(m, ec, et, c, t)
}

/// A pair the operation must remove: installed and no longer declared.
pub open spec fn pair_to_remove(
    m: ManifestView,
    profile: Profile,
    rc: Seq<Seq<char>>,
    rt: Seq<Seq<char>>,
    ec: Seq<Seq<char>>,
    et: Seq<Seq<char>>,
    c: Seq<char>,
    t: Seq<char>,
) -> bool {
    pair_existing(m, ec, et, c, t) && !pair_desired(m, profile, rc, rt, c, t)
}

/// Whether the package list holds a package for the pair (`c`, `t`).
pub open spec fn package_pairs_contain(ps: Seq<PackageMetaView>, c: Seq<char>, t: Seq<char>) -> bool {
    exists|i: int| 0 <= i < ps.len() && (#[trigger] ps[i]).component == c && ps[i].target == t
}

/// Whether `n` is the pair name of some pair to remove.
pub open spec fn is_removed_pair_name(
    m: ManifestView,
    profile: Profile,
    rc: Seq<Seq<char>>,
    rt: Seq<Seq<char>>,
    ec: Seq<Seq<char>>,
    et: Seq<Seq<char>>,
    n: Seq<char>,
) -> bool {
    exists|c: Seq<char>, t: Seq<char>|
        #[trigger] pair_to_remove(m, profile, rc, rt, ec, et, c, t) && n == pair_name_spec(c, t)
}

/// Every name in `names` is the pair name of some pair to remove.
pub open spec fn removed_names_sound(
    m: ManifestView,
    profile: Profile,
    rc: Seq<Seq<char>>,
    rt: Seq<Seq<char>>,
    ec: Seq<Seq<char>>,
    et: Seq<Seq<char>>,
    names: Seq<Seq<char>>,
) -> bool {
    forall|i: int|
        #![trigger names[i]]
        0 <= i < names.len() ==> is_removed_pair_name(m, profile, rc, rt, ec, et, names[i])
}

/// Everything `start_install` promises of a freshly started operation,
/// against the registry state the settings held for `id`.
pub open spec fn start_post_ok(
    m: ManifestView,
    profile: Profile,
    rc: Seq<Seq<char>>,
    rt: Seq<Seq<char>>,
    s: SettingsView,
    id: ToolchainIdView,
    dir: Seq<char>,
    op: Operation,
) -> bool {
    let ec = registry_components(s, id);
    let et = registry_targets(s, id);
    &&& op.wf()
    &&& op.id@ == id
    &&& op.dir@ == dir
    &&& enumerates_desired(m, profile, rc, rt, op.components.deep_view())
    &&& op.targets.deep_view() == rt
    &&& forall|i: int|
        0 <= i < op.packages@.len() ==> m.packages.contains(#[trigger] op.packages.deep_view()[i])
    &&& forall|c: Seq<char>, t: Seq<char>|
        #[trigger] package_pairs_contain(op.packages.deep_view(), c, t) <==> pair_to_add(
            m,
            profile,
            rc,
            rt,
            ec,
            et,
            c,
            t,
        )
    &&& forall|c: Seq<char>, t: Seq<char>|
        #[trigger] pair_to_remove(m, profile, rc, rt, ec, et, c, t)
            ==> op.removed_names.deep_view().contains(pair_name_spec(c, t))
    &&& removed_names_sound(m, profile, rc, rt, ec, et, op.removed_names.deep_view())
    &&& forall|i: int| 0 <= i < op.verified@.len() ==> !op.verified@[i]
    &&& (op.stage == OpStage::Done || op.stage == OpStage::Fetching)
    &&& (op.stage == OpStage::Done <==> (op.packages@.len() == 0 && op.removed_names@.len() == 0))
}

/// Starts an add or update operation: plans the delta against what the
/// settings say is installed, selects the manifest package of every pair to
/// add, and reports an unsatisfiable request instead of dropping it. A no-op
/// delta completes immediately (stage `Done`) without touching the network.
pub fn start_install(
    m: &Manifest,
    profile: Profile,
    requested_components: &Vec<String>,
    requested_targets: &Vec<String>,
    settings: &Settings,
    id: &ToolchainId,
    dir: String,
) -> (r: Result<Operation, PlanError>)
    requires
        m@.wf(),
        settings@.wf(),
    ensures
        match r {
            Ok(op) => start_post_ok(
                m@,
                profile,
                requested_components.deep_view(),
                requested_targets.deep_view(),
                settings@,
                id@,
                dir@,
                op,
            ),
            Err(e) => (match e@ {
                PlanErrorView::Unavailable { name } => plan_err_post(
                    m@,
                    requested_components.deep_view(),
                    requested_targets.deep_view(),
                    name,
                ),
            }),
        },
{
    let (existing_c, existing_t) = match settings.find_installed(id) {
        Some(tc) => {
            proof {
                let j = choose|j: int|
                    0 <= j < settings@.installed.len() && settings@.installed[j] == tc@;
                assert((#[trigger] settings@.installed[j]).id == id@);
                let i0 = choose|i: int|
                    0 <= i < settings@.installed.len() && (#[trigger] settings@.installed[i]).id
                        == id@;
                assert(settings@.installed.contains(settings@.installed[i0]));
                lemma_installed_unique(settings@, tc@, settings@.installed[i0]);
            }
            (clone_strings(&tc.components), clone_strings(&tc.targets))
        },
        None => {
            let ec: Vec<String> = Vec::new();
            let et: Vec<String> = Vec::new();
            assert(ec.deep_view() =~= Seq::<Seq<char>>::empty());
            assert(et.deep_view() =~= Seq::<Seq<char>>::empty());
            (ec, et)
        },
    };
    assert(existing_c.deep_view() == registry_components(settings@, id@));
    assert(existing_t.deep_view() == registry_targets(settings@, id@));
    let the_plan = match plan(
        m,
        profile,
        &existing_c,
        &existing_t,
        requested_components,
        requested_targets,
    ) {
        Ok(p) => p,
        Err(e) => {
            proof {
                match e@ {
                    PlanErrorView::Unavailable { name } => {
                        assert(plan_err_post(
                            m@,
                            requested_components.deep_view(),
                            requested_targets.deep_view(),
                            name,
                        ));
                    },
                }
            }
            return Err(e);
        },
    };
    let components = desired_components_vec(m, profile, requested_components, requested_targets);
    proof {
        assert(crate::manifest::plan_ok_post(
            m@,
            profile,
            existing_c.deep_view(),
            existing_t.deep_view(),
            requested_components.deep_view(),
            requested_targets.deep_view(),
            the_plan.to_add.deep_view(),
            the_plan.to_remove.deep_view(),
        ));
        assert forall|k: int| 0 <= k < the_plan.to_add@.len() implies pairs_contain(
            the_plan.to_add.deep_view(),
            (#[trigger] the_plan.to_add.deep_view()[k]).component,
            the_plan.to_add.deep_view()[k].target,
        ) && m@.offers(
            the_plan.to_add.deep_view()[k].component,
            the_plan.to_add.deep_view()[k].target,
        ) by {
            let pv = the_plan.to_add.deep_view()[k];
            assert(pairs_contain(the_plan.to_add.deep_view(), pv.component, pv.target));
            let rt = requested_targets.deep_view();
            assert(rt.contains(pv.target));
            let y = choose|y: int| 0 <= y < rt.len() && rt[y] == pv.target;
            assert(m@.offers(pv.component, rt[y]));
        }
    }
    let mut packages: Vec<crate::manifest::PackageMeta> = Vec::new();
    let na = the_plan.to_add.len();
    for i in 0..na
        invariant
            na == the_plan.to_add.len(),
            m@.wf(),
            forall|k: int|
                0 <= k < the_plan.to_add@.len() ==> crate::manifest::pairs_contain(
                    the_plan.to_add.deep_view(),
                    (#[trigger] the_plan.to_add.deep_view()[k]).component,
                    the_plan.to_add.deep_view()[k].target,
                ) && m@.offers(
                    the_plan.to_add.deep_view()[k].component,
                    the_plan.to_add.deep_view()[k].target,
                ),
            packages@.len() == i,
            forall|j: int|
                0 <= j < packages@.len() ==> m@.packages.contains(
                    #[trigger] packages.deep_view()[j],
                ),
            forall|j: int|
                0 <= j < i ==> (#[trigger] packages.deep_view()[j]).component
                    == the_plan.to_add.deep_view()[j].component && packages.deep_view()[j].target
                    == the_plan.to_add.deep_view()[j].target,
    {
        let pr = &the_plan.to_add[i];
        match find_package(m, pr.component.as_str(), pr.target.as_str()) {
            Some(k) => {
                let ghost prev = packages.deep_view();
                let p = &m.packages[k];
                packages.push(
                    crate::manifest::PackageMeta {
                        component: p.component.clone(),
                        target: p.target.clone(),
                        url: p.url.clone(),
                        checksum: p.checksum,
                        len: p.len,
                    },
                );
                proof {
                    assert(packages.deep_view() =~= prev.push(m@.packages[k as int]));
                    assert(m@.packages.contains(m@.packages[k as int]));
                    assert(the_plan.to_add.deep_view()[i as int] == the_plan.to_add[i as int]@);
                }
            },
            None => {
                proof {
                    assert(the_plan.to_add.deep_view()[i as int].component == the_plan.to_add[
                        i as int
                    ]@.component);
                    assert(false);
                }
            },
        }
    }
    let mut removed_names: Vec<String> = Vec::new();
    let nr = the_plan.to_remove.len();
    for i in 0..nr
        invariant
            nr == the_plan.to_remove.len(),
            removed_names@.len() == i,
            forall|j: int|
                0 <= j < i ==> removed_names.deep_view()[j] == pair_name_spec(
                    (#[trigger] the_plan.to_remove.deep_view()[j]).component,
                    the_plan.to_remove.deep_view()[j].target,
                ),
    {
        let pr = &the_plan.to_remove[i];
        let ghost prev = removed_names.deep_view();
        let name = pair_name(pr.component.as_str(), pr.target.as_str());
        let ghost nv = name@;
        removed_names.push(name);
        proof {
            assert(removed_names.deep_view() =~= prev.push(nv));
            assert(the_plan.to_remove.deep_view()[i as int] == the_plan.to_remove[i as int]@);
        }
    }
    let n = packages.len();
    let mut verified: Vec<bool> = Vec::new();
    let mut fetch_states: Vec<FetchState> = Vec::new();
    for i in 0..n
        invariant
            verified@.len() == i,
            fetch_states@.len() == i,
            forall|j: int| 0 <= j < i ==> !verified@[j],
    {
        verified.push(false);
        fetch_states.push(FetchState { attempts_used: 0, checksum_retry_used: false });
    }
    proof {
        let ec = registry_components(settings@, id@);
        let et = registry_targets(settings@, id@);
        let rc_dv = requested_components.deep_view();
        let rt_dv = requested_targets.deep_view();
        let addv = the_plan.to_add.deep_view();
        let remv = the_plan.to_remove.deep_view();
        let pkgv = packages.deep_view();
        assert forall|c: Seq<char>, t: Seq<char>| #[trigger] package_pairs_contain(pkgv, c, t)
            implies pair_to_add(m@, profile, rc_dv, rt_dv, ec, et, c, t) by {
            let i = choose|i: int|
                0 <= i < pkgv.len() && (#[trigger] pkgv[i]).component == c && pkgv[i].target == t;
            assert(0 <= i < addv.len() && addv[i].component == c && addv[i].target == t);
            assert(pairs_contain(addv, c, t));
        }
        assert forall|c: Seq<char>, t: Seq<char>| pair_to_add(m@, profile, rc_dv, rt_dv, ec, et, c, t)
            implies #[trigger] package_pairs_contain(pkgv, c, t) by {
            assert(pairs_contain(addv, c, t));
            let i = choose|i: int|
                0 <= i < addv.len() && (#[trigger] addv[i]).component == c && addv[i].target == t;
            assert(pkgv[i].component == c && pkgv[i].target == t);
        }
        assert forall|c: Seq<char>, t: Seq<char>| #[trigger] pair_to_remove(
            m@,
            profile,
            rc_dv,
            rt_dv,
            ec,
            et,
            c,
            t,
        ) implies removed_names.deep_view().contains(pair_name_spec(c, t)) by {
            assert(pairs_contain(remv, c, t));
            let i = choose|i: int|
                0 <= i < remv.len() && (#[trigger] remv[i]).component == c && remv[i].target == t;
            assert(removed_names.deep_view()[i] == pair_name_spec(c, t));
        }
        assert forall|i: int|
            #![trigger removed_names.deep_view()[i]]
            0 <= i < removed_names.deep_view().len() implies is_removed_pair_name(
            m@,
            profile,
            rc_dv,
            rt_dv,
            ec,
            et,
            removed_names.deep_view()[i],
        ) by {
            let pv = remv[i];
            assert(pairs_contain(remv, pv.component, pv.target));
            assert(pair_to_remove(m@, profile, rc_dv, rt_dv, ec, et, pv.component, pv.target));
            assert(removed_names.deep_view()[i] == pair_name_spec(pv.component, pv.target));
        }
        assert(removed_names_sound(m@, profile, rc_dv, rt_dv, ec, et, removed_names.deep_view()));
    }
    let stage = if packages.len() == 0 && removed_names.len() == 0 {
        OpStage::Done
    } else {
        OpStage::Fetching
    };
    let op = Operation {
        id: id.duplicate(),
        dir,
        components,
        targets: clone_strings(requested_targets),
        packages,
        removed_names,
        verified,
        fetch_states,
        stage,
    };
    Ok(op)
}

/// Law: an operation whose computed delta is empty — every declared pair is
/// already installed and nothing installed is undeclared — starts `Done`:
/// there is nothing to fetch and nothing will change.
pub proof fn lemma_empty_delta_completes_immediately(
    m: ManifestView,
    profile: Profile,
    rc: Seq<Seq<char>>,
    rt: Seq<Seq<char>>,
    s: SettingsView,
    id: ToolchainIdView,
    dir: Seq<char>,
    op: Operation,
)
    requires
        start_post_ok(m, profile, rc, rt, s, id, dir, op),
        forall|c: Seq<char>, t: Seq<char>|
            #[trigger] pair_desired(m, profile, rc, rt, c, t) <==> pair_existing(
                m,
                registry_components(s, id),
                registry_targets(s, id),
                c,
                t,
            ),
    ensures
        op.stage == OpStage::Done,
        op.packages@.len() == 0,
{
    let ec = registry_components(s, id);
    let et = registry_targets(s, id);
    if op.packages@.len() > 0 {
        let pv = op.packages.deep_view()[0];
        assert(package_pairs_contain(op.packages.deep_view(), pv.component, pv.target));
        assert(pair_to_add(m, profile, rc, rt, ec, et, pv.component, pv.target));
    }
    if op.removed_names@.len() > 0 {
        assert(is_removed_pair_name(m, profile, rc, rt, ec, et, op.removed_names.deep_view()[0]));
        let (c, t) = choose|c: Seq<char>, t: Seq<char>|
            #[trigger] pair_to_remove(m, profile, rc, rt, ec, et, c, t)
                && op.removed_names.deep_view()[0] == pair_name_spec(c, t);
        assert(pair_existing(m, ec, et, c, t) && !pair_desired(m, profile, rc, rt, c, t));
    }
}

/// Law: re-running a committed install is a no-op. When the registry already
/// holds, for `id`, exactly the declared component set and the requested
/// target set, a new operation for the same manifest, profile and requests
/// starts `Done`, with no package to fetch and the network untouched.
pub proof fn lemma_reinstall_is_no_op(
    m: ManifestView,
    profile: Profile,
    rc: Seq<Seq<char>>,
    rt: Seq<Seq<char>>,
    s: SettingsView,
    id: ToolchainIdView,
    dir: Seq<char>,
    op: Operation,
)
    requires
        m.wf(),
        start_post_ok(m, profile, rc, rt, s, id, dir, op),
        forall|c2: Seq<char>| #[trigger]
            registry_components(s, id).contains(c2) <==> component_desired(m, profile, rc, rt, c2),
        registry_targets(s, id) == rt,
    ensures
        op.stage == OpStage::Done,
        op.packages@.len() == 0,
{
    let ec = registry_components(s, id);
    assert forall|c: Seq<char>, t: Seq<char>| #[trigger] pair_desired(m, profile, rc, rt, c, t)
        <==> pair_existing(m, ec, rt, c, t) by {
        lemma_plan_idempotent(m, profile, rc, rt, ec, c, t);
    }
    lemma_empty_delta_completes_immediately(m, profile, rc, rt, s, id, dir, op);
}

/// Law: the registry entry a committed install records carries exactly the
/// declared component set of the manifest, profile and requests the
/// operation was started for, and exactly the requested target set.
pub proof fn lemma_committed_entry_matches_declared(
    m: ManifestView,
    profile: Profile,
    rc: Seq<Seq<char>>,
    rt: Seq<Seq<char>>,
    s: SettingsView,
    id: ToolchainIdView,
    dir: Seq<char>,
    op: Operation,
    entry: InstalledToolchainView,
)
    requires
        start_post_ok(m, profile, rc, rt, s, id, dir, op),
        entry.components == op.components.deep_view(),
        entry.targets == op.targets.deep_view(),
    ensures
        forall|c: Seq<char>| #[trigger]
            entry.components.contains(c) <==> component_desired(m, profile, rc, rt, c),
        entry.targets == rt,
{
}

/// The index of the manifest package for the pair (`c`, `t`).
fn find_package(m: &Manifest, c: &str, t: &str) -> (r: Option<usize>)
    ensures
        match r {
            Some(k) => 0 <= k < m@.packages.len() && m@.packages[k as int].component == c@
                && m@.packages[k as int].target == t@,
            None => !m@.offers(c@, t@),
        },
{
    let n = m.packages.len();
    for i in 0..n
        invariant
            n == m.packages.len(),
            forall|j: int|
                0 <= j < i ==> !((#[trigger] m@.packages[j]).component == c@
                    && m@.packages[j].target == t@),
    {
        if crate::strutil::str_eq(m.packages[i].component.as_str(), c) && crate::strutil::str_eq(
            m.packages[i].target.as_str(),
            t,
        ) {
            assert(m@.packages[i as int] == m.packages[i as int]@);
            return Some(i);
        }
        assert(m@.packages[i as int] == m.packages[i as int]@);
    }
    None
}

/// Records the outcome of one transport attempt for one package. Bytes are
/// marked verified exactly when their digest equals the package's declared
/// checksum; a fatal decision fails the whole operation before commit.
pub fn note_package_outcome(
    op: &mut Operation,
    policy: &RetryPolicy,
    index: usize,
    outcome: FetchOutcome,
) -> (d: FetchDecision)
    requires
        old(op).wf(),
        index < old(op).packages@.len(),
        old(op).stage == OpStage::Fetching,
    ensures
        final(op).wf(),
        final(op).id == old(op).id,
        final(op).dir == old(op).dir,
        final(op).components == old(op).components,
        final(op).targets == old(op).targets,
        final(op).packages == old(op).packages,
        final(op).removed_names == old(op).removed_names,
        d == FetchDecision::Accept <==> (outcome matches FetchOutcome::Delivered { digest }
            && digest == old(op).packages.deep_view()[index as int].checksum),
        ({
            let step = crate::fetch::fetch_step_spec(
                *policy,
                old(op).fetch_states@[index as int],
                old(op).packages.deep_view()[index as int].checksum,
                outcome,
            );
            d == step.1 && final(op).fetch_states@[index as int] == step.0
        }),
        forall|j: int|
            0 <= j < old(op).fetch_states@.len() && j != index ==> final(op).fetch_states@[j]
                == old(op).fetch_states@[j],
        final(op).verified@[index as int] == (old(op).verified@[index as int] || d
            == FetchDecision::Accept),
        forall|j: int|
            0 <= j < old(op).verified@.len() && j != index ==> final(op).verified@[j] == old(
                op,
            ).verified@[j],
        final(op).stage == (if d matches FetchDecision::Fail { .. } {
            OpStage::Failed
        } else {
            OpStage::Fetching
        }),
{
    let st = op.fetch_states[index];
    let (st2, d) = next_fetch_step(policy, &st, op.packages[index].checksum, outcome);
    op.fetch_states.set(index, st2);
    match d {
        FetchDecision::Accept => {
            op.verified.set(index, true);
        },
        FetchDecision::Fail { .. } => {
            op.stage = OpStage::Failed;
        },
        FetchDecision::Retry { .. } => (),
    }
    assert(op.packages.deep_view()[index as int].checksum == op.packages[index as int]@.checksum);
    d
}

/// Whether every package of the operation is fetched and verified.
pub fn all_verified(op: &Operation) -> (r: bool)
    ensures
        r == op.all_verified_spec(),
{
    let n = op.verified.len();
    for i in 0..n
        invariant
            n == op.verified@.len(),
            forall|j: int| 0 <= j < i ==> op.verified@[j],
    {
        if !op.verified[i] {
            return false;
        }
    }
    true
}

/// The files of the live directory named `name`, empty when none exists.
pub open spec fn live_dir_files(d: DiskView, name: Seq<char>) -> Seq<FileEntryView>
    decreases d.live.len(),
{
    if d.live.len() == 0 {
        Seq::empty()
    } else if d.live.last().dir == name {
        d.live.last().files
    } else {
        live_dir_files(DiskView { live: d.live.drop_last(), ..d }, name)
    }
}

/// Whether a staged file is accounted for: carried over from the toolchain's
/// previous live directory, or the verified content of one of the
/// operation's declared packages.
pub open spec fn staged_file_ok(
    old_disk: DiskView,
    dir: Seq<char>,
    packages: Seq<crate::manifest::PackageMetaView>,
    e: FileEntryView,
) -> bool {
    ||| live_dir_files(old_disk, dir).contains(e)
    ||| exists|i: int| 0 <= i < packages.len() && (#[trigger] packages[i]).checksum == e.checksum
}

/// The carried-over files: the previous tree minus the removed pair names.
pub open spec fn kept_files(fs: Seq<FileEntryView>, removed: Seq<Seq<char>>) -> Seq<FileEntryView>
    decreases fs.len(),
{
    if fs.len() == 0 {
        Seq::empty()
    } else {
        let rest = kept_files(fs.drop_last(), removed);
        if removed.contains(fs.last().rel_path) {
            rest
        } else {
            rest.push(fs.last())
        }
    }
}

/// One staged entry per package: its pair name, its declared checksum.
pub open spec fn package_entries(ps: Seq<PackageMetaView>) -> Seq<FileEntryView> {
    ps.map_values(
        |p: PackageMetaView|
            FileEntryView { rel_path: pair_name_spec(p.component, p.target), checksum: p.checksum },
    )
}

/// The exact file list an unpack stages: the previous live tree minus the
/// removed pairs, followed by one entry per fetched package.
pub open spec fn staged_files_spec(
    old_disk: DiskView,
    dir: Seq<char>,
    packages: Seq<PackageMetaView>,
    removed: Seq<Seq<char>>,
) -> Seq<FileEntryView> {
    kept_files(live_dir_files(old_disk, dir), removed) + package_entries(packages)
}

/// The destination path of an I/O action, relative to the staging directory.
pub open spec fn action_dest(a: IoAction) -> Seq<char> {
    match a {
        IoAction::HardLink { dest_path, .. } => dest_path@,
        IoAction::WriteFile { dest_path } => dest_path@,
    }
}

/// The disk just after a staging directory for `dir` is opened.
pub open spec fn staging_opened(d: DiskView, dir: Seq<char>) -> DiskView {
    DiskView { live: d.live, staging: Some(ToolchainDirView { dir: dir, files: Seq::empty() }) }
}

/// Stages the whole new toolchain tree and returns, in order, one I/O action
/// per staged file: every file of the previous live directory except the
/// removed pairs is carried over, then every fetched, verified package is
/// staged under its pair name with its declared checksum — exactly
/// `staged_files_spec`, nothing less and nothing more. Each action's
/// destination is its file's path, and it is a hard link exactly when the
/// content was already stored when that file was staged, a write otherwise.
/// Live directories — and so every concurrent reader — are untouched.
pub fn unpack_to_staging(op: &mut Operation, disk: &mut Disk) -> (actions: Vec<IoAction>)
    requires
        old(op).wf(),
        old(op).stage == OpStage::Fetching || old(op).stage == OpStage::Unpacking,
        old(op).all_verified_spec(),
        old(disk)@.staging is None,
    ensures
        final(op).wf(),
        final(op).id == old(op).id,
        final(op).dir == old(op).dir,
        final(op).components == old(op).components,
        final(op).targets == old(op).targets,
        final(op).stage == OpStage::Committing,
        final(disk)@.live == old(disk)@.live,
        ({
            let staged = staged_files_spec(
                old(disk)@,
                old(op).dir@,
                old(op).packages.deep_view(),
                old(op).removed_names.deep_view(),
            );
            let begun = staging_opened(old(disk)@, old(op).dir@);
            &&& final(disk)@.staging == Some(
                ToolchainDirView { dir: old(op).dir@, files: staged },
            )
            &&& actions@.len() == staged.len()
            &&& forall|k: int|
                0 <= k < actions@.len() ==> action_dest(#[trigger] actions@[k])
                    == staged[k].rel_path
            &&& forall|k: int|
                0 <= k < actions@.len() ==> ((#[trigger] actions@[k]) matches IoAction::HardLink {
                    ..
                } <==> stage_all_spec(begun, staged.take(k)).has_object(staged[k].checksum))
        }),
        final(disk)@.staging matches Some(s) && s.dir == old(op).dir@ && forall|k: int|
            0 <= k < s.files.len() ==> staged_file_ok(
                old(disk)@,
                old(op).dir@,
                old(op).packages.deep_view(),
                #[trigger] s.files[k],
            ),
{
    let ghost old_disk = disk@;
    let mut actions: Vec<IoAction> = Vec::new();
    let old_files = find_live_files(disk, op.dir.as_str());
    disk.begin_staging(op.dir.clone());
    let ghost begun = disk@;
    proof {
        assert(begun =~= staging_opened(old_disk, op.dir@));
    }
    let n0 = old_files.len();
    for i in 0..n0
        invariant
            n0 == old_files.len(),
            old_files.deep_view() == live_dir_files(old_disk, op.dir@),
            begun == staging_opened(old_disk, op.dir@),
            disk@.live == old_disk.live,
            disk@.staging matches Some(s) && s.dir == op.dir@ && s.files == kept_files(
                old_files.deep_view().take(i as int),
                op.removed_names.deep_view(),
            ),
            disk@ == stage_all_spec(begun, disk@.staging.unwrap().files),
            actions@.len() == disk@.staging.unwrap().files.len(),
            forall|k: int|
                0 <= k < actions@.len() ==> action_dest(#[trigger] actions@[k])
                    == disk@.staging.unwrap().files[k].rel_path,
            forall|k: int|
                0 <= k < actions@.len() ==> ((#[trigger] actions@[k]) matches IoAction::HardLink {
                    ..
                } <==> stage_all_spec(begun, disk@.staging.unwrap().files.take(k)).has_object(
                    disk@.staging.unwrap().files[k].checksum,
                )),
            forall|k: int|
                0 <= k < disk@.staging.unwrap().files.len() ==> staged_file_ok(
                    old_disk,
                    op.dir@,
                    op.packages.deep_view(),
                    #[trigger] disk@.staging.unwrap().files[k],
                ),
    {
        let ghost s_prev = disk@.staging.unwrap().files;
        proof {
            assert(old_files.deep_view().take(i + 1).drop_last() =~= old_files.deep_view().take(
                i as int,
            ));
            assert(old_files.deep_view().take(i + 1).last() == old_files.deep_view()[i as int]);
            assert(old_files.deep_view()[i as int] == old_files[i as int]@);
        }
        if !name_in(&op.removed_names, old_files[i].rel_path.as_str()) {
            let e = FileEntry {
                rel_path: old_files[i].rel_path.clone(),
                checksum: old_files[i].checksum,
            };
            assert(e@ =~= old_files.deep_view()[i as int]);
            assert(live_dir_files(old_disk, op.dir@).contains(e@));
            let ghost pre = disk@;
            let a = disk.stage_file(e);
            let ghost av = a;
            let ghost prev_actions = actions@;
            actions.push(a);
            proof {
                let s_now = disk@.staging.unwrap().files;
                assert(s_now == s_prev.push(e@));
                assert(s_now.drop_last() =~= s_prev);
                assert(stage_all_spec(begun, s_now) == stage_file_spec(
                    stage_all_spec(begun, s_prev),
                    e@,
                ));
                assert forall|k: int| 0 <= k < actions@.len() implies (action_dest(
                    #[trigger] actions@[k],
                ) == s_now[k].rel_path && ((actions@[k] matches IoAction::HardLink { .. })
                    <==> stage_all_spec(begun, s_now.take(k)).has_object(s_now[k].checksum))
                    && staged_file_ok(old_disk, op.dir@, op.packages.deep_view(), s_now[k])) by {
                    if k < prev_actions.len() {
                        assert(actions@[k] == prev_actions[k]);
                        assert(s_now.take(k) =~= s_prev.take(k));
                        assert(s_now[k] == s_prev[k]);
                    } else {
                        assert(actions@[k] == av);
                        assert(s_now.take(k) =~= s_prev);
                        assert(s_now[k] == e@);
                    }
                }
            }
        }
    }
    proof {
        assert(old_files.deep_view().take(n0 as int) =~= old_files.deep_view());
    }
    let ghost kept_full = kept_files(
        live_dir_files(old_disk, op.dir@),
        op.removed_names.deep_view(),
    );
    proof {
        assert(op.packages.deep_view().take(0) =~= Seq::<PackageMetaView>::empty());
        assert(package_entries(op.packages.deep_view().take(0)) =~= Seq::<FileEntryView>::empty());
        assert(disk@.staging.unwrap().files =~= kept_full + package_entries(
            op.packages.deep_view().take(0),
        ));
    }
    let np = op.packages.len();
    for i in 0..np
        invariant
            np == op.packages@.len(),
            kept_full == kept_files(live_dir_files(old_disk, op.dir@), op.removed_names.deep_view()),
            begun == staging_opened(old_disk, op.dir@),
            disk@.live == old_disk.live,
            disk@.staging matches Some(s) && s.dir == op.dir@ && s.files == kept_full
                + package_entries(op.packages.deep_view().take(i as int)),
            disk@ == stage_all_spec(begun, disk@.staging.unwrap().files),
            actions@.len() == disk@.staging.unwrap().files.len(),
            forall|k: int|
                0 <= k < actions@.len() ==> action_dest(#[trigger] actions@[k])
                    == disk@.staging.unwrap().files[k].rel_path,
            forall|k: int|
                0 <= k < actions@.len() ==> ((#[trigger] actions@[k]) matches IoAction::HardLink {
                    ..
                } <==> stage_all_spec(begun, disk@.staging.unwrap().files.take(k)).has_object(
                    disk@.staging.unwrap().files[k].checksum,
                )),
            forall|k: int|
                0 <= k < disk@.staging.unwrap().files.len() ==> staged_file_ok(
                    old_disk,
                    op.dir@,
                    op.packages.deep_view(),
                    #[trigger] disk@.staging.unwrap().files[k],
                ),
    {
        let ghost s_prev = disk@.staging.unwrap().files;
        let ghost ppv = op.packages.deep_view();
        let name = pair_name(op.packages[i].component.as_str(), op.packages[i].target.as_str());
        let e = FileEntry { rel_path: name, checksum: op.packages[i].checksum };
        proof {
            assert(ppv[i as int] == op.packages[i as int]@);
            assert(e@ =~= FileEntryView {
                rel_path: pair_name_spec(ppv[i as int].component, ppv[i as int].target),
                checksum: ppv[i as int].checksum,
            });
            assert(ppv.take(i + 1) =~= ppv.take(i as int).push(ppv[i as int]));
            assert(package_entries(ppv.take(i + 1)) =~= package_entries(ppv.take(i as int)).push(
                e@,
            ));
        }
        let ghost pre = disk@;
        let a = disk.stage_file(e);
        let ghost av = a;
        let ghost prev_actions = actions@;
        actions.push(a);
        proof {
            let s_now = disk@.staging.unwrap().files;
            assert(s_now == s_prev.push(e@));
            assert(s_now =~= kept_full + package_entries(ppv.take(i + 1)));
            assert(s_now.drop_last() =~= s_prev);
            assert(stage_all_spec(begun, s_now) == stage_file_spec(
                stage_all_spec(begun, s_prev),
                e@,
            ));
            assert forall|k: int| 0 <= k < actions@.len() implies (action_dest(
                #[trigger] actions@[k],
            ) == s_now[k].rel_path && ((actions@[k] matches IoAction::HardLink { .. })
                <==> stage_all_spec(begun, s_now.take(k)).has_object(s_now[k].checksum))
                && staged_file_ok(old_disk, op.dir@, op.packages.deep_view(), s_now[k])) by {
                if k < prev_actions.len() {
                    assert(actions@[k] == prev_actions[k]);
                    assert(s_now.take(k) =~= s_prev.take(k));
                    assert(s_now[k] == s_prev[k]);
                } else {
                    assert(actions@[k] == av);
                    assert(s_now.take(k) =~= s_prev);
                    assert(s_now[k] == e@);
                    assert(exists|j: int|
                        0 <= j < ppv.len() && (#[trigger] ppv[j]).checksum == e@.checksum);
                }
            }
        }
    }
    proof {
        assert(op.packages.deep_view().take(np as int) =~= op.packages.deep_view());
        assert(disk@.staging.unwrap().files =~= staged_files_spec(
            old_disk,
            op.dir@,
            op.packages.deep_view(),
            op.removed_names.deep_view(),
        ));
        assert(disk@.staging == Some(
            ToolchainDirView {
                dir: op.dir@,
                files: staged_files_spec(
                    old_disk,
                    op.dir@,
                    op.packages.deep_view(),
                    op.removed_names.deep_view(),
                ),
            },
        ));
    }
    op.stage = OpStage::Committing;
    actions
}

/// Whether `name` occurs in the list.
fn name_in(v: &Vec<String>, name: &str) -> (r: bool)
    ensures
        r == v.deep_view().contains(name@),
{
    crate::strutil::contains_str(v, name)
}

/// An equal copy of the files of the live directory named `name`.
fn find_live_files(disk: &Disk, name: &str) -> (r: Vec<FileEntry>)
    ensures
        r.deep_view() == live_dir_files(disk@, name@),
{
    let n = disk.live.len();
    let mut found: Option<usize> = None;
    for i in 0..n
        invariant
            n == disk.live.len(),
            match found {
                Some(k) => k < i && live_dir_files(
                    DiskView { live: disk@.live.take(i as int), ..disk@ },
                    name@,
                ) == disk@.live[k as int].files,
                None => live_dir_files(
                    DiskView { live: disk@.live.take(i as int), ..disk@ },
                    name@,
                ) == Seq::<FileEntryView>::empty(),
            },
    {
        if crate::strutil::str_eq(disk.live[i].dir.as_str(), name) {
            found = Some(i);
        }
        assert(disk@.live.take(i + 1).drop_last() =~= disk@.live.take(i as int));
        assert(disk@.live.take(i + 1).last() == disk@.live[i as int]);
    }
    assert(disk@.live.take(n as int) =~= disk@.live);
    match found {
        Some(k) => {
            let r = crate::diskio::clone_file_list(&disk.live[k].files);
            r
        },
        None => {
            let r: Vec<FileEntry> = Vec::new();
            assert(r.deep_view() =~= Seq::<FileEntryView>::empty());
            r
        },
    }
}

/// Publishes the staged toolchain and records it durably: the staging
/// directory atomically replaces the live one, the registry entry is
/// replaced with the declared component and target sets, and the toolchain
/// becomes the default when none was set. This is the only step of an
/// operation that changes the settings value or a live directory.
pub fn commit_install(op: &mut Operation, disk: &mut Disk, settings: &mut Settings, now: u64)
    requires
        old(op).stage == OpStage::Committing,
        old(disk)@.staging is Some,
    ensures
        final(op).stage == OpStage::Done,
        final(disk)@ == commit_spec(old(disk)@),
        final(settings)@.installed == installed_remove(old(settings)@.installed, old(op).id@).push(
            InstalledToolchainView {
                id: old(op).id@,
                dir: old(op).dir@,
                components: old(op).components.deep_view(),
                targets: old(op).targets.deep_view(),
                install_time: now,
            },
        ),
        final(settings)@.default_toolchain == (if old(settings)@.default_toolchain is None {
            Some(old(op).id@)
        } else {
            old(settings)@.default_toolchain
        }),
        final(settings)@.overrides == old(settings)@.overrides,
        final(settings)@.schema_version == old(settings)@.schema_version,
        old(settings)@.wf() ==> final(settings)@.wf(),
{
    disk.commit_staging();
    let entry = InstalledToolchain {
        id: op.id.duplicate(),
        dir: op.dir.clone(),
        components: clone_strings(&op.components),
        targets: clone_strings(&op.targets),
        install_time: now,
    };
    settings.upsert_installed(entry);
    let need_default = match settings.default_toolchain() {
        Some(_) => false,
        None => true,
    };
    if need_default {
        settings.set_default(op.id.duplicate());
    }
    op.stage = OpStage::Done;
}

/// Cancels an operation between stages, before commit: the staging area is
/// abandoned and every live directory — and the settings value, which this
/// function does not even take — is left exactly as it was.
pub fn cancel_install(op: &mut Operation, disk: &mut Disk)
    requires
        old(op).stage != OpStage::Done,
    ensures
        final(op).stage == OpStage::Failed,
        final(disk)@.live == old(disk)@.live,
        final(disk)@.staging is None,
{
    disk.abort_staging();
    op.stage = OpStage::Failed;
}

/// Removes a toolchain: the registry entry goes first (so the toolchain
/// stops being dispatch-resolvable), then its directory; a failure after the
/// first step leaves only an orphaned, unreferenced directory.
pub fn remove_toolchain(settings: &mut Settings, disk: &mut Disk, id: &ToolchainId) -> (removed:
    bool)
    requires
        old(settings)@.wf(),
    ensures
        final(settings)@.installed == installed_remove(old(settings)@.installed, id@),
        final(settings)@.default_toolchain == old(settings)@.default_toolchain,
        final(settings)@.overrides == old(settings)@.overrides,
        final(settings)@.schema_version == old(settings)@.schema_version,
        removed <==> exists|i: int|
            0 <= i < old(settings)@.installed.len() && (#[trigger] old(
                settings,
            )@.installed[i]).id == id@,
        final(settings)@.wf(),
        removed ==> final(disk)@.live == crate::diskio::dir_remove(
            old(disk)@.live,
            registry_dir(old(settings)@, id@),
        ) && final(disk)@.staging == old(disk)@.staging,
        !removed ==> final(disk)@ == old(disk)@,
{
    let dir = match settings.find_installed(id) {
        Some(tc) => {
            proof {
                let j = choose|j: int|
                    0 <= j < settings@.installed.len() && settings@.installed[j] == tc@;
                assert((#[trigger] settings@.installed[j]).id == id@);
                let i0 = choose|i: int|
                    0 <= i < settings@.installed.len() && (#[trigger] settings@.installed[i]).id
                        == id@;
                assert(settings@.installed.contains(settings@.installed[i0]));
                lemma_installed_unique(settings@, tc@, settings@.installed[i0]);
                assert(registry_dir(settings@, id@) == tc@.dir);
            }
            Some(tc.dir.clone())
        },
        None => None,
    };
    let removed = settings.remove_installed(id);
    match dir {
        Some(d) => {
            disk.remove_live_dir(d.as_str());
        },
        None => (),
    }
    removed
}

/// Law: what ends up under a committed toolchain directory is exactly what
/// was staged, and (with `unpack_to_staging`'s guarantee) every staged file
/// is either carried over from the previously installed tree or carries the
/// declared checksum of a verified package — so a package whose checksum
/// mismatched, which is never verified, never contributes a file to the
/// committed directory.
pub proof fn lemma_commit_publishes_staging(d: DiskView)
    requires
        d.staging is Some,
    ensures
        commit_spec(d).live.len() > 0,
        commit_spec(d).live.last() == d.staging.unwrap(),
        commit_spec(d).staging is None,
{
}

} // verus!
