//! Manifest interpretation: turning one channel's manifest, an installation
//! profile and explicit requests into the concrete (component, target) delta
//! needed to reach the declared package set.

use vstd::prelude::*;
use crate::strutil::{str_eq, contains_str};
use vstd::string::StringExecFns;

verus! {

broadcast use vstd::seq_lib::lemma_seq_contains_after_push;

/// One downloadable unit: a component built for a target, with the location
/// and integrity data needed to fetch it.
pub struct PackageMeta {
    pub component: String,
    pub target: String,
    pub url: String,
    pub checksum: u64,
    pub len: u64,
}

pub struct PackageMetaView {
    pub component: Seq<char>,
    pub target: Seq<char>,
    pub url: Seq<char>,
    pub checksum: u64,
    pub len: u64,
}

impl View for PackageMeta {
    type V = PackageMetaView;

    open spec fn view(&self) -> PackageMetaView {
        PackageMetaView {
            component: self.component@,
            target: self.target@,
            url: self.url@,
            checksum: self.checksum,
            len: self.len,
        }
    }
}

impl DeepView for PackageMeta {
    type V = PackageMetaView;

    open spec fn deep_view(&self) -> PackageMetaView {
        self.view()
    }
}

/// A component known in this manifest under a new name: an existing install
/// recorded under `from` satisfies a request for `to`.
pub struct Rename {
    pub from: String,
    pub to: String,
}

pub struct RenameView {
    pub from: Seq<char>,
    pub to: Seq<char>,
}

impl View for Rename {
    type V = RenameView;

    open spec fn view(&self) -> RenameView {
        RenameView { from: self.from@, to: self.to@ }
    }
}

impl DeepView for Rename {
    type V = RenameView;

    open spec fn deep_view(&self) -> RenameView {
        self.view()
    }
}

/// One channel's available packages plus component rename metadata.
pub struct Manifest {
    pub packages: Vec<PackageMeta>,
    pub renames: Vec<Rename>,
}

pub struct ManifestView {
    pub packages: Seq<PackageMetaView>,
    pub renames: Seq<RenameView>,
}

impl View for Manifest {
    type V = ManifestView;

    open spec fn view(&self) -> ManifestView {
        ManifestView { packages: self.packages.deep_view(), renames: self.renames.deep_view() }
    }
}

/// The current name of component `c`: the first rename entry whose source is
/// `c`, else `c` itself.
pub open spec fn rename_lookup(rs: Seq<RenameView>, c: Seq<char>) -> Seq<char>
    decreases rs.len(),
{
    if rs.len() == 0 {
        c
    } else if rs[0].from == c {
        rs[0].to
    } else {
        rename_lookup(rs.drop_first(), c)
    }
}

impl ManifestView {
    /// Whether the manifest offers a package of component `c` for target `t`.
    pub open spec fn offers(self, c: Seq<char>, t: Seq<char>) -> bool {
        exists|i: int|
            0 <= i < self.packages.len() && (#[trigger] self.packages[i]).component == c
                && self.packages[i].target == t
    }

    /// Whether the manifest offers any package for target `t`.
    pub open spec fn offers_target(self, t: Seq<char>) -> bool {
        exists|i: int| 0 <= i < self.packages.len() && (#[trigger] self.packages[i]).target == t
    }

    /// Whether any package is of component `c`.
    pub open spec fn has_component(self, c: Seq<char>) -> bool {
        exists|i: int| 0 <= i < self.packages.len() && (#[trigger] self.packages[i]).component == c
    }

    /// The current name of component `c` under this manifest's alias table.
    pub open spec fn normalize(self, c: Seq<char>) -> Seq<char> {
        rename_lookup(self.renames, c)
    }

    /// Well-formedness of the alias table: a rename's target is a current
    /// name (never itself a rename source), and packages are always listed
    /// under current names.
    pub open spec fn wf(self) -> bool {
        &&& forall|i: int, j: int|
            0 <= i < self.renames.len() && 0 <= j < self.renames.len() ==> (
            #[trigger] self.renames[i]).to != (#[trigger] self.renames[j]).from
        &&& forall|i: int, j: int|
            0 <= i < self.packages.len() && 0 <= j < self.renames.len() ==> (
            #[trigger] self.packages[i]).component != (#[trigger] self.renames[j]).from
    }
}

/// Whether the alias table is well formed. Planning requires this, so a
/// fetched manifest failing the check is rejected as malformed before any
/// plan is computed.
pub fn manifest_wf(m: &Manifest) -> (r: bool)
    ensures
        r == m@.wf(),
{
    let nr = m.renames.len();
    let np = m.packages.len();
    for i in 0..nr
        invariant
            nr == m.renames.len(),
            np == m.packages.len(),
            forall|a: int, b: int|
                0 <= a < i && 0 <= b < nr ==> (#[trigger] m@.renames[a]).to != (
                #[trigger] m@.renames[b]).from,
    {
        for j in 0..nr
            invariant
                nr == m.renames.len(),
                np == m.packages.len(),
                i < nr,
                forall|a: int, b: int|
                    0 <= a < i && 0 <= b < nr ==> (#[trigger] m@.renames[a]).to != (
                    #[trigger] m@.renames[b]).from,
                forall|b: int|
                    0 <= b < j ==> m@.renames[i as int].to != (#[trigger] m@.renames[b]).from,
        {
            if str_eq(m.renames[i].to.as_str(), m.renames[j].from.as_str()) {
                assert(m@.renames[i as int] == m.renames[i as int]@);
                assert(m@.renames[j as int] == m.renames[j as int]@);
                return false;
            }
            assert(m@.renames[i as int] == m.renames[i as int]@);
            assert(m@.renames[j as int] == m.renames[j as int]@);
        }
    }
    for i in 0..np
        invariant
            nr == m.renames.len(),
            np == m.packages.len(),
            forall|a: int, b: int|
                0 <= a < nr && 0 <= b < nr ==> (#[trigger] m@.renames[a]).to != (
                #[trigger] m@.renames[b]).from,
            forall|a: int, b: int|
                0 <= a < i && 0 <= b < nr ==> (#[trigger] m@.packages[a]).component != (
                #[trigger] m@.renames[b]).from,
    {
        for j in 0..nr
            invariant
                nr == m.renames.len(),
                np == m.packages.len(),
                i < np,
                forall|a: int, b: int|
                    0 <= a < nr && 0 <= b < nr ==> (#[trigger] m@.renames[a]).to != (
                    #[trigger] m@.renames[b]).from,
                forall|a: int, b: int|
                    0 <= a < i && 0 <= b < nr ==> (#[trigger] m@.packages[a]).component != (
                    #[trigger] m@.renames[b]).from,
                forall|b: int|
                    0 <= b < j ==> m@.packages[i as int].component != (#[trigger] m@.renames[b]).from,
        {
            if str_eq(m.packages[i].component.as_str(), m.renames[j].from.as_str()) {
                assert(m@.packages[i as int] == m.packages[i as int]@);
                assert(m@.renames[j as int] == m.renames[j as int]@);
                return false;
            }
            assert(m@.packages[i as int] == m.packages[i as int]@);
            assert(m@.renames[j as int] == m.renames[j as int]@);
        }
    }
    true
}

/// A name that is no rename source keeps its name.
pub proof fn lemma_rename_lookup_stable(rs: Seq<RenameView>, c: Seq<char>)
    requires
        forall|j: int| 0 <= j < rs.len() ==> (#[trigger] rs[j]).from != c,
    ensures
        rename_lookup(rs, c) == c,
    decreases rs.len(),
{
    if rs.len() > 0 {
        assert(rs[0].from != c);
        assert(forall|j: int| 0 <= j < rs.drop_first().len() ==> (#[trigger] rs.drop_first()[j])
            == rs[j + 1]);
        lemma_rename_lookup_stable(rs.drop_first(), c);
    }
}

/// `rename_lookup` returns the first matching entry's target.
proof fn lemma_rename_lookup_first(rs: Seq<RenameView>, c: Seq<char>, i: int)
    requires
        0 <= i < rs.len(),
        rs[i].from == c,
        forall|j: int| 0 <= j < i ==> (#[trigger] rs[j]).from != c,
    ensures
        rename_lookup(rs, c) == rs[i].to,
    decreases rs.len(),
{
    if i > 0 {
        assert(forall|j: int| 0 <= j < rs.drop_first().len() ==> (#[trigger] rs.drop_first()[j])
            == rs[j + 1]);
        lemma_rename_lookup_first(rs.drop_first(), c, i - 1);
    }
}

/// The current name of component `c` under the manifest's alias table.
pub fn normalize_component(m: &Manifest, c: &str) -> (r: String)
    ensures
        r@ == m@.normalize(c@),
{
    let n = m.renames.len();
    for i in 0..n
        invariant
            n == m.renames.len(),
            forall|j: int| 0 <= j < i ==> (#[trigger] m@.renames[j]).from != c@,
    {
        if str_eq(m.renames[i].from.as_str(), c) {
            proof {
                lemma_rename_lookup_first(m@.renames, c@, i as int);
            }
            return m.renames[i].to.clone();
        }
    }
    proof {
        lemma_rename_lookup_stable(m@.renames, c@);
    }
    String::from_str(c)
}

/// Whether the manifest offers component `c` for target `t`.
pub fn offers(m: &Manifest, c: &str, t: &str) -> (r: bool)
    ensures
        r == m@.offers(c@, t@),
{
    let n = m.packages.len();
    for i in 0..n
        invariant
            n == m.packages.len(),
            forall|j: int|
                0 <= j < i ==> !((#[trigger] m@.packages[j]).component == c@
                    && m@.packages[j].target == t@),
    {
        if str_eq(m.packages[i].component.as_str(), c) && str_eq(m.packages[i].target.as_str(), t) {
            assert(m@.packages[i as int] == m.packages[i as int]@);
            return true;
        }
    }
    false
}

/// Whether the manifest offers any package for target `t`.
pub fn offers_target(m: &Manifest, t: &str) -> (r: bool)
    ensures
        r == m@.offers_target(t@),
{
    let n = m.packages.len();
    for i in 0..n
        invariant
            n == m.packages.len(),
            forall|j: int| 0 <= j < i ==> (#[trigger] m@.packages[j]).target != t@,
    {
        if str_eq(m.packages[i].target.as_str(), t) {
            assert(m@.packages[i as int] == m.packages[i as int]@);
            return true;
        }
    }
    false
}

/// Whether the manifest offers component `c` for every target in `ts`.
pub fn offers_for_all_targets(m: &Manifest, c: &str, ts: &Vec<String>) -> (r: bool)
    ensures
        r == forall|j: int| 0 <= j < ts.deep_view().len() ==> m@.offers(c@, ts.deep_view()[j]),
{
    let n = ts.len();
    for i in 0..n
        invariant
            n == ts.len(),
            forall|j: int| 0 <= j < i ==> m@.offers(c@, ts.deep_view()[j]),
    {
        if !offers(m, c, ts[i].as_str()) {
            assert(ts.deep_view()[i as int] == ts[i as int]@);
            return false;
        }
    }
    true
}

/// A named preset selecting the base component set of a fresh install.
#[derive(Clone, Copy, PartialEq, Eq, Structural, Debug)]
pub enum Profile {
    /// Just enough to build: compiler, build tool, standard library.
    Minimal,
    /// The minimal set plus the everyday developer tools.
    Default,
    /// Every component the manifest offers for the requested targets.
    Complete,
}

/// The fixed base component list of a profile. `Complete` additionally takes
/// every component the manifest offers (see `component_selected`).
pub open spec fn profile_base_spec(p: Profile) -> Seq<Seq<char>> {
    match p {
        Profile::Minimal => seq!["compiler"@, "build-tool"@, "std-lib"@],
        Profile::Default => seq![
            "compiler"@,
            "build-tool"@,
            "std-lib"@,
            "formatter"@,
            "linter"@,
            "docs"@,
        ],
        Profile::Complete => seq![
            "compiler"@,
            "build-tool"@,
            "std-lib"@,
            "formatter"@,
            "linter"@,
            "docs"@,
        ],
    }
}

/// The base component names of a profile.
pub fn profile_base(p: Profile) -> (r: Vec<String>)
    ensures
        r.deep_view() == profile_base_spec(p),
{
    let mut v: Vec<String> = Vec::new();
    v.push(String::from_str("compiler"));
    v.push(String::from_str("build-tool"));
    v.push(String::from_str("std-lib"));
    match p {
        Profile::Minimal => (),
        _ => {
            v.push(String::from_str("formatter"));
            v.push(String::from_str("linter"));
            v.push(String::from_str("docs"));
        },
    }
    assert(v.deep_view() =~= profile_base_spec(p));
    v
}

/// Whether component `c` is selected by the profile and the explicit
/// requests, before availability filtering: in the profile's base list,
/// the current name of a requested component, or (for `Complete`) any
/// component the manifest offers.
pub open spec fn component_selected(
    m: ManifestView,
    profile: Profile,
    req: Seq<Seq<char>>,
    c: Seq<char>,
) -> bool {
    ||| profile_base_spec(profile).contains(c)
    ||| exists|i: int| 0 <= i < req.len() && m.normalize(#[trigger] req[i]) == c
    ||| (profile matches Profile::Complete && m.has_component(c))
}

/// Whether component `c` belongs to the declared set for this manifest,
/// profile and request: selected, and offered for every requested target.
/// With no requested target nothing is declared.
pub open spec fn component_desired(
    m: ManifestView,
    profile: Profile,
    req: Seq<Seq<char>>,
    targets: Seq<Seq<char>>,
    c: Seq<char>,
) -> bool {
    &&& targets.len() > 0
    &&& component_selected(m, profile, req, c)
    &&& forall|j: int| 0 <= j < targets.len() ==> m.offers(c, #[trigger] targets[j])
}

/// Whether the pair (`c`, `t`) belongs to the declared set.
pub open spec fn pair_desired(
    m: ManifestView,
    profile: Profile,
    req: Seq<Seq<char>>,
    targets: Seq<Seq<char>>,
    c: Seq<char>,
    t: Seq<char>,
) -> bool {
    component_desired(m, profile, req, targets, c) && targets.contains(t)
}

/// Whether the existing install carries component `c` (under any of its
/// recorded, possibly outdated, names).
pub open spec fn existing_has_component(m: ManifestView, existing: Seq<Seq<char>>, c: Seq<char>) -> bool {
    exists|i: int| 0 <= i < existing.len() && m.normalize(#[trigger] existing[i]) == c
}

/// Whether the pair (`c`, `t`) is already installed, with components and
/// targets recorded as separate sets.
pub open spec fn pair_existing(
    m: ManifestView,
    existing_components: Seq<Seq<char>>,
    existing_targets: Seq<Seq<char>>,
    c: Seq<char>,
    t: Seq<char>,
) -> bool {
    existing_has_component(m, existing_components, c) && existing_targets.contains(t)
}

/// One (component, target) pair of an install plan.
pub struct PlanPair {
    pub component: String,
    pub target: String,
}

pub struct PlanPairView {
    pub component: Seq<char>,
    pub target: Seq<char>,
}

impl View for PlanPair {
    type V = PlanPairView;

    open spec fn view(&self) -> PlanPairView {
        PlanPairView { component: self.component@, target: self.target@ }
    }
}

impl DeepView for PlanPair {
    type V = PlanPairView;

    open spec fn deep_view(&self) -> PlanPairView {
        self.view()
    }
}

/// The delta needed to reach the declared set: pairs to add and to remove.
pub struct InstallPlan {
    pub to_add: Vec<PlanPair>,
    pub to_remove: Vec<PlanPair>,
}

/// Whether a pair list contains the pair (`c`, `t`).
pub open spec fn pairs_contain(ps: Seq<PlanPairView>, c: Seq<char>, t: Seq<char>) -> bool {
    exists|i: int|
        0 <= i < ps.len() && (#[trigger] ps[i]).component == c && ps[i].target == t
}

/// A failure to plan: a requested component or target the manifest does not
/// offer, never silently dropped.
#[derive(Debug)]
pub enum PlanError {
    Unavailable { name: String },
}

pub enum PlanErrorView {
    Unavailable { name: Seq<char> },
}

impl View for PlanError {
    type V = PlanErrorView;

    open spec fn view(&self) -> PlanErrorView {
        match self {
            PlanError::Unavailable { name } => PlanErrorView::Unavailable { name: name@ },
        }
    }
}

/// Whether every explicit request can be satisfied: each requested target is
/// offered at all, and each requested component (under its current name) is
/// offered for every requested target.
pub open spec fn all_requests_available(
    m: ManifestView,
    req: Seq<Seq<char>>,
    targets: Seq<Seq<char>>,
) -> bool {
    &&& forall|i: int| 0 <= i < targets.len() ==> m.offers_target(#[trigger] targets[i])
    &&& forall|i: int|
        0 <= i < req.len() ==> forall|j: int|
            0 <= j < targets.len() ==> m.offers(m.normalize(#[trigger] req[i]), #[trigger] targets[j])
}

/// What `plan` returns: on success, a plan whose add set is exactly the
/// declared set minus what is installed and whose remove set is exactly what
/// is installed minus the declared set; on failure, the name of a request
/// the manifest does not offer.
pub open spec fn plan_ok_post(
    m: ManifestView,
    profile: Profile,
    existing_components: Seq<Seq<char>>,
    existing_targets: Seq<Seq<char>>,
    req: Seq<Seq<char>>,
    targets: Seq<Seq<char>>,
    to_add: Seq<PlanPairView>,
    to_remove: Seq<PlanPairView>,
) -> bool {
    &&& all_requests_available(m, req, targets)
    &&& forall|c: Seq<char>, t: Seq<char>|
        #[trigger] pairs_contain(to_add, c, t) <==> (pair_desired(m, profile, req, targets, c, t)
            && !pair_existing(m, existing_components, existing_targets, c, t))
    &&& forall|c: Seq<char>, t: Seq<char>|
        #[trigger] pairs_contain(to_remove, c, t) <==> (pair_existing(
            m,
            existing_components,
            existing_targets,
            c,
            t,
        ) && !pair_desired(m, profile, req, targets, c, t))
}

pub open spec fn plan_err_post(
    m: ManifestView,
    req: Seq<Seq<char>>,
    targets: Seq<Seq<char>>,
    name: Seq<char>,
) -> bool {
    &&& !all_requests_available(m, req, targets)
    &&& {
        ||| (targets.contains(name) && !m.offers_target(name))
        ||| exists|i: int|
            0 <= i < req.len() && #[trigger] req[i] == name && exists|j: int|
                0 <= j < targets.len() && !m.offers(m.normalize(name), #[trigger] targets[j])
    }
}

pub open spec fn plan_post(
    m: ManifestView,
    profile: Profile,
    existing_components: Seq<Seq<char>>,
    existing_targets: Seq<Seq<char>>,
    req: Seq<Seq<char>>,
    targets: Seq<Seq<char>>,
    r: Result<(Seq<PlanPairView>, Seq<PlanPairView>), PlanErrorView>,
) -> bool {
    match r {
        Result::Ok((to_add, to_remove)) => plan_ok_post(
            m,
            profile,
            existing_components,
            existing_targets,
            req,
            targets,
            to_add,
            to_remove,
        ),
        Result::Err(PlanErrorView::Unavailable { name }) => plan_err_post(m, req, targets, name),
    }
}

/// Whether the existing install carries component `c` under any recorded name.
pub fn existing_has(m: &Manifest, existing: &Vec<String>, c: &str) -> (r: bool)
    ensures
        r == existing_has_component(m@, existing.deep_view(), c@),
{
    let n = existing.len();
    for i in 0..n
        invariant
            n == existing.len(),
            forall|j: int| 0 <= j < i ==> m@.normalize(#[trigger] existing.deep_view()[j]) != c@,
    {
        let nc = normalize_component(m, existing[i].as_str());
        if str_eq(nc.as_str(), c) {
            assert(existing.deep_view()[i as int] == existing[i as int]@);
            return true;
        }
        assert(existing.deep_view()[i as int] == existing[i as int]@);
    }
    false
}

/// Whether `list` enumerates exactly the declared component set.
pub open spec fn enumerates_desired(
    m: ManifestView,
    profile: Profile,
    req: Seq<Seq<char>>,
    targets: Seq<Seq<char>>,
    list: Seq<Seq<char>>,
) -> bool {
    forall|c: Seq<char>| #[trigger]
        list.contains(c) <==> component_desired(m, profile, req, targets, c)
}

/// The declared component set for this manifest, profile and request, each
/// name listed once.
pub fn desired_components_vec(
    m: &Manifest,
    profile: Profile,
    requested: &Vec<String>,
    req_t: &Vec<String>,
) -> (r: Vec<String>)
    ensures
        enumerates_desired(m@, profile, requested.deep_view(), req_t.deep_view(), r.deep_view()),
{
    let mut out: Vec<String> = Vec::new();
    if req_t.len() == 0 {
        assert(forall|c: Seq<char>| !out.deep_view().contains(c));
        assert(req_t.deep_view().len() == 0);
        return out;
    }
    assert(req_t.deep_view().len() > 0);
    let mut cands: Vec<String> = profile_base(profile);
    let nr = requested.len();
    for i in 0..nr
        invariant
            nr == requested.len(),
            forall|c: Seq<char>| #[trigger]
                cands.deep_view().contains(c) <==> (profile_base_spec(profile).contains(c)
                    || exists|j: int|
                    0 <= j < i && m@.normalize(#[trigger] requested.deep_view()[j]) == c),
    {
        let nc = normalize_component(m, requested[i].as_str());
        let ghost prev = cands.deep_view();
        let ghost ncv = nc@;
        cands.push(nc);
        proof {
            assert(cands.deep_view() =~= prev.push(ncv));
            assert(requested.deep_view()[i as int] == requested[i as int]@);
            assert forall|c: Seq<char>| #[trigger] cands.deep_view().contains(c) implies (
                profile_base_spec(profile).contains(c) || exists|j: int|
                    0 <= j < i + 1 && m@.normalize(#[trigger] requested.deep_view()[j]) == c) by {
                assert(prev.push(ncv).contains(c) <==> prev.contains(c) || c == ncv);
            }
            assert forall|c: Seq<char>| (profile_base_spec(profile).contains(c) || exists|j: int|
                0 <= j < i + 1 && m@.normalize(#[trigger] requested.deep_view()[j]) == c)
                implies #[trigger] cands.deep_view().contains(c) by {
                assert(prev.push(ncv).contains(c) <==> prev.contains(c) || c == ncv);
            }
        }
    }
    if matches!(profile, Profile::Complete) {
        let np = m.packages.len();
        for i in 0..np
            invariant
                np == m.packages.len(),
                forall|c: Seq<char>| #[trigger]
                    cands.deep_view().contains(c) <==> (profile_base_spec(profile).contains(c)
                        || (exists|j: int|
                        0 <= j < requested.deep_view().len() && m@.normalize(
                            #[trigger] requested.deep_view()[j],
                        ) == c) || exists|j: int|
                        0 <= j < i && (#[trigger] m@.packages[j]).component == c),
        {
            let comp = m.packages[i].component.clone();
            let ghost prev = cands.deep_view();
            let ghost cv = comp@;
            cands.push(comp);
            proof {
                assert(cands.deep_view() =~= prev.push(cv));
                assert(m@.packages[i as int] == m.packages[i as int]@);
                assert forall|c: Seq<char>| #[trigger] cands.deep_view().contains(c) implies (
                    profile_base_spec(profile).contains(c) || (exists|j: int|
                        0 <= j < requested.deep_view().len() && m@.normalize(
                            #[trigger] requested.deep_view()[j],
                        ) == c) || exists|j: int|
                        0 <= j < i + 1 && (#[trigger] m@.packages[j]).component == c) by {
                    assert(prev.push(cv).contains(c) <==> prev.contains(c) || c == cv);
                }
                assert forall|c: Seq<char>| (profile_base_spec(profile).contains(c) || (exists|j: int|
                    0 <= j < requested.deep_view().len() && m@.normalize(
                        #[trigger] requested.deep_view()[j],
                    ) == c) || exists|j: int|
                    0 <= j < i + 1 && (#[trigger] m@.packages[j]).component == c)
                    implies #[trigger] cands.deep_view().contains(c) by {
                    assert(prev.push(cv).contains(c) <==> prev.contains(c) || c == cv);
                }
            }
        }
    }
    assert(forall|c: Seq<char>| #[trigger]
        cands.deep_view().contains(c) <==> component_selected(
            m@,
            profile,
            requested.deep_view(),
            c,
        ));
    let nc = cands.len();
    for i in 0..nc
        invariant
            nc == cands.len(),
            req_t.deep_view().len() > 0,
            forall|c: Seq<char>| #[trigger]
                cands.deep_view().contains(c) <==> component_selected(
                    m@,
                    profile,
                    requested.deep_view(),
                    c,
                ),
            forall|c: Seq<char>| #[trigger]
                out.deep_view().contains(c) <==> ((exists|j: int|
                    0 <= j < i && #[trigger] cands.deep_view()[j] == c) && (forall|j: int|
                    0 <= j < req_t.deep_view().len() ==> m@.offers(c, req_t.deep_view()[j]))),
    {
        let keep = offers_for_all_targets(m, cands[i].as_str(), req_t) && !contains_str(
            &out,
            cands[i].as_str(),
        );
        assert(cands.deep_view()[i as int] == cands[i as int]@);
        if keep {
            let ghost prev = out.deep_view();
            let cv = cands[i].clone();
            out.push(cv);
            proof {
                assert(out.deep_view() =~= prev.push(cands.deep_view()[i as int]));
                assert(forall|c: Seq<char>| #[trigger] prev.push(
                    cands.deep_view()[i as int],
                ).contains(c) <==> prev.contains(c) || c == cands.deep_view()[i as int]);
            }
        }
    }
    proof {
        assert forall|c: Seq<char>| #[trigger] out.deep_view().contains(c) implies
            component_desired(m@, profile, requested.deep_view(), req_t.deep_view(), c) by {
            assert(cands.deep_view().contains(c));
        }
        assert forall|c: Seq<char>|
            component_desired(m@, profile, requested.deep_view(), req_t.deep_view(), c)
            implies #[trigger] out.deep_view().contains(c) by {
            assert(cands.deep_view().contains(c));
            let j = choose|j: int| 0 <= j < cands.deep_view().len() && cands.deep_view()[j] == c;
            assert(exists|j: int| 0 <= j < nc && #[trigger] cands.deep_view()[j] == c);
        }
    }
    out
}

/// Every pair in `ps` is declared and not yet installed.
pub open spec fn add_list_sound(
    m: ManifestView,
    profile: Profile,
    req: Seq<Seq<char>>,
    targets: Seq<Seq<char>>,
    ec: Seq<Seq<char>>,
    et: Seq<Seq<char>>,
    ps: Seq<PlanPairView>,
) -> bool {
    forall|i: int|
        0 <= i < ps.len() ==> (pair_desired(m, profile, req, targets, (#[trigger] ps[i]).component, ps[i].target)
            && !pair_existing(m, ec, et, ps[i].component, ps[i].target))
}

/// Every pair in `ps` is installed and no longer declared.
pub open spec fn remove_list_sound(
    m: ManifestView,
    profile: Profile,
    req: Seq<Seq<char>>,
    targets: Seq<Seq<char>>,
    ec: Seq<Seq<char>>,
    et: Seq<Seq<char>>,
    ps: Seq<PlanPairView>,
) -> bool {
    forall|i: int|
        0 <= i < ps.len() ==> (pair_existing(m, ec, et, (#[trigger] ps[i]).component, ps[i].target)
            && !pair_desired(m, profile, req, targets, ps[i].component, ps[i].target))
}

/// Computes the delta between what is installed and the declared set for the
/// requested profile, components and targets. Requested components and
/// targets the manifest does not offer fail with `Unavailable`; base
/// components of the profile that the manifest does not offer are simply not
/// part of the declared set.
pub fn plan(
    m: &Manifest,
    profile: Profile,
    existing_components: &Vec<String>,
    existing_targets: &Vec<String>,
    requested_components: &Vec<String>,
    requested_targets: &Vec<String>,
) -> (r: Result<InstallPlan, PlanError>)
    requires
        m@.wf(),
    ensures
        plan_post(
            m@,
            profile,
            existing_components.deep_view(),
            existing_targets.deep_view(),
            requested_components.deep_view(),
            requested_targets.deep_view(),
            match r {
                Result::Ok(ref p) => Result::Ok((p.to_add.deep_view(), p.to_remove.deep_view())),
                Result::Err(ref e) => Result::Err(e@),
            },
        ),
{
    let ghost rc_dv = requested_components.deep_view();
    let ghost rt_dv = requested_targets.deep_view();
    let ghost ec_dv = existing_components.deep_view();
    let ghost et_dv = existing_targets.deep_view();
    let nt = requested_targets.len();
    for i in 0..nt
        invariant
            nt == requested_targets.len(),
            rt_dv == requested_targets.deep_view(),
            forall|j: int| 0 <= j < i ==> m@.offers_target(#[trigger] rt_dv[j]),
    {
        if !offers_target(m, requested_targets[i].as_str()) {
            assert(rt_dv[i as int] == requested_targets[i as int]@);
            return Err(PlanError::Unavailable { name: requested_targets[i].clone() });
        }
        assert(rt_dv[i as int] == requested_targets[i as int]@);
    }
    let nr = requested_components.len();
    for i in 0..nr
        invariant
            nr == requested_components.len(),
            nt == requested_targets.len(),
            rc_dv == requested_components.deep_view(),
            rt_dv == requested_targets.deep_view(),
            forall|j: int|
                0 <= j < i ==> forall|k: int|
                    0 <= k < rt_dv.len() ==> m@.offers(
                        m@.normalize(#[trigger] rc_dv[j]),
                        #[trigger] rt_dv[k],
                    ),
    {
        let nc = normalize_component(m, requested_components[i].as_str());
        assert(rc_dv[i as int] == requested_components[i as int]@);
        if !offers_for_all_targets(m, nc.as_str(), requested_targets) {
            return Err(PlanError::Unavailable { name: requested_components[i].clone() });
        }
    }
    let desired = desired_components_vec(m, profile, requested_components, requested_targets);
    let ghost dd = desired.deep_view();
    let mut to_add: Vec<PlanPair> = Vec::new();
    let na = desired.len();
    for a in 0..na
        invariant
            na == desired.len(),
            nt == requested_targets.len(),
            dd == desired.deep_view(),
            rc_dv == requested_components.deep_view(),
            rt_dv == requested_targets.deep_view(),
            ec_dv == existing_components.deep_view(),
            et_dv == existing_targets.deep_view(),
            m@.wf(),
            enumerates_desired(m@, profile, rc_dv, rt_dv, dd),
            add_list_sound(m@, profile, rc_dv, rt_dv, ec_dv, et_dv, to_add.deep_view()),
            forall|x: int, y: int|
                #![trigger dd[x], rt_dv[y]]
                0 <= x < a && 0 <= y < rt_dv.len() && !pair_existing(m@, ec_dv, et_dv, dd[x], rt_dv[y])
                    ==> pairs_contain(to_add.deep_view(), dd[x], rt_dv[y]),
    {
        for b in 0..nt
            invariant
                na == desired.len(),
                nt == requested_targets.len(),
                a < na,
                dd == desired.deep_view(),
                rc_dv == requested_components.deep_view(),
                rt_dv == requested_targets.deep_view(),
                ec_dv == existing_components.deep_view(),
                et_dv == existing_targets.deep_view(),
                m@.wf(),
                enumerates_desired(m@, profile, rc_dv, rt_dv, dd),
                add_list_sound(m@, profile, rc_dv, rt_dv, ec_dv, et_dv, to_add.deep_view()),
                forall|x: int, y: int|
                    #![trigger dd[x], rt_dv[y]]
                    0 <= x < a && 0 <= y < rt_dv.len() && !pair_existing(
                        m@,
                        ec_dv,
                        et_dv,
                        dd[x],
                        rt_dv[y],
                    ) ==> pairs_contain(to_add.deep_view(), dd[x], rt_dv[y]),
                forall|y: int|
                    #![trigger rt_dv[y]]
                    0 <= y < b && !pair_existing(m@, ec_dv, et_dv, dd[a as int], rt_dv[y])
                        ==> pairs_contain(to_add.deep_view(), dd[a as int], rt_dv[y]),
        {
            let c_ok = existing_has(m, existing_components, desired[a].as_str());
            let t_ok = crate::strutil::contains_str(existing_targets, requested_targets[b].as_str());
            assert(dd[a as int] == desired[a as int]@);
            assert(rt_dv[b as int] == requested_targets[b as int]@);
            if !(c_ok && t_ok) {
                let ghost prev = to_add.deep_view();
                to_add.push(
                    PlanPair {
                        component: desired[a].clone(),
                        target: requested_targets[b].clone(),
                    },
                );
                proof {
                    assert(to_add.deep_view() =~= prev.push(
                        PlanPairView { component: dd[a as int], target: rt_dv[b as int] },
                    ));
                    assert(dd.contains(dd[a as int]));
                    assert(rt_dv.contains(rt_dv[b as int]));
                    assert forall|c: Seq<char>, t: Seq<char>| #[trigger] pairs_contain(prev, c, t)
                        implies pairs_contain(to_add.deep_view(), c, t) by {
                        let i = choose|i: int|
                            0 <= i < prev.len() && (#[trigger] prev[i]).component == c
                                && prev[i].target == t;
                        assert(to_add.deep_view()[i] == prev[i]);
                    }
                    assert(to_add.deep_view()[prev.len() as int].component == dd[a as int]);
                    assert(pairs_contain(to_add.deep_view(), dd[a as int], rt_dv[b as int]));
                }
            }
        }
    }
    let mut to_remove: Vec<PlanPair> = Vec::new();
    let ne = existing_components.len();
    let net = existing_targets.len();
    for a in 0..ne
        invariant
            ne == existing_components.len(),
            net == existing_targets.len(),
            nt == requested_targets.len(),
            dd == desired.deep_view(),
            rc_dv == requested_components.deep_view(),
            rt_dv == requested_targets.deep_view(),
            ec_dv == existing_components.deep_view(),
            et_dv == existing_targets.deep_view(),
            m@.wf(),
            enumerates_desired(m@, profile, rc_dv, rt_dv, dd),
            remove_list_sound(m@, profile, rc_dv, rt_dv, ec_dv, et_dv, to_remove.deep_view()),
            forall|x: int, y: int|
                #![trigger ec_dv[x], et_dv[y]]
                0 <= x < a && 0 <= y < et_dv.len() && !pair_desired(
                    m@,
                    profile,
                    rc_dv,
                    rt_dv,
                    m@.normalize(ec_dv[x]),
                    et_dv[y],
                ) ==> pairs_contain(to_remove.deep_view(), m@.normalize(ec_dv[x]), et_dv[y]),
    {
        let cnorm = normalize_component(m, existing_components[a].as_str());
        assert(ec_dv[a as int] == existing_components[a as int]@);
        for b in 0..net
            invariant
                ne == existing_components.len(),
                net == existing_targets.len(),
                nt == requested_targets.len(),
                a < ne,
                cnorm@ == m@.normalize(ec_dv[a as int]),
                dd == desired.deep_view(),
                rc_dv == requested_components.deep_view(),
                rt_dv == requested_targets.deep_view(),
                ec_dv == existing_components.deep_view(),
                et_dv == existing_targets.deep_view(),
                m@.wf(),
                enumerates_desired(m@, profile, rc_dv, rt_dv, dd),
                remove_list_sound(m@, profile, rc_dv, rt_dv, ec_dv, et_dv, to_remove.deep_view()),
                forall|x: int, y: int|
                    #![trigger ec_dv[x], et_dv[y]]
                    0 <= x < a && 0 <= y < et_dv.len() && !pair_desired(
                        m@,
                        profile,
                        rc_dv,
                        rt_dv,
                        m@.normalize(ec_dv[x]),
                        et_dv[y],
                    ) ==> pairs_contain(to_remove.deep_view(), m@.normalize(ec_dv[x]), et_dv[y]),
                forall|y: int|
                    #![trigger et_dv[y]]
                    0 <= y < b && !pair_desired(
                        m@,
                        profile,
                        rc_dv,
                        rt_dv,
                        m@.normalize(ec_dv[a as int]),
                        et_dv[y],
                    ) ==> pairs_contain(
                        to_remove.deep_view(),
                        m@.normalize(ec_dv[a as int]),
                        et_dv[y],
                    ),
        {
            let c_des = crate::strutil::contains_str(&desired, cnorm.as_str());
            let t_des = crate::strutil::contains_str(requested_targets, existing_targets[b].as_str());
            assert(et_dv[b as int] == existing_targets[b as int]@);
            if !(c_des && t_des) {
                let ghost prev = to_remove.deep_view();
                to_remove.push(
                    PlanPair { component: cnorm.clone(), target: existing_targets[b].clone() },
                );
                proof {
                    assert(to_remove.deep_view() =~= prev.push(
                        PlanPairView { component: cnorm@, target: et_dv[b as int] },
                    ));
                    assert(exists|i: int|
                        0 <= i < ec_dv.len() && m@.normalize(#[trigger] ec_dv[i]) == cnorm@);
                    assert(et_dv.contains(et_dv[b as int]));
                    assert forall|c: Seq<char>, t: Seq<char>| #[trigger] pairs_contain(prev, c, t)
                        implies pairs_contain(to_remove.deep_view(), c, t) by {
                        let i = choose|i: int|
                            0 <= i < prev.len() && (#[trigger] prev[i]).component == c
                                && prev[i].target == t;
                        assert(to_remove.deep_view()[i] == prev[i]);
                    }
                    assert(to_remove.deep_view()[prev.len() as int].component == cnorm@);
                    assert(pairs_contain(to_remove.deep_view(), cnorm@, et_dv[b as int]));
                }
            }
        }
    }
    proof {
        assert forall|c: Seq<char>, t: Seq<char>| #[trigger] pairs_contain(to_add.deep_view(), c, t)
            implies (pair_desired(m@, profile, rc_dv, rt_dv, c, t) && !pair_existing(
            m@,
            ec_dv,
            et_dv,
            c,
            t,
        )) by {
            let i = choose|i: int|
                0 <= i < to_add.deep_view().len() && (#[trigger] to_add.deep_view()[i]).component
                    == c && to_add.deep_view()[i].target == t;
        }
        assert forall|c: Seq<char>, t: Seq<char>|
            pair_desired(m@, profile, rc_dv, rt_dv, c, t) && !pair_existing(m@, ec_dv, et_dv, c, t)
            implies #[trigger] pairs_contain(to_add.deep_view(), c, t) by {
            assert(dd.contains(c));
            let x = choose|x: int| 0 <= x < dd.len() && dd[x] == c;
            let y = choose|y: int| 0 <= y < rt_dv.len() && rt_dv[y] == t;
        }
        assert forall|c: Seq<char>, t: Seq<char>| #[trigger] pairs_contain(
            to_remove.deep_view(),
            c,
            t,
        ) implies (pair_existing(m@, ec_dv, et_dv, c, t) && !pair_desired(
            m@,
            profile,
            rc_dv,
            rt_dv,
            c,
            t,
        )) by {
            let i = choose|i: int|
                0 <= i < to_remove.deep_view().len() && (#[trigger] to_remove.deep_view()[
                    i
                ]).component == c && to_remove.deep_view()[i].target == t;
        }
        assert forall|c: Seq<char>, t: Seq<char>|
            pair_existing(m@, ec_dv, et_dv, c, t) && !pair_desired(m@, profile, rc_dv, rt_dv, c, t)
            implies #[trigger] pairs_contain(to_remove.deep_view(), c, t) by {
            let x = choose|x: int| 0 <= x < ec_dv.len() && m@.normalize(#[trigger] ec_dv[x]) == c;
            let y = choose|y: int| 0 <= y < et_dv.len() && et_dv[y] == t;
        }
    }
    Ok(InstallPlan { to_add, to_remove })
}

/// Whether the pair (`c`, `t`) is installed after applying the plan: it was
/// installed or added, and not removed.
pub open spec fn pair_after_apply(
    m: ManifestView,
    ec: Seq<Seq<char>>,
    et: Seq<Seq<char>>,
    to_add: Seq<PlanPairView>,
    to_remove: Seq<PlanPairView>,
    c: Seq<char>,
    t: Seq<char>,
) -> bool {
    (pair_existing(m, ec, et, c, t) || pairs_contain(to_add, c, t)) && !pairs_contain(
        to_remove,
        c,
        t,
    )
}

/// Law: applying a computed plan to the installed set yields exactly the
/// manifest's declared set for the requested profile — no partial overlap is
/// silently dropped.
pub proof fn lemma_plan_applies_exactly(
    m: ManifestView,
    profile: Profile,
    ec: Seq<Seq<char>>,
    et: Seq<Seq<char>>,
    req: Seq<Seq<char>>,
    targets: Seq<Seq<char>>,
    to_add: Seq<PlanPairView>,
    to_remove: Seq<PlanPairView>,
    c: Seq<char>,
    t: Seq<char>,
)
    requires
        plan_ok_post(m, profile, ec, et, req, targets, to_add, to_remove),
    ensures
        pair_after_apply(m, ec, et, to_add, to_remove, c, t) <==> pair_desired(
            m,
            profile,
            req,
            targets,
            c,
            t,
        ),
{
    assert(pairs_contain(to_add, c, t) <==> (pair_desired(m, profile, req, targets, c, t)
        && !pair_existing(m, ec, et, c, t)));
    assert(pairs_contain(to_remove, c, t) <==> (pair_existing(m, ec, et, c, t) && !pair_desired(
        m,
        profile,
        req,
        targets,
        c,
        t,
    )));
}

/// A declared component keeps its name under the alias table.
pub proof fn lemma_desired_component_stable(
    m: ManifestView,
    profile: Profile,
    req: Seq<Seq<char>>,
    targets: Seq<Seq<char>>,
    c: Seq<char>,
)
    requires
        m.wf(),
        component_desired(m, profile, req, targets, c),
    ensures
        m.normalize(c) == c,
{
    assert(m.offers(c, targets[0]));
    let i = choose|i: int|
        0 <= i < m.packages.len() && (#[trigger] m.packages[i]).component == c && m.packages[i].target
            == targets[0];
    assert(forall|j: int| 0 <= j < m.renames.len() ==> (#[trigger] m.renames[j]).from != c);
    lemma_rename_lookup_stable(m.renames, c);
}

/// Law (idempotence, pointwise): against a state that already matches the
/// declared set, no pair is to be added and none is to be removed.
pub proof fn lemma_plan_idempotent(
    m: ManifestView,
    profile: Profile,
    req: Seq<Seq<char>>,
    targets: Seq<Seq<char>>,
    stored: Seq<Seq<char>>,
    c: Seq<char>,
    t: Seq<char>,
)
    requires
        m.wf(),
        forall|c2: Seq<char>| #[trigger]
            stored.contains(c2) <==> component_desired(m, profile, req, targets, c2),
    ensures
        !(pair_desired(m, profile, req, targets, c, t) && !pair_existing(m, stored, targets, c, t)),
        !(pair_existing(m, stored, targets, c, t) && !pair_desired(m, profile, req, targets, c, t)),
{
    if pair_desired(m, profile, req, targets, c, t) {
        lemma_desired_component_stable(m, profile, req, targets, c);
        assert(stored.contains(c));
        let x = choose|x: int| 0 <= x < stored.len() && stored[x] == c;
        assert(m.normalize(stored[x]) == c);
        assert(pair_existing(m, stored, targets, c, t));
    }
    if pair_existing(m, stored, targets, c, t) {
        let x = choose|x: int| 0 <= x < stored.len() && m.normalize(#[trigger] stored[x]) == c;
        assert(stored.contains(stored[x]));
        lemma_desired_component_stable(m, profile, req, targets, stored[x]);
        assert(stored[x] == c);
        assert(pair_desired(m, profile, req, targets, c, t));
    }
}

/// Law (idempotence): a plan computed against a state that already matches
/// the declared set is empty.
pub proof fn lemma_plan_recompute_empty(
    m: ManifestView,
    profile: Profile,
    req: Seq<Seq<char>>,
    targets: Seq<Seq<char>>,
    stored: Seq<Seq<char>>,
    to_add: Seq<PlanPairView>,
    to_remove: Seq<PlanPairView>,
)
    requires
        m.wf(),
        forall|c2: Seq<char>| #[trigger]
            stored.contains(c2) <==> component_desired(m, profile, req, targets, c2),
        plan_ok_post(m, profile, stored, targets, req, targets, to_add, to_remove),
    ensures
        to_add.len() == 0,
        to_remove.len() == 0,
{
    if to_add.len() > 0 {
        let p = to_add[0];
        assert(pairs_contain(to_add, p.component, p.target));
        lemma_plan_idempotent(m, profile, req, targets, stored, p.component, p.target);
    }
    if to_remove.len() > 0 {
        let p = to_remove[0];
        assert(pairs_contain(to_remove, p.component, p.target));
        lemma_plan_idempotent(m, profile, req, targets, stored, p.component, p.target);
    }
}

} // verus!
