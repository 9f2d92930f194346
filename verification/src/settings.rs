//! Durable settings: the default toolchain, per-directory overrides, and the
//! registry of installed toolchains. This value is the single source of truth
//! for what is installed; the orchestrator is its only writer.

use vstd::prelude::*;
use crate::strutil::str_eq;

verus! {

broadcast use vstd::seq_lib::lemma_seq_contains_after_push;

/// The schema version this library reads and writes. Older persisted
/// versions are migrated in memory; newer ones are refused.
pub const CURRENT_SCHEMA_VERSION: u64 = 2;

/// Identifier of one toolchain: a distributed channel plus target triple, or
/// a locally linked toolchain under a custom name.
#[derive(Debug)]
pub enum ToolchainId {
    Official { channel: String, target: String },
    Custom { name: String },
}

pub enum ToolchainIdView {
    Official { channel: Seq<char>, target: Seq<char> },
    Custom { name: Seq<char> },
}

impl View for ToolchainId {
    type V = ToolchainIdView;

    open spec fn view(&self) -> ToolchainIdView {
        match self {
            ToolchainId::Official { channel, target } => ToolchainIdView::Official {
                channel: channel@,
                target: target@,
            },
            ToolchainId::Custom { name } => ToolchainIdView::Custom { name: name@ },
        }
    }
}

impl ToolchainId {
    /// Whether the two identifiers denote the same toolchain.
    pub fn same_as(&self, other: &ToolchainId) -> (r: bool)
        ensures
            r == (self@ == other@),
    {
        match (self, other) {
            (
                ToolchainId::Official { channel: c1, target: t1 },
                ToolchainId::Official { channel: c2, target: t2 },
            ) => str_eq(c1.as_str(), c2.as_str()) && str_eq(t1.as_str(), t2.as_str()),
            (ToolchainId::Custom { name: n1 }, ToolchainId::Custom { name: n2 }) => str_eq(
                n1.as_str(),
                n2.as_str(),
            ),
            _ => false,
        }
    }

    /// An equal copy of the identifier.
    pub fn duplicate(&self) -> (r: ToolchainId)
        ensures
            r@ == self@,
    {
        match self {
            ToolchainId::Official { channel, target } => ToolchainId::Official {
                channel: channel.clone(),
                target: target.clone(),
            },
            ToolchainId::Custom { name } => ToolchainId::Custom { name: name.clone() },
        }
    }
}

/// Whether directory `a` is `b` itself or an ancestor of `b`, with both given
/// as their path components from the filesystem root.
pub open spec fn is_prefix_of(a: Seq<Seq<char>>, b: Seq<Seq<char>>) -> bool {
    a.len() <= b.len() && forall|i: int| 0 <= i < a.len() ==> a[i] == b[i]
}

/// Whether directory `a` is `b` itself or an ancestor of `b`.
pub fn dir_is_prefix(a: &Vec<String>, b: &Vec<String>) -> (r: bool)
    ensures
        r == is_prefix_of(a.deep_view(), b.deep_view()),
{
    if a.len() > b.len() {
        return false;
    }
    let mut i: usize = 0;
    while i < a.len()
        invariant
            i <= a.len() <= b.len(),
            forall|j: int| 0 <= j < i ==> a.deep_view()[j] == b.deep_view()[j],
        decreases a.len() - i,
    {
        if !str_eq(a[i].as_str(), b[i].as_str()) {
            assert(a.deep_view()[i as int] != b.deep_view()[i as int]);
            return false;
        }
        i += 1;
    }
    true
}

/// A binding pinning one directory (and everything below it) to a toolchain.
pub struct OverrideBinding {
    pub dir: Vec<String>,
    pub toolchain: ToolchainId,
}

pub struct OverrideBindingView {
    pub dir: Seq<Seq<char>>,
    pub toolchain: ToolchainIdView,
}

impl View for OverrideBinding {
    type V = OverrideBindingView;

    open spec fn view(&self) -> OverrideBindingView {
        OverrideBindingView { dir: self.dir.deep_view(), toolchain: self.toolchain@ }
    }
}

impl DeepView for OverrideBinding {
    type V = OverrideBindingView;

    open spec fn deep_view(&self) -> OverrideBindingView {
        self.view()
    }
}

/// One installed toolchain as recorded in the registry.
pub struct InstalledToolchain {
    pub id: ToolchainId,
    /// Directory the toolchain lives in.
    pub dir: String,
    /// Names of the installed components.
    pub components: Vec<String>,
    /// Installed target triples.
    pub targets: Vec<String>,
    /// Seconds since an arbitrary epoch at which the install committed.
    pub install_time: u64,
}

pub struct InstalledToolchainView {
    pub id: ToolchainIdView,
    pub dir: Seq<char>,
    pub components: Seq<Seq<char>>,
    pub targets: Seq<Seq<char>>,
    pub install_time: u64,
}

impl View for InstalledToolchain {
    type V = InstalledToolchainView;

    open spec fn view(&self) -> InstalledToolchainView {
        InstalledToolchainView {
            id: self.id@,
            dir: self.dir@,
            components: self.components.deep_view(),
            targets: self.targets.deep_view(),
            install_time: self.install_time,
        }
    }
}

impl DeepView for InstalledToolchain {
    type V = InstalledToolchainView;

    open spec fn deep_view(&self) -> InstalledToolchainView {
        self.view()
    }
}

/// The whole durable settings value.
pub struct Settings {
    pub schema_version: u64,
    pub default_toolchain: Option<ToolchainId>,
    pub overrides: Vec<OverrideBinding>,
    pub installed: Vec<InstalledToolchain>,
}

pub struct SettingsView {
    pub schema_version: u64,
    pub default_toolchain: Option<ToolchainIdView>,
    pub overrides: Seq<OverrideBindingView>,
    pub installed: Seq<InstalledToolchainView>,
}

impl View for Settings {
    type V = SettingsView;

    open spec fn view(&self) -> SettingsView {
        SettingsView {
            schema_version: self.schema_version,
            default_toolchain: match self.default_toolchain {
                Some(ref id) => Some(id@),
                None => None,
            },
            overrides: self.overrides.deep_view(),
            installed: self.installed.deep_view(),
        }
    }
}

impl SettingsView {
    /// Well-formedness: override directories are distinct, and so are the
    /// identifiers in the installed registry.
    pub open spec fn wf(self) -> bool {
        &&& forall|i: int, j: int|
            0 <= i < j < self.overrides.len() ==> self.overrides[i].dir != self.overrides[j].dir
        &&& forall|i: int, j: int|
            0 <= i < j < self.installed.len() ==> self.installed[i].id != self.installed[j].id
    }
}

/// `ovs` with every binding for directory `dir` removed.
pub open spec fn override_remove(ovs: Seq<OverrideBindingView>, dir: Seq<Seq<char>>) -> Seq<
    OverrideBindingView,
>
    decreases ovs.len(),
{
    if ovs.len() == 0 {
        Seq::empty()
    } else {
        let rest = override_remove(ovs.drop_last(), dir);
        if ovs.last().dir == dir {
            rest
        } else {
            rest.push(ovs.last())
        }
    }
}

/// `tcs` with every entry for identifier `id` removed.
pub open spec fn installed_remove(tcs: Seq<InstalledToolchainView>, id: ToolchainIdView) -> Seq<
    InstalledToolchainView,
>
    decreases tcs.len(),
{
    if tcs.len() == 0 {
        Seq::empty()
    } else {
        let rest = installed_remove(tcs.drop_last(), id);
        if tcs.last().id == id {
            rest
        } else {
            rest.push(tcs.last())
        }
    }
}

/// Every element surviving `override_remove` comes from the original
/// sequence and is not bound to the removed directory.
pub proof fn lemma_override_remove_membership(
    ovs: Seq<OverrideBindingView>,
    dir: Seq<Seq<char>>,
    b: OverrideBindingView,
)
    ensures
        override_remove(ovs, dir).contains(b) <==> (ovs.contains(b) && b.dir != dir),
    decreases ovs.len(),
{
    if ovs.len() > 0 {
        let rest = override_remove(ovs.drop_last(), dir);
        lemma_override_remove_membership(ovs.drop_last(), dir, b);
        assert(ovs =~= ovs.drop_last().push(ovs.last()));
        assert(ovs.drop_last().push(ovs.last()).contains(b) <==> ovs.drop_last().contains(b) || b
            == ovs.last());
        if ovs.last().dir != dir {
            assert(rest.push(ovs.last()).contains(b) <==> rest.contains(b) || b == ovs.last());
        }
    }
}

/// Distinctness of override directories survives removal, and no binding of
/// the removed directory survives.
pub proof fn lemma_override_remove_wf(ovs: Seq<OverrideBindingView>, dir: Seq<Seq<char>>)
    requires
        forall|i: int, j: int| 0 <= i < j < ovs.len() ==> ovs[i].dir != ovs[j].dir,
    ensures
        forall|i: int, j: int|
            0 <= i < j < override_remove(ovs, dir).len() ==> override_remove(ovs, dir)[i].dir
                != override_remove(ovs, dir)[j].dir,
        forall|i: int|
            0 <= i < override_remove(ovs, dir).len() ==> (#[trigger] override_remove(ovs, dir)[
                i
            ]).dir != dir,
    decreases ovs.len(),
{
    if ovs.len() > 0 {
        let rest = override_remove(ovs.drop_last(), dir);
        assert(forall|i: int, j: int|
            0 <= i < j < ovs.drop_last().len() ==> ovs.drop_last()[i].dir != ovs.drop_last()[
                j
            ].dir);
        lemma_override_remove_wf(ovs.drop_last(), dir);
        if ovs.last().dir != dir {
            assert forall|i: int| 0 <= i < rest.len() implies rest[i].dir != ovs.last().dir by {
                assert(rest.contains(rest[i]));
                lemma_override_remove_membership(ovs.drop_last(), dir, rest[i]);
                let k = choose|k: int|
                    0 <= k < ovs.drop_last().len() && ovs.drop_last()[k] == rest[i];
                assert(ovs[k] == rest[i]);
            }
        }
    }
}

/// Distinctness of registry identifiers survives removal, and no entry for
/// the removed identifier survives.
pub proof fn lemma_installed_remove_wf(tcs: Seq<InstalledToolchainView>, id: ToolchainIdView)
    requires
        forall|i: int, j: int| 0 <= i < j < tcs.len() ==> tcs[i].id != tcs[j].id,
    ensures
        forall|i: int, j: int|
            0 <= i < j < installed_remove(tcs, id).len() ==> installed_remove(tcs, id)[i].id
                != installed_remove(tcs, id)[j].id,
        forall|i: int|
            0 <= i < installed_remove(tcs, id).len() ==> (#[trigger] installed_remove(tcs, id)[
                i
            ]).id != id,
    decreases tcs.len(),
{
    if tcs.len() > 0 {
        let rest = installed_remove(tcs.drop_last(), id);
        assert(forall|i: int, j: int|
            0 <= i < j < tcs.drop_last().len() ==> tcs.drop_last()[i].id != tcs.drop_last()[j].id);
        lemma_installed_remove_wf(tcs.drop_last(), id);
        if tcs.last().id != id {
            assert forall|i: int| 0 <= i < rest.len() implies rest[i].id != tcs.last().id by {
                assert(rest.contains(rest[i]));
                lemma_installed_remove_membership(tcs.drop_last(), id, rest[i]);
                let k = choose|k: int|
                    0 <= k < tcs.drop_last().len() && tcs.drop_last()[k] == rest[i];
                assert(tcs[k] == rest[i]);
            }
        }
    }
}

/// Every element surviving `installed_remove` comes from the original
/// sequence and is not the removed identifier's entry.
pub proof fn lemma_installed_remove_membership(
    tcs: Seq<InstalledToolchainView>,
    id: ToolchainIdView,
    t: InstalledToolchainView,
)
    ensures
        installed_remove(tcs, id).contains(t) <==> (tcs.contains(t) && t.id != id),
    decreases tcs.len(),
{
    if tcs.len() > 0 {
        let rest = installed_remove(tcs.drop_last(), id);
        lemma_installed_remove_membership(tcs.drop_last(), id, t);
        assert(tcs =~= tcs.drop_last().push(tcs.last()));
        assert(tcs.drop_last().push(tcs.last()).contains(t) <==> tcs.drop_last().contains(t) || t
            == tcs.last());
        if tcs.last().id != id {
            assert(rest.push(tcs.last()).contains(t) <==> rest.contains(t) || t == tcs.last());
        }
    }
}

/// The binding that governs `cwd`: among the bindings whose directory is an
/// ancestor of (or equal to) `cwd`, the one with the longest directory, i.e.
/// the nearest ancestor.
pub open spec fn best_override_of(ovs: Seq<OverrideBindingView>, cwd: Seq<Seq<char>>) -> Option<
    OverrideBindingView,
>
    decreases ovs.len(),
{
    if ovs.len() == 0 {
        None
    } else {
        let rest = best_override_of(ovs.drop_last(), cwd);
        let last = ovs.last();
        if is_prefix_of(last.dir, cwd) && (rest matches Some(b) ==> b.dir.len() < last.dir.len()) {
            Some(last)
        } else {
            rest
        }
    }
}

/// What `best_override_of` returns: a matching binding of maximal directory
/// length when one exists, and `None` exactly when no binding matches.
pub proof fn lemma_best_override_characterization(ovs: Seq<OverrideBindingView>, cwd: Seq<Seq<char>>)
    ensures
        match best_override_of(ovs, cwd) {
            Some(b) => ovs.contains(b) && is_prefix_of(b.dir, cwd) && forall|i: int|
                0 <= i < ovs.len() && is_prefix_of(#[trigger] ovs[i].dir, cwd) ==> ovs[i].dir.len()
                    <= b.dir.len(),
            None => forall|i: int| 0 <= i < ovs.len() ==> !is_prefix_of(#[trigger] ovs[i].dir, cwd),
        },
    decreases ovs.len(),
{
    if ovs.len() > 0 {
        lemma_best_override_characterization(ovs.drop_last(), cwd);
        match best_override_of(ovs.drop_last(), cwd) {
            Some(b) => {
                let i = choose|i: int| 0 <= i < ovs.drop_last().len() && ovs.drop_last()[i] == b;
                assert(ovs[i] == b);
                assert(forall|i: int|
                    0 <= i < ovs.len() - 1 ==> ovs.drop_last()[i] == #[trigger] ovs[i]);
            },
            None => {
                assert(forall|i: int|
                    0 <= i < ovs.len() - 1 ==> ovs.drop_last()[i] == #[trigger] ovs[i]);
            },
        }
    }
}

/// The toolchain that dispatch should use from `cwd`: the nearest ancestor
/// override if any, else the global default.
pub open spec fn active_toolchain_spec(s: SettingsView, cwd: Seq<Seq<char>>) -> Option<
    ToolchainIdView,
> {
    match best_override_of(s.overrides, cwd) {
        Some(b) => Some(b.toolchain),
        None => s.default_toolchain,
    }
}

/// Law: override resolution always prefers the nearest matching ancestor
/// binding over the global default. If the binding at index `i` matches
/// `cwd`, resolution yields an override binding (never the bare default)
/// whose directory is at least as long as that binding's.
pub proof fn lemma_override_prefers_nearest(s: SettingsView, cwd: Seq<Seq<char>>, i: int)
    requires
        0 <= i < s.overrides.len(),
        is_prefix_of(s.overrides[i].dir, cwd),
    ensures
        best_override_of(s.overrides, cwd) matches Some(b) && is_prefix_of(b.dir, cwd)
            && b.dir.len() >= s.overrides[i].dir.len() && active_toolchain_spec(s, cwd) == Some(
            b.toolchain,
        ),
{
    lemma_best_override_characterization(s.overrides, cwd);
}

/// Law: removing the override at directory `dir` reverts resolution to the
/// nearest matching ancestor among the remaining bindings, or to the global
/// default when none remains.
pub proof fn lemma_override_removal_reverts(s: SettingsView, cwd: Seq<Seq<char>>, dir: Seq<Seq<char>>)
    ensures
        ({
            let remaining = override_remove(s.overrides, dir);
            let after = SettingsView { overrides: remaining, ..s };
            match best_override_of(remaining, cwd) {
                Some(b) => s.overrides.contains(b) && b.dir != dir && is_prefix_of(b.dir, cwd)
                    && (forall|i: int|
                    0 <= i < remaining.len() && is_prefix_of(#[trigger] remaining[i].dir, cwd)
                        ==> remaining[i].dir.len() <= b.dir.len()) && active_toolchain_spec(
                    after,
                    cwd,
                ) == Some(b.toolchain),
                None => active_toolchain_spec(after, cwd) == s.default_toolchain,
            }
        }),
{
    let remaining = override_remove(s.overrides, dir);
    lemma_best_override_characterization(remaining, cwd);
    match best_override_of(remaining, cwd) {
        Some(b) => lemma_override_remove_membership(s.overrides, dir, b),
        None => (),
    }
}

impl Settings {
    /// A fresh settings value: current schema, no default, no overrides, an
    /// empty registry.
    pub fn new() -> (r: Settings)
        ensures
            r@ == (SettingsView {
                schema_version: CURRENT_SCHEMA_VERSION,
                default_toolchain: None,
                overrides: Seq::empty(),
                installed: Seq::empty(),
            }),
            r@.wf(),
    {
        let r = Settings {
            schema_version: CURRENT_SCHEMA_VERSION,
            default_toolchain: None,
            overrides: Vec::new(),
            installed: Vec::new(),
        };
        assert(r@.overrides =~= Seq::<OverrideBindingView>::empty());
        assert(r@.installed =~= Seq::<InstalledToolchainView>::empty());
        r
    }

    /// Whether the value is well formed; callers outside the library test
    /// this before handing a foreign settings value to functions that
    /// require it.
    pub fn wf_check(&self) -> (r: bool)
        ensures
            r == self@.wf(),
    {
        let no = self.overrides.len();
        for i in 0..no
            invariant
                no == self.overrides.len(),
                forall|a: int, b: int|
                    0 <= a < i && a < b < no ==> (#[trigger] self@.overrides[a]).dir != (
                    #[trigger] self@.overrides[b]).dir,
        {
            for j in (i + 1)..no
                invariant
                    no == self.overrides.len(),
                    i < no,
                    forall|a: int, b: int|
                        0 <= a < i && a < b < no ==> (#[trigger] self@.overrides[a]).dir != (
                        #[trigger] self@.overrides[b]).dir,
                    forall|b: int|
                        i < b < j ==> self@.overrides[i as int].dir != (
                        #[trigger] self@.overrides[b]).dir,
            {
                if crate::strutil::vec_str_eq(&self.overrides[i].dir, &self.overrides[j].dir) {
                    assert(self@.overrides[i as int] == self.overrides[i as int]@);
                    assert(self@.overrides[j as int] == self.overrides[j as int]@);
                    return false;
                }
                assert(self@.overrides[i as int] == self.overrides[i as int]@);
                assert(self@.overrides[j as int] == self.overrides[j as int]@);
            }
        }
        let ni = self.installed.len();
        for i in 0..ni
            invariant
                ni == self.installed.len(),
                forall|a: int, b: int|
                    0 <= a < no && 0 <= b < no && a != b ==> (#[trigger] self@.overrides[a]).dir
                        != (#[trigger] self@.overrides[b]).dir,
                no == self.overrides.len(),
                forall|a: int, b: int|
                    0 <= a < i && a < b < ni ==> (#[trigger] self@.installed[a]).id != (
                    #[trigger] self@.installed[b]).id,
        {
            for j in (i + 1)..ni
                invariant
                    ni == self.installed.len(),
                    no == self.overrides.len(),
                    i < ni,
                    forall|a: int, b: int|
                        0 <= a < no && 0 <= b < no && a != b ==> (#[trigger] self@.overrides[
                            a
                        ]).dir != (#[trigger] self@.overrides[b]).dir,
                    forall|a: int, b: int|
                        0 <= a < i && a < b < ni ==> (#[trigger] self@.installed[a]).id != (
                        #[trigger] self@.installed[b]).id,
                    forall|b: int|
                        i < b < j ==> self@.installed[i as int].id != (
                        #[trigger] self@.installed[b]).id,
            {
                if self.installed[i].id.same_as(&self.installed[j].id) {
                    assert(self@.installed[i as int] == self.installed[i as int]@);
                    assert(self@.installed[j as int] == self.installed[j as int]@);
                    return false;
                }
                assert(self@.installed[i as int] == self.installed[i as int]@);
                assert(self@.installed[j as int] == self.installed[j as int]@);
            }
        }
        true
    }

    /// Migrates a value loaded from an older schema to the current one; a
    /// schema newer than this library understands is refused rather than
    /// silently truncated.
    pub fn migrate(&mut self) -> (r: Result<(), SettingsError>)
        ensures
            old(self)@.schema_version <= CURRENT_SCHEMA_VERSION ==> r is Ok && final(self)@ == (
            SettingsView { schema_version: CURRENT_SCHEMA_VERSION, ..old(self)@ }),
            old(self)@.schema_version > CURRENT_SCHEMA_VERSION ==> r == Err::<(), SettingsError>(
                SettingsError::UnsupportedSchema { found: old(self)@.schema_version },
            ) && final(self)@ == old(self)@,
    {
        if self.schema_version > CURRENT_SCHEMA_VERSION {
            Err(SettingsError::UnsupportedSchema { found: self.schema_version })
        } else {
            self.schema_version = CURRENT_SCHEMA_VERSION;
            Ok(())
        }
    }

    /// Sets the global default toolchain.
    pub fn set_default(&mut self, id: ToolchainId)
        ensures
            final(self)@ == (SettingsView { default_toolchain: Some(id@), ..old(self)@ }),
    {
        self.default_toolchain = Some(id);
    }

    /// The global default toolchain, if one is set.
    pub fn default_toolchain(&self) -> (r: Option<&ToolchainId>)
        ensures
            match r {
                Some(id) => self@.default_toolchain == Some(id@),
                None => self@.default_toolchain is None,
            },
    {
        match &self.default_toolchain {
            Some(id) => Some(id),
            None => None,
        }
    }
}

impl InstalledToolchain {
    /// Whether the named component is installed in this toolchain.
    pub fn has_component(&self, name: &str) -> (r: bool)
        ensures
            r == self@.components.contains(name@),
    {
        crate::strutil::contains_str(&self.components, name)
    }

    /// Whether the given target triple is installed in this toolchain.
    pub fn has_target(&self, name: &str) -> (r: bool)
        ensures
            r == self@.targets.contains(name@),
    {
        crate::strutil::contains_str(&self.targets, name)
    }
}

impl Settings {
    /// Binds `dir` (and everything below it) to `id`, replacing any previous
    /// binding of the same directory; the binding moves to the end of the
    /// override list.
    pub fn add_override(&mut self, dir: Vec<String>, id: ToolchainId)
        ensures
            final(self)@ == (SettingsView {
                overrides: override_remove(old(self)@.overrides, dir.deep_view()).push(
                    OverrideBindingView { dir: dir.deep_view(), toolchain: id@ },
                ),
                ..old(self)@
            }),
            old(self)@.wf() ==> final(self)@.wf(),
    {
        proof {
            if self@.wf() {
                lemma_override_remove_wf(self@.overrides, dir.deep_view());
            }
        }
        self.remove_override(&dir);
        let ghost mid = self@.overrides;
        self.overrides.push(OverrideBinding { dir, toolchain: id });
        assert(self@.overrides =~= mid.push(self.overrides[self.overrides.len() - 1]@));
    }

    /// Removes any binding of `dir`; returns whether one was removed.
    pub fn remove_override(&mut self, dir: &Vec<String>) -> (removed: bool)
        ensures
            final(self)@ == (SettingsView {
                overrides: override_remove(old(self)@.overrides, dir.deep_view()),
                ..old(self)@
            }),
            removed <==> exists|i: int|
                0 <= i < old(self)@.overrides.len() && (#[trigger] old(
                    self,
                )@.overrides[i]).dir == dir.deep_view(),
            old(self)@.wf() ==> final(self)@.wf(),
    {
        proof {
            if self@.wf() {
                lemma_override_remove_wf(self@.overrides, dir.deep_view());
            }
        }
        let mut kept: Vec<OverrideBinding> = Vec::new();
        let mut removed = false;
        let n = self.overrides.len();
        let ghost orig = self@.overrides;
        for i in 0..n
            invariant
                n == self.overrides.len(),
                self@.overrides == orig,
                kept.deep_view() =~= override_remove(orig.take(i as int), dir.deep_view()),
                removed <==> exists|j: int|
                    0 <= j < i && (#[trigger] orig[j]).dir == dir.deep_view(),
        {
            let ghost prev = kept.deep_view();
            let b = &self.overrides[i];
            if crate::strutil::vec_str_eq(&b.dir, dir) {
                removed = true;
            } else {
                kept.push(OverrideBinding { dir: clone_strings(&b.dir), toolchain: b.toolchain.duplicate() });
                assert(kept.deep_view() =~= prev.push(orig[i as int]));
            }
            assert(orig.take(i + 1).drop_last() =~= orig.take(i as int));
        }
        assert(orig.take(n as int) =~= orig);
        self.overrides = kept;
        removed
    }

    /// The binding that governs `cwd`: the nearest ancestor override.
    pub fn lookup_override(&self, cwd: &Vec<String>) -> (r: Option<&OverrideBinding>)
        ensures
            match r {
                Some(b) => best_override_of(self@.overrides, cwd.deep_view()) == Some(b@),
                None => best_override_of(self@.overrides, cwd.deep_view()) is None,
            },
    {
        let mut best: Option<usize> = None;
        let n = self.overrides.len();
        for i in 0..n
            invariant
                n == self.overrides.len(),
                match best {
                    Some(k) => k < i && best_override_of(
                        self@.overrides.take(i as int),
                        cwd.deep_view(),
                    ) == Some(self@.overrides[k as int]),
                    None => best_override_of(self@.overrides.take(i as int), cwd.deep_view())
                        is None,
                },
        {
            let b = &self.overrides[i];
            let better = if dir_is_prefix(&b.dir, cwd) {
                match best {
                    Some(k) => self.overrides[k].dir.len() < b.dir.len(),
                    None => true,
                }
            } else {
                false
            };
            if better {
                best = Some(i);
            }
            assert(self@.overrides.take(i + 1).drop_last() =~= self@.overrides.take(i as int));
            assert(self@.overrides.take(i + 1).last() == self@.overrides[i as int]);
        }
        assert(self@.overrides.take(n as int) =~= self@.overrides);
        match best {
            Some(k) => Some(&self.overrides[k]),
            None => None,
        }
    }

    /// The toolchain dispatch should use from `cwd`: the nearest ancestor
    /// override, else the global default.
    pub fn active_toolchain(&self, cwd: &Vec<String>) -> (r: Option<&ToolchainId>)
        ensures
            match r {
                Some(id) => active_toolchain_spec(self@, cwd.deep_view()) == Some(id@),
                None => active_toolchain_spec(self@, cwd.deep_view()) is None,
            },
    {
        match self.lookup_override(cwd) {
            Some(b) => Some(&b.toolchain),
            None => self.default_toolchain(),
        }
    }

    /// Looks the toolchain up in the installed registry.
    pub fn find_installed(&self, id: &ToolchainId) -> (r: Option<&InstalledToolchain>)
        ensures
            match r {
                Some(tc) => self@.installed.contains(tc@) && tc@.id == id@,
                None => forall|j: int|
                    0 <= j < self@.installed.len() ==> (#[trigger] self@.installed[j]).id != id@,
            },
    {
        let n = self.installed.len();
        for i in 0..n
            invariant
                n == self.installed.len(),
                forall|j: int| 0 <= j < i ==> (#[trigger] self@.installed[j]).id != id@,
        {
            if self.installed[i].id.same_as(id) {
                assert(self@.installed.contains(self@.installed[i as int]));
                return Some(&self.installed[i]);
            }
        }
        None
    }

    /// Records `tc` in the registry, replacing any entry with the same
    /// identifier; the entry moves to the end of the registry.
    pub fn upsert_installed(&mut self, tc: InstalledToolchain)
        ensures
            final(self)@ == (SettingsView {
                installed: installed_remove(old(self)@.installed, tc@.id).push(tc@),
                ..old(self)@
            }),
            old(self)@.wf() ==> final(self)@.wf(),
    {
        proof {
            if self@.wf() {
                lemma_installed_remove_wf(self@.installed, tc@.id);
            }
        }
        let id = tc.id.duplicate();
        self.remove_installed(&id);
        let ghost mid = self@.installed;
        self.installed.push(tc);
        assert(self@.installed =~= mid.push(self.installed[self.installed.len() - 1]@));
    }

    /// Removes the registry entry for `id`; returns whether one was removed.
    pub fn remove_installed(&mut self, id: &ToolchainId) -> (removed: bool)
        ensures
            final(self)@ == (SettingsView {
                installed: installed_remove(old(self)@.installed, id@),
                ..old(self)@
            }),
            removed <==> exists|i: int|
                0 <= i < old(self)@.installed.len() && (#[trigger] old(
                    self,
                )@.installed[i]).id == id@,
            old(self)@.wf() ==> final(self)@.wf(),
    {
        proof {
            if self@.wf() {
                lemma_installed_remove_wf(self@.installed, id@);
            }
        }
        let mut kept: Vec<InstalledToolchain> = Vec::new();
        let mut removed = false;
        let n = self.installed.len();
        let ghost orig = self@.installed;
        for i in 0..n
            invariant
                n == self.installed.len(),
                self@.installed == orig,
                kept.deep_view() =~= installed_remove(orig.take(i as int), id@),
                removed <==> exists|j: int| 0 <= j < i && (#[trigger] orig[j]).id == id@,
        {
            let ghost prev = kept.deep_view();
            let tc = &self.installed[i];
            if tc.id.same_as(id) {
                removed = true;
            } else {
                kept.push(clone_installed(tc));
                assert(kept.deep_view() =~= prev.push(orig[i as int]));
            }
            assert(orig.take(i + 1).drop_last() =~= orig.take(i as int));
        }
        assert(orig.take(n as int) =~= orig);
        self.installed = kept;
        removed
    }
}

/// An equal copy of a list of strings.
pub fn clone_strings(v: &Vec<String>) -> (r: Vec<String>)
    ensures
        r.deep_view() == v.deep_view(),
{
    let mut r: Vec<String> = Vec::new();
    let n = v.len();
    for i in 0..n
        invariant
            n == v.len(),
            r.deep_view() =~= v.deep_view().take(i as int),
    {
        let ghost prev = r.deep_view();
        r.push(v[i].clone());
        assert(r.deep_view() =~= prev.push(v.deep_view()[i as int]));
        assert(v.deep_view().take(i + 1).drop_last() =~= v.deep_view().take(i as int));
    }
    assert(v.deep_view().take(n as int) =~= v.deep_view());
    r
}

/// An equal copy of a registry entry.
pub fn clone_installed(tc: &InstalledToolchain) -> (r: InstalledToolchain)
    ensures
        r@ == tc@,
{
    InstalledToolchain {
        id: tc.id.duplicate(),
        dir: tc.dir.clone(),
        components: clone_strings(&tc.components),
        targets: clone_strings(&tc.targets),
        install_time: tc.install_time,
    }
}

/// Failures local to the settings store.
#[derive(Clone, Copy, PartialEq, Eq, Structural, Debug)]
pub enum SettingsError {
    /// The persisted document carries a schema version newer than this
    /// library understands.
    UnsupportedSchema { found: u64 },
}

} // verus!
