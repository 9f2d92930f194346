//! Proxy-name dispatch: the closed set of binary names the multiplexer
//! proxies, their mapping to toolchain components, and validation of an
//! invoked name.

use vstd::prelude::*;
use vstd::string::StringExecFns;
use crate::strutil::{str_eq, join_seq, join_comma, quoted, quote};
use crate::settings::{
    Settings, SettingsView, ToolchainId, ToolchainIdView, InstalledToolchainView,
    active_toolchain_spec,
};

verus! {

broadcast use vstd::string::group_string_axioms;

/// A named installable unit within a toolchain that provides one or more
/// proxied binaries.
#[derive(Clone, Copy, PartialEq, Eq, Structural, Debug)]
pub enum Component {
    Rustc,
    Cargo,
    Rls,
    Clippy,
    Miri,
    RustAnalyzer,
    Rustfmt,
}

impl Component {
    /// The component's name as it appears in a manifest and in the
    /// installed-component set of a toolchain.
    pub open spec fn name_spec(self) -> Seq<char> {
        match self {
            Component::Rustc => "rustc"@,
            Component::Cargo => "cargo"@,
            Component::Rls => "rls"@,
            Component::Clippy => "clippy"@,
            Component::Miri => "miri"@,
            Component::RustAnalyzer => "rust-analyzer"@,
            Component::Rustfmt => "rustfmt"@,
        }
    }

    pub fn as_str(self) -> (r: &'static str)
        ensures
            r@ == self.name_spec(),
    {
        match self {
            Component::Rustc => "rustc",
            Component::Cargo => "cargo",
            Component::Rls => "rls",
            Component::Clippy => "clippy",
            Component::Miri => "miri",
            Component::RustAnalyzer => "rust-analyzer",
            Component::Rustfmt => "rustfmt",
        }
    }
}

/// One of the binary names the multiplexer will proxy: the primary set plus
/// the secondary set of tools commonly also installed independently.
#[derive(Clone, Copy, PartialEq, Eq, Structural, Debug)]
pub enum ProxyName {
    Rustc,
    Rustdoc,
    Cargo,
    RustLldb,
    RustGdb,
    RustGdbgui,
    Rls,
    CargoClippy,
    ClippyDriver,
    CargoMiri,
    RustAnalyzer,
    Rustfmt,
    CargoFmt,
}

impl ProxyName {
    /// The binary name a user invokes.
    pub open spec fn name_spec(self) -> Seq<char> {
        match self {
            ProxyName::Rustc => "rustc"@,
            ProxyName::Rustdoc => "rustdoc"@,
            ProxyName::Cargo => "cargo"@,
            ProxyName::RustLldb => "rust-lldb"@,
            ProxyName::RustGdb => "rust-gdb"@,
            ProxyName::RustGdbgui => "rust-gdbgui"@,
            ProxyName::Rls => "rls"@,
            ProxyName::CargoClippy => "cargo-clippy"@,
            ProxyName::ClippyDriver => "clippy-driver"@,
            ProxyName::CargoMiri => "cargo-miri"@,
            ProxyName::RustAnalyzer => "rust-analyzer"@,
            ProxyName::Rustfmt => "rustfmt"@,
            ProxyName::CargoFmt => "cargo-fmt"@,
        }
    }

    pub fn as_str(self) -> (r: &'static str)
        ensures
            r@ == self.name_spec(),
    {
        match self {
            ProxyName::Rustc => "rustc",
            ProxyName::Rustdoc => "rustdoc",
            ProxyName::Cargo => "cargo",
            ProxyName::RustLldb => "rust-lldb",
            ProxyName::RustGdb => "rust-gdb",
            ProxyName::RustGdbgui => "rust-gdbgui",
            ProxyName::Rls => "rls",
            ProxyName::CargoClippy => "cargo-clippy",
            ProxyName::ClippyDriver => "clippy-driver",
            ProxyName::CargoMiri => "cargo-miri",
            ProxyName::RustAnalyzer => "rust-analyzer",
            ProxyName::Rustfmt => "rustfmt",
            ProxyName::CargoFmt => "cargo-fmt",
        }
    }

    /// Whether the name belongs to the secondary set: tools commonly
    /// installed by the build tool as well, which are dispatched with extra
    /// care so a user's independent installation is not overwritten.
    pub open spec fn is_dup_spec(self) -> bool {
        match self {
            ProxyName::RustAnalyzer => true,
            ProxyName::Rustfmt => true,
            ProxyName::CargoFmt => true,
            _ => false,
        }
    }

    /// The component that provides this binary: every proxy name maps
    /// deterministically to one component.
    pub open spec fn component_spec(self) -> Component {
        match self {
            ProxyName::Rustc => Component::Rustc,
            ProxyName::Rustdoc => Component::Rustc,
            ProxyName::Cargo => Component::Cargo,
            ProxyName::RustLldb => Component::Rustc,
            ProxyName::RustGdb => Component::Rustc,
            ProxyName::RustGdbgui => Component::Rustc,
            ProxyName::Rls => Component::Rls,
            ProxyName::CargoClippy => Component::Clippy,
            ProxyName::ClippyDriver => Component::Clippy,
            ProxyName::CargoMiri => Component::Miri,
            ProxyName::RustAnalyzer => Component::RustAnalyzer,
            ProxyName::Rustfmt => Component::Rustfmt,
            ProxyName::CargoFmt => Component::Rustfmt,
        }
    }

    pub fn component(self) -> (r: Component)
        ensures
            r == self.component_spec(),
    {
        match self {
            ProxyName::Rustc => Component::Rustc,
            ProxyName::Rustdoc => Component::Rustc,
            ProxyName::Cargo => Component::Cargo,
            ProxyName::RustLldb => Component::Rustc,
            ProxyName::RustGdb => Component::Rustc,
            ProxyName::RustGdbgui => Component::Rustc,
            ProxyName::Rls => Component::Rls,
            ProxyName::CargoClippy => Component::Clippy,
            ProxyName::ClippyDriver => Component::Clippy,
            ProxyName::CargoMiri => Component::Miri,
            ProxyName::RustAnalyzer => Component::RustAnalyzer,
            ProxyName::Rustfmt => Component::Rustfmt,
            ProxyName::CargoFmt => Component::Rustfmt,
        }
    }
}

/// All proxy names in their canonical order: the primary set, then the
/// secondary set.
pub open spec fn all_proxy_names() -> Seq<ProxyName> {
    seq![
        ProxyName::Rustc,
        ProxyName::Rustdoc,
        ProxyName::Cargo,
        ProxyName::RustLldb,
        ProxyName::RustGdb,
        ProxyName::RustGdbgui,
        ProxyName::Rls,
        ProxyName::CargoClippy,
        ProxyName::ClippyDriver,
        ProxyName::CargoMiri,
        ProxyName::RustAnalyzer,
        ProxyName::Rustfmt,
        ProxyName::CargoFmt,
    ]
}

/// Whether `s` is one of the recognized proxy names.
pub open spec fn is_proxy_name(s: Seq<char>) -> bool {
    exists|p: ProxyName| s == p.name_spec()
}

pub fn all_proxies() -> (r: Vec<ProxyName>)
    ensures
        r@ == all_proxy_names(),
{
    let v = vec![
        ProxyName::Rustc,
        ProxyName::Rustdoc,
        ProxyName::Cargo,
        ProxyName::RustLldb,
        ProxyName::RustGdb,
        ProxyName::RustGdbgui,
        ProxyName::Rls,
        ProxyName::CargoClippy,
        ProxyName::ClippyDriver,
        ProxyName::CargoMiri,
        ProxyName::RustAnalyzer,
        ProxyName::Rustfmt,
        ProxyName::CargoFmt,
    ];
    assert(v@ =~= all_proxy_names());
    v
}

/// The primary proxied binary names, in canonical order.
pub fn tools() -> (r: Vec<&'static str>)
    ensures
        r.deep_view() == all_proxy_names().filter(|p: ProxyName| !p.is_dup_spec())
            .map_values(|p: ProxyName| p.name_spec()),
{
    let v = vec![
        "rustc",
        "rustdoc",
        "cargo",
        "rust-lldb",
        "rust-gdb",
        "rust-gdbgui",
        "rls",
        "cargo-clippy",
        "clippy-driver",
        "cargo-miri",
    ];
    proof {
        reveal_with_fuel(Seq::filter, 14);
        assert(v.deep_view() =~= all_proxy_names().filter(|p: ProxyName| !p.is_dup_spec())
            .map_values(|p: ProxyName| p.name_spec()));
    }
    v
}

/// The secondary proxied binary names (tools commonly also installed by the
/// build tool itself), in canonical order.
pub fn dup_tools() -> (r: Vec<&'static str>)
    ensures
        r.deep_view() == all_proxy_names().filter(|p: ProxyName| p.is_dup_spec())
            .map_values(|p: ProxyName| p.name_spec()),
{
    let v = vec!["rust-analyzer", "rustfmt", "cargo-fmt"];
    proof {
        reveal_with_fuel(Seq::filter, 14);
        assert(v.deep_view() =~= all_proxy_names().filter(|p: ProxyName| p.is_dup_spec())
            .map_values(|p: ProxyName| p.name_spec()));
    }
    v
}

/// Parses an invoked binary name into the closed proxy-name set.
pub fn parse_proxy_name(s: &str) -> (r: Option<ProxyName>)
    ensures
        match r {
            Some(p) => s@ == p.name_spec(),
            None => !is_proxy_name(s@),
        },
{
    if str_eq(s, "rustc") {
        Some(ProxyName::Rustc)
    } else if str_eq(s, "rustdoc") {
        Some(ProxyName::Rustdoc)
    } else if str_eq(s, "cargo") {
        Some(ProxyName::Cargo)
    } else if str_eq(s, "rust-lldb") {
        Some(ProxyName::RustLldb)
    } else if str_eq(s, "rust-gdb") {
        Some(ProxyName::RustGdb)
    } else if str_eq(s, "rust-gdbgui") {
        Some(ProxyName::RustGdbgui)
    } else if str_eq(s, "rls") {
        Some(ProxyName::Rls)
    } else if str_eq(s, "cargo-clippy") {
        Some(ProxyName::CargoClippy)
    } else if str_eq(s, "clippy-driver") {
        Some(ProxyName::ClippyDriver)
    } else if str_eq(s, "cargo-miri") {
        Some(ProxyName::CargoMiri)
    } else if str_eq(s, "rust-analyzer") {
        Some(ProxyName::RustAnalyzer)
    } else if str_eq(s, "rustfmt") {
        Some(ProxyName::Rustfmt)
    } else if str_eq(s, "cargo-fmt") {
        Some(ProxyName::CargoFmt)
    } else {
        proof {
            assert forall|p: ProxyName| s@ != p.name_spec() by {
                match p {
                    ProxyName::Rustc => assert(s@ != "rustc"@),
                    ProxyName::Rustdoc => assert(s@ != "rustdoc"@),
                    ProxyName::Cargo => assert(s@ != "cargo"@),
                    ProxyName::RustLldb => assert(s@ != "rust-lldb"@),
                    ProxyName::RustGdb => assert(s@ != "rust-gdb"@),
                    ProxyName::RustGdbgui => assert(s@ != "rust-gdbgui"@),
                    ProxyName::Rls => assert(s@ != "rls"@),
                    ProxyName::CargoClippy => assert(s@ != "cargo-clippy"@),
                    ProxyName::ClippyDriver => assert(s@ != "clippy-driver"@),
                    ProxyName::CargoMiri => assert(s@ != "cargo-miri"@),
                    ProxyName::RustAnalyzer => assert(s@ != "rust-analyzer"@),
                    ProxyName::Rustfmt => assert(s@ != "rustfmt"@),
                    ProxyName::CargoFmt => assert(s@ != "cargo-fmt"@),
                }
            }
        }
        None
    }
}

/// The component that provides the given binary name, or `None` when the
/// name is not a recognized proxy name. Callers strip the platform
/// executable suffix first (see `strip_exe_suffix`).
pub fn component_for_bin(binary: &str) -> (r: Option<&'static str>)
    ensures
        match r {
            Some(c) => exists|p: ProxyName|
                binary@ == p.name_spec() && c@ == (#[trigger] p.component_spec()).name_spec(),
            None => !is_proxy_name(binary@),
        },
{
    match parse_proxy_name(binary) {
        Some(p) => Some(p.component().as_str()),
        None => None,
    }
}

/// `binary` with the platform executable suffix removed when it ends with
/// one; the suffix (empty on most platforms) is handed in by the caller, the
/// one place that may ask the operating system for it.
pub fn strip_exe_suffix<'a>(binary: &'a str, exe_suffix: &str) -> (r: &'a str)
    ensures
        ({
            let b = binary@;
            let e = exe_suffix@;
            if e.len() > 0 && e.len() <= b.len() && b.subrange(b.len() - e.len(), b.len() as int)
                == e {
                r@ == b.subrange(0, b.len() - e.len())
            } else {
                r@ == b
            }
        }),
{
    let blen = vstd::string::StrSliceExecFns::unicode_len(binary);
    let elen = vstd::string::StrSliceExecFns::unicode_len(exe_suffix);
    if elen == 0 || elen > blen {
        return binary;
    }
    let tail = vstd::string::StrSliceExecFns::substring_char(binary, blen - elen, blen);
    if str_eq(tail, exe_suffix) {
        vstd::string::StrSliceExecFns::substring_char(binary, 0, blen - elen)
    } else {
        binary
    }
}

/// Distinct proxy names are invoked by distinct binary names.
pub proof fn lemma_proxy_name_injective(p: ProxyName, q: ProxyName)
    ensures
        p.name_spec() == q.name_spec() ==> p == q,
{
    reveal_strlit("rustc");
    reveal_strlit("rustdoc");
    reveal_strlit("cargo");
    reveal_strlit("rust-lldb");
    reveal_strlit("rust-gdb");
    reveal_strlit("rust-gdbgui");
    reveal_strlit("rls");
    reveal_strlit("cargo-clippy");
    reveal_strlit("clippy-driver");
    reveal_strlit("cargo-miri");
    reveal_strlit("rust-analyzer");
    reveal_strlit("rustfmt");
    reveal_strlit("cargo-fmt");
    assert(("rustc"@).len() == 5);
    assert(("rustdoc"@).len() == 7);
    assert(("cargo"@).len() == 5);
    assert(("rust-lldb"@).len() == 9);
    assert(("rust-gdb"@).len() == 8);
    assert(("rust-gdbgui"@).len() == 11);
    assert(("rls"@).len() == 3);
    assert(("cargo-clippy"@).len() == 12);
    assert(("clippy-driver"@).len() == 13);
    assert(("cargo-miri"@).len() == 10);
    assert(("rust-analyzer"@).len() == 13);
    assert(("rustfmt"@).len() == 7);
    assert(("cargo-fmt"@).len() == 9);
    assert(("rustc"@)[0] == 'r');
    assert(("cargo"@)[0] == 'c');
    assert(("rustdoc"@)[4] == 'd');
    assert(("rustfmt"@)[4] == 'f');
    assert(("rust-lldb"@)[0] == 'r');
    assert(("cargo-fmt"@)[0] == 'c');
    assert(("clippy-driver"@)[0] == 'c');
    assert(("rust-analyzer"@)[0] == 'r');
}

/// The diagnostic produced for a name outside the recognized set: it
/// enumerates every valid proxy name, primary then secondary.
pub open spec fn unknown_proxy_msg(tool: Seq<char>) -> Seq<char> {
    "unknown proxy name: "@ + quoted(tool) + "; valid proxy names are "@
        + join_seq(all_proxy_names().map_values(|p: ProxyName| quoted(p.name_spec())), ", "@)
}

/// Validates that the given name is one of the proxied binaries; otherwise
/// reports a diagnostic enumerating every valid name.
pub fn is_proxyable_tools(tool: &str) -> (r: Result<(), String>)
    ensures
        r is Ok <==> is_proxy_name(tool@),
        r matches Err(m) ==> m@ == unknown_proxy_msg(tool@),
{
    match parse_proxy_name(tool) {
        Some(_) => Ok(()),
        None => {
            let all = all_proxies();
            let mut quoted_names: Vec<String> = Vec::new();
            let mut i: usize = 0;
            while i < all.len()
                invariant
                    i <= all.len(),
                    all@ == all_proxy_names(),
                    quoted_names.deep_view() =~= all_proxy_names().take(i as int)
                        .map_values(|p: ProxyName| quoted(p.name_spec())),
                decreases all.len() - i,
            {
                let name = all[i].as_str();
                let q = quote(name);
                let ghost prev_dv = quoted_names.deep_view();
                quoted_names.push(q);
                proof {
                    assert(quoted_names.deep_view() =~= prev_dv.push(
                        quoted(all_proxy_names()[i as int].name_spec())));
                    assert(all_proxy_names().take(i + 1) =~= all_proxy_names().take(i as int)
                        .push(all_proxy_names()[i as int]));
                    assert(quoted_names.deep_view() =~= all_proxy_names().take(i + 1)
                        .map_values(|p: ProxyName| quoted(p.name_spec())));
                }
                i += 1;
            }
            assert(quoted_names.deep_view() =~= all_proxy_names()
                .map_values(|p: ProxyName| quoted(p.name_spec())));
            let list = join_comma(&quoted_names);
            let mut msg = String::from_str("unknown proxy name: ");
            let q = quote(tool);
            msg.append(q.as_str());
            msg.append("; valid proxy names are ");
            msg.append(list.as_str());
            assert(msg@ =~= unknown_proxy_msg(tool@));
            Err(msg)
        },
    }
}

/// A dispatch failure: each case carries what its diagnostic names.
#[derive(Debug)]
pub enum DispatchError {
    /// The invoked name is not in the recognized proxy set; the message
    /// enumerates every valid name.
    UnknownProxyName { message: String },
    /// No override matches and no default toolchain is set, or the resolved
    /// toolchain is not in the installed registry.
    NoToolchainInstalled,
    /// The resolved toolchain is installed but lacks the component that
    /// provides the invoked binary.
    ComponentNotInstalled { toolchain: ToolchainId, component: String },
}

pub enum DispatchErrorView {
    UnknownProxyName { message: Seq<char> },
    NoToolchainInstalled,
    ComponentNotInstalled { toolchain: ToolchainIdView, component: Seq<char> },
}

impl View for DispatchError {
    type V = DispatchErrorView;

    open spec fn view(&self) -> DispatchErrorView {
        match self {
            DispatchError::UnknownProxyName { message } => DispatchErrorView::UnknownProxyName {
                message: message@,
            },
            DispatchError::NoToolchainInstalled => DispatchErrorView::NoToolchainInstalled,
            DispatchError::ComponentNotInstalled { toolchain, component } =>
                DispatchErrorView::ComponentNotInstalled {
                toolchain: toolchain@,
                component: component@,
            },
        }
    }
}

/// Full description of what `resolve` returns for the given settings,
/// invoked name and working directory.
pub open spec fn resolve_post(
    s: SettingsView,
    tool: Seq<char>,
    cwd: Seq<Seq<char>>,
    r: Result<(ToolchainIdView, Seq<char>), DispatchErrorView>,
) -> bool {
    match r {
        Result::Err(DispatchErrorView::UnknownProxyName { message }) => !is_proxy_name(tool)
            && message == unknown_proxy_msg(tool),
        Result::Err(DispatchErrorView::NoToolchainInstalled) => is_proxy_name(tool) && match
            active_toolchain_spec(s, cwd) {
            Some(id) => forall|j: int|
                0 <= j < s.installed.len() ==> (#[trigger] s.installed[j]).id != id,
            None => true,
        },
        Result::Err(DispatchErrorView::ComponentNotInstalled { toolchain, component }) => {
            &&& is_proxy_name(tool)
            &&& active_toolchain_spec(s, cwd) == Some(toolchain)
            &&& exists|tc: InstalledToolchainView|
                #[trigger] s.installed.contains(tc) && tc.id == toolchain
                    && !tc.components.contains(component)
            &&& exists|q: ProxyName|
                tool == q.name_spec() && component == (#[trigger] q.component_spec()).name_spec()
        },
        Result::Ok((id, path)) => {
            &&& is_proxy_name(tool)
            &&& active_toolchain_spec(s, cwd) == Some(id)
            &&& exists|tc: InstalledToolchainView|
                #[trigger] s.installed.contains(tc) && tc.id == id && path == tc.dir + "/bin/"@
                    + tool && (forall|q: ProxyName|
                    tool == q.name_spec() ==> tc.components.contains(
                        (#[trigger] q.component_spec()).name_spec(),
                    ))
        },
    }
}

/// The path of the real binary inside a toolchain's directory.
pub fn bin_path(dir: &String, tool: &str) -> (r: String)
    ensures
        r@ == dir@ + "/bin/"@ + tool@,
{
    let mut p = dir.clone();
    p.append("/bin/");
    p.append(tool);
    assert(p@ =~= dir@ + "/bin/"@ + tool@);
    p
}

/// Resolves an invoked proxy binary name and working directory to the
/// installed toolchain that should serve it and the path of the real binary.
/// Side-effect free: reads only the settings value.
pub fn resolve(settings: &Settings, tool: &str, cwd: &Vec<String>) -> (r: Result<
    (ToolchainId, String),
    DispatchError,
>)
    requires
        settings@.wf(),
    ensures
        resolve_post(
            settings@,
            tool@,
            cwd.deep_view(),
            match r {
                Result::Ok((ref id, ref path)) => Result::Ok((id@, path@)),
                Result::Err(ref e) => Result::Err(e@),
            },
        ),
{
    let p = match parse_proxy_name(tool) {
        Some(p) => p,
        None => {
            match is_proxyable_tools(tool) {
                Err(m) => {
                    return Err(DispatchError::UnknownProxyName { message: m });
                },
                Ok(()) => {
                    proof {
                        assert(false);
                    }
                    return Err(DispatchError::NoToolchainInstalled);
                },
            }
        },
    };
    let id = match settings.active_toolchain(cwd) {
        Some(id) => id.duplicate(),
        None => {
            return Err(DispatchError::NoToolchainInstalled);
        },
    };
    let tc = match settings.find_installed(&id) {
        Some(tc) => tc,
        None => {
            return Err(DispatchError::NoToolchainInstalled);
        },
    };
    let comp_name = p.component().as_str();
    if tc.has_component(comp_name) {
        let path = bin_path(&tc.dir, tool);
        proof {
            assert forall|q: ProxyName| tool@ == q.name_spec() implies tc@.components.contains(
                (#[trigger] q.component_spec()).name_spec(),
            ) by {
                lemma_proxy_name_injective(p, q);
            }
        }
        Ok((id, path))
    } else {
        Err(DispatchError::ComponentNotInstalled {
            toolchain: id,
            component: String::from_str(comp_name),
        })
    }
}

/// A registry holds at most one entry per toolchain identifier.
pub proof fn lemma_installed_unique(s: SettingsView, a: InstalledToolchainView, b: InstalledToolchainView)
    requires
        s.wf(),
        s.installed.contains(a),
        s.installed.contains(b),
        a.id == b.id,
    ensures
        a == b,
{
    let i = choose|i: int| 0 <= i < s.installed.len() && s.installed[i] == a;
    let j = choose|j: int| 0 <= j < s.installed.len() && s.installed[j] == b;
    if i != j {
        assert(s.installed[i].id != s.installed[j].id);
    }
}

/// Law: for every recognized proxy name, resolution succeeds whenever the
/// active toolchain is installed and carries the component that provides the
/// binary; and for every name outside the recognized set it fails with the
/// diagnostic that enumerates all valid names.
pub proof fn lemma_resolve_total(
    s: SettingsView,
    tool: Seq<char>,
    cwd: Seq<Seq<char>>,
    r: Result<(ToolchainIdView, Seq<char>), DispatchErrorView>,
    p: ProxyName,
    tc: InstalledToolchainView,
)
    requires
        s.wf(),
        resolve_post(s, tool, cwd, r),
        tool == p.name_spec(),
        active_toolchain_spec(s, cwd) == Some(tc.id),
        s.installed.contains(tc),
        tc.components.contains(p.component_spec().name_spec()),
    ensures
        r is Ok,
{
    match r {
        Result::Ok(_) => (),
        Result::Err(DispatchErrorView::UnknownProxyName { .. }) => assert(is_proxy_name(tool)),
        Result::Err(DispatchErrorView::NoToolchainInstalled) => {
            let i = choose|i: int| 0 <= i < s.installed.len() && s.installed[i] == tc;
            assert(s.installed[i].id == tc.id);
        },
        Result::Err(DispatchErrorView::ComponentNotInstalled { toolchain, component }) => {
            let tc2 = choose|tc2: InstalledToolchainView|
                #[trigger] s.installed.contains(tc2) && tc2.id == toolchain
                    && !tc2.components.contains(component);
            lemma_installed_unique(s, tc, tc2);
            let q = choose|q: ProxyName|
                tool == q.name_spec() && component == (#[trigger] q.component_spec()).name_spec();
            lemma_proxy_name_injective(p, q);
        },
    }
}

/// Law: for a name outside the recognized proxy set, resolution fails with
/// the diagnostic that enumerates every valid proxy name.
pub proof fn lemma_resolve_rejects_unknown(
    s: SettingsView,
    tool: Seq<char>,
    cwd: Seq<Seq<char>>,
    r: Result<(ToolchainIdView, Seq<char>), DispatchErrorView>,
)
    requires
        resolve_post(s, tool, cwd, r),
        !is_proxy_name(tool),
    ensures
        r == Result::<(ToolchainIdView, Seq<char>), DispatchErrorView>::Err(
            DispatchErrorView::UnknownProxyName { message: unknown_proxy_msg(tool) },
        ),
{
}

} // verus!
