use rustup_core::dispatch::{component_for_bin, resolve, strip_exe_suffix, DispatchError};
use rustup_core::settings::{Settings, ToolchainId, InstalledToolchain, OverrideBinding};
use rustup_core::settings::{SettingsError, CURRENT_SCHEMA_VERSION};
use rustup_core::{dup_tools, is_proxyable_tools, tools};

fn s(x: &str) -> String {
    x.to_string()
}

fn path(parts: &[&str]) -> Vec<String> {
    parts.iter().map(|p| p.to_string()).collect()
}

#[test]
fn test_is_proxyable_tools() {
    for tool in tools() {
        assert!(is_proxyable_tools(tool).is_ok());
    }
    for tool in dup_tools() {
        assert!(is_proxyable_tools(tool).is_ok());
    }
    let message = "unknown proxy name: 'unknown-tool'; valid proxy names are 'rustc', \
        'rustdoc', 'cargo', 'rust-lldb', 'rust-gdb', 'rust-gdbgui', 'rls', \
        'cargo-clippy', 'clippy-driver', 'cargo-miri', 'rust-analyzer', 'rustfmt', 'cargo-fmt'";
    assert_eq!(is_proxyable_tools("unknown-tool").unwrap_err().to_string(), message);
}

#[test]
fn component_for_bin_maps_proxies() {
    assert_eq!(component_for_bin("rustc"), Some("rustc"));
    assert_eq!(component_for_bin("rustdoc"), Some("rustc"));
    assert_eq!(component_for_bin("rust-gdb"), Some("rustc"));
    assert_eq!(component_for_bin("cargo"), Some("cargo"));
    assert_eq!(component_for_bin("cargo-clippy"), Some("clippy"));
    assert_eq!(component_for_bin("clippy-driver"), Some("clippy"));
    assert_eq!(component_for_bin("cargo-miri"), Some("miri"));
    assert_eq!(component_for_bin("rustfmt"), Some("rustfmt"));
    assert_eq!(component_for_bin("cargo-fmt"), Some("rustfmt"));
    assert_eq!(component_for_bin("rust-analyzer"), Some("rust-analyzer"));
    assert_eq!(component_for_bin("not-a-tool"), None);
    for tool in tools() {
        assert!(component_for_bin(tool).is_some(), "no component for {tool}");
    }
    for tool in dup_tools() {
        assert!(component_for_bin(tool).is_some(), "no component for {tool}");
    }
}

#[test]
fn strip_exe_suffix_only_strips_matching_tail() {
    assert_eq!(strip_exe_suffix("rustc.exe", ".exe"), "rustc");
    assert_eq!(strip_exe_suffix("rustc", ".exe"), "rustc");
    assert_eq!(strip_exe_suffix("rustc", ""), "rustc");
    assert_eq!(strip_exe_suffix("cargo-fmt.exe", ".exe"), "cargo-fmt");
    assert_eq!(strip_exe_suffix(".exe", ".exe"), "");
}

fn full_toolchain(id: ToolchainId, dir: &str) -> InstalledToolchain {
    InstalledToolchain {
        id,
        dir: s(dir),
        components: vec![
            s("rustc"),
            s("cargo"),
            s("rls"),
            s("clippy"),
            s("miri"),
            s("rust-analyzer"),
            s("rustfmt"),
        ],
        targets: vec![s("x86_64-known-triple")],
        install_time: 1,
    }
}

fn stable_id() -> ToolchainId {
    ToolchainId::Official { channel: s("stable"), target: s("x86_64-known-triple") }
}

#[test]
fn resolve_succeeds_for_every_recognized_name() {
    let mut settings = Settings::new();
    settings.set_default(stable_id());
    settings.upsert_installed(full_toolchain(stable_id(), "/tc/stable"));
    let cwd = path(&["home", "user"]);
    for tool in tools() {
        let r = resolve(&settings, tool, &cwd);
        assert!(r.is_ok(), "resolution failed for {tool}");
    }
    for tool in dup_tools() {
        assert!(resolve(&settings, tool, &cwd).is_ok());
    }
    match resolve(&settings, "unknown-tool", &cwd) {
        Err(DispatchError::UnknownProxyName { message }) => {
            assert!(message.contains("'rustc'"));
            assert!(message.contains("'cargo-fmt'"));
        },
        _ => panic!("expected UnknownProxyName"),
    }
}

#[test]
fn resolve_builds_binary_path() {
    let mut settings = Settings::new();
    settings.set_default(stable_id());
    settings.upsert_installed(full_toolchain(stable_id(), "/tc/stable"));
    let (id, bin) = resolve(&settings, "rustc", &path(&["home"])).unwrap();
    assert!(id.same_as(&stable_id()));
    assert_eq!(bin, "/tc/stable/bin/rustc");
}

#[test]
fn resolve_without_any_toolchain_fails() {
    let settings = Settings::new();
    match resolve(&settings, "rustc", &path(&["home"])) {
        Err(DispatchError::NoToolchainInstalled) => (),
        _ => panic!("expected NoToolchainInstalled"),
    }
}

#[test]
fn resolve_prefers_nearest_override() {
    let near = ToolchainId::Custom { name: s("near") };
    let far = ToolchainId::Custom { name: s("far") };
    let mut settings = Settings::new();
    settings.set_default(stable_id());
    settings.upsert_installed(full_toolchain(stable_id(), "/tc/stable"));
    settings.upsert_installed(full_toolchain(near.duplicate(), "/tc/near"));
    settings.upsert_installed(full_toolchain(far.duplicate(), "/tc/far"));
    settings.add_override(path(&["home"]), far.duplicate());
    settings.add_override(path(&["home", "proj"]), near.duplicate());
    let cwd = path(&["home", "proj", "sub"]);

    let (id, _) = resolve(&settings, "rustc", &cwd).unwrap();
    assert!(id.same_as(&near));

    // Removing the nearest binding reverts to the next-nearest ancestor.
    assert!(settings.remove_override(&path(&["home", "proj"])));
    let (id, _) = resolve(&settings, "rustc", &cwd).unwrap();
    assert!(id.same_as(&far));

    // Removing that too reverts to the global default.
    assert!(settings.remove_override(&path(&["home"])));
    let (id, _) = resolve(&settings, "rustc", &cwd).unwrap();
    assert!(id.same_as(&stable_id()));
}

#[test]
fn resolve_override_missing_component() {
    // An override points at a toolchain that lacks the clippy component.
    let t = ToolchainId::Custom { name: s("pinned") };
    let mut settings = Settings::new();
    settings.set_default(stable_id());
    settings.upsert_installed(full_toolchain(stable_id(), "/tc/stable"));
    settings.upsert_installed(InstalledToolchain {
        id: t.duplicate(),
        dir: s("/tc/pinned"),
        components: vec![s("rustc"), s("cargo")],
        targets: vec![s("x86_64-known-triple")],
        install_time: 2,
    });
    settings.add_override(path(&["home", "proj"]), t.duplicate());
    let cwd = path(&["home", "proj", "src"]);
    match resolve(&settings, "cargo-clippy", &cwd) {
        Err(DispatchError::ComponentNotInstalled { toolchain, component }) => {
            assert!(toolchain.same_as(&t));
            assert_eq!(component, "clippy");
        },
        _ => panic!("expected ComponentNotInstalled"),
    }
}

#[test]
fn lookup_override_picks_nearest_binding() {
    let near = ToolchainId::Custom { name: s("near") };
    let far = ToolchainId::Custom { name: s("far") };
    let mut settings = Settings::new();
    settings.add_override(path(&["a"]), far.duplicate());
    settings.add_override(path(&["a", "b"]), near.duplicate());
    let b: &OverrideBinding = settings.lookup_override(&path(&["a", "b", "c"])).unwrap();
    assert!(b.toolchain.same_as(&near));
    assert!(settings.lookup_override(&path(&["elsewhere"])).is_none());
}

#[test]
fn analyzer_binary_needs_its_component() {
    // The analyzer binary maps to its own component; a toolchain without it
    // fails with the component-missing error, not silently.
    let mut settings = Settings::new();
    settings.set_default(stable_id());
    settings.upsert_installed(InstalledToolchain {
        id: stable_id(),
        dir: s("/tc/stable"),
        components: vec![s("rustc"), s("cargo")],
        targets: vec![s("x86_64-known-triple")],
        install_time: 1,
    });
    match resolve(&settings, "rust-analyzer", &path(&["home"])) {
        Err(DispatchError::ComponentNotInstalled { toolchain, component }) => {
            assert!(toolchain.same_as(&stable_id()));
            assert_eq!(component, "rust-analyzer");
        },
        _ => panic!("expected ComponentNotInstalled"),
    }
}

#[test]
fn settings_wf_check_spots_duplicates() {
    let mut settings = Settings::new();
    settings.add_override(path(&["a"]), stable_id());
    settings.upsert_installed(full_toolchain(stable_id(), "/tc/stable"));
    assert!(settings.wf_check());
    settings.overrides.push(OverrideBinding {
        dir: path(&["a"]),
        toolchain: ToolchainId::Custom { name: s("dup") },
    });
    assert!(!settings.wf_check());
}

#[test]
fn migrate_handles_schema_versions() {
    let mut old = Settings::new();
    old.schema_version = 1;
    assert!(old.migrate().is_ok());
    assert_eq!(old.schema_version, CURRENT_SCHEMA_VERSION);

    let mut future = Settings::new();
    future.schema_version = CURRENT_SCHEMA_VERSION + 1;
    match future.migrate() {
        Err(SettingsError::UnsupportedSchema { found }) => {
            assert_eq!(found, CURRENT_SCHEMA_VERSION + 1)
        },
        _ => panic!("expected UnsupportedSchema"),
    }
    assert_eq!(future.schema_version, CURRENT_SCHEMA_VERSION + 1);
}
