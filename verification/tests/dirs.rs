use vite_plus::path_list::Platform;
use vite_plus::cmdline::{parse_shim_pointer, ShimLayout, ShimPointer};
use vite_plus::dirs::{
    dir_sources, home_from_env, is_windows_trampoline, legacy_single_root, persisted_dir_envs, resolve_dirs,
    shim_pointer_data, shim_pointer_file_name, single_root_dirs, validate_vp_dir_env,
    DirEnvOverrides, DirSources, PathOverride, VpDirEnvError, VpDirs, VpDirsLayout,
    PathOverride::{Relative, Unset},
    SHIM_POINTER_HEADER,
};

#[test]
fn shim_pointer_file_name_uses_stem_and_extension() {
    assert_eq!(shim_pointer_file_name("vp"), "vp.shim");
    assert_eq!(shim_pointer_file_name("node"), "node.shim");
}

#[test]
fn layout_names() {
    assert_eq!(VpDirsLayout::SingleRoot.as_str(), "single-root");
    assert_eq!(VpDirsLayout::Split.as_str(), "split");
}

fn split_dirs() -> VpDirs {
    VpDirs {
        bin: "/h/.local/share/vite-plus/bin".into(),
        data: "/h/.local/share/vite-plus".into(),
        cache: "/h/.cache/vite-plus".into(),
        config: "/h/.config/vite-plus".into(),
        state: "/h/.local/state/vite-plus".into(),
        layout: VpDirsLayout::Split,
    }
}

#[test]
fn write_shim_pointer_records_data_root_per_exe() {
    let dirs = split_dirs();
    let contents = dirs.shim_pointer_contents();
    assert_eq!(
        contents,
        format!(
            "{SHIM_POINTER_HEADER}\nlayout=split\ndata={}\ncache={}\n",
            dirs.data, dirs.cache
        )
    );
    assert_eq!(
        parse_shim_pointer(contents.as_bytes()),
        Some(ShimPointer { data: dirs.data.clone(), layout: ShimLayout::Split { cache: dirs.cache.clone() } })
    );
}

#[test]
fn windows_trampoline_ownership_requires_matching_sidecar() {
    let dirs = split_dirs();
    assert!(!dirs.owns_windows_trampoline(true, None));
    assert!(!is_windows_trampoline(true, None));
    assert!(!dirs.owns_windows_trampoline(true, Some(b"C:\\unrelated-data\n")));
    assert!(!is_windows_trampoline(true, Some(b"C:\\unrelated-data\n")));
    let other = format!("\u{feff}{SHIM_POINTER_HEADER}\nlayout=single-root\ndata=other-install\n");
    assert!(!dirs.owns_windows_trampoline(true, Some(other.as_bytes())));
    assert!(is_windows_trampoline(true, Some(other.as_bytes())));
    let own = dirs.shim_pointer_contents();
    assert!(dirs.owns_windows_trampoline(true, Some(own.as_bytes())));
    assert!(!dirs.owns_windows_trampoline(false, Some(own.as_bytes())));
}

#[test]
fn windows_trampoline_ownership_rejects_unversioned_sidecar() {
    let dirs = split_dirs();
    let text = format!("{}\n", dirs.data);
    assert!(!dirs.owns_windows_trampoline(true, Some(text.as_bytes())));
    assert_eq!(shim_pointer_data(""), None);
}

#[test]
fn legacy_single_root_defaults_to_home_root() {
    let dirs = legacy_single_root("/home/u", None);
    assert_eq!(dirs.data, "/home/u/.vite-plus");
    assert_eq!(dirs.bin, "/home/u/.vite-plus/bin");
    assert_eq!(dirs.cache, "/home/u/.vite-plus/cache");
    assert_eq!(dirs.config, "/home/u/.vite-plus");
    assert_eq!(dirs.state, "/home/u/.vite-plus");
    assert_eq!(dirs.layout(), VpDirsLayout::SingleRoot);
}

#[test]
fn legacy_single_root_honors_vp_home() {
    let dirs = legacy_single_root("/home/u", Some("/home/u/custom-root"));
    assert_eq!(dirs.data, "/home/u/custom-root");
    assert_eq!(dirs.bin, "/home/u/custom-root/bin");
    assert_eq!(dirs.config, "/home/u/custom-root");
    assert_eq!(dirs.layout(), VpDirsLayout::SingleRoot);
}

fn sources(home: &str) -> DirSources {
    DirSources {
        home: home.into(),
        vp_home: None,
        user_home_install: false,
        split: None,
        xdg_data: None,
        xdg_cache: None,
        xdg_config: None,
        xdg_state: None,
    }
}

#[test]
fn platform_default_proposes_xdg_style_paths_under_home() {
    assert_eq!(resolve_dirs(&sources("/home/u")), VpDirs {
        bin: "/home/u/.local/share/vite-plus/bin".into(),
        data: "/home/u/.local/share/vite-plus".into(),
        cache: "/home/u/.cache/vite-plus".into(),
        config: "/home/u/.config/vite-plus".into(),
        state: "/home/u/.local/state/vite-plus".into(),
        layout: VpDirsLayout::Split,
    });
}

#[test]
fn vp_home_set_pins_single_root_mapping() {
    let mut s = sources("/home/u");
    s.vp_home = Some("/vp/home".into());
    s.split = Some(("/b".into(), "/d".into(), "/c".into()));
    assert_eq!(resolve_dirs(&s), single_root_dirs("/vp/home"));
    let mut s = sources("/home/u");
    s.user_home_install = true;
    assert_eq!(resolve_dirs(&s), single_root_dirs("/home/u/.vite-plus"));
}

#[test]
fn xdg_and_split_group_resolve_categories() {
    let mut s = sources("/home/u");
    s.xdg_data = Some("/xdg/data".into());
    s.xdg_state = Some("/xdg/state/".into());
    let d = resolve_dirs(&s);
    assert_eq!(d.data, "/xdg/data/vite-plus");
    assert_eq!(d.bin, "/xdg/data/vite-plus/bin");
    assert_eq!(d.state, "/xdg/state/vite-plus");
    s.split = Some(("/b".into(), "/d".into(), "/c".into()));
    let d = resolve_dirs(&s);
    assert_eq!((d.bin.as_str(), d.data.as_str(), d.cache.as_str()), ("/b", "/d", "/c"));
    assert_eq!(d.config, "/home/u/.config/vite-plus");
    assert_eq!(d.layout, VpDirsLayout::Split);
}

fn overrides(home: PathOverride, bin: PathOverride, data: PathOverride, cache: PathOverride) -> DirEnvOverrides {
    DirEnvOverrides { home, bin, data, cache }
}

fn abs(p: &str) -> PathOverride {
    PathOverride::classify(Some(p), true)
}

#[test]
fn installer_validation_accepts_valid_overrides() {
    assert_eq!(validate_vp_dir_env(&overrides(Unset, Unset, Unset, Unset)), Ok(()));
    assert_eq!(validate_vp_dir_env(&overrides(abs("/r"), Unset, Unset, Unset)), Ok(()));
    assert_eq!(validate_vp_dir_env(&overrides(Unset, abs("/b"), abs("/d"), abs("/c"))), Ok(()));
}

#[test]
fn installer_validation_rejects_incomplete_split_groups() {
    let cases = [
        (abs("/b"), Unset, Unset),
        (Unset, abs("/d"), Unset),
        (Unset, Unset, abs("/c")),
        (abs("/b"), abs("/d"), Unset),
        (abs("/b"), Unset, abs("/c")),
        (Unset, abs("/d"), abs("/c")),
    ];
    for (b, d, c) in cases {
        assert_eq!(validate_vp_dir_env(&overrides(Unset, b, d, c)), Err(VpDirEnvError::IncompleteSplitGroup));
    }
}

#[test]
fn installer_validation_rejects_relative_overrides() {
    assert_eq!(
        validate_vp_dir_env(&overrides(Relative, Unset, Unset, Unset)),
        Err(VpDirEnvError::RelativePath { name: "VP_HOME" })
    );
    assert_eq!(
        validate_vp_dir_env(&overrides(Unset, Relative, abs("/d"), abs("/c"))),
        Err(VpDirEnvError::RelativePath { name: "VP_BIN_DIR" })
    );
    assert_eq!(
        validate_vp_dir_env(&overrides(Unset, abs("/b"), Relative, abs("/c"))),
        Err(VpDirEnvError::RelativePath { name: "VP_DATA_DIR" })
    );
    assert_eq!(
        validate_vp_dir_env(&overrides(Unset, abs("/b"), abs("/d"), Relative)),
        Err(VpDirEnvError::RelativePath { name: "VP_CACHE_DIR" })
    );
    assert_eq!(
        VpDirEnvError::RelativePath { name: "VP_HOME" }.message(),
        "Set VP_HOME to an absolute path."
    );
}

#[test]
fn empty_override_counts_as_unset() {
    assert_eq!(PathOverride::classify(Some(""), false), PathOverride::Unset);
    assert_eq!(PathOverride::classify(Some("rel"), false), PathOverride::Relative);
}

#[test]
fn dir_envs_vp_home_only() {
    assert!(persisted_dir_envs(None).is_empty());
    assert_eq!(persisted_dir_envs(Some("/r")), vec![("VP_HOME", "/r".to_string())]);
}


fn env_sources(
    home: &str,
    o: &DirEnvOverrides,
    install: bool,
    xdg: [&PathOverride; 4],
) -> DirSources {
    dir_sources(home, o, install, xdg[0], xdg[1], xdg[2], xdg[3])
}

const NO_XDG: [&PathOverride; 4] = [&Unset, &Unset, &Unset, &Unset];

#[test]
fn vp_envs_reads_absolute_category_paths() {
    let o = overrides(Unset, abs("/r/bin"), abs("/r/data"), abs("/r/cache"));
    assert_eq!(o.split_dirs(), Some(("/r/bin".into(), "/r/data".into(), "/r/cache".into())));
    let d = resolve_dirs(&env_sources("/r", &o, false, NO_XDG));
    assert_eq!((d.bin.as_str(), d.data.as_str(), d.cache.as_str()), ("/r/bin", "/r/data", "/r/cache"));
}

#[test]
fn incomplete_vp_dir_group_has_no_effect() {
    let o = overrides(Unset, Unset, abs("/r/data"), Unset);
    assert_eq!(o.split_dirs(), None);
    let d = resolve_dirs(&env_sources("/r", &o, false, NO_XDG));
    assert_eq!(d.data, "/r/.local/share/vite-plus");
}

#[test]
fn relative_vp_dir_invalidates_the_group() {
    let o = overrides(Unset, Relative, abs("/r/data"), abs("/r/cache"));
    assert_eq!(o.split_dirs(), None);
    assert!(env_sources("/r", &o, false, NO_XDG).split.is_none());
}

#[test]
fn vp_envs_drops_relative_and_unset() {
    let o = overrides(Unset, Relative, Unset, Relative);
    assert_eq!(o.split_dirs(), None);
}

#[test]
fn user_home_maps_categories_to_single_root_layout() {
    let o = overrides(Unset, Unset, Unset, Unset);
    let d = resolve_dirs(&env_sources("/h", &o, true, NO_XDG));
    assert_eq!(d.bin, "/h/.vite-plus/bin");
    assert_eq!(d.data, "/h/.vite-plus");
    assert_eq!(d.cache, "/h/.vite-plus/cache");
    assert_eq!(d.config, "/h/.vite-plus");
    assert_eq!(d.state, "/h/.vite-plus");
    assert_eq!(d.layout, VpDirsLayout::SingleRoot);
}

#[test]
fn user_home_abstains_when_root_missing() {
    let o = overrides(Unset, Unset, Unset, Unset);
    let d = resolve_dirs(&env_sources("/h", &o, false, NO_XDG));
    assert_eq!(d.layout, VpDirsLayout::Split);
    assert_eq!(d.data, "/h/.local/share/vite-plus");
}

#[test]
fn user_home_abstains_for_stray_root_without_current() {
    // A `~/.vite-plus` tree without a `current` link is no install.
    let o = overrides(Unset, Unset, Unset, Unset);
    let d = resolve_dirs(&env_sources("/h", &o, false, NO_XDG));
    assert_ne!(d.data, "/h/.vite-plus");
}

#[test]
fn user_home_accepts_dangling_current_link() {
    // The link is only checked to exist, not followed.
    let o = overrides(Unset, Unset, Unset, Unset);
    let d = resolve_dirs(&env_sources("/h", &o, true, NO_XDG));
    assert_eq!(d.data, "/h/.vite-plus");
}

#[test]
fn xdg_resolves_all_categories() {
    let o = overrides(Unset, Unset, Unset, Unset);
    let (data, cache, config, state) =
        (abs("/r/data-home"), abs("/r/cache-home"), abs("/r/config-home"), abs("/r/state-home"));
    let d = resolve_dirs(&env_sources("/r", &o, false, [&data, &cache, &config, &state]));
    assert_eq!(d.bin, "/r/data-home/vite-plus/bin");
    assert_eq!(d.data, "/r/data-home/vite-plus");
    assert_eq!(d.cache, "/r/cache-home/vite-plus");
    assert_eq!(d.config, "/r/config-home/vite-plus");
    assert_eq!(d.state, "/r/state-home/vite-plus");
}

#[test]
fn xdg_bin_is_owned_by_the_data_root() {
    let o = overrides(Unset, Unset, Unset, Unset);
    let data = abs("/r/data-home");
    let d = resolve_dirs(&env_sources("/r", &o, false, [&data, &Unset, &Unset, &Unset]));
    assert_eq!(d.bin, "/r/data-home/vite-plus/bin");
}

#[test]
fn relative_xdg_values_are_ignored() {
    let o = overrides(Unset, Unset, Unset, Unset);
    let d = resolve_dirs(&env_sources("/r", &o, false, [&Relative, &Unset, &Unset, &Unset]));
    assert_eq!(d.data, "/r/.local/share/vite-plus");
}

#[test]
fn with_vars_vp_home_pins_single_root() {
    let o = overrides(abs("/root"), Unset, Unset, Unset);
    let d = resolve_dirs(&env_sources("/home/u", &o, false, NO_XDG));
    assert_eq!(d.bin, "/root/bin");
    assert_eq!(d.data, "/root");
    assert_eq!(d.cache, "/root/cache");
    assert_eq!(d.config, "/root");
    assert_eq!(d.state, "/root");
    assert_eq!(d.layout(), VpDirsLayout::SingleRoot);
}

#[test]
fn with_vars_home_yields_split_layout() {
    let home = home_from_env(Some(("/r/home", true)), Some(("/r/home", true)), Platform::Unix).unwrap();
    let o = overrides(Unset, Unset, Unset, Unset);
    let d = resolve_dirs(&env_sources(&home, &o, false, NO_XDG));
    assert_eq!(home, "/r/home");
    assert_eq!(d.bin, "/r/home/.local/share/vite-plus/bin");
    assert_eq!(d.data, "/r/home/.local/share/vite-plus");
    assert_eq!(d.cache, "/r/home/.cache/vite-plus");
    assert_eq!(d.config, "/r/home/.config/vite-plus");
    assert_eq!(d.state, "/r/home/.local/state/vite-plus");
    assert_eq!(d.layout(), VpDirsLayout::Split);
}

#[test]
fn complete_vp_dir_group_keeps_split_layout_when_bin_is_data_bin() {
    let o = overrides(Unset, abs("/r/custom-data/bin"), abs("/r/custom-data"), abs("/r/custom-cache"));
    let d = resolve_dirs(&env_sources("/r/home", &o, false, NO_XDG));
    assert_eq!(d.data, "/r/custom-data");
    assert_eq!(d.bin, "/r/custom-data/bin");
    assert_eq!(d.cache, "/r/custom-cache");
    assert_eq!(d.layout(), VpDirsLayout::Split);
}

#[test]
fn existing_default_install_keeps_single_root_layout() {
    let o = overrides(Unset, Unset, Unset, Unset);
    let d = resolve_dirs(&env_sources("/r/home", &o, true, NO_XDG));
    assert_eq!(d.data, "/r/home/.vite-plus");
    assert_eq!(d.layout(), VpDirsLayout::SingleRoot);
}

#[test]
fn split_dir_group_is_not_persisted() {
    let o = overrides(Unset, abs("/r/bin"), abs("/r/data"), abs("/r/cache"));
    assert!(persisted_dir_envs(o.home.absolute().as_deref()).is_empty());
    let d = resolve_dirs(&env_sources("/r", &o, false, NO_XDG));
    assert_eq!((d.bin.as_str(), d.data.as_str(), d.cache.as_str()), ("/r/bin", "/r/data", "/r/cache"));
}

#[test]
fn xdg_roots_are_not_persisted() {
    let o = overrides(Unset, Unset, Unset, Unset);
    assert!(persisted_dir_envs(o.home.absolute().as_deref()).is_empty());
    let data = abs("/r/xdg-data");
    let d = resolve_dirs(&env_sources("/r", &o, false, [&data, &Unset, &Unset, &Unset]));
    assert_eq!(d.data, "/r/xdg-data/vite-plus");
}

#[test]
fn dir_envs_vp_home_excludes_category_overrides() {
    let o = overrides(abs("/r"), abs("/r/custom-bin"), abs("/r/custom-data"), abs("/r/custom-cache"));
    assert_eq!(persisted_dir_envs(o.home.absolute().as_deref()), vec![("VP_HOME", "/r".to_string())]);
    let d = resolve_dirs(&env_sources("/home/u", &o, false, NO_XDG));
    assert_eq!(d.bin, "/r/bin");
}

#[test]
fn dir_envs_ignores_relative_vp_home() {
    let o = overrides(Relative, abs("/r/custom-bin"), abs("/r/custom-data"), abs("/r/custom-cache"));
    assert!(persisted_dir_envs(o.home.absolute().as_deref()).is_empty());
    let d = resolve_dirs(&env_sources("/r", &o, false, NO_XDG));
    assert_eq!(d.data, "/r/custom-data");
}

#[test]
fn user_home_env_prefers_home_over_userprofile() {
    assert_eq!(home_from_env(Some(("/r/home", true)), Some(("/r/profile", true)), Platform::Unix), Some("/r/home".into()));
    assert_eq!(home_from_env(None, Some(("/r/profile", true)), Platform::Unix), Some("/r/profile".into()));
    assert_eq!(home_from_env(Some(("rel", false)), Some(("/r/profile", true)), Platform::Unix), None);
    assert_eq!(home_from_env(None, None, Platform::Unix), None);
    assert_eq!(
        home_from_env(Some(("/r/home", true)), Some(("C:\\Users\\u", true)), Platform::Windows),
        Some("C:\\Users\\u".into())
    );
    assert_eq!(home_from_env(Some(("/r/home", true)), None, Platform::Windows), Some("/r/home".into()));
}
