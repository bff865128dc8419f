//! On-disk directory layout of a Vite+ install: the five category roots, how
//! they are resolved from the environment, the overrides an installer
//! validates, and the `<name>.shim` sidecar written next to each Windows
//! trampoline.
use vstd::prelude::*;

use crate::cmdline::{shim_pointer_from_text, ShimLayout};
use crate::text::{
    chars_eq, chars_to_string, decode_utf8_bytes, has_prefix, lines, push_all, split_lines,
    starts_with, str_chars, sub_chars, trim, trim_chars, views,
};

verus! {

/// Header for the versioned Windows trampoline sidecar format.
pub const SHIM_POINTER_HEADER: &'static str = "vite-plus-shim-v1";

/// Extension of a Windows trampoline sidecar.
pub const SHIM_POINTER_EXTENSION: &'static str = "shim";

/// Subdirectory name appended to XDG base directories and platform defaults.
pub const APP_DIR_NAME: &'static str = "vite-plus";

/// Directory name of the single-root install probed under the user home.
pub const VP_HOME_DIR_NAME: &'static str = ".vite-plus";

/// Sidecar filename for a trampoline named `<exe_stem>.exe`.
pub fn shim_pointer_file_name(exe_stem: &str) -> (res: String)
    ensures
        res@ == exe_stem@ + "."@ + SHIM_POINTER_EXTENSION@,
{
    let mut out = str_chars(exe_stem);
    push_all(&mut out, str_chars(".").as_slice());
    push_all(&mut out, str_chars(SHIM_POINTER_EXTENSION).as_slice());
    chars_to_string(out.as_slice())
}

/// Resolution mode that a Windows trampoline must preserve for its child.
#[derive(Debug, Clone, Copy, PartialEq, Eq)]
pub enum VpDirsLayout {
    /// `VP_HOME` or a grandfathered monolithic install selected one root.
    SingleRoot,
    /// Category overrides or platform defaults selected independent roots.
    Split,
}

pub open spec fn layout_name(l: VpDirsLayout) -> Seq<char> {
    match l {
        VpDirsLayout::SingleRoot => "single-root"@,
        VpDirsLayout::Split => "split"@,
    }
}

impl VpDirsLayout {
    pub fn as_str(self) -> (res: &'static str)
        ensures
            res@ == layout_name(self),
    {
        match self {
            VpDirsLayout::SingleRoot => "single-root",
            VpDirsLayout::Split => "split",
        }
    }
}

/// On-disk category roots for the install.
#[derive(Debug, Clone, PartialEq, Eq)]
pub struct VpDirs {
    /// Executables and shims.
    pub bin: String,
    /// Payload data: CLI versions, managed runtimes and package managers.
    pub data: String,
    /// Disposable caches.
    pub cache: String,
    /// User configuration.
    pub config: String,
    /// State files.
    pub state: String,
    pub layout: VpDirsLayout,
}

/// The five roots and the layout as plain values.
pub open spec fn dirs_model(d: VpDirs) -> (
    Seq<char>,
    Seq<char>,
    Seq<char>,
    Seq<char>,
    Seq<char>,
    VpDirsLayout,
) {
    (d.bin@, d.data@, d.cache@, d.config@, d.state@, d.layout)
}

impl VpDirs {
    /// Return the resolution mode that selected these roots.
    pub fn layout(&self) -> (res: VpDirsLayout)
        ensures
            res == self.layout,
    {
        self.layout
    }

    /// The text of `<BIN>/<name>.shim`: the versioned header and one line each
    /// for the layout, the data root and the cache root.
    pub fn shim_pointer_contents(&self) -> (res: String)
        ensures
            res@ == sidecar_text(self.layout, self.data@, self.cache@),
    {
        let mut out = str_chars(SHIM_POINTER_HEADER);
        push_all(&mut out, str_chars("\nlayout=").as_slice());
        push_all(&mut out, str_chars(self.layout.as_str()).as_slice());
        push_all(&mut out, str_chars("\ndata=").as_slice());
        push_all(&mut out, str_chars(self.data.as_str()).as_slice());
        push_all(&mut out, str_chars("\ncache=").as_slice());
        push_all(&mut out, str_chars(self.cache.as_str()).as_slice());
        push_all(&mut out, str_chars("\n").as_slice());
        chars_to_string(out.as_slice())
    }

    /// Whether a sidecar marks a trampoline owned by this install: it is a
    /// versioned sidecar whose data root is this install's data root.
    pub fn owns_windows_trampoline(&self, exe_is_file: bool, sidecar: Option<&[u8]>) -> (res:
        bool)
        ensures
            res == (trampoline_data_spec(exe_is_file, sidecar_bytes(sidecar)) == Some(self.data@)),
    {
        match windows_trampoline_data(exe_is_file, sidecar) {
            Some(data) => {
                let own = str_chars(self.data.as_str());
                chars_eq(data.as_slice(), own.as_slice())
            },
            None => false,
        }
    }
}

/// The sidecar text for a layout and roots.
pub open spec fn sidecar_text(layout: VpDirsLayout, data: Seq<char>, cache: Seq<char>) -> Seq<
    char,
> {
    SHIM_POINTER_HEADER@ + "\nlayout="@ + layout_name(layout) + "\ndata="@ + data + "\ncache="@
        + cache + "\n"@
}

pub open spec fn sidecar_bytes(sidecar: Option<&[u8]>) -> Option<Seq<u8>> {
    match sidecar {
        Some(b) => Some(b@),
        None => None,
    }
}

/// The data root recorded by a sidecar text: the trimmed text must start
/// with the versioned header line; the first non-empty `data=` line gives it.
pub open spec fn shim_pointer_data_spec(text: Seq<char>) -> Option<Seq<char>> {
    let t = trim(text);
    let ls = lines(t);
    if t.len() == 0 || ls.len() == 0 || ls[0] != SHIM_POINTER_HEADER@ {
        None
    } else {
        first_data(ls.drop_first())
    }
}

pub open spec fn first_data(ls: Seq<Seq<char>>) -> Option<Seq<char>>
    decreases ls.len(),
{
    if ls.len() == 0 {
        None
    } else if has_prefix(ls[0], "data="@) && ls[0].len() > "data="@.len() {
        Some(ls[0].skip("data="@.len() as int))
    } else {
        first_data(ls.drop_first())
    }
}

/// Reads the data root from the text of a sidecar.
pub fn shim_pointer_data(text: &str) -> (res: Option<Vec<char>>)
    ensures
        match res {
            Some(d) => shim_pointer_data_spec(text@) == Some(d@),
            None => shim_pointer_data_spec(text@) is None,
        },
{
    let c = str_chars(text);
    let t = trim_chars(c.as_slice());
    if t.len() == 0 {
        return None;
    }
    let ls = split_lines(t.as_slice());
    if ls.len() == 0 {
        return None;
    }
    let header = str_chars(SHIM_POINTER_HEADER);
    if !chars_eq(ls[0].as_slice(), header.as_slice()) {
        return None;
    }
    let key = str_chars("data=");
    proof {
        assert(views(ls@)[0] == ls@[0]@);
        assert(lines(trim(text@)) == views(ls@));
    }
    let ghost rest = views(ls@).drop_first();
    let mut i: usize = 1;
    proof {
        assert(views(ls@).drop_first().skip(0) =~= rest);
        assert(shim_pointer_data_spec(text@) == first_data(rest));
    }
    while i < ls.len()
        invariant
            1 <= i <= ls.len(),
            shim_pointer_data_spec(text@) == first_data(rest),
            key@ == "data="@,
            rest == views(ls@).drop_first(),
            first_data(rest.skip(i - 1)) == first_data(rest),
        decreases ls.len() - i,
    {
        let line = &ls[i];
        proof {
            assert(rest.skip(i - 1).len() > 0);
            assert(views(ls@)[i as int] == ls@[i as int]@);
            assert(rest.skip(i - 1)[0] == line@);
            assert(rest.skip(i - 1).drop_first() =~= rest.skip(i as int));
        }
        if starts_with(line.as_slice(), key.as_slice()) && line.len() > key.len() {
            let d = sub_chars(line.as_slice(), key.len(), line.len());
            proof {
                assert(d@ =~= line@.skip(key@.len() as int));
            }
            return Some(d);
        }
        i += 1;
    }
    proof {
        assert(rest.skip(i - 1) =~= Seq::<Seq<char>>::empty());
    }
    None
}

/// The data root of a trampoline: the executable must be a file, and its
/// sidecar (an optional byte-order mark, then UTF-8) must record one.
pub open spec fn trampoline_data_spec(exe_is_file: bool, sidecar: Option<Seq<u8>>) -> Option<
    Seq<char>,
> {
    if !exe_is_file {
        None
    } else {
        match sidecar {
            None => None,
            Some(b) => {
                let body = crate::cmdline::strip_bom(b);
                if !vstd::utf8::valid_utf8(body) {
                    None
                } else {
                    shim_pointer_data_spec(vstd::utf8::decode_utf8(body))
                }
            },
        }
    }
}

/// Reads the data root of a trampoline from its sidecar.
pub fn windows_trampoline_data(exe_is_file: bool, sidecar: Option<&[u8]>) -> (res: Option<
    Vec<char>,
>)
    ensures
        match res {
            Some(d) => trampoline_data_spec(exe_is_file, sidecar_bytes(sidecar)) == Some(d@),
            None => trampoline_data_spec(exe_is_file, sidecar_bytes(sidecar)) is None,
        },
{
    if !exe_is_file {
        return None;
    }
    let bytes = match sidecar {
        Some(b) => b,
        None => return None,
    };
    let body: &[u8] = if bytes.len() >= 3 && bytes[0] == 0xEF && bytes[1] == 0xBB && bytes[2]
        == 0xBF {
        &bytes[3..bytes.len()]
    } else {
        bytes
    };
    proof {
        assert(body@ =~= crate::cmdline::strip_bom(bytes@));
    }
    let decoded = match decode_utf8_bytes(body) {
        Some(d) => d,
        None => return None,
    };
    let text = chars_to_string(decoded.as_slice());
    shim_pointer_data(text.as_str())
}

/// Whether an executable has a Vite+ trampoline sidecar, from any install.
pub fn is_windows_trampoline(exe_is_file: bool, sidecar: Option<&[u8]>) -> (res: bool)
    ensures
        res == trampoline_data_spec(exe_is_file, sidecar_bytes(sidecar)) is Some,
{
    windows_trampoline_data(exe_is_file, sidecar).is_some()
}

// ---------------------------------------------------------------------------
// Directory override variables.
// ---------------------------------------------------------------------------

pub const VP_HOME: &'static str = "VP_HOME";

pub const VP_BIN_DIR: &'static str = "VP_BIN_DIR";

pub const VP_DATA_DIR: &'static str = "VP_DATA_DIR";

pub const VP_CACHE_DIR: &'static str = "VP_CACHE_DIR";

/// One directory override variable.
#[derive(Debug, Clone, PartialEq, Eq)]
pub enum PathOverride {
    Unset,
    Absolute(String),
    Relative,
}

impl PathOverride {
    /// Classifies the value of an override variable: unset or empty is unset;
    /// otherwise absolute or relative, as `is_absolute` says of the value.
    pub fn classify(value: Option<&str>, is_absolute: bool) -> (res: PathOverride)
        ensures
            match value {
                None => res == PathOverride::Unset,
                Some(v) => if v@.len() == 0 {
                    res == PathOverride::Unset
                } else if is_absolute {
                    res matches PathOverride::Absolute(p) && p@ == v@
                } else {
                    res == PathOverride::Relative
                },
            },
    {
        match value {
            None => PathOverride::Unset,
            Some(v) => {
                let c = str_chars(v);
                if c.len() == 0 {
                    PathOverride::Unset
                } else if is_absolute {
                    PathOverride::Absolute(String::from_str(v))
                } else {
                    PathOverride::Relative
                }
            },
        }
    }

    pub fn is_set(&self) -> (res: bool)
        ensures
            res == !(*self is Unset),
    {
        !matches!(self, PathOverride::Unset)
    }

    pub fn is_relative(&self) -> (res: bool)
        ensures
            res == (*self is Relative),
    {
        matches!(self, PathOverride::Relative)
    }

    pub fn absolute(&self) -> (res: Option<String>)
        ensures
            match *self {
                PathOverride::Absolute(p) => res matches Some(q) && q@ == p@,
                _ => res is None,
            },
    {
        match self {
            PathOverride::Absolute(p) => Some(p.clone()),
            _ => None,
        }
    }
}

/// One snapshot of the Vite+ directory override variables.
#[derive(Debug, Clone, PartialEq, Eq)]
pub struct DirEnvOverrides {
    pub home: PathOverride,
    pub bin: PathOverride,
    pub data: PathOverride,
    pub cache: PathOverride,
}

/// An error in the Vite+ directory overrides.
#[derive(Debug, Clone, PartialEq, Eq)]
pub enum VpDirEnvError {
    IncompleteSplitGroup,
    RelativePath { name: &'static str },
}

impl VpDirEnvError {
    /// The text of the error.
    pub fn message(&self) -> (res: String)
        ensures
            res@ == (match *self {
                VpDirEnvError::IncompleteSplitGroup => "Set all three variables together: VP_BIN_DIR, VP_DATA_DIR, and VP_CACHE_DIR. Otherwise, do not set any of them."@,
                VpDirEnvError::RelativePath { name } => "Set "@ + name@ + " to an absolute path."@,
            }),
    {
        match self {
            VpDirEnvError::IncompleteSplitGroup => String::from_str(
                "Set all three variables together: VP_BIN_DIR, VP_DATA_DIR, and VP_CACHE_DIR. Otherwise, do not set any of them.",
            ),
            VpDirEnvError::RelativePath { name } => {
                let mut out = str_chars("Set ");
                push_all(&mut out, str_chars(name).as_slice());
                push_all(&mut out, str_chars(" to an absolute path.").as_slice());
                chars_to_string(out.as_slice())
            },
        }
    }
}

/// The verdict on a snapshot of overrides: a relative `VP_HOME` is an error;
/// the split group must be all set or all unset; each split value must be
/// absolute (checked in the order bin, data, cache).
pub open spec fn validate_spec(o: DirEnvOverrides) -> Result<(), VpDirEnvError> {
    let set_count = (if o.bin is Unset {
        0int
    } else {
        1int
    }) + (if o.data is Unset {
        0int
    } else {
        1int
    }) + (if o.cache is Unset {
        0int
    } else {
        1int
    });
    if o.home is Relative {
        Err(VpDirEnvError::RelativePath { name: VP_HOME })
    } else if set_count != 0 && set_count != 3 {
        Err(VpDirEnvError::IncompleteSplitGroup)
    } else if o.bin is Relative {
        Err(VpDirEnvError::RelativePath { name: VP_BIN_DIR })
    } else if o.data is Relative {
        Err(VpDirEnvError::RelativePath { name: VP_DATA_DIR })
    } else if o.cache is Relative {
        Err(VpDirEnvError::RelativePath { name: VP_CACHE_DIR })
    } else {
        Ok(())
    }
}

/// Validate Vite+ directory overrides for an installer.
pub fn validate_vp_dir_env(overrides: &DirEnvOverrides) -> (res: Result<(), VpDirEnvError>)
    ensures
        res == validate_spec(*overrides),
{
    if overrides.home.is_relative() {
        return Err(VpDirEnvError::RelativePath { name: VP_HOME });
    }
    let mut count: u8 = 0;
    if overrides.bin.is_set() {
        count += 1;
    }
    if overrides.data.is_set() {
        count += 1;
    }
    if overrides.cache.is_set() {
        count += 1;
    }
    if count != 0 && count != 3 {
        return Err(VpDirEnvError::IncompleteSplitGroup);
    }
    if overrides.bin.is_relative() {
        return Err(VpDirEnvError::RelativePath { name: VP_BIN_DIR });
    }
    if overrides.data.is_relative() {
        return Err(VpDirEnvError::RelativePath { name: VP_DATA_DIR });
    }
    if overrides.cache.is_relative() {
        return Err(VpDirEnvError::RelativePath { name: VP_CACHE_DIR });
    }
    Ok(())
}

// ---------------------------------------------------------------------------
// Resolution of the category roots.
// ---------------------------------------------------------------------------

/// `base` joined with a relative path `rel` with `/` separators (as
/// `Path::join` does on Unix): a separator is added unless `base` is empty or
/// already ends with one.
pub open spec fn join(base: Seq<char>, rel: Seq<char>) -> Seq<char> {
    if base.len() > 0 && base.last() != '/' {
        base + "/"@ + rel
    } else {
        base + rel
    }
}

pub fn join_path(base: &str, rel: &str) -> (res: String)
    ensures
        res@ == join(base@, rel@),
{
    let mut out = str_chars(base);
    if out.len() > 0 && out[out.len() - 1] != '/' {
        out.push('/');
    }
    push_all(&mut out, str_chars(rel).as_slice());
    proof {
        assert(base@ + "/"@ =~= base@.push('/')) by {
            reveal_strlit("/");
        }
    }
    chars_to_string(out.as_slice())
}

/// Everything directory resolution reads: the user home; the absolute value
/// of `VP_HOME`; whether `<home>/.vite-plus` holds an install (a `current`
/// link); the complete absolute `VP_BIN_DIR`/`VP_DATA_DIR`/`VP_CACHE_DIR`
/// group; and the absolute `XDG_*` base directories.
#[derive(Debug, Clone, PartialEq, Eq)]
pub struct DirSources {
    pub home: String,
    pub vp_home: Option<String>,
    pub user_home_install: bool,
    pub split: Option<(String, String, String)>,
    pub xdg_data: Option<String>,
    pub xdg_cache: Option<String>,
    pub xdg_config: Option<String>,
    pub xdg_state: Option<String>,
}

pub open spec fn opt_view(o: Option<String>) -> Option<Seq<char>> {
    match o {
        Some(s) => Some(s@),
        None => None,
    }
}

/// The single-root mapping: `bin` is `<root>/bin`, `cache` is
/// `<root>/cache`, and data, config and state are the root itself.
pub open spec fn single_root_model(root: Seq<char>) -> (
    Seq<char>,
    Seq<char>,
    Seq<char>,
    Seq<char>,
    Seq<char>,
) {
    (join(root, "bin"@), root, join(root, "cache"@), root, root)
}

/// The root of the single-root layout, if a source selects it: `VP_HOME`
/// first, then an existing install under the home.
pub open spec fn single_root_spec(s: DirSources) -> Option<Seq<char>> {
    match s.vp_home {
        Some(h) => Some(h@),
        None => if s.user_home_install {
            Some(join(s.home@, VP_HOME_DIR_NAME@))
        } else {
            None
        },
    }
}

pub open spec fn app_dir(base: Seq<char>) -> Seq<char> {
    join(base, APP_DIR_NAME@)
}

/// The category roots on Unix through the source chain `VP_HOME`, the home
/// install, the `VP_*_DIR` group, XDG, and the Unix defaults; the first source that
/// provides a category wins. The bin root of XDG and of the defaults is the
/// data root's `bin`.
pub open spec fn resolve_spec(s: DirSources) -> (
    Seq<char>,
    Seq<char>,
    Seq<char>,
    Seq<char>,
    Seq<char>,
    VpDirsLayout,
) {
    match single_root_spec(s) {
        Some(root) => {
            let m = single_root_model(root);
            (m.0, m.1, m.2, m.3, m.4, VpDirsLayout::SingleRoot)
        },
        None => {
            let home = s.home@;
            let default_data = join(home, ".local/share/vite-plus"@);
            let xdg_or_default_data = match s.xdg_data {
                Some(x) => app_dir(x@),
                None => default_data,
            };
            let data = match s.split {
                Some(g) => g.1@,
                None => xdg_or_default_data,
            };
            let bin = match s.split {
                Some(g) => g.0@,
                None => join(xdg_or_default_data, "bin"@),
            };
            let cache = match s.split {
                Some(g) => g.2@,
                None => match s.xdg_cache {
                    Some(x) => app_dir(x@),
                    None => join(home, ".cache/vite-plus"@),
                },
            };
            let config = match s.xdg_config {
                Some(x) => app_dir(x@),
                None => join(home, ".config/vite-plus"@),
            };
            let state = match s.xdg_state {
                Some(x) => app_dir(x@),
                None => join(home, ".local/state/vite-plus"@),
            };
            (bin, data, cache, config, state, VpDirsLayout::Split)
        },
    }
}

/// The single-root mapping as a full set of roots.
pub fn single_root_dirs(root: &str) -> (res: VpDirs)
    ensures
        (res.bin@, res.data@, res.cache@, res.config@, res.state@) == single_root_model(root@),
        res.layout == VpDirsLayout::SingleRoot,
{
    VpDirs {
        bin: join_path(root, "bin"),
        data: String::from_str(root),
        cache: join_path(root, "cache"),
        config: String::from_str(root),
        state: String::from_str(root),
        layout: VpDirsLayout::SingleRoot,
    }
}

/// Resolve the category roots on Unix from their sources.
pub fn resolve_dirs(sources: &DirSources) -> (res: VpDirs)
    ensures
        dirs_model(res) == resolve_spec(*sources),
{
    if let Some(h) = &sources.vp_home {
        return single_root_dirs(h.as_str());
    }
    if sources.user_home_install {
        let root = join_path(sources.home.as_str(), VP_HOME_DIR_NAME);
        return single_root_dirs(root.as_str());
    }
    let home = sources.home.as_str();
    let xdg_or_default_data = match &sources.xdg_data {
        Some(x) => join_path(x.as_str(), APP_DIR_NAME),
        None => join_path(home, ".local/share/vite-plus"),
    };
    let (bin, data, cache) = match &sources.split {
        Some((b, d, c)) => (b.clone(), d.clone(), c.clone()),
        None => {
            let bin = join_path(xdg_or_default_data.as_str(), "bin");
            let cache = match &sources.xdg_cache {
                Some(x) => join_path(x.as_str(), APP_DIR_NAME),
                None => join_path(home, ".cache/vite-plus"),
            };
            (bin, xdg_or_default_data, cache)
        },
    };
    let config = match &sources.xdg_config {
        Some(x) => join_path(x.as_str(), APP_DIR_NAME),
        None => join_path(home, ".config/vite-plus"),
    };
    let state = match &sources.xdg_state {
        Some(x) => join_path(x.as_str(), APP_DIR_NAME),
        None => join_path(home, ".local/state/vite-plus"),
    };
    VpDirs { bin, data, cache, config, state, layout: VpDirsLayout::Split }
}

/// `Path::join` on Windows: `\` between the parts, unless `base` is empty,
/// already ends in a separator (`\` or `/`), or is a bare drive (`C:`).
pub open spec fn win_join(base: Seq<char>, rel: Seq<char>) -> Seq<char> {
    if base.len() > 0 && base.last() != '\\' && base.last() != '/' && !(base.len() == 2 && base[1]
        == ':' && crate::path_list::is_ascii_letter(base[0])) {
        base + seq!['\\'] + rel
    } else {
        base + rel
    }
}

pub fn win_join_path(base: &str, rel: &str) -> (res: String)
    ensures
        res@ == win_join(base@, rel@),
{
    let mut out = str_chars(base);
    let n = out.len();
    if n > 0 && out[n - 1] != '\\' && out[n - 1] != '/' && !(n == 2 && out[1] == ':' && (('a'
        <= out[0] && out[0] <= 'z') || ('A' <= out[0] && out[0] <= 'Z'))) {
        out.push('\\');
    }
    push_all(&mut out, str_chars(rel).as_slice());
    chars_to_string(out.as_slice())
}

/// What directory resolution reads on Windows: the user home; the absolute
/// value of `VP_HOME`; whether `<home>\.vite-plus` holds an install; the
/// complete absolute `VP_BIN_DIR`/`VP_DATA_DIR`/`VP_CACHE_DIR` group; and
/// the local and roaming application-data known folders, when the system
/// gives them.
#[derive(Debug, Clone, PartialEq, Eq)]
pub struct WindowsDirSources {
    pub home: String,
    pub vp_home: Option<String>,
    pub user_home_install: bool,
    pub split: Option<(String, String, String)>,
    pub known_local: Option<String>,
    pub known_roaming: Option<String>,
}

/// The single-root mapping on Windows.
pub open spec fn win_single_root_model(root: Seq<char>) -> (
    Seq<char>,
    Seq<char>,
    Seq<char>,
    Seq<char>,
    Seq<char>,
) {
    (win_join(root, "bin"@), root, win_join(root, "cache"@), root, root)
}

/// The `vite-plus` directory under a known folder, or under
/// `<home>\AppData\<fallback>` when the system gives none.
pub open spec fn app_data_dir(known: Option<String>, home: Seq<char>, fallback: Seq<char>) -> Seq<char> {
    match known {
        Some(k) => win_join(k@, APP_DIR_NAME@),
        None => win_join(win_join(win_join(home, "AppData"@), fallback), APP_DIR_NAME@),
    }
}

/// The category roots on Windows through the source chain `VP_HOME`, the
/// home install, the `VP_*_DIR` group, and the application-data folders:
/// `bin`, `data`, `cache` and `state` under the local folder, `config` the
/// roaming folder itself.
pub open spec fn resolve_windows_spec(s: WindowsDirSources) -> (
    Seq<char>,
    Seq<char>,
    Seq<char>,
    Seq<char>,
    Seq<char>,
    VpDirsLayout,
) {
    let single = match s.vp_home {
        Some(h) => Some(h@),
        None => if s.user_home_install {
            Some(win_join(s.home@, VP_HOME_DIR_NAME@))
        } else {
            None
        },
    };
    match single {
        Some(root) => {
            let m = win_single_root_model(root);
            (m.0, m.1, m.2, m.3, m.4, VpDirsLayout::SingleRoot)
        },
        None => {
            let local = app_data_dir(s.known_local, s.home@, "Local"@);
            let roaming = app_data_dir(s.known_roaming, s.home@, "Roaming"@);
            match s.split {
                Some(g) => (g.0@, g.1@, g.2@, roaming, win_join(local, "state"@), VpDirsLayout::Split),
                None => (
                    win_join(local, "bin"@),
                    win_join(local, "data"@),
                    win_join(local, "cache"@),
                    roaming,
                    win_join(local, "state"@),
                    VpDirsLayout::Split,
                ),
            }
        },
    }
}

fn win_single_root_dirs(root: &str) -> (res: VpDirs)
    ensures
        (res.bin@, res.data@, res.cache@, res.config@, res.state@) == win_single_root_model(root@),
        res.layout == VpDirsLayout::SingleRoot,
{
    VpDirs {
        bin: win_join_path(root, "bin"),
        data: String::from_str(root),
        cache: win_join_path(root, "cache"),
        config: String::from_str(root),
        state: String::from_str(root),
        layout: VpDirsLayout::SingleRoot,
    }
}

fn app_data_dir_exec(known: &Option<String>, home: &str, fallback: &str) -> (res: String)
    ensures
        res@ == app_data_dir(*known, home@, fallback@),
{
    match known {
        Some(k) => win_join_path(k.as_str(), APP_DIR_NAME),
        None => {
            let a = win_join_path(home, "AppData");
            let b = win_join_path(a.as_str(), fallback);
            win_join_path(b.as_str(), APP_DIR_NAME)
        },
    }
}

/// Resolve the category roots on Windows from their sources.
pub fn resolve_windows_dirs(sources: &WindowsDirSources) -> (res: VpDirs)
    ensures
        dirs_model(res) == resolve_windows_spec(*sources),
{
    if let Some(h) = &sources.vp_home {
        return win_single_root_dirs(h.as_str());
    }
    if sources.user_home_install {
        let root = win_join_path(sources.home.as_str(), VP_HOME_DIR_NAME);
        return win_single_root_dirs(root.as_str());
    }
    let local = app_data_dir_exec(&sources.known_local, sources.home.as_str(), "Local");
    let roaming = app_data_dir_exec(&sources.known_roaming, sources.home.as_str(), "Roaming");
    let state = win_join_path(local.as_str(), "state");
    let (bin, data, cache) = match &sources.split {
        Some((b, d, c)) => (b.clone(), d.clone(), c.clone()),
        None => (
            win_join_path(local.as_str(), "bin"),
            win_join_path(local.as_str(), "data"),
            win_join_path(local.as_str(), "cache"),
        ),
    };
    VpDirs { bin, data, cache, config: roaming, state, layout: VpDirsLayout::Split }
}

/// Single-root mapping for releases that predate the split layout: the
/// `VP_HOME` override, else `<home>/.vite-plus`.
pub fn legacy_single_root(home: &str, vp_home_override: Option<&str>) -> (res: VpDirs)
    ensures
        (res.bin@, res.data@, res.cache@, res.config@, res.state@) == single_root_model(
            match vp_home_override {
                Some(h) => h@,
                None => join(home@, VP_HOME_DIR_NAME@),
            },
        ),
        res.layout == VpDirsLayout::SingleRoot,
{
    match vp_home_override {
        Some(h) => single_root_dirs(h),
        None => {
            let root = join_path(home, VP_HOME_DIR_NAME);
            single_root_dirs(root.as_str())
        },
    }
}

/// Layout variables to re-export in persisted shell context: only an
/// explicit absolute `VP_HOME`.
pub fn persisted_dir_envs(vp_home_override: Option<&str>) -> (res: Vec<(&'static str, String)>)
    ensures
        match vp_home_override {
            Some(h) => res@.len() == 1 && res@[0].0@ == VP_HOME@ && res@[0].1@ == h@,
            None => res@.len() == 0,
        },
{
    match vp_home_override {
        Some(h) => vec![(VP_HOME, String::from_str(h))],
        None => Vec::new(),
    }
}

/// An absolute `VP_HOME` pins the single-root layout under it, whatever the
/// other sources say; this is also how the persisted `VP_HOME` restores
/// the layout in a new shell.
pub proof fn law_vp_home_pins_single_root(s: DirSources, h: String)
    requires
        s.vp_home == Some(h),
    ensures
        resolve_spec(s) == ({
            let m = single_root_model(h@);
            (m.0, m.1, m.2, m.3, m.4, VpDirsLayout::SingleRoot)
        }),
{
}

/// Without a single root and without the `VP_*_DIR` group, the bin root
/// is the data root's `bin` (under XDG and under the defaults alike).
pub proof fn law_bin_is_owned_by_the_data_root(s: DirSources)
    requires
        single_root_spec(s) is None,
        s.split is None,
    ensures
        resolve_spec(s).0 == join(resolve_spec(s).1, "bin"@),
        resolve_spec(s).5 == VpDirsLayout::Split,
{
}

/// The absolute value of an override, if any.
pub open spec fn absolute_view(o: PathOverride) -> Option<Seq<char>> {
    match o {
        PathOverride::Absolute(p) => Some(p@),
        _ => None,
    }
}

impl DirEnvOverrides {
    /// The `VP_BIN_DIR`/`VP_DATA_DIR`/`VP_CACHE_DIR` group, when all three
    /// are absolute; an incomplete or partly relative group has no effect.
    pub fn split_dirs(&self) -> (res: Option<(String, String, String)>)
        ensures
            match (absolute_view(self.bin), absolute_view(self.data), absolute_view(self.cache)) {
                (Some(b), Some(d), Some(c)) => res matches Some((x, y, z)) && x@ == b && y@ == d
                    && z@ == c,
                _ => res is None,
            },
    {
        let b = match self.bin.absolute() {
            Some(b) => b,
            None => return None,
        };
        let d = match self.data.absolute() {
            Some(d) => d,
            None => return None,
        };
        let c = match self.cache.absolute() {
            Some(c) => c,
            None => return None,
        };
        Some((b, d, c))
    }
}

/// The user home from the environment: `HOME` first, then `USERPROFILE`
/// on Unix, the other way round on Windows (so that an existing install
/// under the profile is found); each is given with whether it is absolute;
/// the first one that is set decides, and only an absolute value is a home.
pub fn home_from_env(
    home: Option<(&str, bool)>,
    userprofile: Option<(&str, bool)>,
    platform: crate::path_list::Platform,
) -> (res: Option<String>)
    ensures
        match (match platform {
            crate::path_list::Platform::Unix => match home {
                Some(h) => Some(h),
                None => userprofile,
            },
            crate::path_list::Platform::Windows => match userprofile {
                Some(u) => Some(u),
                None => home,
            },
        }) {
            Some((v, absolute)) => if absolute {
                res matches Some(r) && r@ == v@
            } else {
                res is None
            },
            None => res is None,
        },
{
    let chosen = match platform {
        crate::path_list::Platform::Unix => match home {
            Some(h) => Some(h),
            None => userprofile,
        },
        crate::path_list::Platform::Windows => match userprofile {
            Some(u) => Some(u),
            None => home,
        },
    };
    match chosen {
        Some((v, absolute)) => if absolute {
            Some(String::from_str(v))
        } else {
            None
        },
        None => None,
    }
}

/// The sources of directory resolution from the user home, the override
/// snapshot, whether `<home>/.vite-plus` holds an install, and the `XDG_*`
/// variables (only absolute ones count).
pub fn dir_sources(
    home: &str,
    overrides: &DirEnvOverrides,
    user_home_install: bool,
    xdg_data: &PathOverride,
    xdg_cache: &PathOverride,
    xdg_config: &PathOverride,
    xdg_state: &PathOverride,
) -> (res: DirSources)
    ensures
        res.home@ == home@,
        opt_view(res.vp_home) == absolute_view(overrides.home),
        res.user_home_install == user_home_install,
        match (absolute_view(overrides.bin), absolute_view(overrides.data), absolute_view(
            overrides.cache,
        )) {
            (Some(b), Some(d), Some(c)) => res.split matches Some((x, y, z)) && x@ == b && y@ == d
                && z@ == c,
            _ => res.split is None,
        },
        opt_view(res.xdg_data) == absolute_view(*xdg_data),
        opt_view(res.xdg_cache) == absolute_view(*xdg_cache),
        opt_view(res.xdg_config) == absolute_view(*xdg_config),
        opt_view(res.xdg_state) == absolute_view(*xdg_state),
{
    DirSources {
        home: String::from_str(home),
        vp_home: overrides.home.absolute(),
        user_home_install,
        split: overrides.split_dirs(),
        xdg_data: xdg_data.absolute(),
        xdg_cache: xdg_cache.absolute(),
        xdg_config: xdg_config.absolute(),
        xdg_state: xdg_state.absolute(),
    }
}

} // verus!
