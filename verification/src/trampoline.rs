//! What the Windows shim trampoline decides: where its shim directory, tool
//! name and sidecar are; the environment and command line of the `vp.exe`
//! it starts; and the messages of its failures. The Win32 calls themselves
//! are made around these decisions.
use vstd::prelude::*;

use crate::cmdline::{
    decimal_digits, eq_ascii, last_field, non_empty_field, shim_pointer_from_text, strip_bom, file_stem_len, file_stem_len_spec, format_u32, is_path_separator,
    is_sep, is_verbatim, join_path, join_path_spec, nul_terminated, parent_dir_len,
    parent_dir_len_spec, parse_shim_pointer, pointer_path, pointer_path_spec, program_end,
    shim_pointer_spec, skip_program_argument, utf8_path, utf8_path_spec, verbatim_path,
    verbatim_path_spec, ShimLayout, QUOTE,
};
use crate::dirs::{sidecar_text, VpDirsLayout};
use crate::text::{first_index_of, has_prefix, is_ws, lemma_first_index_of, lemma_first_index_unique, lines, push_all, strip_cr, trim, trim_end, trim_start};

verus! {

/// Paths below this length (NUL included) go to Win32 as they are.
pub const LEGACY_MAX_PATH: usize = 248;

/// The largest sidecar the trampoline reads.
pub const MAX_SHIM_POINTER_BYTES: u64 = 1048576;

pub const ERROR_FILE_NOT_FOUND: u32 = 2;

pub const ERROR_PATH_NOT_FOUND: u32 = 3;

pub const ERROR_ENVVAR_NOT_FOUND: u32 = 203;

/// The index of the last path separator.
pub open spec fn last_separator(p: Seq<u16>) -> Option<int>
    decreases p.len(),
{
    if p.len() == 0 {
        None
    } else if is_sep(p.last()) {
        Some(p.len() - 1)
    } else {
        last_separator(p.drop_last())
    }
}

/// Where the trampoline is: its directory, its tool name (the file stem)
/// and the path of its sidecar.
pub struct ShimLocation {
    pub bin_dir: Vec<u16>,
    pub tool: Vec<u16>,
    pub pointer_path: Vec<u16>,
}

pub open spec fn location_spec(exe: Seq<u16>) -> Option<(Seq<u16>, Seq<u16>, Seq<u16>)> {
    match last_separator(exe) {
        None => None,
        Some(last) => {
            let file_name = exe.skip(last + 1);
            Some(
                (
                    exe.take(parent_dir_len_spec(exe, last)),
                    file_name.take(file_stem_len_spec(file_name)),
                    pointer_path_spec(exe, last, file_name),
                ),
            )
        },
    }
}

proof fn lemma_last_separator(p: Seq<u16>)
    ensures
        last_separator(p) matches Some(i) ==> 0 <= i < p.len() && is_sep(p[i]),
    decreases p.len(),
{
    if p.len() > 0 && !is_sep(p.last()) {
        lemma_last_separator(p.drop_last());
    }
}

fn copy(s: &[u16]) -> (res: Vec<u16>)
    ensures
        res@ == s@,
{
    let mut v: Vec<u16> = Vec::new();
    push_all(&mut v, s);
    v
}

/// Locates the shim from the trampoline's own path; `None` when the path
/// has no separator.
pub fn locate_shim(exe: &[u16]) -> (res: Option<ShimLocation>)
    ensures
        match (res, location_spec(exe@)) {
            (Some(l), Some((b, t, p))) => l.bin_dir@ == b && l.tool@ == t && l.pointer_path@ == p,
            (None, None) => true,
            _ => false,
        },
{
    let mut end: usize = exe.len();
    proof {
        assert(exe@.take(exe@.len() as int) =~= exe@);
    }
    while end > 0 && !is_path_separator(exe[end - 1])
        invariant
            end <= exe@.len(),
            last_separator(exe@.take(end as int)) == last_separator(exe@),
        decreases end,
    {
        proof {
            assert(exe@.take(end as int).drop_last() =~= exe@.take(end - 1));
        }
        end -= 1;
    }
    if end == 0 {
        proof {
            assert(exe@.take(0) =~= Seq::<u16>::empty());
        }
        return None;
    }
    let last = end - 1;
    proof {
        assert(exe@.take(end as int).last() == exe@[last as int]);
        lemma_last_separator(exe@);
    }
    let bin_len = parent_dir_len(exe, last);
    let file_name = &exe[last + 1..exe.len()];
    proof {
        assert(file_name@ =~= exe@.skip(last + 1));
    }
    let stem = file_stem_len(file_name);
    let bin_dir = copy(&exe[0..bin_len]);
    let tool = copy(&file_name[0..stem]);
    let pointer = pointer_path(exe, last, file_name);
    proof {
        assert(bin_dir@ =~= exe@.take(parent_dir_len_spec(exe@, last as int)));
        assert(tool@ =~= file_name@.take(file_stem_len_spec(file_name@)));
    }
    Some(ShimLocation { bin_dir, tool, pointer_path: pointer })
}

/// Whether a sidecar of this size is read at all (1 byte to 1 MiB).
pub fn pointer_size_ok(size: i64) -> (res: bool)
    ensures
        res == (1 <= size <= MAX_SHIM_POINTER_BYTES),
{
    1 <= size && size <= 1048576
}

/// A change to the trampoline's environment before it starts `vp.exe`.
#[derive(Debug)]
pub enum EnvChange {
    Assign(&'static str, Vec<u16>),
    Remove(&'static str),
}

pub enum EnvChangeModel {
    Assign(Seq<char>, Seq<u16>),
    Remove(Seq<char>),
}

pub open spec fn change_view(c: EnvChange) -> EnvChangeModel {
    match c {
        EnvChange::Assign(n, v) => EnvChangeModel::Assign(n@, v@),
        EnvChange::Remove(n) => EnvChangeModel::Remove(n@),
    }
}

/// How the trampoline starts `vp.exe`: the environment changes, the path of
/// `vp.exe`, and the child's command line (NUL-terminated).
pub struct LaunchPlan {
    pub env: Vec<EnvChange>,
    pub vp_exe: Vec<u16>,
    pub command_line: Vec<u16>,
}

pub open spec fn ascii_units(s: Seq<u8>) -> Seq<u16> {
    s.map_values(|b: u8| b as u16)
}

/// `current\bin\vp.exe` in UTF-16.
pub open spec fn vp_exe_suffix() -> Seq<u16> {
    ascii_units(
        seq![99u8, 117u8, 114u8, 114u8, 101u8, 110u8, 116u8, 92u8, 98u8, 105u8, 110u8, 92u8, 118u8, 112u8, 46u8, 101u8, 120u8, 101u8],
    )
}

pub open spec fn is_vp_tool(tool: Seq<u16>) -> bool {
    tool == ascii_units(seq![118u8, 112u8])
}

/// The plan from the shim's place, its sidecar's bytes and the trampoline's
/// own command line: the data root pins `VP_HOME` (single root) or the
/// split directories (with `VP_HOME` removed); a tool other than `vp` is
/// named in `VP_SHIM_TOOL`; the child's command line is the quoted `vp.exe`
/// path and the raw argument tail. `None` when the sidecar is invalid.
pub open spec fn plan_spec(bin_dir: Seq<u16>, tool: Seq<u16>, bytes: Seq<u8>, cmdline: Seq<u16>) -> Option<
    (Seq<EnvChangeModel>, Seq<u16>, Seq<u16>),
> {
    match shim_pointer_spec(bytes) {
        None => None,
        Some((data_text, cache_text)) => match utf8_path_spec(data_text) {
            None => None,
            Some(data) => {
                let layout_env = match cache_text {
                    None => Some(seq![EnvChangeModel::Assign("VP_HOME"@, data)]),
                    Some(c) => match utf8_path_spec(c) {
                        None => None,
                        Some(cache) => Some(
                            seq![
                                EnvChangeModel::Remove("VP_HOME"@),
                                EnvChangeModel::Assign("VP_DATA_DIR"@, data),
                                EnvChangeModel::Assign("VP_BIN_DIR"@, bin_dir),
                                EnvChangeModel::Assign("VP_CACHE_DIR"@, cache),
                            ],
                        ),
                    },
                };
                match layout_env {
                    None => None,
                    Some(env) => {
                        let vp_exe = join_path_spec(data, vp_exe_suffix());
                        let tail = cmdline.skip(program_end(cmdline, 0, false));
                        Some(
                            (
                                if is_vp_tool(tool) {
                                    env
                                } else {
                                    env.push(EnvChangeModel::Assign("VP_SHIM_TOOL"@, tool))
                                },
                                vp_exe,
                                seq![QUOTE] + vp_exe + seq![QUOTE] + tail + seq![0u16],
                            ),
                        )
                    },
                }
            },
        },
    }
}

/// Whatever the layout of the sidecar (single root or split), a shim of a
/// tool other than `vp` names its tool in `VP_SHIM_TOOL` as the last change
/// of the environment, and the `vp` shim itself never sets `VP_SHIM_TOOL`.
pub proof fn law_shim_tool_is_named(bin_dir: Seq<u16>, tool: Seq<u16>, bytes: Seq<u8>, cmdline: Seq<u16>)
    ensures
        plan_spec(bin_dir, tool, bytes, cmdline) matches Some((env, exe, line)) ==> {
            &&& tool != seq![118u16, 112u16] ==> env.len() > 0 && env.last()
                == EnvChangeModel::Assign("VP_SHIM_TOOL"@, tool)
            &&& tool == seq![118u16, 112u16] ==> forall|i: int|
                0 <= i < env.len() ==> !(#[trigger] env[i] matches EnvChangeModel::Assign(n, v) && n
                    == "VP_SHIM_TOOL"@)
        },
{
    assert(ascii_units(seq![118u8, 112u8]) =~= seq![118u16, 112u16]);
    reveal_strlit("VP_SHIM_TOOL");
    reveal_strlit("VP_HOME");
    reveal_strlit("VP_DATA_DIR");
    reveal_strlit("VP_BIN_DIR");
    reveal_strlit("VP_CACHE_DIR");
    assert("VP_HOME"@ != "VP_SHIM_TOOL"@) by {
        assert("VP_HOME"@.len() != "VP_SHIM_TOOL"@.len());
    }
    assert("VP_DATA_DIR"@ != "VP_SHIM_TOOL"@) by {
        assert("VP_DATA_DIR"@.len() != "VP_SHIM_TOOL"@.len());
    }
    assert("VP_BIN_DIR"@ != "VP_SHIM_TOOL"@) by {
        assert("VP_BIN_DIR"@.len() != "VP_SHIM_TOOL"@.len());
    }
    assert("VP_CACHE_DIR"@ != "VP_SHIM_TOOL"@) by {
        assert("VP_CACHE_DIR"@[3] != "VP_SHIM_TOOL"@[3]);
    }
}

fn push_change(v: &mut Vec<EnvChange>, c: EnvChange)
    ensures
        final(v)@.map_values(|x: EnvChange| change_view(x)) == old(v)@.map_values(
            |x: EnvChange| change_view(x),
        ).push(change_view(c)),
{
    let ghost before = v@;
    v.push(c);
    proof {
        assert(v@.map_values(|x: EnvChange| change_view(x)) =~= before.map_values(
            |x: EnvChange| change_view(x),
        ).push(change_view(c)));
    }
}

fn vp_exe_units() -> (res: Vec<u16>)
    ensures
        res@ == vp_exe_suffix(),
{
    let bytes: [u8; 18] = [99, 117, 114, 114, 101, 110, 116, 92, 98, 105, 110, 92, 118, 112, 46, 101, 120, 101];
    let mut v: Vec<u16> = Vec::new();
    let mut i: usize = 0;
    while i < 18
        invariant
            i <= 18,
            bytes@ == seq![99u8, 117u8, 114u8, 114u8, 101u8, 110u8, 116u8, 92u8, 98u8, 105u8, 110u8, 92u8, 118u8, 112u8, 46u8, 101u8, 120u8, 101u8],
            v@ == ascii_units(bytes@.take(i as int)),
        decreases 18 - i,
    {
        v.push(bytes[i] as u16);
        proof {
            assert(ascii_units(bytes@.take(i + 1)) =~= ascii_units(bytes@.take(i as int)).push(
                bytes@[i as int] as u16,
            ));
        }
        i += 1;
    }
    proof {
        assert(bytes@.take(18) =~= bytes@);
    }
    v
}

/// The launch plan (see `plan_spec`).
pub fn launch_plan(location: &ShimLocation, pointer_bytes: &[u8], command_line: &[u16]) -> (res: Option<
    LaunchPlan,
>)
    ensures
        match (res, plan_spec(location.bin_dir@, location.tool@, pointer_bytes@, command_line@)) {
            (Some(p), Some((env, exe, line))) => p.env@.map_values(|x: EnvChange| change_view(x))
                == env && p.vp_exe@ == exe && p.command_line@ == line,
            (None, None) => true,
            _ => false,
        },
{
    let parsed = match parse_shim_pointer(pointer_bytes) {
        Some(p) => p,
        None => return None,
    };
    let data = match utf8_path(parsed.data.as_str()) {
        Some(d) => d,
        None => return None,
    };
    let mut env: Vec<EnvChange> = Vec::new();
    match &parsed.layout {
        ShimLayout::SingleRoot => {
            push_change(&mut env, EnvChange::Assign("VP_HOME", copy(data.as_slice())));
        },
        ShimLayout::Split { cache } => {
            let cache_units = match utf8_path(cache.as_str()) {
                Some(c) => c,
                None => return None,
            };
            push_change(&mut env, EnvChange::Remove("VP_HOME"));
            push_change(&mut env, EnvChange::Assign("VP_DATA_DIR", copy(data.as_slice())));
            push_change(&mut env, EnvChange::Assign("VP_BIN_DIR", copy(location.bin_dir.as_slice())));
            push_change(&mut env, EnvChange::Assign("VP_CACHE_DIR", cache_units));
        },
    }
    let ghost layout_env = env@.map_values(|x: EnvChange| change_view(x));
    let vp: [u8; 2] = [118, 112];
    let is_vp = eq_ascii(location.tool.as_slice(), &vp);
    proof {
        if is_vp {
            assert(location.tool@ =~= ascii_units(seq![118u8, 112u8]));
        } else if is_vp_tool(location.tool@) {
            assert(location.tool@.len() == 2);
            assert(location.tool@[0] == 118u8 as u16);
            assert(location.tool@[1] == 112u8 as u16);
        }
    }
    if !is_vp {
        push_change(&mut env, EnvChange::Assign("VP_SHIM_TOOL", copy(location.tool.as_slice())));
    }
    let vp_exe = join_path(data.as_slice(), vp_exe_units().as_slice());
    let start = skip_program_argument(command_line);
    let mut line: Vec<u16> = Vec::new();
    line.push(QUOTE);
    push_all(&mut line, vp_exe.as_slice());
    line.push(QUOTE);
    push_all(&mut line, &command_line[start..command_line.len()]);
    line.push(0);
    proof {
        let tail = command_line@.skip(start as int);
        assert(command_line@.subrange(start as int, command_line@.len() as int) =~= tail);
        assert(line@ =~= seq![QUOTE] + vp_exe@ + seq![QUOTE] + tail + seq![0u16]);
    }
    Some(LaunchPlan { env, vp_exe, command_line: line })
}

/// Whether a path goes to Win32 as it is (with a final NUL) rather than in
/// its absolute extended-length form.
pub fn path_passes_as_is(path: &[u16]) -> (res: bool)
    ensures
        res == (crate::cmdline::in_verbatim_namespace(path@) || path@.len() + 1 < LEGACY_MAX_PATH),
{
    is_verbatim(path) || path.len() < LEGACY_MAX_PATH - 1
}

/// The extended-length form of an absolute path, NUL-terminated.
pub fn extended_path(absolute: &[u16]) -> (res: Vec<u16>)
    requires
        absolute@.len() + 8 < usize::MAX,
    ensures
        res@ == verbatim_path_spec(absolute@).push(0u16),
{
    let mut p = verbatim_path(absolute);
    p.push(0);
    p
}

pub open spec fn ascii(s: Seq<char>) -> Seq<u8> {
    s.map_values(|c: char| c as u8)
}

fn push_ascii(out: &mut Vec<u8>, s: &str)
    requires
        forall|i: int| 0 <= i < s@.len() ==> (s@[i] as u32) < 128,
    ensures
        final(out)@ == old(out)@ + ascii(s@),
{
    let cs = crate::text::str_chars(s);
    let ghost start = out@;
    let mut i: usize = 0;
    while i < cs.len()
        invariant
            i <= cs@.len(),
            cs@ == s@,
            out@ == start + ascii(s@.take(i as int)),
        decreases cs@.len() - i,
    {
        out.push(cs[i] as u8);
        proof {
            assert(ascii(s@.take(i + 1)) =~= ascii(s@.take(i as int)).push(s@[i as int] as u8));
        }
        i += 1;
    }
    proof {
        assert(s@.take(s@.len() as int) =~= s@);
    }
}

/// The report of a failed Win32 call: `vite-plus shim: <what> failed
/// (Windows error <n>)` and a newline.
pub fn call_failure_message(what: &[u8], error: u32) -> (res: Vec<u8>)
    ensures
        res@ == ascii("vite-plus shim: "@) + what@ + ascii(" failed (Windows error "@)
            + decimal_digits(error as nat) + ascii(")\n"@),
{
    let mut out: Vec<u8> = Vec::new();
    proof {
        reveal_strlit("vite-plus shim: ");
        reveal_strlit(" failed (Windows error ");
        reveal_strlit(")\n");
    }
    push_ascii(&mut out, "vite-plus shim: ");
    push_all(&mut out, what);
    push_ascii(&mut out, " failed (Windows error ");
    push_all(&mut out, format_u32(error).as_slice());
    push_ascii(&mut out, ")\n");
    out
}

/// The end of the report of a failed start of `vp.exe`, after the quoted
/// path: the error number, a hint when `vp.exe` is missing, a newline.
pub fn execute_failure_suffix(error: u32) -> (res: Vec<u8>)
    ensures
        res@ == ascii("\" (Windows error "@) + decimal_digits(error as nat) + ascii(")"@) + (if error
            == ERROR_FILE_NOT_FOUND || error == ERROR_PATH_NOT_FOUND {
            ascii(": vp.exe is missing; reinstall vite-plus or run `vp env setup`"@)
        } else {
            seq![]
        }) + ascii("\n"@),
{
    let mut out: Vec<u8> = Vec::new();
    proof {
        reveal_strlit("\" (Windows error ");
        reveal_strlit(")");
        reveal_strlit(": vp.exe is missing; reinstall vite-plus or run `vp env setup`");
        reveal_strlit("\n");
    }
    push_ascii(&mut out, "\" (Windows error ");
    push_all(&mut out, format_u32(error).as_slice());
    push_ascii(&mut out, ")");
    let ghost mid = out@;
    if error == ERROR_FILE_NOT_FOUND || error == ERROR_PATH_NOT_FOUND {
        push_ascii(&mut out, ": vp.exe is missing; reinstall vite-plus or run `vp env setup`");
    } else {
        proof {
            assert(out@ =~= mid + Seq::<u8>::empty());
        }
    }
    push_ascii(&mut out, "\n");
    out
}

/// Whether a failed environment change is an error: removing a variable
/// that is not set is not.
pub fn env_change_failed(removing: bool, error: u32) -> (res: bool)
    ensures
        res == !(removing && error == ERROR_ENVVAR_NOT_FOUND),
{
    !(removing && error == ERROR_ENVVAR_NOT_FOUND)
}


// ---------------------------------------------------------------------------
// The sidecar round trip.
// ---------------------------------------------------------------------------

proof fn lemma_lines_cons(a: Seq<char>, b: Seq<char>)
    requires
        !a.contains('\n'),
    ensures
        lines(a + seq!['\n'] + b) == seq![strip_cr(a)] + lines(b),
{
    let s = a + seq!['\n'] + b;
    assert(s[a.len() as int] == '\n');
    assert forall|j: int| 0 <= j < a.len() implies s[j] != '\n' by {
        assert(s[j] == a[j]);
    }
    lemma_first_index_unique(s, '\n', a.len() as int);
    assert(s.take(a.len() as int) =~= a);
    assert(s.skip(a.len() as int + 1) =~= b);
}

proof fn lemma_lines_single(a: Seq<char>)
    requires
        a.len() > 0,
        !a.contains('\n'),
    ensures
        lines(a) == seq![a],
{
    lemma_first_index_of(a, '\n');
    if first_index_of(a, '\n') is Some {
        let i = first_index_of(a, '\n')->0;
        assert(a[i] == '\n');
    }
}

proof fn lemma_no_newline_concat(a: Seq<char>, b: Seq<char>)
    requires
        !a.contains('\n'),
        !b.contains('\n'),
    ensures
        !(a + b).contains('\n'),
{
    if (a + b).contains('\n') {
        let i = choose|i: int| 0 <= i < (a + b).len() && (a + b)[i] == '\n';
        if i < a.len() {
            assert(a[i] == '\n');
        } else {
            assert(b[i - a.len()] == '\n');
        }
    }
}

proof fn lemma_prefix_concat(p: Seq<char>, v: Seq<char>)
    ensures
        has_prefix(p + v, p),
        (p + v).skip(p.len() as int) == v,
{
    assert((p + v).take(p.len() as int) =~= p);
    assert((p + v).skip(p.len() as int) =~= v);
}

/// The sidecar that the directory layer writes (whose text never starts
/// with a byte-order mark) gives back, read by the trampoline, the data root and (for the split layout) the cache root,
/// when both roots are non-empty single lines, the data root does not end
/// in a carriage return and the cache root does not end in whitespace.
#[verifier::spinoff_prover]
pub proof fn law_sidecar_round_trip(layout: VpDirsLayout, data: Seq<char>, cache: Seq<char>)
    requires
        data.len() > 0,
        cache.len() > 0,
        !data.contains('\n'),
        !cache.contains('\n'),
        data.last() != '\r',
        !is_ws(cache.last()),
    ensures
        strip_bom(vstd::utf8::encode_utf8(sidecar_text(layout, data, cache))) == vstd::utf8::encode_utf8(
            sidecar_text(layout, data, cache),
        ),
        shim_pointer_spec(vstd::utf8::encode_utf8(sidecar_text(layout, data, cache))) == Some(
            (
                data,
                match layout {
                    VpDirsLayout::SingleRoot => None,
                    VpDirsLayout::Split => Some(cache),
                },
            ),
        ),
{
    reveal_strlit("vite-plus-shim-v1");
    reveal_strlit("\nlayout=");
    reveal_strlit("layout=");
    reveal_strlit("\ndata=");
    reveal_strlit("data=");
    reveal_strlit("\ncache=");
    reveal_strlit("cache=");
    reveal_strlit("\n");
    reveal_strlit("single-root");
    reveal_strlit("split");
    let text = sidecar_text(layout, data, cache);
    let header = crate::dirs::SHIM_POINTER_HEADER@;
    let lname = crate::dirs::layout_name(layout);
    let l1 = "layout="@ + lname;
    let l2 = "data="@ + data;
    let l3 = "cache="@ + cache;
    let body = header + seq!['\n'] + (l1 + seq!['\n'] + (l2 + seq!['\n'] + l3));
    assert(text =~= body + seq!['\n']);
    // Trimming removes the final newline only.
    assert(!is_ws(text[0]));
    assert(trim_start(text) == text);
    assert(text.drop_last() =~= body);
    assert(body.last() == cache.last());
    assert(trim_end(text) == trim_end(body));
    assert(trim_end(body) == body);
    assert(trim(text) == body);
    // The lines.
    assert(!header.contains('\n')) by {
        if header.contains('\n') {
            let i = choose|i: int| 0 <= i < header.len() && header[i] == '\n';
        }
    }
    assert(!"layout="@.contains('\n')) by {
        if "layout="@.contains('\n') {
            let i = choose|i: int| 0 <= i < "layout="@.len() && "layout="@[i] == '\n';
        }
    }
    assert(!lname.contains('\n')) by {
        if lname.contains('\n') {
            let i = choose|i: int| 0 <= i < lname.len() && lname[i] == '\n';
        }
    }
    assert(!"data="@.contains('\n')) by {
        if "data="@.contains('\n') {
            let i = choose|i: int| 0 <= i < "data="@.len() && "data="@[i] == '\n';
        }
    }
    assert(!"cache="@.contains('\n')) by {
        if "cache="@.contains('\n') {
            let i = choose|i: int| 0 <= i < "cache="@.len() && "cache="@[i] == '\n';
        }
    }
    lemma_no_newline_concat("layout="@, lname);
    lemma_no_newline_concat("data="@, data);
    lemma_no_newline_concat("cache="@, cache);
    lemma_lines_cons(header, l1 + seq!['\n'] + (l2 + seq!['\n'] + l3));
    lemma_lines_cons(l1, l2 + seq!['\n'] + l3);
    lemma_lines_cons(l2, l3);
    lemma_lines_single(l3);
    assert(strip_cr(header) == header);
    assert(l1.last() == lname.last());
    assert(strip_cr(l1) == l1);
    assert(l2.last() == data.last());
    assert(strip_cr(l2) == l2);
    let ls = lines(body);
    assert(ls =~= seq![header, l1, l2, l3]);
    let fields = ls.drop_first();
    assert(fields =~= seq![l1, l2, l3]);
    // The fields.
    lemma_prefix_concat("data="@, data);
    lemma_prefix_concat("layout="@, lname);
    lemma_prefix_concat("cache="@, cache);
    assert(!has_prefix(l3, "data="@)) by {
        assert(l3[0] == 'c');
    }
    assert(!has_prefix(l3, "layout="@)) by {
        assert(l3[0] == 'c');
    }
    assert(!has_prefix(l2, "layout="@)) by {
        assert(l2[0] == 'd');
    }
    assert(fields.drop_last() =~= seq![l1, l2]);
    assert(fields.drop_last().drop_last() =~= seq![l1]);
    assert(last_field(fields.drop_last(), "data="@) == Some(data));
    assert(last_field(fields, "data="@) == Some(data));
    assert(last_field(fields.drop_last().drop_last(), "layout="@) == Some(lname));
    assert(last_field(fields.drop_last(), "layout="@) == Some(lname));
    assert(last_field(fields, "layout="@) == Some(lname));
    assert(last_field(fields, "cache="@) == Some(cache));
    assert(non_empty_field(fields, "data="@) == Some(data));
    assert(non_empty_field(fields, "cache="@) == Some(cache));
    assert(header == crate::cmdline::SHIM_POINTER_HEADER@);
    assert(ls[0] == crate::cmdline::SHIM_POINTER_HEADER@);
    assert(shim_pointer_from_text(body) == Some(
        (
            data,
            match layout {
                VpDirsLayout::SingleRoot => None,
                VpDirsLayout::Split => Some(cache),
            },
        ),
    ));
    // The bytes.
    let bytes = vstd::utf8::encode_utf8(text);
    vstd::utf8::encode_utf8_valid_utf8(text);
    vstd::utf8::encode_utf8_decode_utf8(text);
    assert(text[0] == 'v');
    assert(bytes =~= vstd::utf8::encode_scalar(text[0] as u32) + vstd::utf8::encode_utf8(
        text.drop_first(),
    ));
    assert(('v' as u32) == 118u32);
    assert((118u32 & 0x7Fu32) as u8 == 118u8) by (bit_vector);
    assert(bytes[0] == 118u8);
    assert(strip_bom(bytes) == bytes);
}

/// The sidecar's text with each line ended by `\r\n`.
pub open spec fn sidecar_text_crlf(layout: VpDirsLayout, data: Seq<char>, cache: Seq<char>) -> Seq<char> {
    crate::dirs::SHIM_POINTER_HEADER@ + "\r\nlayout="@ + crate::dirs::layout_name(layout) + "\r\ndata="@ + data
        + "\r\ncache="@ + cache + "\r\n"@
}

/// The sidecar written with Windows line breaks (`\r\n`, as an editor may
/// save it) reads back the same, with or without a UTF-8 byte-order mark
/// in front, under the conditions of `law_sidecar_round_trip`.
#[verifier::spinoff_prover]
#[verifier::rlimit(60)]
pub proof fn law_sidecar_round_trip_crlf(layout: VpDirsLayout, data: Seq<char>, cache: Seq<char>)
    requires
        data.len() > 0,
        cache.len() > 0,
        !data.contains('\n'),
        !cache.contains('\n'),
        data.last() != '\r',
        !is_ws(cache.last()),
    ensures
        shim_pointer_spec(vstd::utf8::encode_utf8(sidecar_text_crlf(layout, data, cache))) == Some(
            (
                data,
                match layout {
                    VpDirsLayout::SingleRoot => None,
                    VpDirsLayout::Split => Some(cache),
                },
            ),
        ),
        shim_pointer_spec(seq![0xEFu8, 0xBBu8, 0xBFu8] + vstd::utf8::encode_utf8(sidecar_text_crlf(layout, data, cache)))
            == shim_pointer_spec(vstd::utf8::encode_utf8(sidecar_text_crlf(layout, data, cache))),
{
    reveal_strlit("vite-plus-shim-v1");
    reveal_strlit("\nlayout=");
    reveal_strlit("layout=");
    reveal_strlit("\ndata=");
    reveal_strlit("data=");
    reveal_strlit("\ncache=");
    reveal_strlit("cache=");
    reveal_strlit("\n");
    reveal_strlit("single-root");
    reveal_strlit("split");
    reveal_strlit("\r\nlayout=");
    reveal_strlit("\r\ndata=");
    reveal_strlit("\r\ncache=");
    reveal_strlit("\r\n");
    let text = sidecar_text_crlf(layout, data, cache);
    let header = crate::dirs::SHIM_POINTER_HEADER@;
    let lname = crate::dirs::layout_name(layout);
    let l1 = "layout="@ + lname;
    let l2 = "data="@ + data;
    let l3 = "cache="@ + cache;
    let h = header + seq!['\r'];
    let m1 = l1 + seq!['\r'];
    let m2 = l2 + seq!['\r'];
    let body = h + seq!['\n'] + (m1 + seq!['\n'] + (m2 + seq!['\n'] + l3));
    assert(text =~= body + seq!['\r', '\n']);
    // Trimming removes the final line break only.
    assert(!is_ws(text[0]));
    assert(trim_start(text) == text);
    assert(text.drop_last() =~= body + seq!['\r']);
    assert(text.drop_last().drop_last() =~= body);
    assert(body.last() == cache.last());
    assert(trim_end(text) == trim_end(text.drop_last()));
    assert(trim_end(text.drop_last()) == trim_end(body));
    assert(trim_end(body) == body);
    assert(trim(text) == body);
    // The lines.
    assert(!header.contains('\n')) by {
        if header.contains('\n') {
            let i = choose|i: int| 0 <= i < header.len() && header[i] == '\n';
        }
    }
    assert(!"layout="@.contains('\n')) by {
        if "layout="@.contains('\n') {
            let i = choose|i: int| 0 <= i < "layout="@.len() && "layout="@[i] == '\n';
        }
    }
    assert(!lname.contains('\n')) by {
        if lname.contains('\n') {
            let i = choose|i: int| 0 <= i < lname.len() && lname[i] == '\n';
        }
    }
    assert(!"data="@.contains('\n')) by {
        if "data="@.contains('\n') {
            let i = choose|i: int| 0 <= i < "data="@.len() && "data="@[i] == '\n';
        }
    }
    assert(!"cache="@.contains('\n')) by {
        if "cache="@.contains('\n') {
            let i = choose|i: int| 0 <= i < "cache="@.len() && "cache="@[i] == '\n';
        }
    }
    lemma_no_newline_concat("layout="@, lname);
    lemma_no_newline_concat("data="@, data);
    lemma_no_newline_concat("cache="@, cache);
    lemma_no_newline_concat(header, seq!['\r']);
    lemma_no_newline_concat(l1, seq!['\r']);
    lemma_no_newline_concat(l2, seq!['\r']);
    lemma_lines_cons(h, m1 + seq!['\n'] + (m2 + seq!['\n'] + l3));
    lemma_lines_cons(m1, m2 + seq!['\n'] + l3);
    lemma_lines_cons(m2, l3);
    lemma_lines_single(l3);
    assert(h.drop_last() =~= header);
    assert(strip_cr(h) == header);
    assert(m1.drop_last() =~= l1);
    assert(strip_cr(m1) == l1);
    assert(m2.drop_last() =~= l2);
    assert(strip_cr(m2) == l2);
    let ls = lines(body);
    assert(ls =~= seq![header, l1, l2, l3]);
    let fields = ls.drop_first();
    assert(fields =~= seq![l1, l2, l3]);
    // The fields.
    lemma_prefix_concat("data="@, data);
    lemma_prefix_concat("layout="@, lname);
    lemma_prefix_concat("cache="@, cache);
    assert(!has_prefix(l3, "data="@)) by {
        assert(l3[0] == 'c');
    }
    assert(!has_prefix(l3, "layout="@)) by {
        assert(l3[0] == 'c');
    }
    assert(!has_prefix(l2, "layout="@)) by {
        assert(l2[0] == 'd');
    }
    assert(fields.drop_last() =~= seq![l1, l2]);
    assert(fields.drop_last().drop_last() =~= seq![l1]);
    assert(last_field(fields.drop_last(), "data="@) == Some(data));
    assert(last_field(fields, "data="@) == Some(data));
    assert(last_field(fields.drop_last().drop_last(), "layout="@) == Some(lname));
    assert(last_field(fields.drop_last(), "layout="@) == Some(lname));
    assert(last_field(fields, "layout="@) == Some(lname));
    assert(last_field(fields, "cache="@) == Some(cache));
    assert(non_empty_field(fields, "data="@) == Some(data));
    assert(non_empty_field(fields, "cache="@) == Some(cache));
    assert(header == crate::cmdline::SHIM_POINTER_HEADER@);
    assert(ls[0] == crate::cmdline::SHIM_POINTER_HEADER@);
    assert(shim_pointer_from_text(body) == Some(
        (
            data,
            match layout {
                VpDirsLayout::SingleRoot => None,
                VpDirsLayout::Split => Some(cache),
            },
        ),
    ));
    // The bytes.
    let bytes = vstd::utf8::encode_utf8(text);
    vstd::utf8::encode_utf8_valid_utf8(text);
    vstd::utf8::encode_utf8_decode_utf8(text);
    assert(text[0] == 'v');
    assert(bytes =~= vstd::utf8::encode_scalar(text[0] as u32) + vstd::utf8::encode_utf8(
        text.drop_first(),
    ));
    assert(('v' as u32) == 118u32);
    assert((118u32 & 0x7Fu32) as u8 == 118u8) by (bit_vector);
    assert(bytes[0] == 118u8);
    assert(strip_bom(bytes) == bytes);
    let bom = seq![0xEFu8, 0xBBu8, 0xBFu8] + bytes;
    assert(bom.skip(3) =~= bytes);
    assert(crate::cmdline::strip_bom(bom) == bytes);
}

/// The sidecar reads back the same with a UTF-8 byte-order mark in front
/// (as an editor may save it), under the conditions of
/// `law_sidecar_round_trip`.
pub proof fn law_sidecar_round_trip_after_bom(layout: VpDirsLayout, data: Seq<char>, cache: Seq<char>)
    requires
        data.len() > 0,
        cache.len() > 0,
        !data.contains('\n'),
        !cache.contains('\n'),
        data.last() != '\r',
        !is_ws(cache.last()),
    ensures
        shim_pointer_spec(seq![0xEFu8, 0xBBu8, 0xBFu8] + vstd::utf8::encode_utf8(sidecar_text(layout, data, cache)))
            == shim_pointer_spec(vstd::utf8::encode_utf8(sidecar_text(layout, data, cache))),
        shim_pointer_spec(seq![0xEFu8, 0xBBu8, 0xBFu8] + vstd::utf8::encode_utf8(sidecar_text(layout, data, cache)))
            == Some(
            (
                data,
                match layout {
                    VpDirsLayout::SingleRoot => None,
                    VpDirsLayout::Split => Some(cache),
                },
            ),
        ),
{
    let body = vstd::utf8::encode_utf8(sidecar_text(layout, data, cache));
    let bytes = seq![0xEFu8, 0xBBu8, 0xBFu8] + body;
    assert(bytes.skip(3) =~= body);
    assert(bytes[0] == 0xEFu8 && bytes[1] == 0xBBu8 && bytes[2] == 0xBFu8);
    assert(crate::cmdline::strip_bom(bytes) == body);
    law_sidecar_round_trip(layout, data, cache);
}

} // verus!
