use vite_plus::cmdline::{
    eq_ascii, file_stem_len, format_u32, is_path_separator, join_path, nul_terminated,
    parent_dir_len, parse_shim_pointer, pointer_path, skip_program_argument, utf8_path,
    verbatim_path, without_nul, ShimLayout, ShimPointer,
};

fn wide(s: &str) -> Vec<u16> {
    s.encode_utf16().collect()
}

#[test]
fn skips_unquoted_program() {
    let cl = wide(r"C:\bin\node.exe --version");
    assert_eq!(&cl[skip_program_argument(&cl)..], &wide(" --version")[..]);
}

#[test]
fn skips_quoted_program_with_spaces() {
    let cl = wide(r#""C:\Program Files\node.exe" -e "1 + 1""#);
    assert_eq!(&cl[skip_program_argument(&cl)..], &wide(r#" -e "1 + 1""#)[..]);
}

#[test]
fn treats_leading_whitespace_as_an_empty_program() {
    for cl in [wide("  script.js --flag"), wide("\tscript.js --flag")] {
        assert_eq!(skip_program_argument(&cl), 0);
    }
}

#[test]
fn skips_bare_program() {
    let cl = wide("node");
    assert_eq!(skip_program_argument(&cl), cl.len());
    assert_eq!(skip_program_argument(&[]), 0);
}

#[test]
fn keeps_argument_tail_verbatim() {
    let cl = wide(r#"npx "a  b\" literal" --flag"#);
    assert_eq!(&cl[skip_program_argument(&cl)..], &wide(r#" "a  b\" literal" --flag"#)[..]);
}

#[test]
fn parent_directory_preserves_windows_roots() {
    fn parent(path: &str) -> Vec<u16> {
        let path = wide(path);
        let last_separator = path.iter().rposition(|&unit| is_path_separator(unit)).unwrap();
        path[..parent_dir_len(&path, last_separator)].to_vec()
    }

    assert_eq!(parent(r"C:\vp.exe"), wide("C:\\"));
    assert_eq!(parent(r"C:\bin\vp.exe"), wide(r"C:\bin"));
    assert_eq!(parent(r"\\?\C:\vp.exe"), wide("\\\\?\\C:\\"));
    assert_eq!(
        parent(r"\\?\Volume{01234567-89ab-cdef-0123-456789abcdef}\vp.exe"),
        wide("\\\\?\\Volume{01234567-89ab-cdef-0123-456789abcdef}\\")
    );
    assert_eq!(parent(r"\\?\UNC\server\share\vp.exe"), wide(r"\\?\UNC\server\share"));
    assert_eq!(parent(r"\\server\share\vp.exe"), wide(r"\\server\share"));
    assert_eq!(parent(r"\vp.exe"), wide("\\"));
}

#[test]
fn prefixes_normalized_absolute_paths_for_win32() {
    assert_eq!(verbatim_path(&wide(r"C:\data\vp.exe")), wide(r"\\?\C:\data\vp.exe"));
    assert_eq!(
        verbatim_path(&wide(r"\\server\share\vp.exe")),
        wide(r"\\?\UNC\server\share\vp.exe")
    );
    assert_eq!(verbatim_path(&wide(r"\\.\Volume{123}\vp.exe")), wide(r"\\?\Volume{123}\vp.exe"));
}

#[test]
fn keeps_existing_namespaces_and_relative_paths() {
    for path in [r"\\?\C:\data\vp.exe", r"\??\C:\data\vp.exe", r"data\vp.exe"] {
        assert_eq!(verbatim_path(&wide(path)), wide(path));
    }
}

#[test]
fn file_stem_matches_path_file_stem() {
    assert_eq!(file_stem_len(&wide("node.exe")), 4);
    assert_eq!(file_stem_len(&wide("node")), 4);
    assert_eq!(file_stem_len(&wide("NODE.EXE")), 4);
    assert_eq!(file_stem_len(&wide("a.b.exe")), 3);
    assert_eq!(file_stem_len(&wide(".hidden")), 7);
    assert_eq!(file_stem_len(&wide("node.")), 4);
}

#[test]
fn eq_ascii_is_exact() {
    assert!(eq_ascii(&wide("vp"), b"vp"));
    assert!(!eq_ascii(&wide("VP"), b"vp"));
    assert!(!eq_ascii(&wide("vpx"), b"vp"));
}

#[test]
fn formats_decimal() {
    assert_eq!(format_u32(0), b"0");
    assert_eq!(format_u32(203), b"203");
    assert_eq!(format_u32(u32::MAX), b"4294967295");
}

#[test]
fn parses_versioned_shim_pointers() {
    assert_eq!(
        parse_shim_pointer(b"vite-plus-shim-v1\nlayout=single-root\ndata=C:\\vp\ncache=C:\\cache\n"),
        Some(ShimPointer { data: r"C:\vp".to_string(), layout: ShimLayout::SingleRoot })
    );
    assert_eq!(
        parse_shim_pointer(
            b"\xEF\xBB\xBFvite-plus-shim-v1\r\nlayout=split\r\ndata=D:\\data\r\ncache=C:\\cache\r\n",
        ),
        Some(ShimPointer {
            data: r"D:\data".to_string(),
            layout: ShimLayout::Split { cache: r"C:\cache".to_string() },
        })
    );
}

#[test]
fn rejects_invalid_shim_pointers() {
    assert_eq!(parse_shim_pointer(b""), None);
    assert_eq!(parse_shim_pointer(b"\xff"), None);
    assert_eq!(parse_shim_pointer(b" C:\\vite-plus\\data\r\n"), None);
    assert_eq!(parse_shim_pointer(b"vite-plus-shim-v1\nlayout=split\ndata=C:\\data\n"), None);
    assert_eq!(
        parse_shim_pointer(b"vite-plus-shim-v1\nlayout=unknown\ndata=C:\\data\ncache=C:\\cache\n",),
        None
    );
}

#[test]
fn shim_pointer_last_value_wins_and_empty_unsets() {
    assert_eq!(
        parse_shim_pointer(b"  vite-plus-shim-v1\ndata=A\ndata=B\nlayout=single-root\n\n"),
        Some(ShimPointer { data: "B".to_string(), layout: ShimLayout::SingleRoot })
    );
    assert_eq!(parse_shim_pointer(b"vite-plus-shim-v1\ndata=A\ndata=\nlayout=single-root"), None);
}

#[test]
fn nul_helpers_round_trip() {
    let w = wide("abc");
    let n = nul_terminated(&w);
    assert_eq!(n, vec![97, 98, 99, 0]);
    assert_eq!(without_nul(&n), &w[..]);
}

#[test]
fn join_path_inserts_one_backslash() {
    assert_eq!(join_path(&wide(r"C:\vp"), &wide(r"current\bin")), wide(r"C:\vp\current\bin"));
    assert_eq!(join_path(&wide("C:\\vp\\"), &wide("x")), wide(r"C:\vp\x"));
    assert_eq!(join_path(&[], &wide("x")), wide("x"));
}

#[test]
fn utf8_path_rejects_empty_and_nul() {
    assert_eq!(utf8_path(""), None);
    assert_eq!(utf8_path("a\0b"), None);
    assert_eq!(utf8_path("C:\\d\u{1F600}"), Some(wide("C:\\d\u{1F600}")));
}

#[test]
fn pointer_path_uses_the_stem() {
    let exe = wide(r"C:\bin\node.exe");
    assert_eq!(pointer_path(&exe, 6, &wide("node.exe")), wide(r"C:\bin\node.shim"));
}

#[test]
fn extended_paths_are_idempotent() {
    for path in [r"C:\data\vp.exe", r"\\server\share\vp.exe", r"\\.\Volume{123}\vp.exe", r"data\vp.exe", r"\??\C:\x"] {
        let once = verbatim_path(&wide(path));
        assert_eq!(verbatim_path(&once), once);
        assert!(once == wide(path) || once.starts_with(&wide(r"\\?\")));
    }
}
