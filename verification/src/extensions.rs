//! The pure parts of the bundled language extensions: how the Gleam test
//! extension labels completions and names its downloads, where the TOML
//! extension finds `taplo`, and how the HTML extension decides to install its
//! server.
use vstd::prelude::*;
use crate::text::{
    chars_concat, chars_join, chars_of, chars_replace, chars_split, chars_start_with, has_prefix,
    join, opt_view, owned, replace_all, split_char, split_from, str_eq, string_of, strings_view, trim,
    trim_chars, trim_start, trim_end, is_ws, free_of, lemma_replace_removes,
};

verus! {

/// The operating system an extension runs on.
#[derive(Debug, Clone, Copy, PartialEq, Eq, Structural)]
pub enum Os {
    Mac,
    Linux,
    Windows,
}

/// The processor architecture an extension runs on.
#[derive(Debug, Clone, Copy, PartialEq, Eq, Structural)]
pub enum Architecture {
    Aarch64,
    X86,
    X8664,
}

/// The architecture's name in release asset names.
pub open spec fn arch_name(a: Architecture) -> &'static str {
    match a {
        Architecture::Aarch64 => "aarch64",
        Architecture::X86 => "x86",
        Architecture::X8664 => "x86_64",
    }
}

/// The architecture's name in release asset names.
pub fn architecture_name(a: Architecture) -> (r: &'static str)
    ensures
        r == arch_name(a),
{
    match a {
        Architecture::Aarch64 => "aarch64",
        Architecture::X86 => "x86",
        Architecture::X8664 => "x86_64",
    }
}

/// Concatenates texts.
fn concat_all(parts: &Vec<Vec<char>>) -> (r: Vec<char>)
    ensures
        r@ == join(parts@.map_values(|p: Vec<char>| p@), Seq::empty()),
{
    let empty: Vec<char> = Vec::new();
    chars_join(parts, empty.as_slice())
}

// ---------------------------------------------------------------- Gleam test extension

/// A completion's detail with the line breaks the Gleam server puts in
/// types taken out: `->` followed by a break and indent becomes `-> `, other
/// breaks with indent and breaks after commas disappear, any break left over
/// is dropped, and the parts between commas are trimmed and rejoined with
/// `, `.
pub open spec fn stripped_detail(detail: Seq<char>) -> Seq<char> {
    let a = replace_all(detail, "->\n  "@, "-> "@);
    let b = replace_all(a, "\n  "@, ""@);
    let c = replace_all(b, ",\n"@, ""@);
    let d = replace_all(c, "\n"@, ""@);
    join(split_char(d, ',').map_values(|p: Seq<char>| trim(p)), ", "@)
}

proof fn lemma_split_free_of(s: Seq<char>, sep: char, cur: Seq<char>, c: char)
    requires
        free_of(s, c),
        free_of(cur, c),
    ensures
        forall|k: int| 0 <= k < split_from(s, sep, cur).len() ==> free_of(#[trigger] split_from(s, sep, cur)[k], c),
    decreases s.len(),
{
    if s.len() > 0 {
        assert(free_of(s.drop_first(), c)) by {
            assert forall|i: int| 0 <= i < s.drop_first().len() implies s.drop_first()[i] != c by {
                assert(s.drop_first()[i] == s[i + 1]);
            }
        }
        if s[0] == sep {
            lemma_split_free_of(s.drop_first(), sep, Seq::empty(), c);
            let rest = split_from(s.drop_first(), sep, Seq::empty());
            assert(split_from(s, sep, cur) == seq![cur] + rest);
            assert forall|k: int| 0 <= k < split_from(s, sep, cur).len() implies free_of(#[trigger] split_from(s, sep, cur)[k], c) by {
                if k > 0 {
                    assert(split_from(s, sep, cur)[k] == rest[k - 1]);
                } else {
                    assert(split_from(s, sep, cur)[k] == cur);
                }
            }
        } else {
            assert(free_of(cur.push(s[0]), c)) by {
                assert forall|i: int| 0 <= i < cur.push(s[0]).len() implies cur.push(s[0])[i] != c by {
                    if i < cur.len() {
                        assert(cur.push(s[0])[i] == cur[i]);
                    }
                }
            }
            lemma_split_free_of(s.drop_first(), sep, cur.push(s[0]), c);
            assert(split_from(s, sep, cur) == split_from(s.drop_first(), sep, cur.push(s[0])));
        }
    } else {
        assert(split_from(s, sep, cur) == seq![cur]);
        assert forall|k: int| 0 <= k < split_from(s, sep, cur).len() implies free_of(#[trigger] split_from(s, sep, cur)[k], c) by {
            assert(k == 0);
            assert(seq![cur][0] == cur);
        }
    }
}

proof fn lemma_trim_free_of(s: Seq<char>, c: char)
    requires
        free_of(s, c),
    ensures
        free_of(trim(s), c),
{
    lemma_trim_start_free_of(s, c);
    lemma_trim_end_free_of(trim_start(s), c);
}

proof fn lemma_trim_start_free_of(s: Seq<char>, c: char)
    requires
        free_of(s, c),
    ensures
        free_of(trim_start(s), c),
    decreases s.len(),
{
    if s.len() > 0 && is_ws(s[0]) {
        lemma_trim_start_free_of(s.drop_first(), c);
    }
}

proof fn lemma_trim_end_free_of(s: Seq<char>, c: char)
    requires
        free_of(s, c),
    ensures
        free_of(trim_end(s), c),
    decreases s.len(),
{
    if s.len() > 0 && is_ws(s.last()) {
        lemma_trim_end_free_of(s.drop_last(), c);
    }
}

proof fn lemma_join_free_of(parts: Seq<Seq<char>>, sep: Seq<char>, c: char)
    requires
        free_of(sep, c),
        forall|k: int| 0 <= k < parts.len() ==> free_of(#[trigger] parts[k], c),
    ensures
        free_of(join(parts, sep), c),
    decreases parts.len(),
{
    if parts.len() > 1 {
        lemma_join_free_of(parts.drop_last(), sep, c);
        let j = join(parts.drop_last(), sep);
        let last = parts.last();
        assert(free_of(last, c)) by {
            assert(last == parts[parts.len() - 1]);
        }
        let whole = j + sep + last;
        assert forall|i: int| 0 <= i < whole.len() implies whole[i] != c by {
            if i < j.len() {
                assert(whole[i] == j[i]);
            } else if i < j.len() + sep.len() {
                assert(whole[i] == sep[i - j.len()]);
            } else {
                assert(whole[i] == last[i - j.len() - sep.len()]);
            }
        }
    } else if parts.len() == 1 {
        assert(free_of(parts[0], c));
    }
}

/// What `stripped_detail` gives holds no line break.
pub proof fn lemma_stripped_detail_has_no_newline(detail: Seq<char>)
    ensures
        !stripped_detail(detail).contains('\n'),
{
    reveal_strlit("\n");
    reveal_strlit("");
    reveal_strlit(", ");
    let a = replace_all(detail, "->\n  "@, "-> "@);
    let b = replace_all(a, "\n  "@, ""@);
    let c = replace_all(b, ",\n"@, ""@);
    assert("\n"@ =~= seq!['\n']);
    assert(""@ =~= Seq::<char>::empty());
    let d = replace_all(c, "\n"@, ""@);
    lemma_replace_removes(c, '\n', Seq::empty());
    lemma_split_free_of(d, ',', Seq::empty(), '\n');
    let parts = split_char(d, ',');
    let trimmed = parts.map_values(|p: Seq<char>| trim(p));
    assert forall|k: int| 0 <= k < trimmed.len() implies free_of(#[trigger] trimmed[k], '\n') by {
        assert(free_of(parts[k], '\n'));
        lemma_trim_free_of(parts[k], '\n');
    }
    assert(free_of(", "@, '\n'));
    lemma_join_free_of(trimmed, ", "@, '\n');
}

/// Removes the line breaks from a completion's detail, as `stripped_detail`
/// describes: no line break is left.
pub fn strip_newlines_from_detail(detail: &str) -> (r: String)
    ensures
        r@ == stripped_detail(detail@),
        !r@.contains('\n'),
{
    proof {
        reveal_strlit("->\n  ");
        reveal_strlit("\n  ");
        reveal_strlit(",\n");
        reveal_strlit("\n");
        lemma_stripped_detail_has_no_newline(detail@);
    }
    let d = chars_of(detail);
    let arrow = chars_of("->\n  ");
    let arrow_to = chars_of("-> ");
    let indent = chars_of("\n  ");
    let comma_break = chars_of(",\n");
    let line_break = chars_of("\n");
    let nothing: Vec<char> = Vec::new();
    assert(nothing@ =~= ""@) by {
        reveal_strlit("");
    }
    let a = chars_replace(d.as_slice(), arrow.as_slice(), arrow_to.as_slice());
    let b = chars_replace(a.as_slice(), indent.as_slice(), nothing.as_slice());
    let c = chars_replace(b.as_slice(), comma_break.as_slice(), nothing.as_slice());
    let e = chars_replace(c.as_slice(), line_break.as_slice(), nothing.as_slice());
    let parts = chars_split(e.as_slice(), ',');
    let ghost pv = parts@.map_values(|p: Vec<char>| p@);
    let mut trimmed: Vec<Vec<char>> = Vec::new();
    let mut i: usize = 0;
    while i < parts.len()
        invariant
            pv == parts@.map_values(|p: Vec<char>| p@),
            i <= parts@.len(),
            trimmed@.map_values(|p: Vec<char>| p@) == pv.subrange(0, i as int).map_values(|p: Seq<char>| trim(p)),
        decreases parts@.len() - i,
    {
        let t = trim_chars(parts[i].as_slice());
        let ghost before = trimmed@.map_values(|p: Vec<char>| p@);
        trimmed.push(t);
        assert(trimmed@.map_values(|p: Vec<char>| p@) =~= before.push(t@));
        assert(pv.subrange(0, i + 1).map_values(|p: Seq<char>| trim(p)) =~= pv.subrange(0, i as int).map_values(|p: Seq<char>| trim(p)).push(trim(pv[i as int])));
        i = i + 1;
    }
    assert(pv.subrange(0, pv.len() as int) =~= pv);
    let sep = chars_of(", ");
    let joined = chars_join(&trimmed, sep.as_slice());
    string_of(joined.as_slice())
}

/// The kind of a completion item.
#[derive(Debug, Clone, Copy, PartialEq, Eq, Structural)]
pub enum CompletionKind {
    Text,
    Method,
    Function,
    Constructor,
    Field,
    Variable,
    Class,
    Interface,
    Module,
    Property,
    Unit,
    Value,
    Enum,
    Keyword,
    Snippet,
    Color,
    File,
    Reference,
    Folder,
    EnumMember,
    Constant,
    Struct,
    Event,
    Operator,
    TypeParameter,
    Other(i32),
}

/// A byte range of a label's code.
#[derive(Debug, Clone, Copy, PartialEq, Eq, Structural)]
pub struct ByteRange {
    pub start: usize,
    pub end: usize,
}

/// A span of a completion label: a range of its code, highlighted as code.
#[derive(Debug, Clone, Copy, PartialEq, Eq, Structural)]
pub enum CodeLabelSpan {
    CodeRange(ByteRange),
}

/// A completion label: code to highlight, the spans of it to show, and the
/// range that filtering matches against.
#[derive(Debug)]
pub struct CodeLabel {
    pub code: String,
    pub spans: Vec<CodeLabelSpan>,
    pub filter_range: ByteRange,
}

/// The number of bytes of a character in UTF-8.
pub open spec fn utf8_width(c: char) -> nat {
    let u = c as int;
    if u < 0x80 {
        1
    } else if u < 0x800 {
        2
    } else if u < 0x10000 {
        3
    } else {
        4
    }
}

/// The number of bytes of a text in UTF-8.
pub open spec fn utf8_len(s: Seq<char>) -> nat
    decreases s.len(),
{
    if s.len() == 0 {
        0
    } else {
        utf8_len(s.drop_last()) + utf8_width(s.last())
    }
}

proof fn lemma_utf8_len_concat(a: Seq<char>, b: Seq<char>)
    ensures
        utf8_len(a + b) == utf8_len(a) + utf8_len(b),
    decreases b.len(),
{
    if b.len() > 0 {
        lemma_utf8_len_concat(a, b.drop_last());
        assert((a + b).drop_last() =~= a + b.drop_last());
    } else {
        assert(a + b =~= a);
    }
}

/// The UTF-8 width of a character.
fn utf8_width_of(c: char) -> (w: usize)
    ensures
        w == utf8_width(c),
{
    let u = c as u32;
    if u < 0x80 {
        1
    } else if u < 0x800 {
        2
    } else if u < 0x10000 {
        3
    } else {
        4
    }
}

/// The UTF-8 length of a text, where it fits in a `usize`.
fn utf8_len_of(s: &[char]) -> (r: Option<usize>)
    ensures
        match r {
            Some(n) => n == utf8_len(s@),
            None => utf8_len(s@) > usize::MAX,
        },
{
    let mut n: usize = 0;
    let mut i: usize = 0;
    while i < s.len()
        invariant
            i <= s@.len(),
            n == utf8_len(s@.subrange(0, i as int)),
        decreases s@.len() - i,
    {
        let w = utf8_width_of(s[i]);
        assert(s@.subrange(0, i + 1).drop_last() =~= s@.subrange(0, i as int));
        assert(w == utf8_width(s@[i as int]));
        assert(s@.subrange(0, i + 1).last() == s@[i as int]);
        if n > usize::MAX - w {
            proof {
                lemma_utf8_len_prefix(s@, i + 1);
            }
            return None;
        }
        n = n + w;
        i = i + 1;
    }
    assert(s@.subrange(0, s@.len() as int) =~= s@);
    Some(n)
}

proof fn lemma_utf8_len_prefix(s: Seq<char>, k: int)
    requires
        0 <= k <= s.len(),
    ensures
        utf8_len(s.subrange(0, k)) <= utf8_len(s),
    decreases s.len() - k,
{
    if k < s.len() {
        lemma_utf8_len_prefix(s.drop_last(), k);
        assert(s.drop_last().subrange(0, k) =~= s.subrange(0, k));
    } else {
        assert(s.subrange(0, k) =~= s);
    }
}

/// The code a completion is shown as: `let a: <type> = <name>`, with `()`
/// after the name of a function or constructor.
pub open spec fn label_code(name: Seq<char>, ty: Seq<char>, kind: CompletionKind) -> Seq<char> {
    "let a"@ + ": "@ + ty + " = "@ + name + if kind == CompletionKind::Function || kind
        == CompletionKind::Constructor {
        "()"@
    } else {
        ""@
    }
}

/// The label of a completion with a detail and a kind: its code, and spans
/// for the name, the colon and the type, as byte ranges of the code; the
/// name is what filtering matches.
pub open spec fn completion_label(name: Seq<char>, detail: Seq<char>, kind: CompletionKind) -> (Seq<char>, Seq<ByteRange>, ByteRange) {
    let ty = stripped_detail(detail);
    let name_start = 5 + 2 + utf8_len(ty) + 3;
    (
        label_code(name, ty, kind),
        seq![
            ByteRange { start: name_start as usize, end: (name_start + utf8_len(name)) as usize },
            ByteRange { start: 5, end: 7 },
            ByteRange { start: 7, end: (7 + utf8_len(ty)) as usize },
        ],
        ByteRange { start: 0, end: utf8_len(name) as usize },
    )
}

/// The spans as byte ranges.
pub open spec fn span_ranges(spans: Seq<CodeLabelSpan>) -> Seq<ByteRange> {
    spans.map_values(|s: CodeLabelSpan| match s {
        CodeLabelSpan::CodeRange(r) => r,
    })
}

/// The label of a completion, as `completion_label` describes; none without
/// a detail or a kind. The byte offsets are counted in `usize`, so a label
/// whose offsets do not fit there is not made.
pub fn label_for_completion(label: &str, detail: Option<&str>, kind: Option<CompletionKind>) -> (r: Option<CodeLabel>)
    ensures
        match (detail, kind) {
            (Some(d), Some(k)) => {
                let l = completion_label(label@, d@, k);
                if 10 + utf8_len(stripped_detail(d@)) + utf8_len(label@) <= usize::MAX {
                    r matches Some(c) && c.code@ == l.0 && span_ranges(c.spans@) == l.1 && c.filter_range == l.2
                } else {
                    r is None
                }
            },
            _ => r is None,
        },
{
    let detail = match detail {
        Some(d) => d,
        None => return None,
    };
    let kind = match kind {
        Some(k) => k,
        None => return None,
    };
    proof {
        reveal_strlit("let a");
        reveal_strlit(": ");
        reveal_strlit(" = ");
        reveal_strlit("()");
        reveal_strlit("");
    }
    let ty = strip_newlines_from_detail(detail);
    let ty_chars = chars_of(ty.as_str());
    let name_chars = chars_of(label);
    let ty_len = match utf8_len_of(ty_chars.as_slice()) {
        Some(n) => n,
        None => return None,
    };
    let name_len = match utf8_len_of(name_chars.as_slice()) {
        Some(n) => n,
        None => return None,
    };
    if ty_len > usize::MAX - 10 || name_len > usize::MAX - 10 - ty_len {
        return None;
    }
    let call = if kind == CompletionKind::Function || kind == CompletionKind::Constructor {
        "()"
    } else {
        ""
    };
    let parts = vec![
        chars_of("let a"),
        chars_of(": "),
        ty_chars,
        chars_of(" = "),
        name_chars,
        chars_of(call),
    ];
    let code = concat_all(&parts);
    proof {
        let pv = parts@.map_values(|p: Vec<char>| p@);
        assert(pv.drop_last().drop_last().drop_last().drop_last().drop_last() =~= seq!["let a"@]);
        assert(join(pv, Seq::empty()) =~= "let a"@ + ": "@ + ty@ + " = "@ + label@ + call@) by {
            let e = Seq::<char>::empty();
            assert(pv.drop_last().drop_last().drop_last().drop_last() =~= seq!["let a"@, ": "@]);
            assert(pv.drop_last().drop_last().drop_last() =~= seq!["let a"@, ": "@, ty@]);
            assert(pv.drop_last().drop_last() =~= seq!["let a"@, ": "@, ty@, " = "@]);
            assert(pv.drop_last() =~= seq!["let a"@, ": "@, ty@, " = "@, label@]);
            assert(join(seq!["let a"@], e) == "let a"@);
            assert(join(seq!["let a"@, ": "@], e) =~= "let a"@ + ": "@);
            assert(join(seq!["let a"@, ": "@, ty@], e) =~= "let a"@ + ": "@ + ty@);
            assert(join(seq!["let a"@, ": "@, ty@, " = "@], e) =~= "let a"@ + ": "@ + ty@ + " = "@);
            assert(join(seq!["let a"@, ": "@, ty@, " = "@, label@], e) =~= "let a"@ + ": "@ + ty@ + " = "@ + label@);
        }
    }
    let name_start = 10 + ty_len;
    let spans = vec![
        CodeLabelSpan::CodeRange(ByteRange { start: name_start, end: name_start + name_len }),
        CodeLabelSpan::CodeRange(ByteRange { start: 5, end: 7 }),
        CodeLabelSpan::CodeRange(ByteRange { start: 7, end: 7 + ty_len }),
    ];
    let r = CodeLabel {
        code: string_of(code.as_slice()),
        spans,
        filter_range: ByteRange { start: 0, end: name_len },
    };
    assert(span_ranges(r.spans@) =~= completion_label(label@, detail@, kind).1);
    Some(r)
}

/// The operating system's part of a Gleam release asset name.
pub open spec fn gleam_os_name(os: Os) -> &'static str {
    match os {
        Os::Mac => "apple-darwin",
        Os::Linux => "unknown-linux-musl",
        Os::Windows => "pc-windows-msvc",
    }
}

/// The name of the Gleam release asset for a version and platform:
/// `gleam-<version>-<arch>-<os>.tar.gz`.
pub open spec fn gleam_asset_text(version: Seq<char>, os: Os, arch: Architecture) -> Seq<char> {
    "gleam-"@ + version + "-"@ + arch_name(arch)@ + "-"@ + gleam_os_name(os)@ + ".tar.gz"@
}

/// The name of the Gleam release asset for a version and platform.
pub fn gleam_asset_name(version: &str, os: Os, arch: Architecture) -> (r: String)
    ensures
        r@ == gleam_asset_text(version@, os, arch),
{
    let os_name = match os {
        Os::Mac => "apple-darwin",
        Os::Linux => "unknown-linux-musl",
        Os::Windows => "pc-windows-msvc",
    };
    let mut t = chars_of("gleam-");
    t = chars_concat(t.as_slice(), chars_of(version).as_slice());
    t = chars_concat(t.as_slice(), chars_of("-").as_slice());
    t = chars_concat(t.as_slice(), chars_of(architecture_name(arch)).as_slice());
    t = chars_concat(t.as_slice(), chars_of("-").as_slice());
    t = chars_concat(t.as_slice(), chars_of(os_name).as_slice());
    t = chars_concat(t.as_slice(), chars_of(".tar.gz").as_slice());
    string_of(t.as_slice())
}

/// The directory a Gleam release is unpacked to: `gleam-<version>`.
pub fn gleam_version_dir(version: &str) -> (r: String)
    ensures
        r@ == "gleam-"@ + version@,
{
    let t = chars_concat(chars_of("gleam-").as_slice(), chars_of(version).as_slice());
    string_of(t.as_slice())
}

/// The path of the Gleam binary in its release directory.
pub fn gleam_binary_path(version_dir: &str) -> (r: String)
    ensures
        r@ == version_dir@ + "/gleam"@,
{
    let t = chars_concat(chars_of(version_dir).as_slice(), chars_of("/gleam").as_slice());
    string_of(t.as_slice())
}

/// Whether a directory entry is an older Gleam release, to remove: its name
/// starts with `gleam-` and is not the current release directory.
pub fn is_stale_gleam_entry(file_name: &str, version_dir: &str) -> (r: bool)
    ensures
        r == (has_prefix(file_name@, "gleam-"@) && file_name@ != version_dir@),
{
    let name = chars_of(file_name);
    let prefix = chars_of("gleam-");
    chars_start_with(name.as_slice(), prefix.as_slice()) && !str_eq(file_name, version_dir)
}

/// The cached binary, where it is still a file on disk.
pub fn usable_cached_binary(cached_binary_path: &Option<String>, cached_is_file: bool) -> (r: Option<String>)
    ensures
        opt_view(r) == if cached_is_file {
            opt_view(*cached_binary_path)
        } else {
            None
        },
{
    match cached_binary_path {
        Some(p) => if cached_is_file {
            Some(p.clone())
        } else {
            None
        },
        None => None,
    }
}

// ---------------------------------------------------------------- TOML extension

/// The `taplo` binary to run, with the arguments the user configured.
#[derive(Debug)]
pub struct TaploBinary {
    pub path: String,
    pub args: Option<Vec<String>>,
}

/// Where `taplo` comes from without downloading it: the configured path,
/// else `taplo` on the worktree's `PATH`, else the cached download where it
/// is still a file; `None` where it must be downloaded.
pub fn taplo_binary_without_download(
    configured_path: Option<String>,
    configured_args: Option<Vec<String>>,
    path_lookup: Option<String>,
    cached_binary_path: &Option<String>,
    cached_is_file: bool,
) -> (r: Option<TaploBinary>)
    ensures
        match r {
            Some(b) => {
                &&& b.args == configured_args
                &&& b.path@ == match configured_path {
                    Some(p) => p@,
                    None => match path_lookup {
                        Some(p) => p@,
                        None => cached_binary_path->0@,
                    },
                }
                &&& (configured_path is None && path_lookup is None) ==> (cached_is_file && cached_binary_path is Some)
            },
            None => configured_path is None && path_lookup is None && !(cached_is_file && cached_binary_path is Some),
        },
{
    if let Some(path) = configured_path {
        return Some(TaploBinary { path, args: configured_args });
    }
    if let Some(path) = path_lookup {
        return Some(TaploBinary { path, args: configured_args });
    }
    if let Some(path) = cached_binary_path {
        if cached_is_file {
            return Some(TaploBinary { path: path.clone(), args: configured_args });
        }
    }
    None
}

/// The operating system's part of a `taplo` release asset name.
pub open spec fn taplo_os_name(os: Os) -> &'static str {
    match os {
        Os::Mac => "darwin",
        Os::Linux => "linux",
        Os::Windows => "windows",
    }
}

/// The name of the `taplo` release asset for a platform:
/// `taplo-<os>-<arch>.gz`.
pub fn taplo_asset_name(os: Os, arch: Architecture) -> (r: String)
    ensures
        r@ == "taplo-"@ + taplo_os_name(os)@ + "-"@ + arch_name(arch)@ + ".gz"@,
{
    let os_name = match os {
        Os::Mac => "darwin",
        Os::Linux => "linux",
        Os::Windows => "windows",
    };
    let mut t = chars_of("taplo-");
    t = chars_concat(t.as_slice(), chars_of(os_name).as_slice());
    t = chars_concat(t.as_slice(), chars_of("-").as_slice());
    t = chars_concat(t.as_slice(), chars_of(architecture_name(arch)).as_slice());
    t = chars_concat(t.as_slice(), chars_of(".gz").as_slice());
    string_of(t.as_slice())
}

/// The directory of a `taplo` release: `taplo-<version>`.
pub fn taplo_version_dir(version: &str) -> (r: String)
    ensures
        r@ == "taplo-"@ + version@,
{
    let t = chars_concat(chars_of("taplo-").as_slice(), chars_of(version).as_slice());
    string_of(t.as_slice())
}

/// The path of the `taplo` binary in its release directory (`taplo.exe` on
/// Windows).
pub fn taplo_binary_path(version_dir: &str, os: Os) -> (r: String)
    ensures
        r@ == version_dir@ + "/"@ + (if os == Os::Windows { "taplo.exe"@ } else { "taplo"@ }),
{
    let bin = if os == Os::Windows {
        "taplo.exe"
    } else {
        "taplo"
    };
    let mut t = chars_concat(chars_of(version_dir).as_slice(), chars_of("/").as_slice());
    t = chars_concat(t.as_slice(), chars_of(bin).as_slice());
    string_of(t.as_slice())
}

/// The arguments `taplo` runs with: the configured ones, else `lsp stdio`.
pub fn taplo_args(args: Option<Vec<String>>) -> (r: Vec<String>)
    ensures
        match args {
            Some(a) => r == a,
            None => strings_view(r@) == seq!["lsp"@, "stdio"@],
        },
{
    match args {
        Some(a) => a,
        None => {
            let r = vec![owned("lsp"), owned("stdio")];
            assert(strings_view(r@) =~= seq!["lsp"@, "stdio"@]);
            r
        },
    }
}

// ---------------------------------------------------------------- HTML extension

/// The path of the HTML language server's script inside its npm package.
pub const SERVER_PATH: &'static str = "node_modules/vscode-langservers-extracted/bin/vscode-html-language-server";

/// The npm package that holds the HTML language server.
pub const PACKAGE_NAME: &'static str = "vscode-langservers-extracted";

/// The name of the HTML language server binary on `PATH`.
pub const BINARY_NAME: &'static str = "vscode-html-language-server";

/// The text without its leading `/` characters.
pub open spec fn without_leading_slashes(s: Seq<char>) -> Seq<char>
    decreases s.len(),
{
    if s.len() > 0 && s[0] == '/' {
        without_leading_slashes(s.drop_first())
    } else {
        s
    }
}

/// A path as the extension may use it: on Windows without its leading
/// slashes, elsewhere unchanged.
pub fn sanitize_windows_path(path: &str, os: Os) -> (r: String)
    ensures
        r@ == if os == Os::Windows {
            without_leading_slashes(path@)
        } else {
            path@
        },
{
    let c = chars_of(path);
    if os != Os::Windows {
        return string_of(c.as_slice());
    }
    let mut i: usize = 0;
    assert(c@.subrange(0, c@.len() as int) =~= c@);
    while i < c.len() && c[i] == '/'
        invariant
            c@ == path@,
            i <= c@.len(),
            without_leading_slashes(c@.subrange(i as int, c@.len() as int)) == without_leading_slashes(path@),
        decreases c@.len() - i,
    {
        assert(c@.subrange(i as int, c@.len() as int).drop_first() =~= c@.subrange(i + 1, c@.len() as int));
        i = i + 1;
    }
    let rest = crate::text::chars_from(c.as_slice(), i);
    assert(i == c@.len() || rest@[0] != '/');
    string_of(rest.as_slice())
}

/// Whether the installed server can be used as it is: a path was cached and
/// the script is on disk.
pub fn html_server_ready(has_cached_path: bool, server_exists: bool) -> (r: bool)
    ensures
        r == (has_cached_path && server_exists),
{
    has_cached_path && server_exists
}

/// Whether the HTML server package is to be installed: the script is
/// missing, or the installed version is not the latest.
pub fn html_server_needs_install(server_exists: bool, installed_version: &Option<String>, latest_version: &str) -> (r: bool)
    ensures
        r == (!server_exists || opt_view(*installed_version) != Some(latest_version@)),
{
    if !server_exists {
        return true;
    }
    match installed_version {
        Some(v) => !str_eq(v.as_str(), latest_version),
        None => true,
    }
}

/// The message for a package that installed without the server script.
pub open spec fn missing_script_message() -> Seq<char> {
    "installed package '"@ + PACKAGE_NAME@ + "' did not contain expected path '"@ + SERVER_PATH@ + "'"@
}

/// The outcome of installing the HTML server: fine where the script is on
/// disk afterwards, whatever the install said; otherwise the install's error,
/// or, after an install that reported success, a message that the script is
/// missing.
pub fn html_install_outcome(install_result: Result<(), String>, server_exists_after: bool) -> (r: Result<(), String>)
    ensures
        if server_exists_after {
            r is Ok
        } else {
            match install_result {
                Ok(()) => r matches Err(m) && m@ == missing_script_message(),
                Err(e) => r matches Err(m) && m@ == e@,
            }
        },
{
    if server_exists_after {
        return Ok(());
    }
    match install_result {
        Ok(()) => {
            let mut t = chars_of("installed package '");
            t = chars_concat(t.as_slice(), chars_of(PACKAGE_NAME).as_slice());
            t = chars_concat(t.as_slice(), chars_of("' did not contain expected path '").as_slice());
            t = chars_concat(t.as_slice(), chars_of(SERVER_PATH).as_slice());
            t = chars_concat(t.as_slice(), chars_of("'").as_slice());
            Err(string_of(t.as_slice()))
        },
        Err(e) => Err(e),
    }
}

} // verus!
