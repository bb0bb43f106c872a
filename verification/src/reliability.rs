//! What a panic report says: the operating system's name and version as the
//! system files give them, the payload, and the backtrace with the frames of
//! the panic machinery left out.
use vstd::prelude::*;
use crate::text::{
    chars_concat, chars_from, chars_of, chars_range, chars_split, decimal_text, opt_view, owned,
    split_char, str_eq, string_of, strings_view, trim, trim_chars, u32_to_text,
};

verus! {

/// The lines of a text as `str::lines` gives them: split at `\n`, with a
/// `\r` before the `\n` removed; a final line ending adds no empty line, and
/// an empty text has no lines.
pub open spec fn text_lines(s: Seq<char>) -> Seq<Seq<char>> {
    let p = split_char(s, '\n');
    let n = p.len() as int;
    let terminated = p.subrange(0, n - 1).map_values(|l: Seq<char>| strip_cr(l));
    if p[n - 1].len() == 0 {
        terminated
    } else {
        terminated.push(p[n - 1])
    }
}

/// A line without one trailing `\r`.
pub open spec fn strip_cr(l: Seq<char>) -> Seq<char> {
    if l.len() > 0 && l.last() == '\r' {
        l.drop_last()
    } else {
        l
    }
}

/// The text with every leading and trailing `"` removed.
pub open spec fn trim_quotes(s: Seq<char>) -> Seq<char>
    decreases s.len(),
{
    if s.len() > 0 && s[0] == '"' {
        trim_quotes(s.drop_first())
    } else if s.len() > 0 && s.last() == '"' {
        trim_quotes(s.drop_last())
    } else {
        s
    }
}

/// The position of the first `=` in a line.
pub open spec fn first_equals(l: Seq<char>) -> Option<int> {
    if exists|i: int| 0 <= i < l.len() && l[i] == '=' {
        Some(choose|i: int| 0 <= i < l.len() && l[i] == '=' && forall|j: int| 0 <= j < i ==> l[j] != '=')
    } else {
        None
    }
}

/// The value a line gives to `key`: the text after its first `=`, where the
/// text before it is `key`, without its quotes.
pub open spec fn line_value(l: Seq<char>, key: Seq<char>) -> Option<Seq<char>> {
    match first_equals(l) {
        Some(i) => if l.subrange(0, i) == key {
            Some(trim_quotes(l.subrange(i + 1, l.len() as int)))
        } else {
            None
        },
        None => None,
    }
}

/// The value the last line that sets `key` gives it.
pub open spec fn last_value(lines: Seq<Seq<char>>, key: Seq<char>) -> Option<Seq<char>>
    decreases lines.len(),
{
    if lines.len() == 0 {
        None
    } else {
        match line_value(lines.last(), key) {
            Some(v) => Some(v),
            None => last_value(lines.drop_last(), key),
        }
    }
}

/// The operating system as an `os-release` file names it: the `ID` and
/// `VERSION_ID` values, each `unknown` where the file does not set it,
/// separated by a space.
pub open spec fn os_release_text(content: Seq<char>) -> Seq<char> {
    let lines = text_lines(content);
    let name = match last_value(lines, "ID"@) {
        Some(v) => v,
        None => "unknown"@,
    };
    let version = match last_value(lines, "VERSION_ID"@) {
        Some(v) => v,
        None => "unknown"@,
    };
    name + seq![' '] + version
}

/// The text without its leading and trailing `"` characters.
fn trim_quote_chars(s: &[char]) -> (r: Vec<char>)
    ensures
        r@ == trim_quotes(s@),
{
    let mut i: usize = 0;
    let mut j: usize = s.len();
    assert(s@.subrange(0, s@.len() as int) =~= s@);
    while i < j && s[i] == '"'
        invariant
            i <= j <= s@.len(),
            j == s@.len(),
            trim_quotes(s@.subrange(i as int, j as int)) == trim_quotes(s@),
        decreases j - i,
    {
        assert(s@.subrange(i as int, j as int).drop_first() =~= s@.subrange(i + 1, j as int));
        i = i + 1;
    }
    while i < j && s[j - 1] == '"'
        invariant
            i <= j <= s@.len(),
            i == j || s@[i as int] != '"',
            trim_quotes(s@.subrange(i as int, j as int)) == trim_quotes(s@),
        decreases j - i,
    {
        assert(s@.subrange(i as int, j as int).drop_last() =~= s@.subrange(i as int, j - 1));
        if j - 1 > i {
            assert(s@.subrange(i as int, j as int)[0] == s@[i as int]);
        }
        j = j - 1;
    }
    let r = chars_range(s, i, j);
    assert(r@.len() == 0 || (r@[0] != '"' && r@.last() != '"'));
    r
}

/// The value the line gives to `key`, as `line_value` describes.
fn value_of_line(l: &[char], key: &[char]) -> (r: Option<Vec<char>>)
    ensures
        match r {
            Some(v) => line_value(l@, key@) == Some(v@),
            None => line_value(l@, key@) is None,
        },
{
    let mut i: usize = 0;
    while i < l.len() && l[i] != '='
        invariant
            i <= l@.len(),
            forall|j: int| 0 <= j < i ==> l@[j] != '=',
        decreases l@.len() - i,
    {
        i = i + 1;
    }
    if i == l.len() {
        return None;
    }
    proof {
        let c = choose|k: int| 0 <= k < l@.len() && l@[k] == '=' && forall|j: int| 0 <= j < k ==> l@[j] != '=';
        assert(l@[i as int] == '=');
        if c != i {
            if c < i {
            } else {
                assert(l@[i as int] != '=');
            }
        }
        assert(first_equals(l@) == Some(i as int));
    }
    let before = chars_range(l, 0, i);
    if !crate::text::chars_eq(before.as_slice(), key) {
        return None;
    }
    let after = chars_from(l, i + 1);
    Some(trim_quote_chars(after.as_slice()))
}

/// The line without one trailing `\r`.
fn strip_cr_chars(l: Vec<char>) -> (r: Vec<char>)
    ensures
        r@ == strip_cr(l@),
{
    if l.len() > 0 && l[l.len() - 1] == '\r' {
        chars_range(l.as_slice(), 0, l.len() - 1)
    } else {
        l
    }
}

/// The lines of a text, as `text_lines` describes.
pub fn lines_of(s: &[char]) -> (r: Vec<Vec<char>>)
    ensures
        r@.map_values(|l: Vec<char>| l@) == text_lines(s@),
{
    let pieces = chars_split(s, '\n');
    let ghost pv = pieces@.map_values(|p: Vec<char>| p@);
    proof {
        crate::text::lemma_split_nonempty(s@, '\n');
    }
    let n = pieces.len();
    let mut r: Vec<Vec<char>> = Vec::new();
    let mut i: usize = 0;
    while i + 1 < n
        invariant
            pv == pieces@.map_values(|p: Vec<char>| p@),
            pv == split_char(s@, '\n'),
            n == pieces@.len(),
            n >= 1,
            i <= n - 1,
            r@.map_values(|l: Vec<char>| l@) == pv.subrange(0, i as int).map_values(|l: Seq<char>| strip_cr(l)),
        decreases n - i,
    {
        let line = strip_cr_chars(pieces[i].clone());
        let ghost before = r@.map_values(|l: Vec<char>| l@);
        r.push(line);
        assert(r@.map_values(|l: Vec<char>| l@) =~= before.push(strip_cr(pv[i as int])));
        assert(pv.subrange(0, i + 1).map_values(|l: Seq<char>| strip_cr(l)) =~= pv.subrange(0, i as int).map_values(|l: Seq<char>| strip_cr(l)).push(strip_cr(pv[i as int])));
        i = i + 1;
    }
    if pieces[n - 1].len() > 0 {
        let ghost before = r@.map_values(|l: Vec<char>| l@);
        r.push(pieces[n - 1].clone());
        assert(r@.map_values(|l: Vec<char>| l@) =~= before.push(pv[n - 1]));
    }
    r
}

/// The operating system named by the contents of an `os-release` file, as
/// `os_release_text` describes.
pub fn os_release_name(content: &str) -> (r: String)
    ensures
        r@ == os_release_text(content@),
{
    let c = chars_of(content);
    let lines = lines_of(c.as_slice());
    let ghost lv = lines@.map_values(|l: Vec<char>| l@);
    let id_key = chars_of("ID");
    let version_key = chars_of("VERSION_ID");
    let mut name: Option<Vec<char>> = None;
    let mut version: Option<Vec<char>> = None;
    let mut i: usize = lines.len();
    assert(lv.subrange(0, lv.len() as int) =~= lv);
    // scan from the end so the last setting wins
    while i > 0
        invariant
            lv == lines@.map_values(|l: Vec<char>| l@),
            i <= lv.len(),
            match name {
                Some(v) => last_value(lv, "ID"@) == Some(v@),
                None => last_value(lv, "ID"@) == last_value(lv.subrange(0, i as int), "ID"@),
            },
            match version {
                Some(v) => last_value(lv, "VERSION_ID"@) == Some(v@),
                None => last_value(lv, "VERSION_ID"@) == last_value(lv.subrange(0, i as int), "VERSION_ID"@),
            },
            id_key@ == "ID"@,
            version_key@ == "VERSION_ID"@,
        decreases i,
    {
        let ghost pre = lv.subrange(0, i as int);
        assert(pre.drop_last() =~= lv.subrange(0, i - 1));
        assert(pre.last() == lines@[i - 1]@);
        if name.is_none() {
            if let Some(v) = value_of_line(lines[i - 1].as_slice(), id_key.as_slice()) {
                name = Some(v);
            }
        }
        if version.is_none() {
            if let Some(v) = value_of_line(lines[i - 1].as_slice(), version_key.as_slice()) {
                version = Some(v);
            }
        }
        i = i - 1;
    }
    assert(lv.subrange(0, 0) =~= Seq::<Seq<char>>::empty());
    let unknown = chars_of("unknown");
    let name = match name {
        Some(v) => v,
        None => unknown.clone(),
    };
    let version = match version {
        Some(v) => v,
        None => unknown,
    };
    let space = vec![' '];
    let t = chars_concat(name.as_slice(), space.as_slice());
    let t = chars_concat(t.as_slice(), version.as_slice());
    assert(t@ =~= os_release_text(content@));
    string_of(t.as_slice())
}

/// The macOS version from the output of `sw_vers`: the trimmed output, or
/// `unknown` where the command failed or printed nothing.
pub fn macos_version_text(output: Option<&str>) -> (r: String)
    ensures
        r@ == match output {
            Some(o) => if trim(o@).len() > 0 {
                trim(o@)
            } else {
                "unknown"@
            },
            None => "unknown"@,
        },
{
    match output {
        Some(o) => {
            let c = chars_of(o);
            let t = trim_chars(c.as_slice());
            if t.len() > 0 {
                string_of(t.as_slice())
            } else {
                owned("unknown")
            }
        },
        None => owned("unknown"),
    }
}

/// The Windows version as `major.minor.build`, or `unknown` where the
/// system did not give it.
pub fn windows_version_text(version: Option<(u32, u32, u32)>) -> (r: String)
    ensures
        r@ == match version {
            Some((a, b, c)) => decimal_text(a as nat) + seq!['.'] + decimal_text(b as nat) + seq!['.']
                + decimal_text(c as nat),
            None => "unknown"@,
        },
{
    match version {
        Some((a, b, c)) => {
            let dot = vec!['.'];
            let mut t = u32_to_text(a);
            t = chars_concat(t.as_slice(), dot.as_slice());
            t = chars_concat(t.as_slice(), u32_to_text(b).as_slice());
            t = chars_concat(t.as_slice(), dot.as_slice());
            t = chars_concat(t.as_slice(), u32_to_text(c).as_slice());
            string_of(t.as_slice())
        },
        None => owned("unknown"),
    }
}

/// The text of a panic's payload: the message where it is a string, else
/// `Box<Any>`.
pub fn panic_payload_text(str_payload: Option<&str>, string_payload: Option<String>) -> (r: String)
    ensures
        r@ == match str_payload {
            Some(s) => s@,
            None => match string_payload {
                Some(s) => s@,
                None => "Box<Any>"@,
            },
        },
{
    match str_payload {
        Some(s) => owned(s),
        None => match string_payload {
            Some(s) => s,
            None => owned("Box<Any>"),
        },
    }
}

/// Whether a frame symbol is where Rust's panic handling begins.
pub open spec fn is_unwind_start(name: Seq<char>) -> bool {
    name == "rust_begin_unwind"@ || name == "_rust_begin_unwind"@
}

/// The backtrace symbols without the panic machinery: everything up to and
/// including the first frame where unwinding begins goes, where there is one.
pub open spec fn report_symbols(symbols: Seq<Seq<char>>) -> Seq<Seq<char>> {
    if exists|i: int| 0 <= i < symbols.len() && is_unwind_start(#[trigger] symbols[i]) {
        let ix = choose|i: int| 0 <= i < symbols.len() && is_unwind_start(#[trigger] symbols[i]) && forall|j: int|
            0 <= j < i ==> !is_unwind_start(#[trigger] symbols[j]);
        symbols.subrange(ix + 1, symbols.len() as int)
    } else {
        symbols
    }
}

/// Drops the leading frames of the panic machinery, as `report_symbols`
/// describes.
pub fn strip_panic_frames(symbols: Vec<String>) -> (r: Vec<String>)
    ensures
        strings_view(r@) == report_symbols(strings_view(symbols@)),
{
    let ghost sv = strings_view(symbols@);
    let mut i: usize = 0;
    while i < symbols.len()
        invariant
            sv == strings_view(symbols@),
            i <= symbols@.len(),
            forall|j: int| 0 <= j < i ==> !is_unwind_start(#[trigger] sv[j]),
        decreases symbols@.len() - i,
    {
        let name = symbols[i].as_str();
        if str_eq(name, "rust_begin_unwind") || str_eq(name, "_rust_begin_unwind") {
            assert(is_unwind_start(sv[i as int]));
            proof {
                let c = choose|k: int| 0 <= k < sv.len() && is_unwind_start(#[trigger] sv[k]) && forall|j: int|
                    0 <= j < k ==> !is_unwind_start(#[trigger] sv[j]);
                if c < i {
                    assert(!is_unwind_start(sv[c]));
                } else if c > i {
                    assert(!is_unwind_start(sv[i as int]));
                }
            }
            let mut r: Vec<String> = Vec::new();
            let mut k: usize = i + 1;
            while k < symbols.len()
                invariant
                    sv == strings_view(symbols@),
                    i < k <= symbols@.len(),
                    strings_view(r@) == sv.subrange(i + 1, k as int),
                decreases symbols@.len() - k,
            {
                let ghost before = strings_view(r@);
                r.push(symbols[k].clone());
                assert(strings_view(r@) =~= before.push(sv[k as int]));
                k = k + 1;
            }
            return r;
        }
        i = i + 1;
    }
    symbols
}

/// The line the development build prints after a panic message: the commit,
/// where it is known.
pub fn commit_line(app_commit_sha: Option<&str>) -> (r: String)
    ensures
        r@ == match app_commit_sha {
            Some(s) => "commit "@ + s@ + seq!['\n'],
            None => Seq::<char>::empty(),
        },
{
    match app_commit_sha {
        Some(s) => {
            let t = chars_concat(chars_of("commit ").as_slice(), chars_of(s).as_slice());
            let nl = vec!['\n'];
            let t = chars_concat(t.as_slice(), nl.as_slice());
            string_of(t.as_slice())
        },
        None => String::new(),
    }
}

} // verus!
