//! Desktop-entry files: parsing one file's content into a structured record,
//! the visibility filter, field-code stripping, and catalog construction.
//!
//! A file is a sequence of lines; a line starting with `[` opens a section.
//! The record is read from the key/value lines of the first section whose
//! header line is exactly `[Desktop Entry]`; the last occurrence of a
//! duplicate key wins.  Only records declaring `Type=Application` whose
//! `NoDisplay` key is absent or `false`, and which carry both `Exec` and
//! `Name`, are kept; everything else is dropped silently.

use crate::text::{
    chars_eq_str, chars_to_string, first_index, lemma_deep_view_chars, lemma_deep_view_strings,
    lemma_first_index_is, lower_of, scan_for, split_chars, split_on, str_eq, subvec, to_chars,
    to_lower,
};
use vstd::prelude::*;
use vstd::string::*;

verus! {

/// The second character of a recognized field-code placeholder
/// (`%f` `%F` `%u` `%U` `%d` `%D` `%n` `%N` `%i` `%c` `%k` `%v` `%m`).
pub open spec fn is_code_char(c: char) -> bool {
    c == 'f' || c == 'F' || c == 'u' || c == 'U' || c == 'd' || c == 'D' || c == 'n' || c == 'N'
        || c == 'i' || c == 'c' || c == 'k' || c == 'v' || c == 'm'
}

fn code_char(c: char) -> (r: bool)
    ensures
        r == is_code_char(c),
{
    c == 'f' || c == 'F' || c == 'u' || c == 'U' || c == 'd' || c == 'D' || c == 'n' || c == 'N'
        || c == 'i' || c == 'c' || c == 'k' || c == 'v' || c == 'm'
}

/// `s` with every recognized field-code placeholder removed, in one
/// left-to-right pass; all other characters are kept in order.
pub open spec fn strip_codes(s: Seq<char>) -> Seq<char>
    decreases s.len(),
{
    if s.len() >= 2 && s[0] == '%' && is_code_char(s[1]) {
        strip_codes(s.skip(2))
    } else if s.len() >= 1 {
        seq![s[0]] + strip_codes(s.skip(1))
    } else {
        Seq::empty()
    }
}

/// Removes every recognized field-code placeholder from `v`.
pub fn strip_field_codes(v: &Vec<char>) -> (r: Vec<char>)
    ensures
        r@ == strip_codes(v@),
{
    let n = v.len();
    let mut out: Vec<char> = Vec::new();
    let mut i: usize = 0;
    proof {
        assert(v@.skip(0) =~= v@);
        assert(Seq::<char>::empty() + strip_codes(v@) =~= strip_codes(v@));
    }
    while i < n
        invariant
            n == v@.len(),
            i <= n,
            strip_codes(v@) == out@ + strip_codes(v@.skip(i as int)),
        decreases n - i,
    {
        if v[i] == '%' && i + 1 < n && code_char(v[i + 1]) {
            proof {
                assert(v@.skip(i as int)[0] == v@[i as int]);
                assert(v@.skip(i as int)[1] == v@[i + 1]);
                assert(v@.skip(i as int).skip(2) =~= v@.skip(i + 2));
            }
            i = i + 2;
        } else {
            proof {
                assert(v@.skip(i as int)[0] == v@[i as int]);
                if i + 1 < n {
                    assert(v@.skip(i as int)[1] == v@[i + 1]);
                }
                assert(v@.skip(i as int).skip(1) =~= v@.skip(i + 1));
                assert(out@ + (seq![v@[i as int]] + strip_codes(v@.skip(i + 1))) =~= out@.push(
                    v@[i as int],
                ) + strip_codes(v@.skip(i + 1)));
            }
            out.push(v[i]);
            i = i + 1;
        }
    }
    proof {
        assert(v@.skip(n as int) =~= Seq::<char>::empty());
        assert(out@ + Seq::<char>::empty() =~= out@);
    }
    out
}

/// Stripping leaves a string without `%` untouched.
pub proof fn lemma_strip_no_percent(s: Seq<char>)
    requires
        forall|j: int| 0 <= j < s.len() ==> s[j] != '%',
    ensures
        strip_codes(s) == s,
    decreases s.len(),
{
    if s.len() >= 1 {
        assert forall|j: int| 0 <= j < s.skip(1).len() implies s.skip(1)[j] != '%' by {
            assert(s.skip(1)[j] == s[j + 1]);
        }
        lemma_strip_no_percent(s.skip(1));
        assert(seq![s[0]] + s.skip(1) =~= s);
    }
}

/// Field-code stripping removes a placeholder wherever it stands: when no
/// stray `%` precedes it, `a ++ ['%', code] ++ b` strips to `a ++ strip(b)`,
/// the surrounding text otherwise preserved.
pub proof fn lemma_strip_removes_code(a: Seq<char>, code: char, b: Seq<char>)
    requires
        is_code_char(code),
        forall|j: int| 0 <= j < a.len() ==> a[j] != '%',
    ensures
        strip_codes(a + seq!['%', code] + b) == a + strip_codes(b),
    decreases a.len(),
{
    let s = a + seq!['%', code] + b;
    if a.len() == 0 {
        assert(s[0] == '%');
        assert(s[1] == code);
        assert(s.skip(2) =~= b);
        assert(a + strip_codes(b) =~= strip_codes(b));
    } else {
        assert(s[0] == a[0]);
        assert(a[0] != '%');
        assert(s.skip(1) =~= a.drop_first() + seq!['%', code] + b);
        assert forall|j: int| 0 <= j < a.drop_first().len() implies a.drop_first()[j] != '%' by {
            assert(a.drop_first()[j] == a[j + 1]);
        }
        lemma_strip_removes_code(a.drop_first(), code, b);
        assert(seq![a[0]] + (a.drop_first() + strip_codes(b)) =~= a + strip_codes(b));
    }
}

/// A line with one trailing carriage return removed, as `str::lines` yields.
pub open spec fn strip_cr(l: Seq<char>) -> Seq<char> {
    if l.len() > 0 && l[l.len() - 1] == '\r' {
        l.drop_last()
    } else {
        l
    }
}

/// The lines of `content`: split on newline, each line with a trailing
/// carriage return removed.
pub open spec fn lines_of(content: Seq<char>) -> Seq<Seq<char>> {
    split_on(content, '\n').map_values(|l: Seq<char>| strip_cr(l))
}

/// Splits `content` into its lines.
pub fn split_lines(content: &str) -> (r: Vec<Vec<char>>)
    ensures
        r.deep_view() == lines_of(content@),
{
    let chars = to_chars(content);
    let raw = split_chars(&chars, '\n');
    let mut r: Vec<Vec<char>> = Vec::new();
    let mut k: usize = 0;
    while k < raw.len()
        invariant
            k <= raw@.len(),
            r@.len() == k,
            forall|j: int| 0 <= j < k ==> r@[j]@ == strip_cr(raw@[j]@),
        decreases raw@.len() - k,
    {
        let line = &raw[k];
        let n = line.len();
        let stripped = if n > 0 && line[n - 1] == '\r' {
            subvec(line, 0, n - 1)
        } else {
            subvec(line, 0, n)
        };
        proof {
            assert(stripped@ =~= strip_cr(raw@[k as int]@));
        }
        r.push(stripped);
        k = k + 1;
    }
    proof {
        lemma_deep_view_chars(raw);
        lemma_deep_view_chars(r);
        assert forall|j: int| 0 <= j < r@.len() implies r.deep_view()[j] == lines_of(content@)[j] by {
            assert(raw.deep_view()[j] == raw@[j]@);
            assert(r.deep_view()[j] == r@[j]@);
        }
        assert(r.deep_view() =~= lines_of(content@));
    }
    r
}

/// The header line that opens the primary section.
pub open spec fn de_header() -> Seq<char> {
    "[Desktop Entry]"@
}

/// Whether `l` opens a section.
pub open spec fn is_header_line(l: Seq<char>) -> bool {
    l.len() > 0 && l[0] == '['
}

/// Index of the first line equal to the primary header, or `lines.len()`.
pub open spec fn de_header_index(lines: Seq<Seq<char>>) -> int
    decreases lines.len(),
{
    if lines.len() == 0 {
        0
    } else if lines[0] == de_header() {
        0
    } else {
        1 + de_header_index(lines.drop_first())
    }
}

pub proof fn lemma_de_header_index_is(lines: Seq<Seq<char>>, i: int)
    requires
        0 <= i <= lines.len(),
        forall|j: int| 0 <= j < i ==> lines[j] != de_header(),
        i < lines.len() ==> lines[i] == de_header(),
    ensures
        de_header_index(lines) == i,
    decreases lines.len(),
{
    if lines.len() > 0 && lines[0] != de_header() {
        assert(i != 0);
        assert forall|j: int| 0 <= j < i - 1 implies lines.drop_first()[j] != de_header() by {
            assert(lines.drop_first()[j] == lines[j + 1]);
        }
        lemma_de_header_index_is(lines.drop_first(), i - 1);
    }
}

/// Index of the first section-opening line, or `lines.len()`.
pub open spec fn any_header_index(lines: Seq<Seq<char>>) -> int
    decreases lines.len(),
{
    if lines.len() == 0 {
        0
    } else if is_header_line(lines[0]) {
        0
    } else {
        1 + any_header_index(lines.drop_first())
    }
}

pub proof fn lemma_any_header_index_is(lines: Seq<Seq<char>>, i: int)
    requires
        0 <= i <= lines.len(),
        forall|j: int| 0 <= j < i ==> !is_header_line(lines[j]),
        i < lines.len() ==> is_header_line(lines[i]),
    ensures
        any_header_index(lines) == i,
    decreases lines.len(),
{
    if lines.len() > 0 && !is_header_line(lines[0]) {
        assert(i != 0);
        assert forall|j: int| 0 <= j < i - 1 implies !is_header_line(lines.drop_first()[j]) by {
            assert(lines.drop_first()[j] == lines[j + 1]);
        }
        lemma_any_header_index_is(lines.drop_first(), i - 1);
    }
}

/// The key/value lines of the primary section: the lines after the first
/// `[Desktop Entry]` line, up to the next section header; `None` when no
/// such header line exists.
pub open spec fn de_section(lines: Seq<Seq<char>>) -> Option<Seq<Seq<char>>> {
    let h = de_header_index(lines);
    if h < lines.len() {
        let rest = lines.skip(h + 1);
        Some(rest.take(any_header_index(rest)))
    } else {
        None
    }
}

fn find_de_header(lines: &Vec<Vec<char>>) -> (r: usize)
    ensures
        r <= lines@.len(),
        r < lines@.len() ==> lines@[r as int]@ == de_header(),
        forall|j: int| 0 <= j < r ==> lines@[j]@ != de_header(),
{
    let n = lines.len();
    let mut i: usize = 0;
    while i < n
        invariant
            n == lines@.len(),
            i <= n,
            forall|j: int| 0 <= j < i ==> lines@[j]@ != de_header(),
        decreases n - i,
    {
        if chars_eq_str(&lines[i], "[Desktop Entry]") {
            return i;
        }
        i = i + 1;
    }
    i
}

fn find_any_header(lines: &Vec<Vec<char>>, from: usize) -> (r: usize)
    requires
        from <= lines@.len(),
    ensures
        from <= r <= lines@.len(),
        r < lines@.len() ==> is_header_line(lines@[r as int]@),
        forall|j: int| from <= j < r ==> !is_header_line(lines@[j]@),
{
    let n = lines.len();
    let mut i: usize = from;
    while i < n
        invariant
            n == lines@.len(),
            from <= i <= n,
            forall|j: int| from <= j < i ==> !is_header_line(lines@[j]@),
        decreases n - i,
    {
        let line = &lines[i];
        if line.len() > 0 && line[0] == '[' {
            return i;
        }
        i = i + 1;
    }
    i
}

/// Extracts the primary section's lines.
pub fn desktop_section(lines: &Vec<Vec<char>>) -> (r: Option<Vec<Vec<char>>>)
    ensures
        match r {
            Some(sec) => de_section(lines.deep_view()) == Some(sec.deep_view()),
            None => de_section(lines.deep_view()) is None,
        },
{
    let n = lines.len();
    let h = find_de_header(lines);
    proof {
        lemma_deep_view_chars(*lines);
        assert forall|j: int| 0 <= j < h implies lines.deep_view()[j] != de_header() by {
            assert(lines.deep_view()[j] == lines@[j]@);
        }
        lemma_de_header_index_is(lines.deep_view(), h as int);
    }
    if h == n {
        return None;
    }
    let e = find_any_header(lines, h + 1);
    let mut sec: Vec<Vec<char>> = Vec::new();
    let mut k: usize = h + 1;
    while k < e
        invariant
            h + 1 <= k <= e <= lines@.len(),
            sec@.len() == k - (h + 1),
            forall|j: int| 0 <= j < sec@.len() ==> sec@[j]@ == lines@[h + 1 + j]@,
        decreases e - k,
    {
        let line = subvec(&lines[k], 0, lines[k].len());
        proof {
            assert(line@ =~= lines@[k as int]@);
        }
        sec.push(line);
        k = k + 1;
    }
    proof {
        let dv = lines.deep_view();
        let rest = dv.skip(h + 1);
        assert forall|j: int| 0 <= j < e - (h + 1) implies !is_header_line(rest[j]) by {
            assert(rest[j] == dv[h + 1 + j]);
            assert(dv[h + 1 + j] == lines@[h + 1 + j]@);
        }
        if e < n {
            assert(rest[e - (h + 1)] == dv[e as int]);
        }
        lemma_any_header_index_is(rest, e - (h + 1));
        lemma_deep_view_chars(sec);
        assert forall|j: int| 0 <= j < sec@.len() implies sec.deep_view()[j] == rest.take(
            e - (h + 1),
        )[j] by {
            assert(sec.deep_view()[j] == sec@[j]@);
            assert(rest[j] == dv[h + 1 + j]);
        }
        assert(sec.deep_view() =~= rest.take(e - (h + 1)));
    }
    Some(sec)
}

/// Whether `l` is a `key=value` line.
pub open spec fn has_kv(l: Seq<char>) -> bool {
    first_index(l, '=') < l.len()
}

/// The key of a `key=value` line: the characters before the first `=`.
pub open spec fn kv_key(l: Seq<char>) -> Seq<char> {
    l.take(first_index(l, '='))
}

/// The value of a `key=value` line: the characters after the first `=`.
pub open spec fn kv_value(l: Seq<char>) -> Seq<char> {
    l.skip(first_index(l, '=') + 1)
}

/// The value of `key` among `lines`, the last `key=value` line winning;
/// `None` when no line carries the key.
pub open spec fn lookup(lines: Seq<Seq<char>>, key: Seq<char>) -> Option<Seq<char>>
    decreases lines.len(),
{
    if lines.len() == 0 {
        None
    } else {
        let l = lines.last();
        if has_kv(l) && kv_key(l) == key {
            Some(kv_value(l))
        } else {
            lookup(lines.drop_last(), key)
        }
    }
}

/// Looks `key` up among the section's lines, the last occurrence winning.
pub fn lookup_key(lines: &Vec<Vec<char>>, key: &str) -> (r: Option<Vec<char>>)
    ensures
        match r {
            Some(v) => lookup(lines.deep_view(), key@) == Some(v@),
            None => lookup(lines.deep_view(), key@) is None,
        },
{
    proof {
        lemma_deep_view_chars(*lines);
        assert(lines.deep_view().take(lines@.len() as int) =~= lines.deep_view());
    }
    let mut i: usize = lines.len();
    while i > 0
        invariant
            i <= lines@.len(),
            lines.deep_view().len() == lines@.len(),
            forall|j: int| 0 <= j < lines@.len() ==> lines.deep_view()[j] == lines@[j]@,
            lookup(lines.deep_view(), key@) == lookup(lines.deep_view().take(i as int), key@),
        decreases i,
    {
        i = i - 1;
        let l = &lines[i];
        let eq_pos = scan_for(l, '=', 0);
        proof {
            lemma_first_index_is(lines@[i as int]@, '=', eq_pos as int);
            assert(lines.deep_view().take(i + 1).last() == lines.deep_view()[i as int]);
            assert(lines.deep_view().take(i + 1).drop_last() =~= lines.deep_view().take(i as int));
        }
        if eq_pos < l.len() {
            let kvec = subvec(l, 0, eq_pos);
            let is_match = chars_eq_str(&kvec, key);
            proof {
                let dl = lines.deep_view()[i as int];
                assert(kv_key(dl) =~= kvec@);
            }
            if is_match {
                let v = subvec(l, eq_pos + 1, l.len());
                proof {
                    let dl = lines.deep_view()[i as int];
                    assert(kv_value(dl) =~= v@);
                }
                return Some(v);
            }
        } else {
            proof {
                let dl = lines.deep_view()[i as int];
                assert(!has_kv(dl));
            }
        }
    }
    proof {
        assert(lines.deep_view().take(0) =~= Seq::<Seq<char>>::empty());
    }
    None
}

/// One parsed desktop-application record.
#[derive(Clone, Debug)]
pub struct DesktopEntry {
    /// Launch command, field codes stripped.
    pub exec_cmd: String,
    /// Optional working-directory override.
    pub path: Option<String>,
    /// Display name.
    pub name: String,
    /// Search aliases, in file order; empty when absent.
    pub keywords: Vec<String>,
    /// Icon identifier; a generic fallback when absent.
    pub icon: String,
    /// Whether the application asks for a terminal.
    pub term: bool,
    /// Optional window-class hint used for exact matching.
    pub startup_wm_class: Option<String>,
}

/// The primary section's lines, or empty when there is no primary section.
pub open spec fn de_section_of(content: Seq<char>) -> Seq<Seq<char>> {
    match de_section(lines_of(content)) {
        Some(sec) => sec,
        None => Seq::empty(),
    }
}

/// The visibility filter: a primary section passes when it declares
/// `Type=Application`, its `NoDisplay` is absent or `false`, and it carries
/// both `Exec` and `Name`.
pub open spec fn accepted_section(sec: Seq<Seq<char>>) -> bool {
    &&& lookup(sec, "Type"@) == Some("Application"@)
    &&& (match lookup(sec, "NoDisplay"@) {
        Some(nd) => nd == "false"@,
        None => true,
    })
    &&& lookup(sec, "Exec"@) is Some
    &&& lookup(sec, "Name"@) is Some
}

/// Whether a file's content yields a record: it has a primary section and
/// that section passes the filter.
pub open spec fn accepted_content(content: Seq<char>) -> bool {
    match de_section(lines_of(content)) {
        Some(sec) => accepted_section(sec),
        None => false,
    }
}

/// How a parsed record's fields relate to its section's key/value lines.
pub open spec fn entry_matches(e: DesktopEntry, sec: Seq<Seq<char>>) -> bool {
    &&& (match lookup(sec, "Exec"@) {
        Some(v) => e.exec_cmd@ == strip_codes(v),
        None => false,
    })
    &&& (match lookup(sec, "Name"@) {
        Some(v) => e.name@ == v,
        None => false,
    })
    &&& e.icon@ == (match lookup(sec, "Icon"@) {
        Some(v) => v,
        None => "application-x-executable"@,
    })
    &&& (match lookup(sec, "Path"@) {
        Some(v) => e.path matches Some(p) && p@ == v,
        None => e.path is None,
    })
    &&& e.keywords.deep_view() == (match lookup(sec, "Keywords"@) {
        Some(v) => split_on(v, ';'),
        None => Seq::<Seq<char>>::empty(),
    })
    &&& e.term == (match lookup(sec, "Terminal"@) {
        Some(v) => lower_of(v) == "true"@,
        None => false,
    })
    &&& (match lookup(sec, "StartupWMClass"@) {
        Some(v) => e.startup_wm_class matches Some(w) && w@ == v,
        None => e.startup_wm_class is None,
    })
}

/// The generic fallback icon identifier.
pub fn icon_fallback() -> (r: String)
    ensures
        r@ == "application-x-executable"@,
{
    String::from_str("application-x-executable")
}

/// Each character vector as a `String`, in order.
fn strings_of(vs: &Vec<Vec<char>>) -> (r: Vec<String>)
    ensures
        r.deep_view() == vs.deep_view(),
{
    let mut r: Vec<String> = Vec::new();
    let mut k: usize = 0;
    while k < vs.len()
        invariant
            k <= vs@.len(),
            r@.len() == k,
            forall|j: int| 0 <= j < k ==> r@[j]@ == vs@[j]@,
        decreases vs@.len() - k,
    {
        r.push(chars_to_string(&vs[k]));
        k = k + 1;
    }
    proof {
        lemma_deep_view_strings(r);
        lemma_deep_view_chars(*vs);
        assert(r.deep_view() =~= vs.deep_view());
    }
    r
}

impl DesktopEntry {
    /// Parses one desktop-entry file's content.  Yields the record when the
    /// primary section exists and passes the visibility filter — the launch
    /// command stripped of field codes, the icon defaulted when absent —
    /// and `None` otherwise.
    pub fn parse(content: &str) -> (r: Option<DesktopEntry>)
        ensures
            match r {
                Some(e) => accepted_content(content@) && entry_matches(
                    e,
                    de_section_of(content@),
                ),
                None => !accepted_content(content@),
            },
    {
        let lines = split_lines(content);
        let sec = match desktop_section(&lines) {
            Some(s) => s,
            None => {
                return None;
            },
        };
        let type_ok = match lookup_key(&sec, "Type") {
            Some(t) => chars_eq_str(&t, "Application"),
            None => false,
        };
        if !type_ok {
            return None;
        }
        let nd_ok = match lookup_key(&sec, "NoDisplay") {
            Some(nd) => chars_eq_str(&nd, "false"),
            None => true,
        };
        if !nd_ok {
            return None;
        }
        let exec_v = match lookup_key(&sec, "Exec") {
            Some(v) => v,
            None => {
                return None;
            },
        };
        let name_v = match lookup_key(&sec, "Name") {
            Some(v) => v,
            None => {
                return None;
            },
        };
        let stripped = strip_field_codes(&exec_v);
        let exec_s = chars_to_string(&stripped);
        let name_s = chars_to_string(&name_v);
        let icon_s = match lookup_key(&sec, "Icon") {
            Some(v) => chars_to_string(&v),
            None => icon_fallback(),
        };
        let path_o = match lookup_key(&sec, "Path") {
            Some(v) => Some(chars_to_string(&v)),
            None => None,
        };
        let keywords = match lookup_key(&sec, "Keywords") {
            Some(v) => {
                let pieces = split_chars(&v, ';');
                strings_of(&pieces)
            },
            None => {
                let kw: Vec<String> = Vec::new();
                proof {
                    lemma_deep_view_strings(kw);
                    assert(kw.deep_view() =~= Seq::<Seq<char>>::empty());
                }
                kw
            },
        };
        let term = match lookup_key(&sec, "Terminal") {
            Some(v) => {
                let vs = chars_to_string(&v);
                let lv = to_lower(vs.as_str());
                str_eq(lv.as_str(), "true")
            },
            None => false,
        };
        let wm = match lookup_key(&sec, "StartupWMClass") {
            Some(v) => Some(chars_to_string(&v)),
            None => None,
        };
        Some(
            DesktopEntry {
                exec_cmd: exec_s,
                path: path_o,
                name: name_s,
                keywords,
                icon: icon_s,
                term,
                startup_wm_class: wm,
            },
        )
    }
}

/// The icon a direct desktop-file lookup yields: the record's icon when the
/// content passes, the generic fallback identifier otherwise.
pub open spec fn icon_of_content(content: Seq<char>) -> Seq<char> {
    if accepted_content(content) {
        match lookup(de_section_of(content), "Icon"@) {
            Some(v) => v,
            None => "application-x-executable"@,
        }
    } else {
        "application-x-executable"@
    }
}

/// Parses `content` and yields its icon, the generic fallback when the file
/// contributes no record.
pub fn icon_from_content(content: &str) -> (r: String)
    ensures
        r@ == icon_of_content(content@),
{
    match DesktopEntry::parse(content) {
        Some(e) => e.icon,
        None => icon_fallback(),
    }
}

/// Indices of the contents that parse and pass the filter, in scan order.
pub open spec fn accepted_ix(contents: Seq<Seq<char>>) -> Seq<int>
    decreases contents.len(),
{
    if contents.len() == 0 {
        Seq::empty()
    } else {
        let pre = accepted_ix(contents.drop_last());
        if accepted_content(contents.last()) {
            pre.push(contents.len() - 1)
        } else {
            pre
        }
    }
}

/// A catalog slot is sound: it stems from content `ix`, that content passes
/// the filter, and the record's fields match its section.
pub open spec fn catalog_entry_ok(e: DesktopEntry, contents: Seq<Seq<char>>, ix: int) -> bool {
    &&& 0 <= ix < contents.len()
    &&& accepted_content(contents[ix])
    &&& entry_matches(e, de_section_of(contents[ix]))
}

/// Builds the catalog: parses each file content in scan order and keeps the
/// records that pass the filter, in the same order.
pub fn build_catalog(contents: &Vec<String>) -> (r: Vec<DesktopEntry>)
    ensures
        r@.len() == accepted_ix(contents.deep_view()).len(),
        forall|k: int|
            0 <= k < r@.len() ==> catalog_entry_ok(
                #[trigger] r@[k],
                contents.deep_view(),
                accepted_ix(contents.deep_view())[k],
            ),
{
    proof {
        lemma_deep_view_strings(*contents);
    }
    let ghost dv = contents.deep_view();
    let mut r: Vec<DesktopEntry> = Vec::new();
    let mut i: usize = 0;
    proof {
        assert(dv.take(0) =~= Seq::<Seq<char>>::empty());
    }
    while i < contents.len()
        invariant
            dv == contents.deep_view(),
            dv.len() == contents@.len(),
            forall|j: int| 0 <= j < contents@.len() ==> dv[j] == contents@[j]@,
            i <= contents@.len(),
            r@.len() == accepted_ix(dv.take(i as int)).len(),
            forall|k: int|
                0 <= k < r@.len() ==> catalog_entry_ok(
                    #[trigger] r@[k],
                    dv,
                    accepted_ix(dv.take(i as int))[k],
                ),
        decreases contents@.len() - i,
    {
        proof {
            assert(dv.take(i + 1).drop_last() =~= dv.take(i as int));
            assert(dv.take(i + 1).last() == dv[i as int]);
        }
        let ghost old_r = r@;
        match DesktopEntry::parse(contents[i].as_str()) {
            Some(e) => {
                r.push(e);
                proof {
                    assert(accepted_content(dv[i as int]));
                    assert(accepted_ix(dv.take(i + 1)) =~= accepted_ix(dv.take(i as int)).push(
                        i as int,
                    ));
                    assert forall|k: int|
                        0 <= k < r@.len() implies catalog_entry_ok(
                        #[trigger] r@[k],
                        dv,
                        accepted_ix(dv.take(i + 1))[k],
                    ) by {
                        if k < old_r.len() {
                            assert(r@[k] == old_r[k]);
                            assert(accepted_ix(dv.take(i + 1))[k] == accepted_ix(
                                dv.take(i as int),
                            )[k]);
                        } else {
                            assert(r@[k] == e);
                            assert(accepted_ix(dv.take(i + 1))[k] == i);
                        }
                    }
                }
            },
            None => {
                proof {
                    assert(!accepted_content(dv[i as int]));
                    assert(accepted_ix(dv.take(i + 1)) == accepted_ix(dv.take(i as int)));
                }
            },
        }
        i = i + 1;
    }
    proof {
        assert(dv.take(contents@.len() as int) =~= dv);
    }
    r
}

/// A record whose declared `Type` is not `Application` never enters a
/// catalog, whatever the rest of the file says.
pub proof fn lemma_type_filter(content: Seq<char>)
    requires
        lookup(de_section_of(content), "Type"@) != Some("Application"@),
    ensures
        !accepted_content(content),
{
}

} // verus!
