use vstd::prelude::*;
use crate::pattern::{all_matches, matches_from, Pat};
use crate::report::starts_with;
use crate::scene_validate::{is_res_missing, res_missing, tree_has};
use crate::pattern::{word_end, word_end_exec};
use crate::signal_validate::{blank_before, blank_to_line_start};
use crate::sort::{path_key, push_path_key, push_sep, push_text_key, text_key, Keyed};
use crate::text::{
    at, chars_of, extension, file_name, find_char, find_char_from, has_at, is_word,
    lemma_find_char_from_bounds, lemma_lines_deep_view, lines_of, path_extension, push_all,
    rfind_char, skip_ws, slice, split_lines, string_of, trim, trim_chars, trim_start,
    trim_start_chars, ws_end,
};
use crate::{ProjectTree, Severity};

verus! {

broadcast use vstd::string::group_string_axioms;

/// A finding of the script linter.
#[derive(Clone, Debug)]
pub struct LintFinding {
    pub code: String,
    pub message: String,
    pub file: String,
    pub severity: Severity,
}

pub struct LintFindingV {
    pub code: Seq<char>,
    pub message: Seq<char>,
    pub file: Seq<char>,
    pub severity: Severity,
}

impl View for LintFinding {
    type V = LintFindingV;

    open spec fn view(&self) -> LintFindingV {
        LintFindingV {
            code: self.code@,
            message: self.message@,
            file: self.file@,
            severity: self.severity,
        }
    }
}

/// Findings order by code, then message, then file.
impl Keyed for LintFinding {
    open spec fn key_of(v: LintFindingV) -> Seq<int> {
        text_key(v.code) + seq![0] + text_key(v.message) + seq![0] + path_key(v.file)
    }

    fn sort_key(&self) -> (r: Vec<u64>) {
        let mut r: Vec<u64> = Vec::new();
        assert(crate::sort::keys_int(r@) =~= Seq::empty());
        push_text_key(&mut r, &chars_of(self.code.as_str()));
        push_sep(&mut r);
        push_text_key(&mut r, &chars_of(self.message.as_str()));
        push_sep(&mut r);
        push_path_key(&mut r, &chars_of(self.file.as_str()));
        r
    }
}

/// `c` with ASCII capitals made small.
pub open spec fn ascii_lower(c: char) -> char {
    if 'A' <= c && c <= 'Z' {
        ((c as u32 + 32) as u8) as char
    } else {
        c
    }
}

pub open spec fn lower(s: Seq<char>) -> Seq<char> {
    s.map_values(|c: char| ascii_lower(c))
}

/// The directive text of a line: after the first `#`, trimmed, a `gd-lint:` marker, then the
/// rest trimmed.
pub open spec fn directive(line: Seq<char>) -> Option<Seq<char>> {
    let l = trim(line);
    match find_char_from(l, 0, '#') {
        Some(i) => {
            let c = trim(l.subrange(i + 1, l.len() as int));
            if starts_with(c, "gd-lint:"@) {
                Some(trim(c.subrange(8, c.len() as int)))
            } else {
                None
            }
        },
        None => None,
    }
}

/// First position at or after `i` that holds `,` or a space, or the end.
pub open spec fn sep_index(s: Seq<char>, i: int) -> int
    decreases s.len() - i,
{
    if i < 0 || i >= s.len() {
        s.len() as int
    } else if s[i] == ',' || s[i] == ' ' {
        i
    } else {
        sep_index(s, i + 1)
    }
}

/// The items of a list split at `,` and spaces, each trimmed, empty ones dropped.
pub open spec fn list_items(s: Seq<char>, i: int) -> Seq<Seq<char>>
    decreases s.len() - i + 1,
{
    if i < 0 || i > s.len() {
        Seq::empty()
    } else {
        let e = sep_index(s, i);
        let piece = trim(s.subrange(i, e));
        let rest = if e < s.len() && e >= i {
            list_items(s, e + 1)
        } else {
            Seq::empty()
        };
        (if piece.len() > 0 {
            seq![piece]
        } else {
            Seq::empty()
        }) + rest
    }
}

/// The severity that a `level=` value names, if it names one.
pub open spec fn level_value(v: Seq<char>) -> Option<Severity> {
    let w = lower(trim(v));
    if w == "info"@ {
        Some(Severity::Info)
    } else if w == "warn"@ || w == "warning"@ {
        Some(Severity::Warn)
    } else if w == "error"@ || w == "err"@ {
        Some(Severity::Error)
    } else {
        None
    }
}

/// What the directives of a file say: all rules off, the rule codes turned off, and the level.
pub struct Controls {
    pub off: bool,
    pub disabled: Seq<Seq<char>>,
    pub level: Option<Severity>,
}

pub open spec fn controls_of(lines: Seq<Seq<char>>) -> Controls
    decreases lines.len(),
{
    if lines.len() == 0 {
        Controls { off: false, disabled: Seq::empty(), level: None }
    } else {
        let prev = controls_of(lines.drop_last());
        match directive(lines.last()) {
            Some(rest) => if starts_with(rest, "off"@) {
                Controls { off: true, disabled: prev.disabled, level: prev.level }
            } else {
                Controls {
                    off: prev.off,
                    disabled: if starts_with(rest, "disable="@) {
                        prev.disabled + list_items(rest.subrange(8, rest.len() as int), 0)
                    } else {
                        prev.disabled
                    },
                    level: if starts_with(rest, "level="@) && level_value(
                        rest.subrange(6, rest.len() as int),
                    ) is Some {
                        level_value(rest.subrange(6, rest.len() as int))
                    } else {
                        prev.level
                    },
                }
            },
            None => prev,
        }
    }
}

pub open spec fn ident_start(c: char) -> bool {
    is_word(c) && !crate::text::is_digit(c)
}

/// `class_name <Name>` at `p`, only blanks before it on its line: the name.
pub open spec fn class_name_at(s: Seq<char>, p: int) -> Option<Seq<char>> {
    let q = ws_end(s, p + 10);
    if blank_to_line_start(s, p) && has_at(s, p, "class_name"@) && q > p + 10 && q < s.len()
        && ident_start(s[q]) {
        Some(s.subrange(q, word_end(s, q)))
    } else {
        None
    }
}

/// The first declared class name at or after `p`.
pub open spec fn class_name_from(s: Seq<char>, p: int) -> Option<Seq<char>>
    decreases s.len() - p,
{
    if p < 0 || p >= s.len() {
        None
    } else {
        match class_name_at(s, p) {
            Some(n) => Some(n),
            None => class_name_from(s, p + 1),
        }
    }
}

/// A `print`, `prints` or `printt` call at `p`, only blanks before it on its line.
pub open spec fn debug_print_at(s: Seq<char>, p: int) -> bool {
    let j = p + 5;
    blank_to_line_start(s, p) && has_at(s, p, "print"@) && ({
        let a = ws_end(s, j);
        (a < s.len() && s[a] == '(') || (j < s.len() && (s[j] == 's' || s[j] == 't') && {
            let b = ws_end(s, j + 1);
            b < s.len() && s[b] == '('
        })
    })
}

pub open spec fn debug_print_from(s: Seq<char>, p: int) -> bool
    decreases s.len() - p,
{
    if p < 0 || p >= s.len() {
        false
    } else {
        debug_print_at(s, p) || debug_print_from(s, p + 1)
    }
}

/// Some line starts with a tab.
pub open spec fn tab_line_from(s: Seq<char>, p: int) -> bool
    decreases s.len() - p,
{
    if p < 0 || p >= s.len() {
        false
    } else {
        ((p == 0 || s[p - 1] == '\n') && s[p] == '\t') || tab_line_from(s, p + 1)
    }
}

/// Some line, blanks trimmed at its start, starts with `extends `.
pub open spec fn has_extends(lines: Seq<Seq<char>>) -> bool {
    exists|k: int| 0 <= k < lines.len() && starts_with(trim_start(#[trigger] lines[k]), "extends "@)
}

/// The name of a path without its extension.
pub open spec fn file_stem(p: Seq<char>) -> Seq<char> {
    let n = file_name(p);
    match extension(p) {
        Some(e) => n.subrange(0, n.len() - e.len() - 1),
        None => n,
    }
}

pub open spec fn finding(code: Seq<char>, message: Seq<char>, file: Seq<char>, severity: Severity) -> LintFindingV {
    LintFindingV { code, message, file, severity }
}

/// A finding for each `preload` / `load` call whose `res://` file is missing.
pub open spec fn ref_findings(
    paths: Seq<Seq<char>>,
    rel: Seq<char>,
    sev: Severity,
    caps: Seq<crate::pattern::CapV>,
) -> Seq<LintFindingV>
    decreases caps.len(),
{
    if caps.len() == 0 {
        Seq::empty()
    } else {
        let prev = ref_findings(paths, rel, sev, caps.drop_last());
        let c = caps.last();
        if res_missing(paths, c.b) {
            prev.push(
                finding(
                    "missing-resource-ref"@,
                    "GDScript "@ + c.a + " missing file: "@ + c.b,
                    rel,
                    sev,
                ),
            )
        } else {
            prev
        }
    }
}

/// The class-name finding of a script.
pub open spec fn class_findings(
    rel: Seq<char>,
    content: Seq<char>,
    disabled: Seq<Seq<char>>,
    sev: Severity,
) -> Seq<LintFindingV> {
    match class_name_from(content, 0) {
        Some(cls) => if file_stem(rel) != cls && !disabled.contains("class-name-mismatch"@) {
            seq![
                finding(
                    "class-name-mismatch"@,
                    "Class name mismatch: class_name "@ + cls + " but file is "@ + file_stem(rel)
                        + ".gd"@,
                    rel,
                    sev,
                ),
            ]
        } else {
            Seq::empty()
        },
        None => Seq::empty(),
    }
}

/// A finding `code` with `msg` when `hit` and the rule is not turned off.
pub open spec fn flag_finding(
    hit: bool,
    code: Seq<char>,
    msg: Seq<char>,
    rel: Seq<char>,
    disabled: Seq<Seq<char>>,
    sev: Severity,
) -> Seq<LintFindingV> {
    if hit && !disabled.contains(code) {
        seq![finding(code, msg, rel, sev)]
    } else {
        Seq::empty()
    }
}

/// The findings of the rules on a script's text: class name, debug prints, tabs.
pub open spec fn text_rule_findings(
    rel: Seq<char>,
    content: Seq<char>,
    disabled: Seq<Seq<char>>,
    sev: Severity,
) -> Seq<LintFindingV> {
    class_findings(rel, content, disabled, sev) + flag_finding(
        debug_print_from(content, 0),
        "debug-print"@,
        "Debug print found"@,
        rel,
        disabled,
        sev,
    ) + flag_finding(
        tab_line_from(content, 0),
        "tab-indentation"@,
        "Tab indentation used"@,
        rel,
        disabled,
        sev,
    )
}

/// The findings of the rules on a script's declarations and references.
pub open spec fn decl_rule_findings(
    paths: Seq<Seq<char>>,
    rel: Seq<char>,
    content: Seq<char>,
    disabled: Seq<Seq<char>>,
    sev: Severity,
) -> Seq<LintFindingV> {
    flag_finding(
        !has_extends(lines_of(content)),
        "missing-extends"@,
        "Missing extends declaration"@,
        rel,
        disabled,
        sev,
    ) + if !disabled.contains("missing-resource-ref"@) {
        ref_findings(paths, rel, sev, all_matches(Pat::GdRef, content, 0))
    } else {
        Seq::empty()
    }
}

/// The findings of the rules on a script whose rules are not all off.
pub open spec fn rule_findings(
    paths: Seq<Seq<char>>,
    rel: Seq<char>,
    content: Seq<char>,
    disabled: Seq<Seq<char>>,
    sev: Severity,
) -> Seq<LintFindingV> {
    text_rule_findings(rel, content, disabled, sev) + decl_rule_findings(
        paths,
        rel,
        content,
        disabled,
        sev,
    )
}

/// The findings of one script, before sorting: none when its directives turn all rules off;
/// the severity is the directives' level, `Warn` by default.
pub open spec fn script_findings(paths: Seq<Seq<char>>, rel: Seq<char>, content: Seq<char>) -> Seq<LintFindingV> {
    let ctl = controls_of(lines_of(content));
    let sev = match ctl.level {
        Some(l) => l,
        None => Severity::Warn,
    };
    if ctl.off {
        Seq::empty()
    } else {
        rule_findings(paths, rel, content, ctl.disabled, sev)
    }
}

pub open spec fn is_script(p: Seq<char>) -> bool {
    match extension(p) {
        Some(e) => lower(e) == "gd"@,
        None => false,
    }
}

/// The findings of every script file outside the backups, file after file.
pub open spec fn lint_all(paths: Seq<Seq<char>>, files: Seq<(Seq<char>, Seq<char>)>) -> Seq<LintFindingV>
    decreases files.len(),
{
    if files.len() == 0 {
        Seq::empty()
    } else {
        let prev = lint_all(paths, files.drop_last());
        let f = files.last();
        if is_script(f.0) && !crate::structure_fix::in_backups(f.0) {
            prev + script_findings(paths, f.0, f.1)
        } else {
            prev
        }
    }
}

pub fn lower_chars(s: &Vec<char>) -> (r: Vec<char>)
    ensures
        r@ == lower(s@),
{
    let mut out: Vec<char> = Vec::new();
    let mut k: usize = 0;
    while k < s.len()
        invariant
            k <= s.len(),
            out@ == lower(s@.take(k as int)),
        decreases s.len() - k,
    {
        let c = s[k];
        let d = if 'A' <= c && c <= 'Z' {
            ((c as u32 + 32) as u8) as char
        } else {
            c
        };
        out.push(d);
        assert(out@ =~= lower(s@.take(k + 1)));
        k = k + 1;
    }
    assert(s@.take(k as int) =~= s@);
    out
}

fn directive_of(line: &Vec<char>) -> (r: Option<Vec<char>>)
    ensures
        r matches Some(v) ==> directive(line@) == Some(v@),
        r is None ==> directive(line@) is None,
{
    let l = trim_chars(line);
    match find_char(&l, 0, '#') {
        Some(i) => {
            proof {
                lemma_find_char_from_bounds(l@, 0, '#');
                reveal_strlit("gd-lint:");
                assert(i < l@.len());
                assert(i < l.len());
            }
            let c = trim_chars(&slice(&l, i + 1, l.len()));
            if at(&c, 0, &chars_of("gd-lint:")) {
                Some(trim_chars(&slice(&c, 8, c.len())))
            } else {
                None
            }
        },
        None => None,
    }
}

#[verifier::rlimit(30)]
fn split_list(s: &Vec<char>) -> (r: Vec<Vec<char>>)
    ensures
        r.deep_view() == list_items(s@, 0),
{
    let mut out: Vec<Vec<char>> = Vec::new();
    let mut i: usize = 0;
    assert(out.deep_view() + list_items(s@, 0) =~= list_items(s@, 0));
    loop
        invariant
            i <= s.len(),
            out.deep_view() + list_items(s@, i as int) == list_items(s@, 0),
        decreases s.len() - i,
    {
        let mut e = i;
        while e < s.len() && s[e] != ',' && s[e] != ' '
            invariant
                i <= e <= s.len(),
                sep_index(s@, e as int) == sep_index(s@, i as int),
            decreases s.len() - e,
        {
            e = e + 1;
        }
        let piece = trim_chars(&slice(s, i, e));
        let ghost before = out.deep_view();
        if piece.len() > 0 {
            proof {
                crate::text::lemma_chars_deep_view(piece);
            }
            out.push(piece);
            assert(out.deep_view() =~= before.push(piece@));
        }
        if e >= s.len() {
            assert(out.deep_view() =~= before + list_items(s@, i as int));
            assert(out.deep_view() + list_items(s@, s.len() as int) =~= out.deep_view()) by {
                assert(list_items(s@, s.len() as int) =~= Seq::<Seq<char>>::empty()) by {
                    assert(trim(s@.subrange(s.len() as int, s.len() as int)) =~= Seq::<char>::empty()) by {
                        crate::text::lemma_ws_start_back_bounds(Seq::<char>::empty(), 0);
                    }
                }
            }
            return out;
        }
        assert(before + list_items(s@, i as int) =~= out.deep_view() + list_items(s@, e + 1));
        i = e + 1;
    }
}

fn level_of(v: &Vec<char>) -> (r: Option<Severity>)
    ensures
        r == level_value(v@),
{
    let w = lower_chars(&trim_chars(v));
    proof {
        reveal_strlit("info");
        reveal_strlit("warn");
        reveal_strlit("warning");
        reveal_strlit("error");
        reveal_strlit("err");
    }
    if crate::text::same(&w, &chars_of("info")) {
        Some(Severity::Info)
    } else if crate::text::same(&w, &chars_of("warn")) || crate::text::same(&w, &chars_of("warning")) {
        Some(Severity::Warn)
    } else if crate::text::same(&w, &chars_of("error")) || crate::text::same(&w, &chars_of("err")) {
        Some(Severity::Error)
    } else {
        None
    }
}

pub struct ControlState {
    pub off: bool,
    pub disabled: Vec<Vec<char>>,
    pub level: Option<Severity>,
}

#[verifier::rlimit(30)]
fn parse_controls(lines: &Vec<Vec<char>>) -> (r: ControlState)
    ensures
        r.off == controls_of(lines.deep_view()).off,
        r.disabled.deep_view() == controls_of(lines.deep_view()).disabled,
        r.level == controls_of(lines.deep_view()).level,
{
    let ghost all = lines.deep_view();
    let mut st = ControlState { off: false, disabled: Vec::new(), level: None };
    let mut k: usize = 0;
    assert(all.take(0) =~= Seq::<Seq<char>>::empty());
    assert(st.disabled.deep_view() =~= Seq::<Seq<char>>::empty());
    while k < lines.len()
        invariant
            k <= lines.len(),
            all == lines.deep_view(),
            st.off == controls_of(all.take(k as int)).off,
            st.disabled.deep_view() == controls_of(all.take(k as int)).disabled,
            st.level == controls_of(all.take(k as int)).level,
        decreases lines.len() - k,
    {
        proof {
            lemma_lines_deep_view(*lines, k as int);
            assert(all.take(k + 1).drop_last() =~= all.take(k as int));
            reveal_strlit("off");
            reveal_strlit("disable=");
            reveal_strlit("level=");
        }
        match directive_of(&lines[k]) {
            Some(rest) => {
                if at(&rest, 0, &chars_of("off")) {
                    st.off = true;
                } else {
                    if at(&rest, 0, &chars_of("disable=")) {
                        let mut items = split_list(&slice(&rest, 8, rest.len()));
                        let ghost before = st.disabled.deep_view();
                        let ghost iv = items.deep_view();
                        st.disabled.append(&mut items);
                        assert(st.disabled.deep_view() =~= before + iv);
                    }
                    if at(&rest, 0, &chars_of("level=")) {
                        match level_of(&slice(&rest, 6, rest.len())) {
                            Some(l) => {
                                st.level = Some(l);
                            },
                            None => {},
                        }
                    }
                }
            },
            None => {},
        }
        k = k + 1;
    }
    assert(all.take(k as int) =~= all);
    st
}

/// The first class name that the script declares.
fn declared_class(s: &Vec<char>) -> (r: Option<Vec<char>>)
    ensures
        r matches Some(n) ==> class_name_from(s@, 0) == Some(n@),
        r is None ==> class_name_from(s@, 0) is None,
{
    let kw = chars_of("class_name");
    proof {
        reveal_strlit("class_name");
    }
    let mut p: usize = 0;
    while p < s.len()
        invariant
            p <= s.len(),
            kw@ == "class_name"@,
            class_name_from(s@, 0) == class_name_from(s@, p as int),
        decreases s.len() - p,
    {
        proof {
            reveal_strlit("class_name");
        }
        if at(s, p, &kw) && blank_before(s, p) {
            let q = skip_ws(s, p + 10);
            if q > p + 10 && q < s.len() && crate::text::is_word_char(s[q]) && !crate::text::is_digit_char(s[q]) {
                let e = word_end_exec(s, q);
                return Some(slice(s, q, e));
            }
        }
        p = p + 1;
    }
    None
}

fn prints_debug(s: &Vec<char>) -> (r: bool)
    ensures
        r == debug_print_from(s@, 0),
{
    let kw = chars_of("print");
    proof {
        reveal_strlit("print");
    }
    let mut p: usize = 0;
    while p < s.len()
        invariant
            p <= s.len(),
            kw@ == "print"@,
            debug_print_from(s@, 0) == debug_print_from(s@, p as int),
        decreases s.len() - p,
    {
        proof {
            reveal_strlit("print");
        }
        if at(s, p, &kw) && blank_before(s, p) {
            let j = p + 5;
            let a = skip_ws(s, j);
            if a < s.len() && s[a] == '(' {
                return true;
            }
            if j < s.len() && (s[j] == 's' || s[j] == 't') {
                let b = skip_ws(s, j + 1);
                if b < s.len() && s[b] == '(' {
                    return true;
                }
            }
        }
        p = p + 1;
    }
    false
}

fn indents_with_tab(s: &Vec<char>) -> (r: bool)
    ensures
        r == tab_line_from(s@, 0),
{
    let mut p: usize = 0;
    while p < s.len()
        invariant
            p <= s.len(),
            tab_line_from(s@, 0) == tab_line_from(s@, p as int),
        decreases s.len() - p,
    {
        if (p == 0 || s[p - 1] == '\n') && s[p] == '\t' {
            return true;
        }
        p = p + 1;
    }
    false
}

fn declares_extends(lines: &Vec<Vec<char>>) -> (r: bool)
    ensures
        r == has_extends(lines.deep_view()),
{
    let kw = chars_of("extends ");
    let mut k: usize = 0;
    while k < lines.len()
        invariant
            k <= lines.len(),
            kw@ == "extends "@,
            forall|j: int| 0 <= j < k ==> !starts_with(trim_start(#[trigger] lines.deep_view()[j]), "extends "@),
        decreases lines.len() - k,
    {
        proof {
            lemma_lines_deep_view(*lines, k as int);
        }
        if at(&trim_start_chars(&lines[k]), 0, &kw) {
            return true;
        }
        k = k + 1;
    }
    false
}

fn push_finding(out: &mut Vec<LintFinding>, code: &str, msg: &Vec<char>, rel: &String, sev: Severity)
    ensures
        crate::sort::views(final(out)@) == crate::sort::views(old(out)@).push(
            finding(code@, msg@, rel@, sev),
        ),
{
    let ghost before = out@;
    out.push(
        LintFinding {
            code: string_of(&chars_of(code)),
            message: string_of(msg),
            file: rel.clone(),
            severity: sev,
        },
    );
    assert(crate::sort::views(out@) =~= crate::sort::views(before).push(finding(code@, msg@, rel@, sev)));
}

/// The stem of a path: its file name without the extension.
fn stem_of(p: &Vec<char>) -> (r: Vec<char>)
    ensures
        r@ == file_stem(p@),
{
    let name = match rfind_char(p, '/', p.len()) {
        Some(i) => slice(p, i + 1, p.len()),
        None => slice(p, 0, p.len()),
    };
    assert(p@.subrange(0, p@.len() as int) =~= p@);
    match path_extension(p) {
        Some(e) => {
            proof {
                reveal_strlit("..");
                crate::text::lemma_last_index_bounds(name@, '.', name@.len() as int);
            }
            assert(e@.len() + 1 <= name@.len());
            slice(&name, 0, name.len() - e.len() - 1)
        },
        None => name,
    }
}

fn is_on(disabled: &Vec<Vec<char>>, code: &str) -> (r: bool)
    ensures
        r == !disabled.deep_view().contains(code@),
{
    !tree_has(disabled, &chars_of(code))
}

fn push_ref_findings(
    out: &mut Vec<LintFinding>,
    paths: &Vec<Vec<char>>,
    rel: &String,
    sev: Severity,
    caps: &Vec<crate::pattern::Cap>,
)
    ensures
        crate::sort::views(final(out)@) == crate::sort::views(old(out)@) + ref_findings(
            paths.deep_view(),
            rel@,
            sev,
            crate::scene_validate::caps_view(caps@),
        ),
{
    let ghost start = crate::sort::views(out@);
    let ghost all = crate::scene_validate::caps_view(caps@);
    let mut k: usize = 0;
    assert(all.take(0) =~= Seq::<crate::pattern::CapV>::empty());
    assert(crate::sort::views(out@) =~= start + ref_findings(paths.deep_view(), rel@, sev, all.take(0)));
    while k < caps.len()
        invariant
            k <= caps.len(),
            all == crate::scene_validate::caps_view(caps@),
            crate::sort::views(out@) == start + ref_findings(paths.deep_view(), rel@, sev, all.take(k as int)),
        decreases caps.len() - k,
    {
        assert(all.take(k + 1).drop_last() =~= all.take(k as int));
        let c = &caps[k];
        if is_res_missing(paths, &c.b) {
            let mut msg = chars_of("GDScript ");
            push_all(&mut msg, &c.a);
            push_all(&mut msg, &chars_of(" missing file: "));
            push_all(&mut msg, &c.b);
            push_finding(out, "missing-resource-ref", &msg, rel, sev);
        }
        assert(crate::sort::views(out@) =~= start + ref_findings(paths.deep_view(), rel@, sev, all.take(k + 1)));
        k = k + 1;
    }
    assert(all.take(k as int) =~= all);
}

fn push_class_finding(
    out: &mut Vec<LintFinding>,
    rel: &String,
    content: &Vec<char>,
    disabled: &Vec<Vec<char>>,
    sev: Severity,
)
    ensures
        crate::sort::views(final(out)@) == crate::sort::views(old(out)@) + class_findings(
            rel@,
            content@,
            disabled.deep_view(),
            sev,
        ),
{
    let ghost start = crate::sort::views(out@);
    let relc = chars_of(rel.as_str());
    match declared_class(content) {
        Some(cls) => {
            let stem = stem_of(&relc);
            if !crate::text::same(&stem, &cls) && is_on(disabled, "class-name-mismatch") {
                let mut msg = chars_of("Class name mismatch: class_name ");
                push_all(&mut msg, &cls);
                push_all(&mut msg, &chars_of(" but file is "));
                push_all(&mut msg, &stem);
                push_all(&mut msg, &chars_of(".gd"));
                push_finding(out, "class-name-mismatch", &msg, rel, sev);
            }
        },
        None => {},
    }
    assert(crate::sort::views(out@) =~= start + class_findings(rel@, content@, disabled.deep_view(), sev));
}

fn push_flag(
    out: &mut Vec<LintFinding>,
    hit: bool,
    code: &str,
    msg: &str,
    rel: &String,
    disabled: &Vec<Vec<char>>,
    sev: Severity,
)
    ensures
        crate::sort::views(final(out)@) == crate::sort::views(old(out)@) + flag_finding(
            hit,
            code@,
            msg@,
            rel@,
            disabled.deep_view(),
            sev,
        ),
{
    let ghost start = crate::sort::views(out@);
    if hit && is_on(disabled, code) {
        push_finding(out, code, &chars_of(msg), rel, sev);
    }
    assert(crate::sort::views(out@) =~= start + flag_finding(hit, code@, msg@, rel@, disabled.deep_view(), sev));
}

#[verifier::rlimit(30)]
fn push_text_rules(
    out: &mut Vec<LintFinding>,
    rel: &String,
    content: &Vec<char>,
    disabled: &Vec<Vec<char>>,
    sev: Severity,
)
    ensures
        crate::sort::views(final(out)@) == crate::sort::views(old(out)@) + text_rule_findings(
            rel@,
            content@,
            disabled.deep_view(),
            sev,
        ),
{
    let ghost start = crate::sort::views(out@);
    push_class_finding(out, rel, content, disabled, sev);
    push_flag(out, prints_debug(content), "debug-print", "Debug print found", rel, disabled, sev);
    push_flag(out, indents_with_tab(content), "tab-indentation", "Tab indentation used", rel, disabled, sev);
    assert(crate::sort::views(out@) =~= start + text_rule_findings(rel@, content@, disabled.deep_view(), sev));
}

#[verifier::rlimit(30)]
fn push_decl_rules(
    out: &mut Vec<LintFinding>,
    paths: &Vec<Vec<char>>,
    rel: &String,
    content: &Vec<char>,
    lines: &Vec<Vec<char>>,
    disabled: &Vec<Vec<char>>,
    sev: Severity,
)
    requires
        lines.deep_view() == lines_of(content@),
    ensures
        crate::sort::views(final(out)@) == crate::sort::views(old(out)@) + decl_rule_findings(
            paths.deep_view(),
            rel@,
            content@,
            disabled.deep_view(),
            sev,
        ),
{
    let ghost start = crate::sort::views(out@);
    push_flag(out, !declares_extends(lines), "missing-extends", "Missing extends declaration", rel, disabled, sev);
    if is_on(disabled, "missing-resource-ref") {
        let refs = matches_from(Pat::GdRef, content, 0);
        push_ref_findings(out, paths, rel, sev, &refs);
    }
    assert(crate::sort::views(out@) =~= start + decl_rule_findings(
        paths.deep_view(),
        rel@,
        content@,
        disabled.deep_view(),
        sev,
    ));
}

/// Lints one script and appends its findings.
#[verifier::rlimit(30)]
fn lint_script(out: &mut Vec<LintFinding>, paths: &Vec<Vec<char>>, rel: &String, text: &String)
    ensures
        crate::sort::views(final(out)@) == crate::sort::views(old(out)@) + script_findings(
            paths.deep_view(),
            rel@,
            text@,
        ),
{
    let ghost start = crate::sort::views(out@);
    let content = chars_of(text.as_str());
    let lines = split_lines(&content);
    let ctl = parse_controls(&lines);
    let sev = match ctl.level {
        Some(l) => l,
        None => Severity::Warn,
    };
    if ctl.off {
        assert(crate::sort::views(out@) =~= start + script_findings(paths.deep_view(), rel@, text@));
        return;
    }
    push_text_rules(out, rel, &content, &ctl.disabled, sev);
    push_decl_rules(out, paths, rel, &content, &lines, &ctl.disabled, sev);
    assert(crate::sort::views(out@) =~= start + script_findings(paths.deep_view(), rel@, text@));
}

/// Lints every script file (extension `gd`, any case): class name against file name, debug
/// prints, tab indentation, a missing `extends`, and `preload` / `load` of missing files. A
/// file's directives can turn all rules or some rules off and set the findings' severity.
/// Findings are sorted by code, message, then file.
pub fn lint_gd_scripts(tree: &ProjectTree) -> (r: Vec<LintFinding>)
    ensures
        crate::sort::views(r@) == crate::sort::stable_sort(
            lint_all(tree@.paths, tree@.files),
            crate::sort::key_fn::<LintFinding>(),
        ),
{
    let paths = tree.path_chars();
    let mut out: Vec<LintFinding> = Vec::new();
    let ghost files = tree@.files;
    let mut k: usize = 0;
    assert(files.take(0) =~= Seq::<(Seq<char>, Seq<char>)>::empty());
    assert(crate::sort::views(out@) =~= Seq::<LintFindingV>::empty());
    proof {
        reveal_strlit("gd");
    }
    while k < tree.files.len()
        invariant
            k <= tree.files.len(),
            files == tree@.files,
            paths.deep_view() == tree@.paths,
            crate::sort::views(out@) == lint_all(tree@.paths, files.take(k as int)),
        decreases tree.files.len() - k,
    {
        assert(files.take(k + 1).drop_last() =~= files.take(k as int));
        let f = &tree.files[k];
        let rel = chars_of(f.path.as_str());
        let script = match path_extension(&rel) {
            Some(e) => crate::text::same(&lower_chars(&e), &chars_of("gd")),
            None => false,
        };
        if script && !crate::structure_fix::is_backup_path(&rel) {
            lint_script(&mut out, &paths, &f.path, &f.text);
        }
        k = k + 1;
    }
    assert(files.take(k as int) =~= files);
    crate::sort::sort_stable(out)
}

} // verus!
