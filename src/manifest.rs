use vstd::prelude::*;
use crate::report::starts_with;
use crate::sort::{key_fn, sort_stable, stable_sort, views};
use crate::text::{
    at, chars_of, has_at, is_digit, is_digit_char, lemma_lines_deep_view, lines_of, push_all, slice,
    split_lines, string_of, trim, trim_chars,
};
use crate::scene_validate::{is_res_missing, res_missing, tree_has};
use crate::text::{
    extension, find_char, find_char_from, has_extension, is_ws, is_ws_char, last_index_before,
    lemma_find_char_from_bounds, rfind_char,
};
use crate::{
    file_text, issues_view, strs_view, ExportPreset, ExportPresetV, GodotProjectReport, Issue,
    IssueV, ProjectTree, ProjectTreeV, ReportV, Severity,
};

verus! {

broadcast use vstd::string::group_string_axioms;

/// End of the run of `'` that starts at `i`.
pub open spec fn quotes_end(s: Seq<char>, i: int) -> int
    decreases s.len() - i,
{
    if 0 <= i < s.len() && s[i] == '\'' {
        quotes_end(s, i + 1)
    } else {
        i
    }
}

/// Start of the run of `'` that ends at `j`.
pub open spec fn quotes_start_back(s: Seq<char>, j: int) -> int
    decreases j,
{
    if 0 < j <= s.len() && s[j - 1] == '\'' {
        quotes_start_back(s, j - 1)
    } else {
        j
    }
}

/// A configuration value: blanks trimmed, then every `'` at either end removed.
pub open spec fn value_text(v: Seq<char>) -> Seq<char> {
    let t = trim(v);
    let a = quotes_end(t, 0);
    let b = quotes_start_back(t, t.len() as int);
    if a < b {
        t.subrange(a, b)
    } else {
        Seq::empty()
    }
}

/// A configuration value: blanks trimmed, then the quotes at either end removed.
pub fn trim_value(v: &Vec<char>) -> (r: Vec<char>)
    ensures
        r@ == value_text(v@),
{
    let t = trim_chars(v);
    let mut a: usize = 0;
    while a < t.len() && t[a] == '\''
        invariant
            a <= t.len(),
            quotes_end(t@, a as int) == quotes_end(t@, 0),
        decreases t.len() - a,
    {
        a = a + 1;
    }
    let mut b = t.len();
    while b > 0 && t[b - 1] == '\''
        invariant
            b <= t.len(),
            quotes_start_back(t@, b as int) == quotes_start_back(t@, t.len() as int),
        decreases b,
    {
        b = b - 1;
    }
    if a < b {
        slice(&t, a, b)
    } else {
        Vec::new()
    }
}

/// The value of the first line that, trimmed, starts with `key=`.
pub open spec fn ini_value(lines: Seq<Seq<char>>, key: Seq<char>) -> Option<Seq<char>>
    decreases lines.len(),
{
    if lines.len() == 0 {
        None
    } else {
        let l = trim(lines[0]);
        let pat = key + "="@;
        if starts_with(l, pat) {
            Some(value_text(l.subrange(pat.len() as int, l.len() as int)))
        } else {
            ini_value(lines.drop_first(), key)
        }
    }
}

/// The value of the first line of `contents` that, trimmed, starts with `key=`.
pub fn find_ini_kv(lines: &Vec<Vec<char>>, key: &str) -> (r: Option<Vec<char>>)
    ensures
        r matches Some(v) ==> ini_value(lines.deep_view(), key@) == Some(v@),
        r is None ==> ini_value(lines.deep_view(), key@) is None,
{
    let mut pat = chars_of(key);
    pat.push('=');
    proof {
        reveal_strlit("=");
        assert(pat@ =~= key@ + "="@);
    }
    let ghost all = lines.deep_view();
    let mut k: usize = 0;
    assert(all.skip(0) =~= all);
    while k < lines.len()
        invariant
            k <= lines.len(),
            all == lines.deep_view(),
            pat@ == key@ + "="@,
            ini_value(all, key@) == ini_value(all.skip(k as int), key@),
        decreases lines.len() - k,
    {
        proof {
            lemma_lines_deep_view(*lines, k as int);
            assert(all.skip(k as int).drop_first() =~= all.skip(k + 1));
            assert(all.skip(k as int)[0] == lines@[k as int]@);
        }
        let l = trim_chars(&lines[k]);
        if at(&l, 0, &pat) {
            return Some(trim_value(&slice(&l, pat.len(), l.len())));
        }
        k = k + 1;
    }
    None
}

/// The value of the decimal digits `s`.
pub open spec fn digits_value(s: Seq<char>) -> int
    decreases s.len(),
{
    if s.len() == 0 {
        0
    } else {
        digits_value(s.drop_last()) * 10 + (s.last() as u32 as int - 48)
    }
}

pub open spec fn all_digits(s: Seq<char>) -> bool {
    s.len() > 0 && forall|k: int| 0 <= k < s.len() ==> is_digit(#[trigger] s[k])
}

/// `s` read as an `i32` the way `str::parse` reads it: an optional sign, then at least one
/// ASCII digit, the value within range.
pub open spec fn parse_i32(s: Seq<char>) -> Option<int> {
    let neg = s.len() > 0 && s[0] == '-';
    let body = if s.len() > 0 && (s[0] == '-' || s[0] == '+') {
        s.drop_first()
    } else {
        s
    };
    let v = if neg {
        -digits_value(body)
    } else {
        digits_value(body)
    };
    if all_digits(body) && i32::MIN <= v <= i32::MAX {
        Some(v)
    } else {
        None
    }
}

proof fn lemma_digits_value_grows(s: Seq<char>, k: int)
    requires
        0 <= k <= s.len(),
        forall|j: int| 0 <= j < s.len() ==> is_digit(#[trigger] s[j]),
    ensures
        0 <= digits_value(s.take(k)) <= digits_value(s),
    decreases s.len() - k,
{
    if k < s.len() {
        lemma_digits_value_grows(s, k + 1);
        assert(s.take(k + 1).drop_last() =~= s.take(k));
        let v = digits_value(s.take(k));
        assert(digits_value(s.take(k + 1)) == v * 10 + (s[k] as u32 as int - 48));
        assert(v <= v * 10) by (nonlinear_arith)
            requires
                v >= 0,
        ;
    } else {
        assert(s.take(k) =~= s);
        lemma_digits_value_nonneg(s);
    }
}

proof fn lemma_digits_value_nonneg(s: Seq<char>)
    requires
        forall|j: int| 0 <= j < s.len() ==> is_digit(#[trigger] s[j]),
    ensures
        0 <= digits_value(s),
    decreases s.len(),
{
    if s.len() > 0 {
        lemma_digits_value_nonneg(s.drop_last());
        assert(is_digit(s.last()));
    }
}

/// `s` read as an `i32`.
#[verifier::rlimit(30)]
pub fn parse_i32_chars(s: &Vec<char>) -> (r: Option<i32>)
    ensures
        r matches Some(n) ==> parse_i32(s@) == Some(n as int),
        r is None ==> parse_i32(s@) is None,
{
    let neg = s.len() > 0 && s[0] == '-';
    let start: usize = if s.len() > 0 && (s[0] == '-' || s[0] == '+') {
        1
    } else {
        0
    };
    let body = slice(s, start, s.len());
    assert(body@ =~= if s@.len() > 0 && (s@[0] == '-' || s@[0] == '+') {
        s@.drop_first()
    } else {
        s@
    });
    if body.len() == 0 {
        return None;
    }
    let mut acc: i64 = 0;
    let mut k: usize = 0;
    while k < body.len()
        invariant
            k <= body.len(),
            body@ == (if s@.len() > 0 && (s@[0] == '-' || s@[0] == '+') {
                s@.drop_first()
            } else {
                s@
            }),
            neg == (s@.len() > 0 && s@[0] == '-'),
            forall|j: int| 0 <= j < k ==> is_digit(#[trigger] body@[j]),
            acc as int == digits_value(body@.take(k as int)),
            0 <= acc <= 2147483648,
        decreases body.len() - k,
    {
        if !is_digit_char(body[k]) {
            assert(!all_digits(body@)) by {
                assert(!is_digit(body@[k as int]));
            }
            return None;
        }
        assert(body@.take(k + 1).drop_last() =~= body@.take(k as int));
        let d = (body[k] as u32 - 48) as i64;
        let next = acc * 10 + d;
        if next > 2147483648 {
            // every further digit only grows the value
            proof {
                assert(digits_value(body@.take(k + 1)) == next);
                if all_digits(body@) {
                    lemma_digits_value_grows(body@, k + 1);
                }
            }
            return None;
        }
        acc = next;
        k = k + 1;
    }
    assert(body@.take(k as int) =~= body@);
    if neg {
        Some((-acc) as i32)
    } else if acc <= 2147483647 {
        Some(acc as i32)
    } else {
        None
    }
}

/// The format version: the value of the last line that starts with `config_version=` and
/// whose value reads as an `i32`.
pub open spec fn config_version(lines: Seq<Seq<char>>) -> Option<int>
    decreases lines.len(),
{
    if lines.len() == 0 {
        None
    } else {
        let l = lines.last();
        let pat = "config_version="@;
        if starts_with(l, pat) && parse_i32(value_text(l.subrange(pat.len() as int, l.len() as int))) is Some {
            parse_i32(value_text(l.subrange(pat.len() as int, l.len() as int)))
        } else {
            config_version(lines.drop_last())
        }
    }
}

/// The format version declared in the manifest.
pub fn format_version(lines: &Vec<Vec<char>>) -> (r: Option<i32>)
    ensures
        r matches Some(n) ==> config_version(lines.deep_view()) == Some(n as int),
        r is None ==> config_version(lines.deep_view()) is None,
{
    let pat = chars_of("config_version=");
    proof {
        reveal_strlit("config_version=");
    }
    let ghost all = lines.deep_view();
    let mut k = lines.len();
    assert(all.take(k as int) =~= all);
    while k > 0
        invariant
            k <= lines.len(),
            all == lines.deep_view(),
            pat@ == "config_version="@,
            config_version(all) == config_version(all.take(k as int)),
        decreases k,
    {
        proof {
            lemma_lines_deep_view(*lines, k - 1);
            assert(all.take(k as int).drop_last() =~= all.take(k - 1));
        }
        let l = &lines[k - 1];
        if at(l, 0, &pat) {
            let v = trim_value(&slice(l, pat.len(), l.len()));
            match parse_i32_chars(&v) {
                Some(n) => {
                    return Some(n);
                },
                None => {},
            }
        }
        k = k - 1;
    }
    None
}

/// The export-preset reader's state: the fields of the open section and the presets so far.
pub struct PresetScan {
    pub name: Option<Seq<char>>,
    pub platform: Option<Seq<char>>,
    pub path: Option<Seq<char>>,
    pub out: Seq<ExportPresetV>,
}

pub open spec fn after_prefix(l: Seq<char>, prefix: Seq<char>) -> Seq<char> {
    l.subrange(prefix.len() as int, l.len() as int)
}

/// The reader after one more line. A section header closes the open section: its preset is
/// kept when it has both a name and a platform, and none of its fields carry over.
pub open spec fn preset_step(st: PresetScan, line: Seq<char>) -> PresetScan {
    let l = trim(line);
    if starts_with(l, "["@) {
        match (st.name, st.platform) {
            (Some(n), Some(p)) => PresetScan {
                name: None,
                platform: None,
                path: None,
                out: st.out.push(ExportPresetV { name: n, platform: p, export_path: st.path }),
            },
            _ => PresetScan { name: None, platform: None, path: None, out: st.out },
        }
    } else {
        PresetScan {
            name: if starts_with(l, "name="@) {
                Some(value_text(after_prefix(l, "name="@)))
            } else {
                st.name
            },
            platform: if starts_with(l, "platform="@) {
                Some(value_text(after_prefix(l, "platform="@)))
            } else {
                st.platform
            },
            path: if starts_with(l, "export_path="@) {
                Some(value_text(after_prefix(l, "export_path="@)))
            } else {
                st.path
            },
            out: st.out,
        }
    }
}

pub open spec fn preset_fold(lines: Seq<Seq<char>>) -> PresetScan
    decreases lines.len(),
{
    if lines.len() == 0 {
        PresetScan { name: None, platform: None, path: None, out: Seq::empty() }
    } else {
        preset_step(preset_fold(lines.drop_last()), lines.last())
    }
}

/// The presets of an export-preset file, in file order.
pub open spec fn presets_of(lines: Seq<Seq<char>>) -> Seq<ExportPresetV> {
    let st = preset_fold(lines);
    match (st.name, st.platform) {
        (Some(n), Some(p)) => st.out.push(ExportPresetV { name: n, platform: p, export_path: st.path }),
        _ => st.out,
    }
}

fn opt_view(o: &Option<Vec<char>>) -> (r: Option<String>)
    ensures
        crate::opt_str_view(r) == crate::scene_validate::opt_chars(*o),
{
    crate::scene_validate::opt_string(o)
}

fn value_after(l: &Vec<char>, n: usize) -> (r: Vec<char>)
    requires
        n <= l.len(),
    ensures
        r@ == value_text(l@.subrange(n as int, l.len() as int)),
{
    trim_value(&slice(l, n, l.len()))
}

/// Reads the presets of an export-preset file: each section holds `name=`, `platform=` and
/// `export_path=` lines; a section without both a name and a platform gives no preset.
#[verifier::rlimit(30)]
pub fn parse_export_presets(lines: &Vec<Vec<char>>) -> (r: Vec<ExportPreset>)
    ensures
        views(r@) == presets_of(lines.deep_view()),
{
    let ghost all = lines.deep_view();
    let mut name: Option<Vec<char>> = None;
    let mut platform: Option<Vec<char>> = None;
    let mut path: Option<Vec<char>> = None;
    let mut out: Vec<ExportPreset> = Vec::new();
    proof {
        reveal_strlit("[");
        reveal_strlit("name=");
        reveal_strlit("platform=");
        reveal_strlit("export_path=");
    }
    let mut k: usize = 0;
    assert(all.take(0) =~= Seq::<Seq<char>>::empty());
    assert(views(out@) =~= Seq::<ExportPresetV>::empty());
    while k < lines.len()
        invariant
            k <= lines.len(),
            all == lines.deep_view(),
            ({
                let st = preset_fold(all.take(k as int));
                &&& st.name == crate::scene_validate::opt_chars(name)
                &&& st.platform == crate::scene_validate::opt_chars(platform)
                &&& st.path == crate::scene_validate::opt_chars(path)
                &&& st.out == views(out@)
            }),
        decreases lines.len() - k,
    {
        proof {
            lemma_lines_deep_view(*lines, k as int);
            assert(all.take(k + 1).drop_last() =~= all.take(k as int));
            reveal_strlit("[");
            reveal_strlit("name=");
            reveal_strlit("platform=");
            reveal_strlit("export_path=");
        }
        let l = trim_chars(&lines[k]);
        if at(&l, 0, &chars_of("[")) {
            match (&name, &platform) {
                (Some(n), Some(p)) => {
                    let preset = ExportPreset {
                        name: string_of(n),
                        platform: string_of(p),
                        export_path: opt_view(&path),
                    };
                    let ghost before = out@;
                    out.push(preset);
                    assert(views(out@) =~= views(before).push(preset@));
                },
                _ => {},
            }
            name = None;
            platform = None;
            path = None;
        } else {
            if at(&l, 0, &chars_of("name=")) {
                name = Some(value_after(&l, 5));
            }
            if at(&l, 0, &chars_of("platform=")) {
                platform = Some(value_after(&l, 9));
            }
            if at(&l, 0, &chars_of("export_path=")) {
                path = Some(value_after(&l, 12));
            }
        }
        k = k + 1;
    }
    assert(all.take(k as int) =~= all);
    match (&name, &platform) {
        (Some(n), Some(p)) => {
            let preset = ExportPreset {
                name: string_of(n),
                platform: string_of(p),
                export_path: opt_view(&path),
            };
            let ghost before = out@;
            out.push(preset);
            assert(views(out@) =~= views(before).push(preset@));
        },
        _ => {},
    }
    out
}

pub open spec fn issue_v(severity: Severity, message: Seq<char>, file: Option<Seq<char>>) -> IssueV {
    IssueV { severity, message, file }
}

/// A project-relative `res://` reference of the manifest: a warning when its file is missing,
/// a note naming the missing key when the key is absent.
pub open spec fn reference_issues(
    paths: Seq<Seq<char>>,
    value: Option<Seq<char>>,
    missing_prefix: Seq<char>,
    absent: Seq<char>,
) -> Seq<IssueV> {
    match value {
        Some(v) => if res_missing(paths, v) {
            seq![issue_v(Severity::Warn, missing_prefix + v, Some("project.godot"@))]
        } else {
            Seq::empty()
        },
        None => seq![issue_v(Severity::Info, absent, Some("project.godot"@))],
    }
}

/// Findings on the manifest: missing manifest, or its icon and main scene.
pub open spec fn manifest_issues(tree: ProjectTreeV) -> Seq<IssueV> {
    match file_text(tree.files, "project.godot"@) {
        None => seq![issue_v(Severity::Warn, "Missing project.godot"@, Some("project.godot"@))],
        Some(t) => {
            let lines = lines_of(t);
            reference_issues(
                tree.paths,
                ini_value(lines, "config/icon"@),
                "Missing application icon: "@,
                "No application icon configured (config/icon)"@,
            ) + reference_issues(
                tree.paths,
                ini_value(lines, "run/main_scene"@),
                "Missing main scene: "@,
                "No main scene configured (run/main_scene)"@,
            )
        },
    }
}

/// `d` is a directory right under `addons/`: its name.
pub open spec fn addon_name(d: Seq<char>) -> Option<Seq<char>> {
    let pre = "addons/"@;
    if starts_with(d, pre) && d.len() > pre.len() && find_char_from(d, pre.len() as int, '/') is None {
        Some(d.subrange(pre.len() as int, d.len() as int))
    } else {
        None
    }
}

/// The addon directories, in walk order.
pub open spec fn addon_names(dirs: Seq<Seq<char>>) -> Seq<Seq<char>>
    decreases dirs.len(),
{
    if dirs.len() == 0 {
        Seq::empty()
    } else {
        let prev = addon_names(dirs.drop_last());
        match addon_name(dirs.last()) {
            Some(n) => prev.push(n),
            None => prev,
        }
    }
}

pub open spec fn plugin_cfg(name: Seq<char>) -> Seq<char> {
    "addons/"@ + name + "/plugin.cfg"@
}

/// A warning for each addon without its `plugin.cfg`.
pub open spec fn addon_issues(paths: Seq<Seq<char>>, names: Seq<Seq<char>>) -> Seq<IssueV>
    decreases names.len(),
{
    if names.len() == 0 {
        Seq::empty()
    } else {
        let prev = addon_issues(paths, names.drop_last());
        let n = names.last();
        if paths.contains(plugin_cfg(n)) {
            prev
        } else {
            prev.push(
                issue_v(
                    Severity::Warn,
                    "Addon '"@ + n + "' missing plugin.cfg"@,
                    Some(plugin_cfg(n)),
                ),
            )
        }
    }
}

/// End of `p` without its trailing `/`s.
pub open spec fn trailing_slashes_start(p: Seq<char>, j: int) -> int
    decreases j,
{
    if 0 < j <= p.len() && p[j - 1] == '/' {
        trailing_slashes_start(p, j - 1)
    } else {
        j
    }
}

/// `root` joined with the relative path `rel`.
pub open spec fn join(root: Seq<char>, rel: Seq<char>) -> Seq<char> {
    if root.len() > 0 && root.last() == '/' {
        root + rel
    } else {
        root + "/"@ + rel
    }
}

/// The parent directory of an export path: how `paths` holds it, and how it is shown. None
/// when the parent is the project root or the path has no parent.
pub open spec fn export_parent(root: Seq<char>, p: Seq<char>) -> Option<(Seq<char>, Seq<char>)> {
    let e = trailing_slashes_start(p, p.len() as int);
    match last_index_before(p, '/', e) {
        Some(i) => if starts_with(p, "/"@) {
            if i == 0 {
                Some(("/"@, "/"@))
            } else {
                Some((p.subrange(0, i), p.subrange(0, i)))
            }
        } else {
            Some((p.subrange(0, i), join(root, p.subrange(0, i))))
        },
        None => None,
    }
}

/// A note for each declared export path whose parent directory does not exist.
pub open spec fn parent_issues(
    root: Seq<char>,
    paths: Seq<Seq<char>>,
    presets: Seq<ExportPresetV>,
) -> Seq<IssueV>
    decreases presets.len(),
{
    if presets.len() == 0 {
        Seq::empty()
    } else {
        let prev = parent_issues(root, paths, presets.drop_last());
        match presets.last().export_path {
            Some(p) => match export_parent(root, p) {
                Some(kd) => if paths.contains(kd.0) {
                    prev
                } else {
                    prev.push(
                        issue_v(
                            Severity::Info,
                            "Export path parent directory does not exist: "@ + kd.1,
                            Some("export_presets.cfg"@),
                        ),
                    )
                },
                None => prev,
            },
            None => prev,
        }
    }
}

/// The presets of the project: none when `export_presets.cfg` does not exist.
pub open spec fn project_presets(tree: ProjectTreeV) -> Seq<ExportPresetV> {
    if tree.paths.contains("export_presets.cfg"@) {
        match file_text(tree.files, "export_presets.cfg"@) {
            Some(t) => presets_of(lines_of(t)),
            None => Seq::empty(),
        }
    } else {
        Seq::empty()
    }
}

/// Findings on the export presets.
pub open spec fn preset_issues(root: Seq<char>, tree: ProjectTreeV) -> Seq<IssueV> {
    if tree.paths.contains("export_presets.cfg"@) {
        let presets = project_presets(tree);
        (if presets.len() == 0 {
            seq![
                issue_v(
                    Severity::Warn,
                    "export_presets.cfg present but no presets found"@,
                    Some("export_presets.cfg"@),
                ),
            ]
        } else {
            Seq::empty()
        }) + parent_issues(root, tree.paths, presets)
    } else {
        seq![issue_v(Severity::Info, "Missing export_presets.cfg"@, Some("export_presets.cfg"@))]
    }
}

/// The quoted value of a `path="..."` attribute at `s`, not empty.
pub open spec fn path_value_at(l: Seq<char>, s: int) -> Option<Seq<char>> {
    if has_at(l, s, "path=\""@) {
        match find_char_from(l, s + 6, '"') {
            Some(q) => if q > s + 6 {
                Some(l.subrange(s + 6, q))
            } else {
                None
            },
            None => None,
        }
    } else {
        None
    }
}

/// The last `path="..."` that starts at or after `lo` and at or before `s`.
pub open spec fn last_path_value(l: Seq<char>, s: int, lo: int) -> Option<Seq<char>>
    decreases s - lo + 1,
{
    if s < lo {
        None
    } else {
        match path_value_at(l, s) {
            Some(v) => Some(v),
            None => last_path_value(l, s - 1, lo),
        }
    }
}

/// The path of a line that opens with `[ext_resource` and a blank: the last `path="..."`
/// attribute that starts before the header's closing `]`.
pub open spec fn ext_decl_path(l: Seq<char>) -> Option<Seq<char>> {
    if has_at(l, 0, "[ext_resource"@) && l.len() > 13 && is_ws(l[13]) {
        let r = match find_char_from(l, 13, ']') {
            Some(r) => r,
            None => l.len() as int,
        };
        last_path_value(l, r, 14)
    } else {
        None
    }
}

/// Findings on the external-resource declarations of a file: each `res://` path whose file is
/// missing (`uid://` references always resolve).
pub open spec fn decl_issues(paths: Seq<Seq<char>>, rel: Seq<char>, lines: Seq<Seq<char>>) -> Seq<IssueV>
    decreases lines.len(),
{
    if lines.len() == 0 {
        Seq::empty()
    } else {
        let prev = decl_issues(paths, rel, lines.drop_last());
        match ext_decl_path(lines.last()) {
            Some(p) => if !starts_with(p, "uid://"@) && res_missing(paths, p) {
                prev.push(issue_v(Severity::Error, "Missing ext_resource path: "@ + p, Some(rel)))
            } else {
                prev
            },
            None => prev,
        }
    }
}

pub open spec fn is_resource_file(p: Seq<char>) -> bool {
    extension(p) == Some("tscn"@) || extension(p) == Some("tres"@)
}

/// The resource reference scan over every scene and resource file outside the backups, in
/// walk order.
pub open spec fn resource_scan(paths: Seq<Seq<char>>, files: Seq<(Seq<char>, Seq<char>)>) -> Seq<IssueV>
    decreases files.len(),
{
    if files.len() == 0 {
        Seq::empty()
    } else {
        let prev = resource_scan(paths, files.drop_last());
        let f = files.last();
        if is_resource_file(f.0) && !crate::structure_fix::in_backups(f.0) {
            prev + decl_issues(paths, f.0, lines_of(f.1))
        } else {
            prev
        }
    }
}

fn push_issue(out: &mut Vec<Issue>, severity: Severity, msg: &Vec<char>, file: Option<&str>)
    ensures
        issues_view(final(out)@) == issues_view(old(out)@).push(
            issue_v(
                severity,
                msg@,
                match file {
                    Some(f) => Some(f@),
                    None => None,
                },
            ),
        ),
{
    let f = match file {
        Some(f) => Some(string_of(&chars_of(f))),
        None => None,
    };
    let ghost before = out@;
    out.push(Issue { severity, message: string_of(msg), file: f });
    assert(issues_view(out@) =~= issues_view(before).push(
        issue_v(
            severity,
            msg@,
            match file {
                Some(f) => Some(f@),
                None => None,
            },
        ),
    ));
}

fn push_reference_issue(
    out: &mut Vec<Issue>,
    paths: &Vec<Vec<char>>,
    value: &Option<Vec<char>>,
    missing_prefix: &str,
    absent: &str,
)
    ensures
        issues_view(final(out)@) == issues_view(old(out)@) + reference_issues(
            paths.deep_view(),
            crate::scene_validate::opt_chars(*value),
            missing_prefix@,
            absent@,
        ),
{
    let ghost start = issues_view(out@);
    match value {
        Some(v) => {
            if is_res_missing(paths, v) {
                let mut msg = chars_of(missing_prefix);
                push_all(&mut msg, v);
                push_issue(out, Severity::Warn, &msg, Some("project.godot"));
            }
        },
        None => {
            push_issue(out, Severity::Info, &chars_of(absent), Some("project.godot"));
        },
    }
    assert(issues_view(out@) =~= start + reference_issues(
        paths.deep_view(),
        crate::scene_validate::opt_chars(*value),
        missing_prefix@,
        absent@,
    ));
}

fn push_manifest_issues(out: &mut Vec<Issue>, tree: &ProjectTree, paths: &Vec<Vec<char>>)
    requires
        paths.deep_view() == tree@.paths,
    ensures
        issues_view(final(out)@) == issues_view(old(out)@) + manifest_issues(tree@),
{
    let ghost start = issues_view(out@);
    match tree.text_of(&chars_of("project.godot")) {
        None => {
            push_issue(out, Severity::Warn, &chars_of("Missing project.godot"), Some("project.godot"));
        },
        Some(t) => {
            let lines = split_lines(&chars_of(t.as_str()));
            let icon = find_ini_kv(&lines, "config/icon");
            push_reference_issue(
                out,
                paths,
                &icon,
                "Missing application icon: ",
                "No application icon configured (config/icon)",
            );
            let main = find_ini_kv(&lines, "run/main_scene");
            push_reference_issue(
                out,
                paths,
                &main,
                "Missing main scene: ",
                "No main scene configured (run/main_scene)",
            );
        },
    }
    assert(issues_view(out@) =~= start + manifest_issues(tree@));
}

/// The directories right under `addons/`, in walk order.
fn list_addons(tree: &ProjectTree) -> (r: Vec<String>)
    ensures
        crate::strs_view(r@) == addon_names(tree@.dirs),
{
    let ghost dirs = tree@.dirs;
    let pre = chars_of("addons/");
    proof {
        reveal_strlit("addons/");
    }
    let mut out: Vec<String> = Vec::new();
    let mut k: usize = 0;
    assert(dirs.take(0) =~= Seq::<Seq<char>>::empty());
    assert(strs_view(out@) =~= Seq::<Seq<char>>::empty());
    while k < tree.dirs.len()
        invariant
            k <= tree.dirs.len(),
            dirs == tree@.dirs,
            pre@ == "addons/"@,
            strs_view(out@) == addon_names(dirs.take(k as int)),
        decreases tree.dirs.len() - k,
    {
        assert(dirs.take(k + 1).drop_last() =~= dirs.take(k as int));
        let d = chars_of(tree.dirs[k].as_str());
        if at(&d, 0, &pre) && d.len() > pre.len() && find_char(&d, pre.len(), '/').is_none() {
            let ghost before = out@;
            let n = slice(&d, pre.len(), d.len());
            out.push(string_of(&n));
            assert(strs_view(out@) =~= strs_view(before).push(n@));
        }
        k = k + 1;
    }
    assert(dirs.take(k as int) =~= dirs);
    out
}

fn push_addon_issues(out: &mut Vec<Issue>, paths: &Vec<Vec<char>>, names: &Vec<String>)
    ensures
        issues_view(final(out)@) == issues_view(old(out)@) + addon_issues(
            paths.deep_view(),
            strs_view(names@),
        ),
{
    let ghost start = issues_view(out@);
    let ghost all = strs_view(names@);
    let mut k: usize = 0;
    assert(all.take(0) =~= Seq::<Seq<char>>::empty());
    assert(issues_view(out@) =~= start + addon_issues(paths.deep_view(), all.take(0)));
    while k < names.len()
        invariant
            k <= names.len(),
            all == strs_view(names@),
            issues_view(out@) == start + addon_issues(paths.deep_view(), all.take(k as int)),
        decreases names.len() - k,
    {
        assert(all.take(k + 1).drop_last() =~= all.take(k as int));
        let n = chars_of(names[k].as_str());
        let mut cfg = chars_of("addons/");
        push_all(&mut cfg, &n);
        push_all(&mut cfg, &chars_of("/plugin.cfg"));
        if !tree_has(paths, &cfg) {
            let mut msg = chars_of("Addon '");
            push_all(&mut msg, &n);
            push_all(&mut msg, &chars_of("' missing plugin.cfg"));
            let f = string_of(&cfg);
            let ghost b2 = out@;
            out.push(Issue { severity: Severity::Warn, message: string_of(&msg), file: Some(f) });
            assert(issues_view(out@) =~= issues_view(b2).push(
                issue_v(Severity::Warn, "Addon '"@ + n@ + "' missing plugin.cfg"@, Some(plugin_cfg(n@))),
            ));
        }
        assert(issues_view(out@) =~= start + addon_issues(paths.deep_view(), all.take(k + 1)));
        k = k + 1;
    }
    assert(all.take(k as int) =~= all);
}

/// The parent directory of an export path: how the tree holds it, and how it is shown.
pub fn export_parent_of(root: &Vec<char>, p: &Vec<char>) -> (r: Option<(Vec<char>, Vec<char>)>)
    ensures
        r matches Some(kd) ==> export_parent(root@, p@) == Some((kd.0@, kd.1@)),
        r is None ==> export_parent(root@, p@) is None,
{
    let mut e = p.len();
    while e > 0 && p[e - 1] == '/'
        invariant
            e <= p.len(),
            trailing_slashes_start(p@, e as int) == trailing_slashes_start(p@, p.len() as int),
        decreases e,
    {
        e = e - 1;
    }
    proof {
        reveal_strlit("/");
    }
    match rfind_char(p, '/', e) {
        Some(i) => {
            if at(p, 0, &chars_of("/")) {
                if i == 0 {
                    Some((chars_of("/"), chars_of("/")))
                } else {
                    Some((slice(p, 0, i), slice(p, 0, i)))
                }
            } else {
                let rel = slice(p, 0, i);
                let mut shown = slice(root, 0, root.len());
                assert(shown@ =~= root@);
                if !(root.len() > 0 && root[root.len() - 1] == '/') {
                    shown.push('/');
                }
                push_all(&mut shown, &rel);
                assert(shown@ =~= join(root@, rel@));
                Some((rel, shown))
            }
        },
        None => None,
    }
}

fn push_parent_issues(
    out: &mut Vec<Issue>,
    root: &Vec<char>,
    paths: &Vec<Vec<char>>,
    presets: &Vec<ExportPreset>,
)
    ensures
        issues_view(final(out)@) == issues_view(old(out)@) + parent_issues(
            root@,
            paths.deep_view(),
            views(presets@),
        ),
{
    let ghost start = issues_view(out@);
    let ghost all = views(presets@);
    let mut k: usize = 0;
    assert(all.take(0) =~= Seq::<ExportPresetV>::empty());
    assert(issues_view(out@) =~= start + parent_issues(root@, paths.deep_view(), all.take(0)));
    while k < presets.len()
        invariant
            k <= presets.len(),
            all == views(presets@),
            issues_view(out@) == start + parent_issues(root@, paths.deep_view(), all.take(k as int)),
        decreases presets.len() - k,
    {
        assert(all.take(k + 1).drop_last() =~= all.take(k as int));
        match &presets[k].export_path {
            Some(p) => {
                match export_parent_of(root, &chars_of(p.as_str())) {
                    Some(kd) => {
                        if !tree_has(paths, &kd.0) {
                            let mut msg = chars_of("Export path parent directory does not exist: ");
                            push_all(&mut msg, &kd.1);
                            push_issue(out, Severity::Info, &msg, Some("export_presets.cfg"));
                        }
                    },
                    None => {},
                }
            },
            None => {},
        }
        assert(issues_view(out@) =~= start + parent_issues(root@, paths.deep_view(), all.take(k + 1)));
        k = k + 1;
    }
    assert(all.take(k as int) =~= all);
}

/// The path of an external-resource declaration line, if any.
pub fn ext_decl_path_of(l: &Vec<char>) -> (r: Option<Vec<char>>)
    ensures
        r matches Some(v) ==> ext_decl_path(l@) == Some(v@),
        r is None ==> ext_decl_path(l@) is None,
{
    proof {
        reveal_strlit("[ext_resource");
        reveal_strlit("path=\"");
    }
    if !(at(l, 0, &chars_of("[ext_resource")) && l.len() > 13 && is_ws_char(l[13])) {
        return None;
    }
    let r = match find_char(l, 13, ']') {
        Some(r) => r,
        None => l.len(),
    };
    proof {
        lemma_find_char_from_bounds(l@, 13, ']');
    }
    let pat = chars_of("path=\"");
    let mut s = r;
    while s >= 14
        invariant
            s <= l.len(),
            pat@ == "path=\""@,
            ext_decl_path(l@) == last_path_value(l@, s as int, 14),
        decreases s,
    {
        proof {
            reveal_strlit("path=\"");
        }
        if at(l, s, &pat) {
            match find_char(l, s + 6, '"') {
                Some(q) => {
                    proof {
                        lemma_find_char_from_bounds(l@, s + 6, '"');
                    }
                    if q > s + 6 {
                        return Some(slice(l, s + 6, q));
                    }
                },
                None => {},
            }
        }
        s = s - 1;
    }
    None
}

fn push_decl_issues(out: &mut Vec<Issue>, paths: &Vec<Vec<char>>, rel: &String, text: &String)
    ensures
        issues_view(final(out)@) == issues_view(old(out)@) + decl_issues(
            paths.deep_view(),
            rel@,
            lines_of(text@),
        ),
{
    let lines = split_lines(&chars_of(text.as_str()));
    let ghost start = issues_view(out@);
    let ghost all = lines.deep_view();
    proof {
        reveal_strlit("uid://");
    }
    let mut k: usize = 0;
    assert(all.take(0) =~= Seq::<Seq<char>>::empty());
    assert(issues_view(out@) =~= start + decl_issues(paths.deep_view(), rel@, all.take(0)));
    while k < lines.len()
        invariant
            k <= lines.len(),
            all == lines.deep_view(),
            issues_view(out@) == start + decl_issues(paths.deep_view(), rel@, all.take(k as int)),
        decreases lines.len() - k,
    {
        proof {
            lemma_lines_deep_view(lines, k as int);
            assert(all.take(k + 1).drop_last() =~= all.take(k as int));
            reveal_strlit("uid://");
        }
        match ext_decl_path_of(&lines[k]) {
            Some(p) => {
                if !at(&p, 0, &chars_of("uid://")) && is_res_missing(paths, &p) {
                    let mut msg = chars_of("Missing ext_resource path: ");
                    push_all(&mut msg, &p);
                    let ghost b = out@;
                    out.push(Issue { severity: Severity::Error, message: string_of(&msg), file: Some(rel.clone()) });
                    assert(issues_view(out@) =~= issues_view(b).push(
                        issue_v(Severity::Error, "Missing ext_resource path: "@ + p@, Some(rel@)),
                    ));
                }
            },
            None => {},
        }
        assert(issues_view(out@) =~= start + decl_issues(paths.deep_view(), rel@, all.take(k + 1)));
        k = k + 1;
    }
    assert(all.take(k as int) =~= all);
}

fn push_resource_scan(out: &mut Vec<Issue>, tree: &ProjectTree, paths: &Vec<Vec<char>>)
    requires
        paths.deep_view() == tree@.paths,
    ensures
        issues_view(final(out)@) == issues_view(old(out)@) + resource_scan(tree@.paths, tree@.files),
{
    let ghost start = issues_view(out@);
    let ghost files = tree@.files;
    let mut k: usize = 0;
    assert(files.take(0) =~= Seq::<(Seq<char>, Seq<char>)>::empty());
    assert(issues_view(out@) =~= start + resource_scan(tree@.paths, files.take(0)));
    while k < tree.files.len()
        invariant
            k <= tree.files.len(),
            files == tree@.files,
            paths.deep_view() == tree@.paths,
            issues_view(out@) == start + resource_scan(tree@.paths, files.take(k as int)),
        decreases tree.files.len() - k,
    {
        assert(files.take(k + 1).drop_last() =~= files.take(k as int));
        let f = &tree.files[k];
        let rel = chars_of(f.path.as_str());
        if (has_extension(&rel, "tscn") || has_extension(&rel, "tres"))
            && !crate::structure_fix::is_backup_path(&rel) {
            push_decl_issues(out, paths, &f.path, &f.text);
        }
        assert(issues_view(out@) =~= start + resource_scan(tree@.paths, files.take(k + 1)));
        k = k + 1;
    }
    assert(files.take(k as int) =~= files);
}

fn push_preset_issues(
    out: &mut Vec<Issue>,
    root: &Vec<char>,
    tree: &ProjectTree,
    paths: &Vec<Vec<char>>,
    presets: &Vec<ExportPreset>,
)
    requires
        paths.deep_view() == tree@.paths,
        tree@.paths.contains("export_presets.cfg"@),
        views(presets@) == project_presets(tree@),
    ensures
        issues_view(final(out)@) == issues_view(old(out)@) + preset_issues(root@, tree@),
{
    let ghost start = issues_view(out@);
    if presets.len() == 0 {
        push_issue(
            out,
            Severity::Warn,
            &chars_of("export_presets.cfg present but no presets found"),
            Some("export_presets.cfg"),
        );
    }
    push_parent_issues(out, root, paths, presets);
    assert(issues_view(out@) =~= start + preset_issues(root@, tree@));
}

/// The addons of the project: none when `addons/` does not exist.
pub open spec fn project_addons(tree: ProjectTreeV) -> Seq<Seq<char>> {
    if tree.paths.contains("addons"@) {
        addon_names(tree.dirs)
    } else {
        Seq::empty()
    }
}

/// Findings on the addons.
pub open spec fn addons_part(tree: ProjectTreeV) -> Seq<IssueV> {
    if tree.paths.contains("addons"@) {
        addon_issues(tree.paths, addon_names(tree.dirs))
    } else {
        seq![issue_v(Severity::Info, "No addons/ directory found"@, None)]
    }
}

/// Every finding of the analysis, before sorting.
pub open spec fn project_issues(root: Seq<char>, tree: ProjectTreeV) -> Seq<IssueV> {
    manifest_issues(tree) + addons_part(tree) + preset_issues(root, tree) + resource_scan(
        tree.paths,
        tree.files,
    )
}

/// The format version of the manifest, if it was read and declares one.
pub open spec fn project_version(tree: ProjectTreeV) -> Option<int> {
    match file_text(tree.files, "project.godot"@) {
        Some(t) => config_version(lines_of(t)),
        None => None,
    }
}

/// The analysis of the project at `root`: addons sorted, presets sorted by name then platform,
/// issues sorted by severity then message (equal keys keep their order).
pub open spec fn analysis(root: Seq<char>, tree: ProjectTreeV) -> ReportV {
    ReportV {
        project_path: root,
        version: project_version(tree),
        addons: stable_sort(project_addons(tree), key_fn::<String>()),
        presets: stable_sort(project_presets(tree), key_fn::<ExportPreset>()),
        issues: stable_sort(project_issues(root, tree), key_fn::<Issue>()),
    }
}

/// Scans the project at `root`: manifest (format version, icon, main scene), addons, export
/// presets, and the external-resource declarations of every scene and resource file.
#[verifier::rlimit(30)]
pub fn analyze_project(root: &str, tree: &ProjectTree) -> (r: GodotProjectReport)
    ensures
        r@ == analysis(root@, tree@),
{
    let root_c = chars_of(root);
    let paths = tree.path_chars();
    let mut issues: Vec<Issue> = Vec::new();
    assert(issues_view(issues@) =~= Seq::empty());
    push_manifest_issues(&mut issues, tree, &paths);
    let version = match tree.text_of(&chars_of("project.godot")) {
        Some(t) => format_version(&split_lines(&chars_of(t.as_str()))),
        None => None,
    };
    let has_addons = tree_has(&paths, &chars_of("addons"));
    let addons = if has_addons {
        let names = list_addons(tree);
        push_addon_issues(&mut issues, &paths, &names);
        names
    } else {
        push_issue(&mut issues, Severity::Info, &chars_of("No addons/ directory found"), None);
        let none: Vec<String> = Vec::new();
        assert(strs_view(none@) =~= Seq::empty());
        none
    };
    let has_presets = tree_has(&paths, &chars_of("export_presets.cfg"));
    let presets = if has_presets {
        let found = match tree.text_of(&chars_of("export_presets.cfg")) {
            Some(t) => parse_export_presets(&split_lines(&chars_of(t.as_str()))),
            None => {
                let none: Vec<ExportPreset> = Vec::new();
                assert(views(none@) =~= Seq::<ExportPresetV>::empty());
                none
            },
        };
        push_preset_issues(&mut issues, &root_c, tree, &paths, &found);
        found
    } else {
        push_issue(
            &mut issues,
            Severity::Info,
            &chars_of("Missing export_presets.cfg"),
            Some("export_presets.cfg"),
        );
        let none: Vec<ExportPreset> = Vec::new();
        assert(views(none@) =~= Seq::<ExportPresetV>::empty());
        none
    };
    push_resource_scan(&mut issues, tree, &paths);
    assert(issues_view(issues@) =~= project_issues(root@, tree@));
    let addons = sort_stable(addons);
    let presets = sort_stable(presets);
    let issues = sort_stable(issues);
    GodotProjectReport {
        project_path: string_of(&root_c),
        project_format_version: version,
        addons,
        export_presets: presets,
        issues,
    }
}

} // verus!
