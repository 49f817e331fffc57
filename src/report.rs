use vstd::prelude::*;
use crate::scene_validate::{
    scene_findings, scene_issues_view, validate_scene, SceneIssue, SceneIssueV,
};
use crate::signal_validate::{
    connections_to_dot, dot_text, extract_scene_connections, scene_edges, signal_findings,
    validate_scene_signals, ConnectionEdge, EdgeV,
};
use crate::sort::{key_fn, sort_stable, stable_sort, views};
use crate::text::{at, chars_of, extension, has_at, has_extension, push_all, string_of};
use crate::{issues_view, GodotProjectReport, Issue, IssueV, ProjectTree, ProjectTreeV, Severity};

verus! {

broadcast use vstd::string::group_string_axioms;

/// Which scene checks to keep in the report.
#[derive(Clone, Copy, Debug, PartialEq, Eq, Structural)]
pub struct SceneCheckOptions {
    pub script: bool,
    pub properties: bool,
    pub subresource: bool,
    pub preload: bool,
    pub load: bool,
}

impl Default for SceneCheckOptions {
    /// Every check on.
    fn default() -> (r: Self)
        ensures
            r.script && r.properties && r.subresource && r.preload && r.load,
    {
        SceneCheckOptions { script: true, properties: true, subresource: true, preload: true, load: true }
    }
}

/// The kind of a scene finding, read from the start of its message.
#[derive(Clone, Copy, Debug, PartialEq, Eq, Structural)]
pub enum SceneIssueKind {
    MissingScript,
    ScriptExtResourceMissing,
    UnknownExtResource,
    PropertyExtMissing,
    UnknownSubResource,
    PreloadMissing,
    LoadMissing,
    Other,
}

pub open spec fn starts_with(s: Seq<char>, prefix: Seq<char>) -> bool {
    has_at(s, 0, prefix)
}

pub open spec fn issue_kind(msg: Seq<char>) -> SceneIssueKind {
    if starts_with(msg, "Missing script:"@) {
        SceneIssueKind::MissingScript
    } else if starts_with(msg, "Script ExtResource("@) {
        SceneIssueKind::ScriptExtResourceMissing
    } else if starts_with(msg, "Unknown ExtResource id:"@) {
        SceneIssueKind::UnknownExtResource
    } else if starts_with(msg, "Property '"@) {
        SceneIssueKind::PropertyExtMissing
    } else if starts_with(msg, "Unknown SubResource id:"@) {
        SceneIssueKind::UnknownSubResource
    } else if starts_with(msg, "Preload missing file:"@) {
        SceneIssueKind::PreloadMissing
    } else if starts_with(msg, "Load missing file:"@) {
        SceneIssueKind::LoadMissing
    } else {
        SceneIssueKind::Other
    }
}

/// Whether `s` starts with `prefix`.
pub fn has_prefix(s: &Vec<char>, prefix: &str) -> (r: bool)
    ensures
        r == starts_with(s@, prefix@),
{
    at(s, 0, &chars_of(prefix))
}

/// The kind of a scene finding, from its message.
pub fn scene_issue_kind(msg: &Vec<char>) -> (r: SceneIssueKind)
    ensures
        r == issue_kind(msg@),
{
    if has_prefix(msg, "Missing script:") {
        SceneIssueKind::MissingScript
    } else if has_prefix(msg, "Script ExtResource(") {
        SceneIssueKind::ScriptExtResourceMissing
    } else if has_prefix(msg, "Unknown ExtResource id:") {
        SceneIssueKind::UnknownExtResource
    } else if has_prefix(msg, "Property '") {
        SceneIssueKind::PropertyExtMissing
    } else if has_prefix(msg, "Unknown SubResource id:") {
        SceneIssueKind::UnknownSubResource
    } else if has_prefix(msg, "Preload missing file:") {
        SceneIssueKind::PreloadMissing
    } else if has_prefix(msg, "Load missing file:") {
        SceneIssueKind::LoadMissing
    } else {
        SceneIssueKind::Other
    }
}

/// A scene finding is kept: it is not a declaration-level missing path (the resource
/// reference scan reports those), and its kind's check is selected.
pub open spec fn kept(msg: Seq<char>, opts: SceneCheckOptions) -> bool {
    !starts_with(msg, "Missing ext_resource path:"@) && match issue_kind(msg) {
        SceneIssueKind::MissingScript | SceneIssueKind::ScriptExtResourceMissing
        | SceneIssueKind::UnknownExtResource => opts.script,
        SceneIssueKind::PropertyExtMissing => opts.properties,
        SceneIssueKind::UnknownSubResource => opts.subresource,
        SceneIssueKind::PreloadMissing => opts.preload,
        SceneIssueKind::LoadMissing => opts.load,
        SceneIssueKind::Other => true,
    }
}

/// The message of a scene finding in the report: the node path, if any, appended.
pub open spec fn with_node(si: SceneIssueV) -> Seq<char> {
    match si.node_path {
        Some(np) => si.message + " [node: "@ + np + "]"@,
        None => si.message,
    }
}

/// Scene findings as report issues of severity `Error`, filtered by `kept` when `filter`.
pub open spec fn as_issues(
    sis: Seq<SceneIssueV>,
    rel: Seq<char>,
    opts: SceneCheckOptions,
    filter: bool,
) -> Seq<IssueV>
    decreases sis.len(),
{
    if sis.len() == 0 {
        Seq::empty()
    } else {
        let prev = as_issues(sis.drop_last(), rel, opts, filter);
        if filter && !kept(sis.last().message, opts) {
            prev
        } else {
            prev.push(
                IssueV { severity: Severity::Error, message: with_node(sis.last()), file: Some(rel) },
            )
        }
    }
}

/// A scene file: extension `tscn`.
pub open spec fn is_scene(path: Seq<char>) -> bool {
    extension(path) == Some("tscn"@)
}

/// Scene validation over every scene file outside the backups, as report issues.
pub open spec fn scene_report(
    tree: ProjectTreeV,
    files: Seq<(Seq<char>, Seq<char>)>,
    opts: SceneCheckOptions,
) -> Seq<IssueV>
    decreases files.len(),
{
    if files.len() == 0 {
        Seq::empty()
    } else {
        let prev = scene_report(tree, files.drop_last(), opts);
        let rel = files.last().0;
        if is_scene(rel) && !crate::structure_fix::in_backups(rel) {
            prev + as_issues(scene_findings(tree, rel), rel, opts, true)
        } else {
            prev
        }
    }
}

/// Signal validation over every scene file outside the backups, as report issues.
pub open spec fn signal_report(tree: ProjectTreeV, files: Seq<(Seq<char>, Seq<char>)>) -> Seq<IssueV>
    decreases files.len(),
{
    if files.len() == 0 {
        Seq::empty()
    } else {
        let prev = signal_report(tree, files.drop_last());
        let rel = files.last().0;
        if is_scene(rel) && !crate::structure_fix::in_backups(rel) {
            prev + as_issues(signal_findings(tree, rel), rel, SceneCheckOptions {
                script: true,
                properties: true,
                subresource: true,
                preload: true,
                load: true,
            }, false)
        } else {
            prev
        }
    }
}

/// The well-formed connections of every scene file outside the backups, file after file.
pub open spec fn all_edges(tree: ProjectTreeV, files: Seq<(Seq<char>, Seq<char>)>) -> Seq<EdgeV>
    decreases files.len(),
{
    if files.len() == 0 {
        Seq::empty()
    } else {
        let prev = all_edges(tree, files.drop_last());
        let rel = files.last().0;
        if is_scene(rel) && !crate::structure_fix::in_backups(rel) {
            prev + scene_edges(tree, rel)
        } else {
            prev
        }
    }
}

fn append_issues(
    out: &mut Vec<Issue>,
    sis: &Vec<SceneIssue>,
    rel: &Vec<char>,
    opts: SceneCheckOptions,
    filter: bool,
)
    ensures
        issues_view(final(out)@) == issues_view(old(out)@) + as_issues(
            scene_issues_view(sis@),
            rel@,
            opts,
            filter,
        ),
{
    let ghost start = issues_view(out@);
    let ghost all = scene_issues_view(sis@);
    let mut k: usize = 0;
    assert(all.take(0) =~= Seq::<SceneIssueV>::empty());
    assert(issues_view(out@) =~= start + as_issues(all.take(0), rel@, opts, filter));
    while k < sis.len()
        invariant
            k <= sis.len(),
            all == scene_issues_view(sis@),
            issues_view(out@) == start + as_issues(all.take(k as int), rel@, opts, filter),
        decreases sis.len() - k,
    {
        assert(all.take(k + 1).drop_last() =~= all.take(k as int));
        let si = &sis[k];
        let msg = chars_of(si.message.as_str());
        let skip = if filter {
            if has_prefix(&msg, "Missing ext_resource path:") {
                true
            } else {
                match scene_issue_kind(&msg) {
                    SceneIssueKind::MissingScript | SceneIssueKind::ScriptExtResourceMissing
                    | SceneIssueKind::UnknownExtResource => !opts.script,
                    SceneIssueKind::PropertyExtMissing => !opts.properties,
                    SceneIssueKind::UnknownSubResource => !opts.subresource,
                    SceneIssueKind::PreloadMissing => !opts.preload,
                    SceneIssueKind::LoadMissing => !opts.load,
                    SceneIssueKind::Other => false,
                }
            }
        } else {
            false
        };
        if !skip {
            let mut m = msg;
            match &si.node_path {
                Some(np) => {
                    push_all(&mut m, &chars_of(" [node: "));
                    push_all(&mut m, &chars_of(np.as_str()));
                    push_all(&mut m, &chars_of("]"));
                },
                None => {},
            }
            let ghost prev = out@;
            out.push(Issue::error(string_of(&m), Some(string_of(rel))));
            assert(issues_view(out@) =~= issues_view(prev).push(
                IssueV { severity: Severity::Error, message: with_node(si@), file: Some(rel@) },
            ));
        }
        k = k + 1;
    }
    assert(all.take(k as int) =~= all);
}

/// Runs the scene validator on every scene file and reports its findings as issues of severity
/// `Error`, the node path appended to the message. Declaration-level missing paths are left to
/// the resource reference scan; the other findings are kept when their check is selected.
pub fn scene_issues_as_report_with(tree: &ProjectTree, opts: &SceneCheckOptions) -> (r: Vec<Issue>)
    ensures
        issues_view(r@) == scene_report(tree@, tree@.files, *opts),
{
    let mut out: Vec<Issue> = Vec::new();
    let ghost files = tree@.files;
    let mut k: usize = 0;
    assert(files.take(0) =~= Seq::<(Seq<char>, Seq<char>)>::empty());
    assert(issues_view(out@) =~= Seq::empty());
    while k < tree.files.len()
        invariant
            k <= tree.files.len(),
            files == tree@.files,
            issues_view(out@) == scene_report(tree@, files.take(k as int), *opts),
        decreases tree.files.len() - k,
    {
        assert(files.take(k + 1).drop_last() =~= files.take(k as int));
        let rel = chars_of(tree.files[k].path.as_str());
        if has_extension(&rel, "tscn") && !crate::structure_fix::is_backup_path(&rel) {
            let sis = validate_scene(tree, tree.files[k].path.as_str());
            append_issues(&mut out, &sis, &rel, *opts, true);
        }
        k = k + 1;
    }
    assert(files.take(k as int) =~= files);
    out
}

/// `scene_issues_as_report_with` with every check selected.
pub fn scene_issues_as_report(tree: &ProjectTree) -> (r: Vec<Issue>)
    ensures
        issues_view(r@) == scene_report(
            tree@,
            tree@.files,
            SceneCheckOptions {
                script: true,
                properties: true,
                subresource: true,
                preload: true,
                load: true,
            },
        ),
{
    let opts = SceneCheckOptions::default();
    scene_issues_as_report_with(tree, &opts)
}

/// Runs the signal validator on every scene file and reports each finding as an issue of
/// severity `Error`.
pub fn signal_issues_as_report(tree: &ProjectTree) -> (r: Vec<Issue>)
    ensures
        issues_view(r@) == signal_report(tree@, tree@.files),
{
    let mut out: Vec<Issue> = Vec::new();
    let ghost files = tree@.files;
    let mut k: usize = 0;
    assert(files.take(0) =~= Seq::<(Seq<char>, Seq<char>)>::empty());
    assert(issues_view(out@) =~= Seq::empty());
    let all = SceneCheckOptions::default();
    while k < tree.files.len()
        invariant
            k <= tree.files.len(),
            files == tree@.files,
            all.script && all.properties && all.subresource && all.preload && all.load,
            issues_view(out@) == signal_report(tree@, files.take(k as int)),
        decreases tree.files.len() - k,
    {
        assert(files.take(k + 1).drop_last() =~= files.take(k as int));
        let rel = chars_of(tree.files[k].path.as_str());
        if has_extension(&rel, "tscn") && !crate::structure_fix::is_backup_path(&rel) {
            let sis = validate_scene_signals(tree, tree.files[k].path.as_str());
            append_issues(&mut out, &sis, &rel, all, false);
        }
        k = k + 1;
    }
    assert(files.take(k as int) =~= files);
    out
}

/// The connection graph of every scene file in DOT, edges sorted over all files.
pub fn signal_graph_dot(tree: &ProjectTree) -> (r: String)
    ensures
        r@ == dot_text(stable_sort(all_edges(tree@, tree@.files), key_fn::<ConnectionEdge>())),
{
    let mut edges: Vec<ConnectionEdge> = Vec::new();
    let ghost files = tree@.files;
    let mut k: usize = 0;
    assert(files.take(0) =~= Seq::<(Seq<char>, Seq<char>)>::empty());
    assert(views(edges@) =~= Seq::<EdgeV>::empty());
    while k < tree.files.len()
        invariant
            k <= tree.files.len(),
            files == tree@.files,
            views(edges@) == all_edges(tree@, files.take(k as int)),
        decreases tree.files.len() - k,
    {
        assert(files.take(k + 1).drop_last() =~= files.take(k as int));
        let rel = chars_of(tree.files[k].path.as_str());
        if has_extension(&rel, "tscn") && !crate::structure_fix::is_backup_path(&rel) {
            let mut found = extract_scene_connections(tree, tree.files[k].path.as_str());
            let ghost before = edges@;
            let ghost fv = found@;
            edges.append(&mut found);
            assert(views(edges@) =~= views(before) + views(fv));
        }
        k = k + 1;
    }
    assert(files.take(k as int) =~= files);
    let sorted = sort_stable(edges);
    connections_to_dot(&sorted)
}

/// The rule family of a finding, by its message: scene-validator and signal-validator
/// messages have known openings; everything else is a project check.
pub open spec fn rule_id(msg: Seq<char>) -> Seq<char> {
    if starts_with(msg, "Missing script:"@) || starts_with(msg, "Script ExtResource("@)
        || starts_with(msg, "Unknown ExtResource id:"@) || starts_with(msg, "Property '"@)
        || starts_with(msg, "Unknown SubResource id:"@) || starts_with(msg, "Preload missing file:"@)
        || starts_with(msg, "Load missing file:"@) {
        "scene-validator"@
    } else if starts_with(msg, "Unknown connection '"@) || starts_with(msg, "Connection missing "@)
        || starts_with(msg, "Duplicate connection:"@) || starts_with(msg, "Invalid method name:"@)
        || starts_with(msg, "Target method not found:"@) {
        "signal-validator"@
    } else {
        "godot-analyzer"@
    }
}

/// The rule family of an issue.
pub fn classify_rule_id(i: &Issue) -> (r: &'static str)
    ensures
        r@ == rule_id(i.message@),
{
    let msg = chars_of(i.message.as_str());
    if has_prefix(&msg, "Missing script:") || has_prefix(&msg, "Script ExtResource(")
        || has_prefix(&msg, "Unknown ExtResource id:") || has_prefix(&msg, "Property '")
        || has_prefix(&msg, "Unknown SubResource id:") || has_prefix(&msg, "Preload missing file:")
        || has_prefix(&msg, "Load missing file:") {
        "scene-validator"
    } else if has_prefix(&msg, "Unknown connection '") || has_prefix(&msg, "Connection missing ")
        || has_prefix(&msg, "Duplicate connection:") || has_prefix(&msg, "Invalid method name:")
        || has_prefix(&msg, "Target method not found:") {
        "signal-validator"
    } else {
        "godot-analyzer"
    }
}

/// `s` with `&`, `<` and `>` written as XML entities.
pub open spec fn xml_escape(s: Seq<char>) -> Seq<char>
    decreases s.len(),
{
    if s.len() == 0 {
        s
    } else {
        let c = s.last();
        xml_escape(s.drop_last()) + if c == '&' {
            "&amp;"@
        } else if c == '<' {
            "&lt;"@
        } else if c == '>' {
            "&gt;"@
        } else {
            seq![c]
        }
    }
}

fn push_xml_escaped(out: &mut Vec<char>, s: &Vec<char>)
    ensures
        final(out)@ == old(out)@ + xml_escape(s@),
{
    let ghost start = out@;
    let mut k: usize = 0;
    assert(s@.take(0) =~= Seq::<char>::empty());
    assert(out@ =~= start + xml_escape(s@.take(0)));
    while k < s.len()
        invariant
            k <= s.len(),
            out@ == start + xml_escape(s@.take(k as int)),
        decreases s.len() - k,
    {
        assert(s@.take(k + 1).drop_last() =~= s@.take(k as int));
        let c = s[k];
        if c == '&' {
            push_all(out, &chars_of("&amp;"));
        } else if c == '<' {
            push_all(out, &chars_of("&lt;"));
        } else if c == '>' {
            push_all(out, &chars_of("&gt;"));
        } else {
            out.push(c);
        }
        assert(out@ =~= start + xml_escape(s@.take(k + 1)));
        k = k + 1;
    }
    assert(s@.take(k as int) =~= s@);
}

pub open spec fn digit_char(d: int) -> char {
    if d == 0 {
        '0'
    } else if d == 1 {
        '1'
    } else if d == 2 {
        '2'
    } else if d == 3 {
        '3'
    } else if d == 4 {
        '4'
    } else if d == 5 {
        '5'
    } else if d == 6 {
        '6'
    } else if d == 7 {
        '7'
    } else if d == 8 {
        '8'
    } else {
        '9'
    }
}

/// The decimal digits of `n`.
pub open spec fn decimal(n: nat) -> Seq<char>
    decreases n,
{
    if n < 10 {
        seq![digit_char(n as int)]
    } else {
        decimal(n / 10).push(digit_char((n % 10) as int))
    }
}

fn digit(d: usize) -> (r: char)
    requires
        d < 10,
    ensures
        r == digit_char(d as int),
{
    if d == 0 {
        '0'
    } else if d == 1 {
        '1'
    } else if d == 2 {
        '2'
    } else if d == 3 {
        '3'
    } else if d == 4 {
        '4'
    } else if d == 5 {
        '5'
    } else if d == 6 {
        '6'
    } else if d == 7 {
        '7'
    } else if d == 8 {
        '8'
    } else {
        '9'
    }
}

/// The decimal digits of `n`.
pub fn decimal_chars(n: usize) -> (r: Vec<char>)
    ensures
        r@ == decimal(n as nat),
    decreases n,
{
    if n < 10 {
        let mut v: Vec<char> = Vec::new();
        v.push(digit(n));
        assert(v@ =~= seq![digit_char(n as int)]);
        v
    } else {
        let mut v = decimal_chars(n / 10);
        v.push(digit(n % 10));
        v
    }
}

pub open spec fn severity_name(s: Severity) -> Seq<char> {
    match s {
        Severity::Info => "Info"@,
        Severity::Warn => "Warn"@,
        Severity::Error => "Error"@,
    }
}

fn severity_text(s: Severity) -> (r: &'static str)
    ensures
        r@ == severity_name(s),
{
    match s {
        Severity::Info => "Info",
        Severity::Warn => "Warn",
        Severity::Error => "Error",
    }
}

pub open spec fn file_or_empty(f: Option<Seq<char>>) -> Seq<char> {
    match f {
        Some(p) => p,
        None => Seq::empty(),
    }
}

/// One test case of the JUnit rendering.
pub open spec fn junit_case(i: IssueV) -> Seq<char> {
    "  <testcase name=\""@ + xml_escape(i.message) + "\" classname=\""@ + rule_id(i.message)
        + "\">\n"@ + "    <failure message=\""@ + severity_name(i.severity) + "\">"@
        + xml_escape(file_or_empty(i.file)) + "</failure>\n"@ + "  </testcase>\n"@
}

pub open spec fn junit_cases(issues: Seq<IssueV>) -> Seq<char>
    decreases issues.len(),
{
    if issues.len() == 0 {
        Seq::empty()
    } else {
        junit_cases(issues.drop_last()) + junit_case(issues.last())
    }
}

/// The JUnit rendering: one suite, one failing test case per issue.
pub open spec fn junit_text(issues: Seq<IssueV>) -> Seq<char> {
    "<?xml version=\"1.0\" encoding=\"UTF-8\"?>\n"@ + "<testsuite name=\"godot-analyzer\" tests=\""@
        + decimal(issues.len()) + "\">\n"@ + junit_cases(issues) + "</testsuite>\n"@
}

/// Renders the report's issues as a JUnit-like XML test suite.
#[verifier::rlimit(30)]
pub fn to_junit(report: &GodotProjectReport) -> (r: String)
    ensures
        r@ == junit_text(issues_view(report.issues@)),
{
    let ghost iv = issues_view(report.issues@);
    let mut s = chars_of("<?xml version=\"1.0\" encoding=\"UTF-8\"?>\n");
    push_all(&mut s, &chars_of("<testsuite name=\"godot-analyzer\" tests=\""));
    push_all(&mut s, &decimal_chars(report.issues.len()));
    push_all(&mut s, &chars_of("\">\n"));
    let ghost head = s@;
    let mut k: usize = 0;
    assert(iv.take(0) =~= Seq::<IssueV>::empty());
    assert(s@ =~= head + junit_cases(iv.take(0)));
    while k < report.issues.len()
        invariant
            k <= report.issues.len(),
            iv == issues_view(report.issues@),
            s@ == head + junit_cases(iv.take(k as int)),
        decreases report.issues.len() - k,
    {
        assert(iv.take(k + 1).drop_last() =~= iv.take(k as int));
        let i = &report.issues[k];
        let ghost prev = s@;
        push_all(&mut s, &chars_of("  <testcase name=\""));
        push_xml_escaped(&mut s, &chars_of(i.message.as_str()));
        push_all(&mut s, &chars_of("\" classname=\""));
        push_all(&mut s, &chars_of(classify_rule_id(i)));
        push_all(&mut s, &chars_of("\">\n"));
        push_all(&mut s, &chars_of("    <failure message=\""));
        push_all(&mut s, &chars_of(severity_text(i.severity)));
        push_all(&mut s, &chars_of("\">"));
        let file = match &i.file {
            Some(f) => chars_of(f.as_str()),
            None => Vec::new(),
        };
        push_xml_escaped(&mut s, &file);
        push_all(&mut s, &chars_of("</failure>\n"));
        push_all(&mut s, &chars_of("  </testcase>\n"));
        assert(s@ =~= prev + junit_case(i@));
        k = k + 1;
    }
    assert(iv.take(k as int) =~= iv);
    push_all(&mut s, &chars_of("</testsuite>\n"));
    string_of(&s)
}

/// What a SARIF result says of one issue.
#[derive(Clone, Debug)]
pub struct SarifResult {
    pub rule_id: String,
    pub level: String,
    pub message: String,
    pub uri: String,
}

pub open spec fn sarif_level(s: Severity) -> Seq<char> {
    match s {
        Severity::Info => "note"@,
        Severity::Warn => "warning"@,
        Severity::Error => "error"@,
    }
}

fn level_text(s: Severity) -> (r: &'static str)
    ensures
        r@ == sarif_level(s),
{
    match s {
        Severity::Info => "note",
        Severity::Warn => "warning",
        Severity::Error => "error",
    }
}

/// The SARIF results of a report, one per issue, in order: rule family, level, message and
/// file (empty when the issue names none).
pub fn sarif_results(report: &GodotProjectReport) -> (r: Vec<SarifResult>)
    ensures
        r.len() == report.issues.len(),
        forall|k: int|
            0 <= k < r.len() ==> {
                let i = #[trigger] report.issues@[k];
                &&& r@[k].rule_id@ == rule_id(i.message@)
                &&& r@[k].level@ == sarif_level(i.severity)
                &&& r@[k].message@ == i.message@
                &&& r@[k].uri@ == file_or_empty(crate::opt_str_view(i.file))
            },
{
    let mut out: Vec<SarifResult> = Vec::new();
    let mut k: usize = 0;
    while k < report.issues.len()
        invariant
            k <= report.issues.len(),
            out.len() == k,
            forall|j: int|
                0 <= j < k ==> {
                    let i = #[trigger] report.issues@[j];
                    &&& out@[j].rule_id@ == rule_id(i.message@)
                    &&& out@[j].level@ == sarif_level(i.severity)
                    &&& out@[j].message@ == i.message@
                    &&& out@[j].uri@ == file_or_empty(crate::opt_str_view(i.file))
                },
        decreases report.issues.len() - k,
    {
        let i = &report.issues[k];
        let uri = match &i.file {
            Some(f) => f.clone(),
            None => String::new(),
        };
        out.push(
            SarifResult {
                rule_id: string_of(&chars_of(classify_rule_id(i))),
                level: string_of(&chars_of(level_text(i.severity))),
                message: i.message.clone(),
                uri,
            },
        );
        k = k + 1;
    }
    out
}

/// The severity that a threshold option names, in any case: `info`; `warn` or `warning`;
/// `error` or `err`.
pub open spec fn severity_named(s: Seq<char>) -> Option<Severity> {
    let w = crate::script_lint::lower(s);
    if w == "info"@ {
        Some(Severity::Info)
    } else if w == "warn"@ || w == "warning"@ {
        Some(Severity::Warn)
    } else if w == "error"@ || w == "err"@ {
        Some(Severity::Error)
    } else {
        None
    }
}

/// Reads a severity threshold option.
pub fn parse_severity(s: &str) -> (r: Option<Severity>)
    ensures
        r == severity_named(s@),
{
    let w = crate::script_lint::lower_chars(&chars_of(s));
    if crate::text::same(&w, &chars_of("info")) {
        Some(Severity::Info)
    } else if crate::text::same(&w, &chars_of("warn")) || crate::text::same(&w, &chars_of("warning")) {
        Some(Severity::Warn)
    } else if crate::text::same(&w, &chars_of("error")) || crate::text::same(&w, &chars_of("err")) {
        Some(Severity::Error)
    } else {
        None
    }
}

} // verus!
