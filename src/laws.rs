use vstd::prelude::*;
use crate::manifest::analysis;
use crate::sort::{
    key_fn, lemma_lex_total, lemma_stable_sort_permutes, lemma_stable_sort_sorted,
    lemma_stable_sort_sorted_unchanged, lemma_stable_sort_stable, lex_lt, sorted_by, stable_sort,
};
use crate::pattern::{first_match, Pat};
use crate::scene_validate::{
    empty_scan, ext_lookup, next_state, res_missing, scene_findings, scene_issue, scene_line,
    scene_scan, section_line, SceneIssueV, SceneScan,
};
use crate::signal_validate::{
    conn_line, conn_scan, edges_of, endpoint_issues, ext_table, node_table, scene_edges,
    signal_findings, ConnectionEdge, EdgeV, NodeTable,
};
use crate::text::{attr, has_at, lines_of, trim_start};
use crate::signal_validate::{invalid_method_msg, method_issues, method_missing_msg, ConnKey};
use crate::{file_text, ExportPreset, Issue, IssueV, ProjectTreeV, ReportV};

verus! {

/// Sorting issues by severity, then message: the result is in that order, holds the same
/// issues, keeps the order of issues that share severity and message, and sorting it again
/// changes nothing. The order is total: of two issues with different keys, one comes first.
pub proof fn law_issue_sort(issues: Seq<IssueV>, k: Seq<int>, a: IssueV, b: IssueV)
    ensures
        sorted_by(stable_sort(issues, key_fn::<Issue>()), key_fn::<Issue>()),
        stable_sort(issues, key_fn::<Issue>()).to_multiset() == issues.to_multiset(),
        stable_sort(issues, key_fn::<Issue>()).filter(|v: IssueV| key_fn::<Issue>()(v) == k)
            == issues.filter(|v: IssueV| key_fn::<Issue>()(v) == k),
        stable_sort(stable_sort(issues, key_fn::<Issue>()), key_fn::<Issue>()) == stable_sort(
            issues,
            key_fn::<Issue>(),
        ),
        key_fn::<Issue>()(a) != key_fn::<Issue>()(b) ==> lex_lt(key_fn::<Issue>()(a), key_fn::<Issue>()(b))
            || lex_lt(key_fn::<Issue>()(b), key_fn::<Issue>()(a)),
{
    lemma_stable_sort_sorted(issues, key_fn::<Issue>());
    lemma_stable_sort_permutes(issues, key_fn::<Issue>());
    lemma_stable_sort_stable(issues, key_fn::<Issue>(), k);
    lemma_stable_sort_sorted_unchanged(stable_sort(issues, key_fn::<Issue>()), key_fn::<Issue>());
    if key_fn::<Issue>()(a) != key_fn::<Issue>()(b) {
        lemma_lex_total(key_fn::<Issue>()(a), key_fn::<Issue>()(b));
    }
}

/// The manifest scan is a function of the project: two scans of the same tree give equal
/// reports, whose issues, addons and presets are each in their sort order.
pub proof fn law_analysis_repeatable(root: Seq<char>, tree: ProjectTreeV, first: ReportV, second: ReportV)
    requires
        first == analysis(root, tree),
        second == analysis(root, tree),
    ensures
        first == second,
        sorted_by(first.issues, key_fn::<Issue>()),
        sorted_by(first.addons, key_fn::<String>()),
        sorted_by(first.presets, key_fn::<ExportPreset>()),
{
    lemma_stable_sort_sorted(crate::manifest::project_issues(root, tree), key_fn::<Issue>());
    lemma_stable_sort_sorted(crate::manifest::project_addons(tree), key_fn::<String>());
    lemma_stable_sort_sorted(crate::manifest::project_presets(tree), key_fn::<ExportPreset>());
}

proof fn lemma_contains_left<A>(a: Seq<A>, b: Seq<A>, x: A)
    requires
        a.contains(x),
    ensures
        (a + b).contains(x),
{
    let i = choose|i: int| 0 <= i < a.len() && a[i] == x;
    assert((a + b)[i] == x);
}

proof fn lemma_contains_right<A>(a: Seq<A>, b: Seq<A>, x: A)
    requires
        b.contains(x),
    ensures
        (a + b).contains(x),
{
    let i = choose|i: int| 0 <= i < b.len() && b[i] == x;
    assert((a + b)[a.len() + i] == x);
}

/// The node paths of a scene do not depend on its external resources.
proof fn lemma_nodes_ignore_ext(
    lines: Seq<Seq<char>>,
    e1: Seq<(Seq<char>, Seq<char>)>,
    e2: Seq<(Seq<char>, Seq<char>)>,
)
    ensures
        node_table(lines, e1).nodes == node_table(lines, e2).nodes,
    decreases lines.len(),
{
    if lines.len() > 0 {
        lemma_nodes_ignore_ext(lines.drop_last(), e1, e2);
    }
}

/// Every collected edge ends at `.` or at a known node.
proof fn lemma_edges_have_known_targets(scene: Seq<char>, nodes: Seq<Seq<char>>, lines: Seq<Seq<char>>)
    ensures
        forall|e: EdgeV| #[trigger] edges_of(scene, nodes, lines).contains(e) ==> e.to == "."@
            || nodes.contains(e.to),
    decreases lines.len(),
{
    if lines.len() > 0 {
        lemma_edges_have_known_targets(scene, nodes, lines.drop_last());
        let prev = edges_of(scene, nodes, lines.drop_last());
        let cur = edges_of(scene, nodes, lines);
        let t = trim_start(lines.last());
        if section_line(t, "[connection"@) {
            match (attr(t, "signal"@), attr(t, "from"@), attr(t, "to"@), attr(t, "method"@)) {
                (Some(sg), Some(f), Some(to), Some(m)) => {
                    if (f == "."@ || nodes.contains(f)) && (to == "."@ || nodes.contains(to)) {
                        let ne = EdgeV { scene, from: f, to, signal: sg, method: m };
                        assert(cur == prev.push(ne));
                        assert forall|e: EdgeV| #[trigger] cur.contains(e) implies e.to == "."@
                            || nodes.contains(e.to) by {
                            let i = choose|i: int| 0 <= i < cur.len() && cur[i] == e;
                            if i < prev.len() {
                                assert(prev[i] == e);
                                assert(prev.contains(e));
                            }
                        }
                    } else {
                        assert(cur == prev);
                    }
                },
                _ => {
                    assert(cur == prev);
                },
            }
        } else {
            assert(cur == prev);
        }
    }
}

/// The findings of a connection line include those on its `to` endpoint, whatever was seen.
#[verifier::rlimit(30)]
proof fn lemma_conn_line_reports_target(
    file: Seq<char>,
    files: Seq<(Seq<char>, Seq<char>)>,
    tb: NodeTable,
    seen: Seq<crate::signal_validate::ConnKey>,
    line: Seq<char>,
    lno: int,
    x: SceneIssueV,
)
    requires
        section_line(trim_start(line), "[connection"@),
        endpoint_issues(file, tb, attr(trim_start(line), "to"@), "to"@, lno).contains(x),
    ensures
        conn_line(file, files, tb, seen, line, lno).1.contains(x),
{
    let t = trim_start(line);
    let i1 = if attr(t, "signal"@) is None {
        seq![
            scene_issue(
                file,
                lno,
                None,
                "Connection missing signal field — hint: set signal=\"<name>\" in [connection]"@,
            ),
        ]
    } else {
        Seq::empty()
    };
    let i2 = if attr(t, "method"@) is None {
        seq![
            scene_issue(
                file,
                lno,
                None,
                "Connection missing method field — hint: set method=\"<func>\" and ensure the target node's script defines it"@,
            ),
        ]
    } else {
        Seq::empty()
    };
    let i3 = endpoint_issues(file, tb, attr(t, "from"@), "from"@, lno);
    let i4 = endpoint_issues(file, tb, attr(t, "to"@), "to"@, lno);
    lemma_contains_right(i1 + i2 + i3, i4, x);
    let head = i1 + i2 + i3 + i4;
    let r = conn_line(file, files, tb, seen, line, lno).1;
    if r != head {
        match (attr(t, "signal"@), attr(t, "from"@), attr(t, "to"@), attr(t, "method"@)) {
            (Some(sg), Some(f), Some(t2), Some(m)) => {
                let key = (sg, f, t2, m);
                let dup = if seen.contains(key) {
                    seq![
                        scene_issue(
                            file,
                            lno,
                            None,
                            "Duplicate connection: signal="@ + sg + " from="@ + f + " to="@ + t2
                                + " method="@ + m
                                + " — hint: remove the duplicate [connection] line"@,
                        ),
                    ]
                } else {
                    Seq::empty()
                };
                lemma_contains_left(head, dup, x);
                lemma_contains_left(
                    head + dup,
                    crate::signal_validate::method_issues(file, files, tb, t2, m, lno),
                    x,
                );
            },
            _ => {},
        }
    }
}

proof fn lemma_conn_scan_reports_target(
    file: Seq<char>,
    files: Seq<(Seq<char>, Seq<char>)>,
    tb: NodeTable,
    lines: Seq<Seq<char>>,
    j: int,
    seen: Seq<crate::signal_validate::ConnKey>,
    k: int,
    x: SceneIssueV,
)
    requires
        0 <= j <= k < lines.len(),
        section_line(trim_start(lines[k]), "[connection"@),
        endpoint_issues(file, tb, attr(trim_start(lines[k]), "to"@), "to"@, k + 1).contains(x),
    ensures
        conn_scan(file, files, tb, lines, j, seen).contains(x),
    decreases k - j,
{
    let (seen2, found) = conn_line(file, files, tb, seen, lines[j], j + 1);
    let rest = conn_scan(file, files, tb, lines, j + 1, seen2);
    if j == k {
        lemma_conn_line_reports_target(file, files, tb, seen, lines[j], j + 1, x);
        lemma_contains_left(found, rest, x);
    } else {
        lemma_conn_scan_reports_target(file, files, tb, lines, j + 1, seen2, k, x);
        lemma_contains_right(found, rest, x);
    }
}

/// A connection record whose `to` node is neither `.` nor a node of the scene is reported by
/// the signal validator on its line, and no edge of the scene's connection graph ends there.
#[verifier::rlimit(30)]
pub proof fn law_unknown_target_diverges(tree: ProjectTreeV, rel: Seq<char>, k: int, to: Seq<char>)
    requires
        file_text(tree.files, rel) is Some,
        0 <= k < lines_of(file_text(tree.files, rel)->0).len(),
        section_line(trim_start(lines_of(file_text(tree.files, rel)->0)[k]), "[connection"@),
        attr(trim_start(lines_of(file_text(tree.files, rel)->0)[k]), "to"@) == Some(to),
        to != "."@,
        !node_table(
            lines_of(file_text(tree.files, rel)->0),
            ext_table(lines_of(file_text(tree.files, rel)->0)),
        ).nodes.contains(to),
    ensures
        signal_findings(tree, rel).contains(scene_issue(rel, k + 1, None, unknown_endpoint_msg("to"@, to))),
        forall|e: EdgeV| #[trigger] scene_edges(tree, rel).contains(e) ==> e.to != to,
{
    broadcast use vstd::seq_lib::group_to_multiset_ensures;
    let lines = lines_of(file_text(tree.files, rel)->0);
    let tb = node_table(lines, ext_table(lines));
    let x = scene_issue(rel, k + 1, None, unknown_endpoint_msg("to"@, to));
    assert(endpoint_issues(rel, tb, Some(to), "to"@, k + 1) =~= seq![x]);
    assert(seq![x].contains(x)) by {
        assert(seq![x][0] == x);
    }
    lemma_conn_scan_reports_target(rel, tree.files, tb, lines, 0, Seq::empty(), k, x);
    let nodes = node_table(lines, Seq::empty()).nodes;
    lemma_nodes_ignore_ext(lines, Seq::empty(), ext_table(lines));
    let raw = edges_of(rel, nodes, lines);
    lemma_edges_have_known_targets(rel, nodes, lines);
    crate::sort::lemma_stable_sort_permutes(raw, key_fn::<ConnectionEdge>());
    assert forall|e: EdgeV| #[trigger] scene_edges(tree, rel).contains(e) implies e.to != to by {
        let sorted = stable_sort(raw, key_fn::<ConnectionEdge>());
        assert(sorted.to_multiset().count(e) > 0);
        assert(raw.to_multiset().count(e) > 0);
        assert(raw.contains(e));
    }
}

/// The key of a complete connection record: signal, from, to and method.
pub open spec fn line_key(line: Seq<char>) -> Option<ConnKey> {
    let t = trim_start(line);
    if section_line(t, "[connection"@) {
        match (attr(t, "signal"@), attr(t, "from"@), attr(t, "to"@), attr(t, "method"@)) {
            (Some(sg), Some(f), Some(to), Some(m)) => Some((sg, f, to, m)),
            _ => None,
        }
    } else {
        None
    }
}

/// The keys of the complete connection records before line `k` (0-based), in order.
pub open spec fn keys_before(lines: Seq<Seq<char>>, k: int) -> Seq<ConnKey>
    decreases k,
{
    if k <= 0 || k > lines.len() {
        Seq::empty()
    } else {
        let prev = keys_before(lines, k - 1);
        match line_key(lines[k - 1]) {
            Some(key) => prev.push(key),
            None => prev,
        }
    }
}

/// The finding on a repeated connection record.
pub open spec fn duplicate_msg(key: ConnKey) -> Seq<char> {
    "Duplicate connection: signal="@ + key.0 + " from="@ + key.1 + " to="@ + key.2 + " method="@
        + key.3 + " — hint: remove the duplicate [connection] line"@
}

pub open spec fn no_duplicate_finding(s: Seq<SceneIssueV>) -> bool {
    forall|i: int| 0 <= i < s.len() ==> !has_at(#[trigger] s[i].message, 0, "Duplicate connection:"@)
}

pub open spec fn all_on_line(s: Seq<SceneIssueV>, lno: int) -> bool {
    forall|i: int| 0 <= i < s.len() ==> (#[trigger] s[i]).line == lno
}

proof fn lemma_no_dup_concat(a: Seq<SceneIssueV>, b: Seq<SceneIssueV>)
    requires
        no_duplicate_finding(a),
        no_duplicate_finding(b),
    ensures
        no_duplicate_finding(a + b),
{
    assert forall|i: int| 0 <= i < (a + b).len() implies !has_at(
        #[trigger] (a + b)[i].message,
        0,
        "Duplicate connection:"@,
    ) by {
        if i < a.len() {
            assert((a + b)[i] == a[i]);
        } else {
            assert((a + b)[i] == b[i - a.len()]);
        }
    }
}

proof fn lemma_on_line_concat(a: Seq<SceneIssueV>, b: Seq<SceneIssueV>, lno: int)
    requires
        all_on_line(a, lno),
        all_on_line(b, lno),
    ensures
        all_on_line(a + b, lno),
{
    assert forall|i: int| 0 <= i < (a + b).len() implies (#[trigger] (a + b)[i]).line == lno by {
        if i < a.len() {
            assert((a + b)[i] == a[i]);
        } else {
            assert((a + b)[i] == b[i - a.len()]);
        }
    }
}

/// A message that opens with `lit` cannot be a duplicate finding when `lit` opens with another
/// character than `D`.
proof fn lemma_other_opening(lit: Seq<char>, rest: Seq<char>)
    requires
        lit.len() > 0,
        lit[0] != 'D',
    ensures
        !has_at(lit + rest, 0, "Duplicate connection:"@),
{
    reveal_strlit("Duplicate connection:");
    if has_at(lit + rest, 0, "Duplicate connection:"@) {
        assert((lit + rest).subrange(0, 21)[0] == (lit + rest)[0]);
    }
}

proof fn lemma_single_no_dup(x: SceneIssueV)
    requires
        !has_at(x.message, 0, "Duplicate connection:"@),
    ensures
        no_duplicate_finding(seq![x]),
{
    assert forall|i: int| 0 <= i < seq![x].len() implies !has_at(
        #[trigger] seq![x][i].message,
        0,
        "Duplicate connection:"@,
    ) by {
        assert(seq![x][i] == x);
    }
}

proof fn lemma_endpoint_facts(file: Seq<char>, tb: NodeTable, v: Option<Seq<char>>, which: Seq<char>, lno: int)
    ensures
        no_duplicate_finding(endpoint_issues(file, tb, v, which, lno)),
        all_on_line(endpoint_issues(file, tb, v, which, lno), lno),
{
    reveal_strlit("Unknown connection '");
    reveal_strlit("Connection missing ");
    let e = endpoint_issues(file, tb, v, which, lno);
    if e.len() > 0 {
        let x = e[0];
        match v {
            Some(t) => {
                lemma_other_opening(
                    "Unknown connection '"@,
                    which + "' node: "@ + t + " — hint: create node or correct the '"@ + which
                        + "' path"@,
                );
                assert(x.message =~= "Unknown connection '"@ + (which + "' node: "@ + t
                    + " — hint: create node or correct the '"@ + which + "' path"@));
            },
            None => {
                lemma_other_opening(
                    "Connection missing "@,
                    which + " field — hint: set "@ + which
                        + "=\"<node_path>\" (use '.' for the scene root)"@,
                );
                assert(x.message =~= "Connection missing "@ + (which + " field — hint: set "@
                    + which + "=\"<node_path>\" (use '.' for the scene root)"@));
            },
        }
        lemma_single_no_dup(x);
        assert(e =~= seq![x]);
    }
}

proof fn lemma_method_facts(
    file: Seq<char>,
    files: Seq<(Seq<char>, Seq<char>)>,
    tb: NodeTable,
    to: Seq<char>,
    m: Seq<char>,
    lno: int,
)
    ensures
        no_duplicate_finding(method_issues(file, files, tb, to, m, lno)),
        all_on_line(method_issues(file, files, tb, to, m, lno), lno),
{
    reveal_strlit("Invalid method name: '");
    reveal_strlit("Target method not found: method='");
    let e = method_issues(file, files, tb, to, m, lno);
    if e.len() > 0 {
        let x = e[0];
        let mn = crate::text::trim(m);
        if !crate::signal_validate::is_ident(mn) {
            let rest = m + "' — hint: use letters/numbers/underscore and start with a letter/underscore"@;
            lemma_other_opening("Invalid method name: '"@, rest);
            assert(invalid_method_msg(m) =~= "Invalid method name: '"@ + rest);
        } else {
            let sp = crate::signal_validate::target_node(tb, to);
            let path = crate::scene_validate::ext_lookup(tb.scripts, sp->0)->0;
            let rest = mn + "' to='"@ + to + "' — hint: define 'func "@ + mn + "(...)' in "@ + path;
            lemma_other_opening("Target method not found: method='"@, rest);
            assert(method_missing_msg(mn, to, path) =~= "Target method not found: method='"@ + rest);
        }
        lemma_single_no_dup(x);
        assert(e =~= seq![x]);
    }
}

proof fn lemma_missing_field_facts(x: SceneIssueV, lit: Seq<char>, lno: int)
    requires
        x.message == lit,
        x.line == lno,
        lit.len() > 0,
        lit[0] == 'C',
    ensures
        no_duplicate_finding(seq![x]),
        all_on_line(seq![x], lno),
{
    lemma_other_opening(lit, Seq::empty());
    assert(lit + Seq::<char>::empty() =~= lit);
    lemma_single_no_dup(x);
    assert forall|i: int| 0 <= i < seq![x].len() implies (#[trigger] seq![x][i]).line == lno by {
        assert(seq![x][i] == x);
    }
}

/// One line of the signal validator: what it records, every finding is on its line, and a
/// duplicate finding appears exactly when the line's key was seen before.
proof fn lemma_conn_line_facts(
    file: Seq<char>,
    files: Seq<(Seq<char>, Seq<char>)>,
    tb: NodeTable,
    seen: Seq<ConnKey>,
    line: Seq<char>,
    lno: int,
)
    ensures
        conn_line(file, files, tb, seen, line, lno).0 == match line_key(line) {
            Some(k) => seen.push(k),
            None => seen,
        },
        all_on_line(conn_line(file, files, tb, seen, line, lno).1, lno),
        line_key(line) is Some && seen.contains(line_key(line)->0) ==> conn_line(
            file,
            files,
            tb,
            seen,
            line,
            lno,
        ).1.contains(scene_issue(file, lno, None, duplicate_msg(line_key(line)->0))),
        !(line_key(line) is Some && seen.contains(line_key(line)->0)) ==> no_duplicate_finding(
            conn_line(file, files, tb, seen, line, lno).1,
        ),
{
    let t = trim_start(line);
    if section_line(t, "[connection"@) {
        let msg_signal = "Connection missing signal field — hint: set signal=\"<name>\" in [connection]"@;
        let msg_method = "Connection missing method field — hint: set method=\"<func>\" and ensure the target node's script defines it"@;
        reveal_strlit("Connection missing signal field — hint: set signal=\"<name>\" in [connection]");
        reveal_strlit("Connection missing method field — hint: set method=\"<func>\" and ensure the target node's script defines it");
        let i1 = if attr(t, "signal"@) is None {
            seq![scene_issue(file, lno, None, msg_signal)]
        } else {
            Seq::empty()
        };
        let i2 = if attr(t, "method"@) is None {
            seq![scene_issue(file, lno, None, msg_method)]
        } else {
            Seq::empty()
        };
        if attr(t, "signal"@) is None {
            lemma_missing_field_facts(scene_issue(file, lno, None, msg_signal), msg_signal, lno);
        }
        if attr(t, "method"@) is None {
            lemma_missing_field_facts(scene_issue(file, lno, None, msg_method), msg_method, lno);
        }
        let i3 = endpoint_issues(file, tb, attr(t, "from"@), "from"@, lno);
        let i4 = endpoint_issues(file, tb, attr(t, "to"@), "to"@, lno);
        lemma_endpoint_facts(file, tb, attr(t, "from"@), "from"@, lno);
        lemma_endpoint_facts(file, tb, attr(t, "to"@), "to"@, lno);
        lemma_no_dup_concat(i1, i2);
        lemma_no_dup_concat(i1 + i2, i3);
        lemma_no_dup_concat(i1 + i2 + i3, i4);
        lemma_on_line_concat(i1, i2, lno);
        lemma_on_line_concat(i1 + i2, i3, lno);
        lemma_on_line_concat(i1 + i2 + i3, i4, lno);
        let head = i1 + i2 + i3 + i4;
        match (attr(t, "signal"@), attr(t, "from"@), attr(t, "to"@), attr(t, "method"@)) {
            (Some(sg), Some(f), Some(t2), Some(m)) => {
                let key = (sg, f, t2, m);
                let x = scene_issue(file, lno, None, duplicate_msg(key));
                let dup = if seen.contains(key) {
                    seq![x]
                } else {
                    Seq::empty()
                };
                let mi = method_issues(file, files, tb, t2, m, lno);
                lemma_method_facts(file, files, tb, t2, m, lno);
                assert(all_on_line(dup, lno)) by {
                    assert forall|i: int| 0 <= i < dup.len() implies (#[trigger] dup[i]).line == lno by {
                        assert(dup[i] == x);
                    }
                }
                lemma_on_line_concat(head, dup, lno);
                lemma_on_line_concat(head + dup, mi, lno);
                assert(conn_line(file, files, tb, seen, line, lno).1 == head + dup + mi);
                if seen.contains(key) {
                    assert(dup[0] == x);
                    assert((head + dup)[head.len() as int] == x);
                    assert((head + dup + mi)[head.len() as int] == x);
                } else {
                    assert(no_duplicate_finding(dup));
                    lemma_no_dup_concat(head, dup);
                    lemma_no_dup_concat(head + dup, mi);
                }
            },
            _ => {},
        }
    }
}

proof fn lemma_keys_before_has(lines: Seq<Seq<char>>, k: int, j: int, key: ConnKey)
    requires
        0 <= j < k <= lines.len(),
        line_key(lines[j]) == Some(key),
    ensures
        keys_before(lines, k).contains(key),
    decreases k,
{
    if j == k - 1 {
        let p = keys_before(lines, k - 1);
        assert(keys_before(lines, k) == p.push(key));
        assert(p.push(key)[p.len() as int] == key);
    } else {
        lemma_keys_before_has(lines, k - 1, j, key);
        let p = keys_before(lines, k - 1);
        let i = choose|i: int| 0 <= i < p.len() && p[i] == key;
        match line_key(lines[k - 1]) {
            Some(kk) => {
                assert(p.push(kk)[i] == key);
            },
            None => {},
        }
    }
}

proof fn lemma_keys_before_lacks(lines: Seq<Seq<char>>, k: int, key: ConnKey)
    requires
        0 <= k <= lines.len(),
        forall|j: int| 0 <= j < k ==> line_key(#[trigger] lines[j]) != Some(key),
    ensures
        !keys_before(lines, k).contains(key),
    decreases k,
{
    if k > 0 {
        lemma_keys_before_lacks(lines, k - 1, key);
        let p = keys_before(lines, k - 1);
        assert(line_key(lines[k - 1]) != Some(key));
        match line_key(lines[k - 1]) {
            Some(kk) => {
                if p.push(kk).contains(key) {
                    let i = choose|i: int| 0 <= i < p.push(kk).len() && p.push(kk)[i] == key;
                    if i < p.len() {
                        assert(p[i] == key);
                    }
                }
            },
            None => {},
        }
    }
}

/// The scan from line `j` in its proper state: the findings of line `k` are among them, and every
/// finding on line `k` comes from that line.
proof fn lemma_scan_locality(
    file: Seq<char>,
    files: Seq<(Seq<char>, Seq<char>)>,
    tb: NodeTable,
    lines: Seq<Seq<char>>,
    j: int,
    k: int,
)
    requires
        0 <= j <= lines.len(),
        0 <= k < lines.len(),
    ensures
        forall|i: int|
            0 <= i < conn_scan(file, files, tb, lines, j, keys_before(lines, j)).len() ==> (#[trigger] conn_scan(
                file,
                files,
                tb,
                lines,
                j,
                keys_before(lines, j),
            )[i]).line >= j + 1,
        j <= k ==> forall|x: SceneIssueV|
            #[trigger] conn_line(file, files, tb, keys_before(lines, k), lines[k], k + 1).1.contains(x)
                ==> conn_scan(file, files, tb, lines, j, keys_before(lines, j)).contains(x),
        forall|i: int|
            0 <= i < conn_scan(file, files, tb, lines, j, keys_before(lines, j)).len() && (#[trigger] conn_scan(
                file,
                files,
                tb,
                lines,
                j,
                keys_before(lines, j),
            )[i]).line == k + 1 ==> conn_line(file, files, tb, keys_before(lines, k), lines[k], k + 1).1.contains(
                conn_scan(file, files, tb, lines, j, keys_before(lines, j))[i],
            ),
    decreases lines.len() - j,
{
    let scan = conn_scan(file, files, tb, lines, j, keys_before(lines, j));
    if j < lines.len() {
        let seen = keys_before(lines, j);
        lemma_conn_line_facts(file, files, tb, seen, lines[j], j + 1);
        let here = conn_line(file, files, tb, seen, lines[j], j + 1);
        assert(here.0 == keys_before(lines, j + 1));
        lemma_scan_locality(file, files, tb, lines, j + 1, k);
        let rest = conn_scan(file, files, tb, lines, j + 1, keys_before(lines, j + 1));
        assert(scan == here.1 + rest);
        assert forall|i: int| 0 <= i < scan.len() implies (#[trigger] scan[i]).line >= j + 1 by {
            if i < here.1.len() {
                assert(scan[i] == here.1[i]);
            } else {
                assert(scan[i] == rest[i - here.1.len()]);
            }
        }
        if j <= k {
            assert forall|x: SceneIssueV|
                #[trigger] conn_line(file, files, tb, keys_before(lines, k), lines[k], k + 1).1.contains(x)
                    implies scan.contains(x) by {
                if j == k {
                    let i = choose|i: int| 0 <= i < here.1.len() && here.1[i] == x;
                    assert(scan[i] == x);
                } else {
                    let i = choose|i: int| 0 <= i < rest.len() && rest[i] == x;
                    assert(scan[here.1.len() + i] == x);
                }
            }
        }
        assert forall|i: int| 0 <= i < scan.len() && (#[trigger] scan[i]).line == k + 1 implies conn_line(
            file,
            files,
            tb,
            keys_before(lines, k),
            lines[k],
            k + 1,
        ).1.contains(scan[i]) by {
            if i < here.1.len() {
                assert(scan[i] == here.1[i]);
                assert(here.1[i].line == j + 1);
                assert(j == k);
            } else {
                assert(scan[i] == rest[i - here.1.len()]);
            }
        }
    }
}

/// Of two identical connection records (the same signal, from, to and method) with no earlier
/// record of that key, the second gets the duplicate finding and the first gets none.
pub proof fn law_duplicate_on_second(tree: ProjectTreeV, rel: Seq<char>, l1: int, l2: int, key: ConnKey)
    requires
        file_text(tree.files, rel) is Some,
        0 <= l1 < l2 < lines_of(file_text(tree.files, rel)->0).len(),
        line_key(lines_of(file_text(tree.files, rel)->0)[l1]) == Some(key),
        line_key(lines_of(file_text(tree.files, rel)->0)[l2]) == Some(key),
        forall|j: int|
            0 <= j < l1 ==> line_key(#[trigger] lines_of(file_text(tree.files, rel)->0)[j]) != Some(key),
    ensures
        signal_findings(tree, rel).contains(scene_issue(rel, l2 + 1, None, duplicate_msg(key))),
        forall|i: int|
            0 <= i < signal_findings(tree, rel).len() && (#[trigger] signal_findings(tree, rel)[i]).line
                == l1 + 1 ==> !has_at(signal_findings(tree, rel)[i].message, 0, "Duplicate connection:"@),
{
    let lines = lines_of(file_text(tree.files, rel)->0);
    let tb = node_table(lines, ext_table(lines));
    let files = tree.files;
    assert(keys_before(lines, 0) == Seq::<ConnKey>::empty());
    lemma_keys_before_has(lines, l2, l1, key);
    lemma_conn_line_facts(rel, files, tb, keys_before(lines, l2), lines[l2], l2 + 1);
    lemma_scan_locality(rel, files, tb, lines, 0, l2);
    lemma_keys_before_lacks(lines, l1, key);
    lemma_conn_line_facts(rel, files, tb, keys_before(lines, l1), lines[l1], l1 + 1);
    lemma_scan_locality(rel, files, tb, lines, 0, l1);
    let found = signal_findings(tree, rel);
    let at_l1 = conn_line(rel, files, tb, keys_before(lines, l1), lines[l1], l1 + 1).1;
    assert forall|i: int| 0 <= i < found.len() && (#[trigger] found[i]).line == l1 + 1 implies !has_at(
        found[i].message,
        0,
        "Duplicate connection:"@,
    ) by {
        assert(at_l1.contains(found[i]));
        let j = choose|j: int| 0 <= j < at_l1.len() && at_l1[j] == found[i];
        assert(!has_at(at_l1[j].message, 0, "Duplicate connection:"@));
    }
}

/// The finding on a connection endpoint (`which` is `from` or `to`) that names no node.
pub open spec fn unknown_endpoint_msg(which: Seq<char>, v: Seq<char>) -> Seq<char> {
    "Unknown connection '"@ + which + "' node: "@ + v + " — hint: create node or correct the '"@
        + which + "' path"@
}

pub open spec fn lacks_msg(s: Seq<SceneIssueV>, msg: Seq<char>) -> bool {
    forall|i: int| 0 <= i < s.len() ==> (#[trigger] s[i]).message != msg
}

proof fn lemma_lacks_concat(a: Seq<SceneIssueV>, b: Seq<SceneIssueV>, msg: Seq<char>)
    requires
        lacks_msg(a, msg),
        lacks_msg(b, msg),
    ensures
        lacks_msg(a + b, msg),
{
    assert forall|i: int| 0 <= i < (a + b).len() implies (#[trigger] (a + b)[i]).message != msg by {
        if i < a.len() {
            assert((a + b)[i] == a[i]);
        } else {
            assert((a + b)[i] == b[i - a.len()]);
        }
    }
}

proof fn lemma_lacks_single(x: SceneIssueV, msg: Seq<char>)
    requires
        x.message != msg,
    ensures
        lacks_msg(seq![x], msg),
{
    assert forall|i: int| 0 <= i < seq![x].len() implies (#[trigger] seq![x][i]).message != msg by {
        assert(seq![x][i] == x);
    }
}

/// Two messages that differ at position `i` differ.
proof fn lemma_differ_at(a: Seq<char>, b: Seq<char>, i: int)
    requires
        0 <= i < a.len(),
        0 <= i < b.len(),
        a[i] != b[i],
    ensures
        a != b,
{
}

pub open spec fn is_endpoint_name(which: Seq<char>) -> bool {
    which == "from"@ || which == "to"@
}

proof fn lemma_endpoint_msg_opening(which: Seq<char>, v: Seq<char>)
    requires
        is_endpoint_name(which),
    ensures
        unknown_endpoint_msg(which, v).len() > 20,
        unknown_endpoint_msg(which, v)[0] == 'U',
        unknown_endpoint_msg(which, v)[20] == which[0],
{
    reveal_strlit("Unknown connection '");
    reveal_strlit("from");
    reveal_strlit("to");
}

/// A message that opens with `lit` is not an endpoint finding when `lit` opens with another
/// character than `U`.
proof fn lemma_not_endpoint_msg(lit: Seq<char>, rest: Seq<char>, which: Seq<char>, v: Seq<char>)
    requires
        is_endpoint_name(which),
        lit.len() > 0,
        lit[0] != 'U',
    ensures
        lit + rest != unknown_endpoint_msg(which, v),
{
    lemma_endpoint_msg_opening(which, v);
    assert((lit + rest)[0] == lit[0]);
    lemma_differ_at(lit + rest, unknown_endpoint_msg(which, v), 0);
}

proof fn lemma_method_lacks(
    file: Seq<char>,
    files: Seq<(Seq<char>, Seq<char>)>,
    tb: NodeTable,
    to: Seq<char>,
    m: Seq<char>,
    lno: int,
    which: Seq<char>,
    v: Seq<char>,
)
    requires
        is_endpoint_name(which),
    ensures
        lacks_msg(method_issues(file, files, tb, to, m, lno), unknown_endpoint_msg(which, v)),
{
    reveal_strlit("Invalid method name: '");
    reveal_strlit("Target method not found: method='");
    let e = method_issues(file, files, tb, to, m, lno);
    if e.len() > 0 {
        let x = e[0];
        let mn = crate::text::trim(m);
        if !crate::signal_validate::is_ident(mn) {
            let rest = m + "' — hint: use letters/numbers/underscore and start with a letter/underscore"@;
            lemma_not_endpoint_msg("Invalid method name: '"@, rest, which, v);
            assert(invalid_method_msg(m) =~= "Invalid method name: '"@ + rest);
        } else {
            let sp = crate::signal_validate::target_node(tb, to);
            let path = crate::scene_validate::ext_lookup(tb.scripts, sp->0)->0;
            let rest = mn + "' to='"@ + to + "' — hint: define 'func "@ + mn + "(...)' in "@ + path;
            lemma_not_endpoint_msg("Target method not found: method='"@, rest, which, v);
            assert(method_missing_msg(mn, to, path) =~= "Target method not found: method='"@ + rest);
        }
        lemma_lacks_single(x, unknown_endpoint_msg(which, v));
        assert(e =~= seq![x]);
    }
}

/// The findings on one endpoint of a line lack the unknown-endpoint message of the other
/// endpoint, and have their own exactly when the endpoint names no node.
proof fn lemma_endpoint_lacks(
    file: Seq<char>,
    tb: NodeTable,
    w: Option<Seq<char>>,
    other: Seq<char>,
    lno: int,
    which: Seq<char>,
    v: Seq<char>,
)
    requires
        is_endpoint_name(which),
        is_endpoint_name(other),
        other != which || !(w == Some(v) && v != "."@ && !tb.nodes.contains(v)),
    ensures
        lacks_msg(endpoint_issues(file, tb, w, other, lno), unknown_endpoint_msg(which, v)),
{
    reveal_strlit("Connection missing ");
    reveal_strlit("from");
    reveal_strlit("to");
    let e = endpoint_issues(file, tb, w, other, lno);
    let target = unknown_endpoint_msg(which, v);
    if e.len() > 0 {
        let x = e[0];
        match w {
            Some(t) => {
                lemma_endpoint_msg_opening(other, t);
                lemma_endpoint_msg_opening(which, v);
                assert(x.message == unknown_endpoint_msg(other, t));
                if other != which {
                    assert(other[0] != which[0]);
                    lemma_differ_at(x.message, target, 20);
                } else {
                    assert(t != v);
                    if x.message == target {
                        let p = "Unknown connection '"@ + which + "' node: "@;
                        let q = " — hint: create node or correct the '"@ + which + "' path"@;
                        assert(x.message =~= p + t + q);
                        assert(target =~= p + v + q);
                        assert(t.len() == v.len());
                        assert(t =~= (p + t + q).subrange(p.len() as int, (p.len() + t.len()) as int));
                        assert(v =~= (p + v + q).subrange(p.len() as int, (p.len() + v.len()) as int));
                    }
                }
            },
            None => {
                let rest = other + " field — hint: set "@ + other
                    + "=\"<node_path>\" (use '.' for the scene root)"@;
                lemma_not_endpoint_msg("Connection missing "@, rest, which, v);
                assert(x.message =~= "Connection missing "@ + rest);
            },
        }
        lemma_lacks_single(x, target);
        assert(e =~= seq![x]);
    }
}

/// A connection line reports its endpoint `which` as unknown exactly when that endpoint is
/// neither `.` nor a node path.
proof fn lemma_conn_line_endpoint(
    file: Seq<char>,
    files: Seq<(Seq<char>, Seq<char>)>,
    tb: NodeTable,
    seen: Seq<ConnKey>,
    line: Seq<char>,
    lno: int,
    which: Seq<char>,
    v: Seq<char>,
)
    requires
        is_endpoint_name(which),
        section_line(trim_start(line), "[connection"@),
        attr(trim_start(line), which) == Some(v),
    ensures
        conn_line(file, files, tb, seen, line, lno).1.contains(
            scene_issue(file, lno, None, unknown_endpoint_msg(which, v)),
        ) <==> (v != "."@ && !tb.nodes.contains(v)),
{
    let t = trim_start(line);
    let target = unknown_endpoint_msg(which, v);
    let x = scene_issue(file, lno, None, target);
    let r = conn_line(file, files, tb, seen, line, lno).1;
    reveal_strlit("from");
    reveal_strlit("to");
    if v != "."@ && !tb.nodes.contains(v) {
        let own = endpoint_issues(file, tb, Some(v), which, lno);
        assert(own =~= seq![x]);
        assert(own.contains(x)) by {
            assert(own[0] == x);
        }
        if which == "to"@ {
            lemma_conn_line_reports_target(file, files, tb, seen, line, lno, x);
        } else {
            let i1 = if attr(t, "signal"@) is None {
                seq![
                    scene_issue(
                        file,
                        lno,
                        None,
                        "Connection missing signal field — hint: set signal=\"<name>\" in [connection]"@,
                    ),
                ]
            } else {
                Seq::empty()
            };
            let i2 = if attr(t, "method"@) is None {
                seq![
                    scene_issue(
                        file,
                        lno,
                        None,
                        "Connection missing method field — hint: set method=\"<func>\" and ensure the target node's script defines it"@,
                    ),
                ]
            } else {
                Seq::empty()
            };
            let i3 = own;
            let i4 = endpoint_issues(file, tb, attr(t, "to"@), "to"@, lno);
            lemma_contains_right(i1 + i2, i3, x);
            lemma_contains_left(i1 + i2 + i3, i4, x);
            let head = i1 + i2 + i3 + i4;
            match (attr(t, "signal"@), attr(t, "from"@), attr(t, "to"@), attr(t, "method"@)) {
                (Some(sg), Some(f), Some(t2), Some(m)) => {
                    let key = (sg, f, t2, m);
                    let dup = if seen.contains(key) {
                        seq![scene_issue(file, lno, None, duplicate_msg(key))]
                    } else {
                        Seq::empty()
                    };
                    assert(r == head + dup + method_issues(file, files, tb, t2, m, lno));
                    lemma_contains_left(head, dup, x);
                    lemma_contains_left(head + dup, method_issues(file, files, tb, t2, m, lno), x);
                },
                _ => {},
            }
        }
    } else {
        let msg_signal = "Connection missing signal field — hint: set signal=\"<name>\" in [connection]"@;
        let msg_method = "Connection missing method field — hint: set method=\"<func>\" and ensure the target node's script defines it"@;
        reveal_strlit("Connection missing signal field — hint: set signal=\"<name>\" in [connection]");
        reveal_strlit("Connection missing method field — hint: set method=\"<func>\" and ensure the target node's script defines it");
        let i1 = if attr(t, "signal"@) is None {
            seq![scene_issue(file, lno, None, msg_signal)]
        } else {
            Seq::empty()
        };
        let i2 = if attr(t, "method"@) is None {
            seq![scene_issue(file, lno, None, msg_method)]
        } else {
            Seq::empty()
        };
        if attr(t, "signal"@) is None {
            lemma_not_endpoint_msg(msg_signal, Seq::empty(), which, v);
            assert(msg_signal + Seq::<char>::empty() =~= msg_signal);
            lemma_lacks_single(scene_issue(file, lno, None, msg_signal), target);
        }
        if attr(t, "method"@) is None {
            lemma_not_endpoint_msg(msg_method, Seq::empty(), which, v);
            assert(msg_method + Seq::<char>::empty() =~= msg_method);
            lemma_lacks_single(scene_issue(file, lno, None, msg_method), target);
        }
        let i3 = endpoint_issues(file, tb, attr(t, "from"@), "from"@, lno);
        let i4 = endpoint_issues(file, tb, attr(t, "to"@), "to"@, lno);
        lemma_endpoint_lacks(file, tb, attr(t, "from"@), "from"@, lno, which, v);
        lemma_endpoint_lacks(file, tb, attr(t, "to"@), "to"@, lno, which, v);
        lemma_lacks_concat(i1, i2, target);
        lemma_lacks_concat(i1 + i2, i3, target);
        lemma_lacks_concat(i1 + i2 + i3, i4, target);
        let head = i1 + i2 + i3 + i4;
        match (attr(t, "signal"@), attr(t, "from"@), attr(t, "to"@), attr(t, "method"@)) {
            (Some(sg), Some(f), Some(t2), Some(m)) => {
                let key = (sg, f, t2, m);
                let dup = if seen.contains(key) {
                    seq![scene_issue(file, lno, None, duplicate_msg(key))]
                } else {
                    Seq::empty()
                };
                if seen.contains(key) {
                    reveal_strlit("Duplicate connection: signal=");
                    let rest = sg + " from="@ + f + " to="@ + t2 + " method="@ + m
                        + " — hint: remove the duplicate [connection] line"@;
                    lemma_not_endpoint_msg("Duplicate connection: signal="@, rest, which, v);
                    assert(duplicate_msg(key) =~= "Duplicate connection: signal="@ + rest);
                    lemma_lacks_single(scene_issue(file, lno, None, duplicate_msg(key)), target);
                }
                lemma_method_lacks(file, files, tb, t2, m, lno, which, v);
                lemma_lacks_concat(head, dup, target);
                lemma_lacks_concat(head + dup, method_issues(file, files, tb, t2, m, lno), target);
                assert(r == head + dup + method_issues(file, files, tb, t2, m, lno));
            },
            _ => {},
        }
        if r.contains(x) {
            let i = choose|i: int| 0 <= i < r.len() && r[i] == x;
            assert(r[i].message != target);
        }
    }
}

/// A connection record's endpoint (`from` or `to`) is reported as unknown on its line exactly
/// when it is neither `.` nor the path of a node of the scene.
pub proof fn law_unknown_endpoint_iff(tree: ProjectTreeV, rel: Seq<char>, k: int, which: Seq<char>, v: Seq<char>)
    requires
        is_endpoint_name(which),
        file_text(tree.files, rel) is Some,
        0 <= k < lines_of(file_text(tree.files, rel)->0).len(),
        section_line(trim_start(lines_of(file_text(tree.files, rel)->0)[k]), "[connection"@),
        attr(trim_start(lines_of(file_text(tree.files, rel)->0)[k]), which) == Some(v),
    ensures
        signal_findings(tree, rel).contains(scene_issue(rel, k + 1, None, unknown_endpoint_msg(which, v)))
            <==> (v != "."@ && !node_table(
            lines_of(file_text(tree.files, rel)->0),
            ext_table(lines_of(file_text(tree.files, rel)->0)),
        ).nodes.contains(v)),
{
    let lines = lines_of(file_text(tree.files, rel)->0);
    let tb = node_table(lines, ext_table(lines));
    let files = tree.files;
    let x = scene_issue(rel, k + 1, None, unknown_endpoint_msg(which, v));
    assert(keys_before(lines, 0) == Seq::<ConnKey>::empty());
    lemma_scan_locality(rel, files, tb, lines, 0, k);
    lemma_conn_line_endpoint(rel, files, tb, keys_before(lines, k), lines[k], k + 1, which, v);
    let found = signal_findings(tree, rel);
    if found.contains(x) {
        let i = choose|i: int| 0 <= i < found.len() && found[i] == x;
        assert(found[i].line == k + 1);
    }
}

/// The script a connection to `to` is checked against: the target node's `.gd` script under
/// `res://`, if it has one.
pub open spec fn checked_script(tb: NodeTable, to: Seq<char>) -> Option<Seq<char>> {
    match crate::signal_validate::target_node(tb, to) {
        Some(tnp) => match crate::scene_validate::ext_lookup(tb.scripts, tnp) {
            Some(sp) => if crate::signal_validate::ends_with(sp, ".gd"@) && has_at(sp, 0, "res://"@) {
                Some(sp)
            } else {
                None
            },
            None => None,
        },
        None => None,
    }
}

pub open spec fn none_open_with(s: Seq<SceneIssueV>, prefix: Seq<char>) -> bool {
    forall|i: int| 0 <= i < s.len() ==> !has_at(#[trigger] s[i].message, 0, prefix)
}

proof fn lemma_none_open_concat(a: Seq<SceneIssueV>, b: Seq<SceneIssueV>, prefix: Seq<char>)
    requires
        none_open_with(a, prefix),
        none_open_with(b, prefix),
    ensures
        none_open_with(a + b, prefix),
{
    assert forall|i: int| 0 <= i < (a + b).len() implies !has_at(#[trigger] (a + b)[i].message, 0, prefix) by {
        if i < a.len() {
            assert((a + b)[i] == a[i]);
        } else {
            assert((a + b)[i] == b[i - a.len()]);
        }
    }
}

/// A message opening with `lit` neither equals `msg` nor opens with `prefix` when their first
/// characters differ from that of `lit`.
proof fn lemma_opening_differs(lit: Seq<char>, rest: Seq<char>, msg: Seq<char>, prefix: Seq<char>)
    requires
        lit.len() > 0,
        msg.len() > 0,
        prefix.len() > 0,
        msg[0] == prefix[0],
        lit[0] != prefix[0],
    ensures
        lit + rest != msg,
        !has_at(lit + rest, 0, prefix),
{
    assert((lit + rest)[0] == lit[0]);
    if has_at(lit + rest, 0, prefix) {
        assert((lit + rest).subrange(0, prefix.len() as int)[0] == (lit + rest)[0]);
    }
}

proof fn lemma_single_facts(x: SceneIssueV, msg: Seq<char>, prefix: Seq<char>)
    requires
        x.message != msg,
        !has_at(x.message, 0, prefix),
    ensures
        lacks_msg(seq![x], msg),
        none_open_with(seq![x], prefix),
{
    lemma_lacks_single(x, msg);
    assert forall|i: int| 0 <= i < seq![x].len() implies !has_at(#[trigger] seq![x][i].message, 0, prefix) by {
        assert(seq![x][i] == x);
    }
}

/// Endpoint findings open with `U` or `C`.
proof fn lemma_endpoint_other(
    file: Seq<char>,
    tb: NodeTable,
    w: Option<Seq<char>>,
    which: Seq<char>,
    lno: int,
    msg: Seq<char>,
    prefix: Seq<char>,
)
    requires
        msg.len() > 0,
        prefix.len() > 0,
        msg[0] == prefix[0],
        prefix[0] != 'U',
        prefix[0] != 'C',
    ensures
        lacks_msg(endpoint_issues(file, tb, w, which, lno), msg),
        none_open_with(endpoint_issues(file, tb, w, which, lno), prefix),
{
    reveal_strlit("Unknown connection '");
    reveal_strlit("Connection missing ");
    let e = endpoint_issues(file, tb, w, which, lno);
    if e.len() > 0 {
        let x = e[0];
        match w {
            Some(t) => {
                let rest = which + "' node: "@ + t + " — hint: create node or correct the '"@ + which
                    + "' path"@;
                lemma_opening_differs("Unknown connection '"@, rest, msg, prefix);
                assert(x.message =~= "Unknown connection '"@ + rest);
            },
            None => {
                let rest = which + " field — hint: set "@ + which
                    + "=\"<node_path>\" (use '.' for the scene root)"@;
                lemma_opening_differs("Connection missing "@, rest, msg, prefix);
                assert(x.message =~= "Connection missing "@ + rest);
            },
        }
        lemma_single_facts(x, msg, prefix);
        assert(e =~= seq![x]);
    }
}

/// The findings of a complete connection line other than its method findings: none equals
/// `msg` or opens with `prefix`, for a first character that none of them opens with.
proof fn lemma_line_head_other(
    file: Seq<char>,
    files: Seq<(Seq<char>, Seq<char>)>,
    tb: NodeTable,
    seen: Seq<ConnKey>,
    line: Seq<char>,
    lno: int,
    key: ConnKey,
    msg: Seq<char>,
    prefix: Seq<char>,
)
    requires
        line_key(line) == Some(key),
        msg.len() > 0,
        prefix.len() > 0,
        msg[0] == prefix[0],
        prefix[0] != 'U',
        prefix[0] != 'C',
        prefix[0] != 'D',
    ensures
        ({
            let head = conn_line(file, files, tb, seen, line, lno).1;
            let mi = method_issues(file, files, tb, key.2, key.3, lno);
            exists|h: Seq<SceneIssueV>| head == h + mi && #[trigger] lacks_msg(h, msg) && none_open_with(h, prefix)
        }),
{
    let t = trim_start(line);
    let i3 = endpoint_issues(file, tb, attr(t, "from"@), "from"@, lno);
    let i4 = endpoint_issues(file, tb, attr(t, "to"@), "to"@, lno);
    lemma_endpoint_other(file, tb, attr(t, "from"@), "from"@, lno, msg, prefix);
    lemma_endpoint_other(file, tb, attr(t, "to"@), "to"@, lno, msg, prefix);
    let i12 = Seq::<SceneIssueV>::empty();
    assert(lacks_msg(i12, msg) && none_open_with(i12, prefix));
    lemma_lacks_concat(i12, i3, msg);
    lemma_none_open_concat(i12, i3, prefix);
    lemma_lacks_concat(i12 + i3, i4, msg);
    lemma_none_open_concat(i12 + i3, i4, prefix);
    let head = i12 + i3 + i4;
    let dup = if seen.contains(key) {
        seq![scene_issue(file, lno, None, duplicate_msg(key))]
    } else {
        Seq::empty()
    };
    if seen.contains(key) {
        reveal_strlit("Duplicate connection: signal=");
        let rest = key.0 + " from="@ + key.1 + " to="@ + key.2 + " method="@ + key.3
            + " — hint: remove the duplicate [connection] line"@;
        lemma_opening_differs("Duplicate connection: signal="@, rest, msg, prefix);
        assert(duplicate_msg(key) =~= "Duplicate connection: signal="@ + rest);
        lemma_single_facts(scene_issue(file, lno, None, duplicate_msg(key)), msg, prefix);
    }
    lemma_lacks_concat(head, dup, msg);
    lemma_none_open_concat(head, dup, prefix);
    let mi = method_issues(file, files, tb, key.2, key.3, lno);
    assert(Seq::<SceneIssueV>::empty() + Seq::<SceneIssueV>::empty() =~= i12);
    assert(conn_line(file, files, tb, seen, line, lno).1 == (head + dup) + mi);
}

/// A connection record whose method is a well-formed name and whose target node has a `.gd`
/// script that was read: the line gets "target method not found" exactly when the script
/// declares no `func` of that name.
pub proof fn law_method_resolution(
    tree: ProjectTreeV,
    rel: Seq<char>,
    k: int,
    key: ConnKey,
    sp: Seq<char>,
    src: Seq<char>,
)
    requires
        file_text(tree.files, rel) is Some,
        0 <= k < lines_of(file_text(tree.files, rel)->0).len(),
        line_key(lines_of(file_text(tree.files, rel)->0)[k]) == Some(key),
        crate::signal_validate::is_ident(crate::text::trim(key.3)),
        checked_script(
            node_table(
                lines_of(file_text(tree.files, rel)->0),
                ext_table(lines_of(file_text(tree.files, rel)->0)),
            ),
            key.2,
        ) == Some(sp),
        file_text(tree.files, sp.subrange(6, sp.len() as int)) == Some(src),
    ensures
        signal_findings(tree, rel).contains(
            scene_issue(rel, k + 1, None, method_missing_msg(crate::text::trim(key.3), key.2, sp)),
        ) <==> !crate::signal_validate::func_decl_from(src, 0, crate::text::trim(key.3)),
{
    let lines = lines_of(file_text(tree.files, rel)->0);
    let tb = node_table(lines, ext_table(lines));
    let files = tree.files;
    let mn = crate::text::trim(key.3);
    let msg = method_missing_msg(mn, key.2, sp);
    let x = scene_issue(rel, k + 1, None, msg);
    reveal_strlit("Target method not found: method='");
    reveal_strlit("Target method not found:");
    assert(msg[0] == 'T');
    assert("Target method not found:"@[0] == 'T');
    assert(keys_before(lines, 0) == Seq::<ConnKey>::empty());
    lemma_scan_locality(rel, files, tb, lines, 0, k);
    let seen = keys_before(lines, k);
    lemma_line_head_other(rel, files, tb, seen, lines[k], k + 1, key, msg, "Target method not found:"@);
    let r = conn_line(rel, files, tb, seen, lines[k], k + 1).1;
    let mi = method_issues(rel, files, tb, key.2, key.3, k + 1);
    let h = choose|h: Seq<SceneIssueV>| r == h + mi && #[trigger] lacks_msg(h, msg) && none_open_with(h, "Target method not found:"@);
    let found = signal_findings(tree, rel);
    if !crate::signal_validate::func_decl_from(src, 0, mn) {
        assert(mi =~= seq![x]);
        assert(r[h.len() as int] == x);
        assert(r.contains(x));
    } else {
        assert(mi =~= Seq::<SceneIssueV>::empty());
        if found.contains(x) {
            let i = choose|i: int| 0 <= i < found.len() && found[i] == x;
            assert(found[i].line == k + 1);
            assert(r.contains(x));
            let j = choose|j: int| 0 <= j < r.len() && r[j] == x;
            assert(r =~= h);
            assert(h[j].message != msg);
        }
    }
}

/// A complete connection record whose target node has no `.gd` script under `res://` gets no
/// "target method not found" finding on its line.
pub proof fn law_other_language_unchecked(tree: ProjectTreeV, rel: Seq<char>, k: int, key: ConnKey)
    requires
        file_text(tree.files, rel) is Some,
        0 <= k < lines_of(file_text(tree.files, rel)->0).len(),
        line_key(lines_of(file_text(tree.files, rel)->0)[k]) == Some(key),
        checked_script(
            node_table(
                lines_of(file_text(tree.files, rel)->0),
                ext_table(lines_of(file_text(tree.files, rel)->0)),
            ),
            key.2,
        ) is None,
    ensures
        forall|i: int|
            0 <= i < signal_findings(tree, rel).len() && (#[trigger] signal_findings(tree, rel)[i]).line
                == k + 1 ==> !has_at(signal_findings(tree, rel)[i].message, 0, "Target method not found:"@),
{
    let lines = lines_of(file_text(tree.files, rel)->0);
    let tb = node_table(lines, ext_table(lines));
    let files = tree.files;
    let prefix = "Target method not found:"@;
    reveal_strlit("Target method not found:");
    reveal_strlit("Invalid method name: '");
    assert(prefix[0] == 'T');
    assert(keys_before(lines, 0) == Seq::<ConnKey>::empty());
    lemma_scan_locality(rel, files, tb, lines, 0, k);
    let seen = keys_before(lines, k);
    lemma_line_head_other(rel, files, tb, seen, lines[k], k + 1, key, prefix, prefix);
    let r = conn_line(rel, files, tb, seen, lines[k], k + 1).1;
    let mi = method_issues(rel, files, tb, key.2, key.3, k + 1);
    let h = choose|h: Seq<SceneIssueV>| r == h + mi && #[trigger] lacks_msg(h, prefix) && none_open_with(h, prefix);
    if !crate::signal_validate::is_ident(crate::text::trim(key.3)) {
        let rest = key.3 + "' — hint: use letters/numbers/underscore and start with a letter/underscore"@;
        lemma_opening_differs("Invalid method name: '"@, rest, prefix, prefix);
        assert(invalid_method_msg(key.3) =~= "Invalid method name: '"@ + rest);
        lemma_single_facts(mi[0], prefix, prefix);
        assert(mi =~= seq![mi[0]]);
    } else {
        assert(mi =~= Seq::<SceneIssueV>::empty());
        assert(none_open_with(mi, prefix));
    }
    lemma_none_open_concat(h, mi, prefix);
    let found = signal_findings(tree, rel);
    assert forall|i: int| 0 <= i < found.len() && (#[trigger] found[i]).line == k + 1 implies !has_at(
        found[i].message,
        0,
        prefix,
    ) by {
        assert(r.contains(found[i]));
        let j = choose|j: int| 0 <= j < r.len() && r[j] == found[i];
        assert(!has_at(r[j].message, 0, prefix));
    }
}

/// The scene validator's state when it reaches line `k` (0-based).
pub open spec fn scan_state(lines: Seq<Seq<char>>, k: int) -> SceneScan
    decreases k,
{
    if k <= 0 || k > lines.len() {
        empty_scan()
    } else {
        scene_line(Seq::empty(), Seq::empty(), scan_state(lines, k - 1), lines[k - 1], 0).0
    }
}

/// `line` declares external resource `id` with a path.
pub open spec fn declares_ext(line: Seq<char>, id: Seq<char>) -> bool {
    section_line(line, "[ext_resource"@) && (first_match(Pat::Id, line, 0) matches Some(c) && c.a == id)
        && first_match(Pat::PathAttr, line, 0) is Some
}

proof fn lemma_state_independent(
    file: Seq<char>,
    tree: Seq<Seq<char>>,
    st: SceneScan,
    line: Seq<char>,
    lno: int,
)
    ensures
        scene_line(file, tree, st, line, lno).0 == scene_line(Seq::empty(), Seq::empty(), st, line, 0).0,
{
}

proof fn lemma_scene_scan_contains(
    file: Seq<char>,
    tree: Seq<Seq<char>>,
    lines: Seq<Seq<char>>,
    j: int,
    k: int,
    x: SceneIssueV,
)
    requires
        0 <= j <= k < lines.len(),
        scene_line(file, tree, scan_state(lines, k), lines[k], k + 1).1.contains(x),
    ensures
        scene_scan(file, tree, lines, j, scan_state(lines, j)).contains(x),
    decreases k - j,
{
    let here = scene_line(file, tree, scan_state(lines, j), lines[j], j + 1);
    lemma_state_independent(file, tree, scan_state(lines, j), lines[j], j + 1);
    assert(here.0 == scan_state(lines, j + 1));
    let rest = scene_scan(file, tree, lines, j + 1, scan_state(lines, j + 1));
    assert(scene_scan(file, tree, lines, j, scan_state(lines, j)) == here.1 + rest);
    if j == k {
        lemma_contains_left(here.1, rest, x);
    } else {
        lemma_scene_scan_contains(file, tree, lines, j + 1, k, x);
        lemma_contains_right(here.1, rest, x);
    }
}

/// After a declaration of `id` with path `p` on line `d`, and no other declaration of `id`
/// before line `u`, the validator resolves `id` to `p` at line `u`.
proof fn lemma_declared_resolves(lines: Seq<Seq<char>>, d: int, u: int, id: Seq<char>, p: Seq<char>)
    requires
        0 <= d < u <= lines.len(),
        declares_ext(lines[d], id),
        first_match(Pat::PathAttr, lines[d], 0)->0.a == p,
        forall|k: int| d < k < u ==> !declares_ext(#[trigger] lines[k], id),
    ensures
        ext_lookup(scan_state(lines, u).ext, id) == Some(p),
    decreases u - d,
{
    let prev = scan_state(lines, u - 1);
    if u - 1 > d {
        lemma_declared_resolves(lines, d, u - 1, id, p);
        let l = lines[u - 1];
        assert(!declares_ext(l, id));
        if section_line(l, "[ext_resource"@) {
            match (first_match(Pat::Id, l, 0), first_match(Pat::PathAttr, l, 0)) {
                (Some(c), Some(q)) => {
                    assert(c.a != id);
                    assert(scan_state(lines, u).ext == prev.ext.push((c.a, q.a)));
                    assert(prev.ext.push((c.a, q.a)).drop_last() =~= prev.ext);
                },
                _ => {},
            }
        } else {
            assert(scan_state(lines, u).ext == next_state(prev, l).ext);
        }
    } else {
        let c = first_match(Pat::Id, lines[d], 0)->0;
        let q = first_match(Pat::PathAttr, lines[d], 0)->0;
        assert(scan_state(lines, u).ext == prev.ext.push((c.a, q.a)));
    }
}

/// A scene that declares external resource `id` at a `res://` path whose file is missing, and
/// later sets a node's script from that id, gets both findings: the missing declared path on
/// the declaration's line, and the script's missing file on the use's line.
pub proof fn law_declaration_and_use_reported(
    tree: ProjectTreeV,
    rel: Seq<char>,
    d: int,
    u: int,
    id: Seq<char>,
    p: Seq<char>,
)
    requires
        file_text(tree.files, rel) is Some,
        0 <= d < u < lines_of(file_text(tree.files, rel)->0).len(),
        declares_ext(lines_of(file_text(tree.files, rel)->0)[d], id),
        first_match(Pat::PathAttr, lines_of(file_text(tree.files, rel)->0)[d], 0)->0.a == p,
        res_missing(tree.paths, p),
        forall|k: int| d < k < u ==> !declares_ext(#[trigger] lines_of(file_text(tree.files, rel)->0)[k], id),
        !section_line(lines_of(file_text(tree.files, rel)->0)[u], "[ext_resource"@),
        first_match(Pat::ScriptExt, lines_of(file_text(tree.files, rel)->0)[u], 0) matches Some(c) && c.a == id,
    ensures
        scene_findings(tree, rel).contains(scene_issue(rel, d + 1, None, "Missing ext_resource path: "@ + p)),
        exists|x: SceneIssueV|
            #[trigger] scene_findings(tree, rel).contains(x) && x.line == u + 1 && x.message == "Script ExtResource("@ + id
                + ") missing file "@ + p,
{
    let lines = lines_of(file_text(tree.files, rel)->0);
    let paths = tree.paths;
    assert(scan_state(lines, 0) == empty_scan());
    let xd = scene_issue(rel, d + 1, None, "Missing ext_resource path: "@ + p);
    let at_d = scene_line(rel, paths, scan_state(lines, d), lines[d], d + 1).1;
    assert(at_d == seq![xd]);
    assert(at_d[0] == xd);
    lemma_scene_scan_contains(rel, paths, lines, 0, d, xd);
    lemma_declared_resolves(lines, d, u, id, p);
    let st = scan_state(lines, u);
    let l = lines[u];
    let st2 = next_state(st, l);
    let xu = scene_issue(rel, u + 1, st2.node, "Script ExtResource("@ + id + ") missing file "@ + p);
    let s_issues = crate::scene_validate::script_issues(rel, paths, st2, l, u + 1);
    let i1 = match attr(l, "script"@) {
        Some(sc) => if res_missing(paths, sc) {
            seq![scene_issue(rel, u + 1, st2.node, "Missing script: "@ + sc)]
        } else {
            Seq::empty()
        },
        None => Seq::empty(),
    };
    let i2 = crate::scene_validate::ext_use_issues(
        rel,
        paths,
        st2.ext,
        u + 1,
        st2.node,
        id,
        "Script ExtResource("@ + id + ") missing file "@,
    );
    assert(st2.ext == st.ext);
    assert(i2 == seq![xu]);
    assert(s_issues == i1 + i2);
    assert(i2[0] == xu);
    lemma_contains_right(i1, i2, xu);
    let at_u = scene_line(rel, paths, st, l, u + 1).1;
    if !(first_match(Pat::PropExt, l, 0) matches Some(c) && c.a == "script"@) {
        let refs = crate::scene_validate::reference_issues(rel, paths, st2, l, u + 1);
        assert(at_u == s_issues + refs);
        lemma_contains_left(s_issues, refs, xu);
    } else {
        assert(at_u == s_issues);
    }
    lemma_scene_scan_contains(rel, paths, lines, 0, u, xu);
    assert(scene_findings(tree, rel).contains(xu));
}

pub open spec fn report_shape(s: Seq<IssueV>) -> bool {
    forall|i: int|
        0 <= i < s.len() ==> (#[trigger] s[i]).severity == crate::Severity::Error && !has_at(
            s[i].message,
            0,
            "Missing ext_resource path:"@,
        )
}

proof fn lemma_shape_concat(a: Seq<IssueV>, b: Seq<IssueV>)
    requires
        report_shape(a),
        report_shape(b),
    ensures
        report_shape(a + b),
{
    assert forall|i: int| 0 <= i < (a + b).len() implies (#[trigger] (a + b)[i]).severity
        == crate::Severity::Error && !has_at((a + b)[i].message, 0, "Missing ext_resource path:"@) by {
        if i < a.len() {
            assert((a + b)[i] == a[i]);
        } else {
            assert((a + b)[i] == b[i - a.len()]);
        }
    }
}

proof fn lemma_as_issues_shape(
    sis: Seq<SceneIssueV>,
    rel: Seq<char>,
    opts: crate::SceneCheckOptions,
)
    ensures
        report_shape(crate::report::as_issues(sis, rel, opts, true)),
    decreases sis.len(),
{
    if sis.len() > 0 {
        lemma_as_issues_shape(sis.drop_last(), rel, opts);
        let prev = crate::report::as_issues(sis.drop_last(), rel, opts, true);
        let si = sis.last();
        if crate::report::kept(si.message, opts) {
            let m = crate::report::with_node(si);
            let pre = "Missing ext_resource path:"@;
            if has_at(m, 0, pre) {
                match si.node_path {
                    Some(np) => {
                        assert(m =~= si.message + (" [node: "@ + np + "]"@));
                        reveal_strlit(" [node: ");
                        reveal_strlit("Missing ext_resource path:");
                        if si.message.len() >= pre.len() {
                            assert(si.message.subrange(0, pre.len() as int) =~= m.subrange(
                                0,
                                pre.len() as int,
                            ));
                        } else {
                            let k = si.message.len() as int;
                            let tail = " [node: "@ + np + "]"@;
                            assert(tail[0] == ' ' && tail[1] == '[');
                            assert(m[k] == ' ');
                            assert(m[k + 1] == '[');
                            assert(pre =~= seq![
                                'M', 'i', 's', 's', 'i', 'n', 'g', ' ', 'e', 'x', 't', '_', 'r',
                                'e', 's', 'o', 'u', 'r', 'c', 'e', ' ', 'p', 'a', 't', 'h', ':',
                            ]);
                            assert(m.subrange(0, pre.len() as int)[k] == pre[k]);
                            if pre[k] == ' ' {
                                assert(k == 7 || k == 20);
                                assert(m.subrange(0, pre.len() as int)[k + 1] == pre[k + 1]);
                            }
                        }
                    },
                    None => {},
                }
            }
            let x = crate::IssueV { severity: crate::Severity::Error, message: m, file: Some(rel) };
            assert(report_shape(seq![x])) by {
                assert forall|i: int| 0 <= i < seq![x].len() implies (#[trigger] seq![x][i]).severity
                    == crate::Severity::Error && !has_at(seq![x][i].message, 0, pre) by {
                    assert(seq![x][i] == x);
                }
            }
            lemma_shape_concat(prev, seq![x]);
            assert(prev.push(x) =~= prev + seq![x]);
        }
    }
}

/// Every issue that scene validation reports is an error, and none is a declaration-level
/// missing path: those come from the resource reference scan, so both kinds stand side by side
/// in a report.
pub proof fn law_scene_report_shape(
    tree: ProjectTreeV,
    files: Seq<(Seq<char>, Seq<char>)>,
    opts: crate::SceneCheckOptions,
)
    ensures
        report_shape(crate::report::scene_report(tree, files, opts)),
    decreases files.len(),
{
    if files.len() > 0 {
        law_scene_report_shape(tree, files.drop_last(), opts);
        let rel = files.last().0;
        let prev = crate::report::scene_report(tree, files.drop_last(), opts);
        if crate::report::is_scene(rel) && !crate::structure_fix::in_backups(rel) {
            lemma_as_issues_shape(scene_findings(tree, rel), rel, opts);
            lemma_shape_concat(prev, crate::report::as_issues(scene_findings(tree, rel), rel, opts, true));
        }
    }
}

} // verus!
