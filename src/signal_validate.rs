use vstd::prelude::*;
use crate::pattern::{first_match, first_match_from, Pat};
use crate::scene_validate::{
    child_path,
    cat, ext_lookup, lookup_ext, pairs_view, scene_issue, scene_issues_view, section_line,
    is_section_line, opt_chars, SceneIssue, SceneIssueV,
};
use crate::text::{
    at, attr, chars_of, extract_attr, has_at, is_digit, is_digit_char, is_word, is_word_char, is_ws,
    is_ws_char, lemma_chars_deep_view, lemma_lines_deep_view, lines_of, push_all, same, skip_ws,
    slice, split_lines, string_of, trim, trim_chars, trim_start, trim_start_chars, ws_end,
};
use crate::sort::{
    key_fn, path_key, push_path_key, push_sep, push_text_key, sort_stable, stable_sort, text_key,
    views, Keyed,
};
use crate::{file_text, ProjectTree, ProjectTreeV};

verus! {

broadcast use vstd::string::group_string_axioms;

/// The external resources of a scene, from its lines: id and path, latest last.
pub open spec fn ext_table(lines: Seq<Seq<char>>) -> Seq<(Seq<char>, Seq<char>)>
    decreases lines.len(),
{
    if lines.len() == 0 {
        Seq::empty()
    } else {
        let prev = ext_table(lines.drop_last());
        let t = trim_start(lines.last());
        if section_line(t, "[ext_resource"@) {
            match (first_match(Pat::Id, t, 0), first_match(Pat::PathAttr, t, 0)) {
                (Some(id), Some(p)) => prev.push((id.a, p.a)),
                _ => prev,
            }
        } else {
            prev
        }
    }
}

/// What the signal validator knows of a scene's nodes: the node paths (`.` first), the script
/// of each node (latest last), the node whose block is open, and the node taken as the root.
pub struct NodeTable {
    pub nodes: Seq<Seq<char>>,
    pub scripts: Seq<(Seq<char>, Seq<char>)>,
    pub current: Option<Seq<char>>,
    pub root: Option<Seq<char>>,
}

/// The script that a (trimmed) line assigns: `script = ExtResource("id")` whose declared path
/// is a `res://` path, or else `script = "res://..."`.
pub open spec fn line_script(t: Seq<char>, ext: Seq<(Seq<char>, Seq<char>)>) -> Option<Seq<char>> {
    match first_match(Pat::ScriptExt, t, 0) {
        Some(c) => match ext_lookup(ext, c.a) {
            Some(p) => if has_at(p, 0, "res://"@) {
                Some(p)
            } else {
                None
            },
            None => None,
        },
        None => match first_match(Pat::ScriptPath, t, 0) {
            Some(c) => Some(c.a),
            None => None,
        },
    }
}

pub open spec fn with_script(
    scripts: Seq<(Seq<char>, Seq<char>)>,
    node: Seq<char>,
    sc: Option<Seq<char>>,
) -> Seq<(Seq<char>, Seq<char>)> {
    match sc {
        Some(p) => scripts.push((node, p)),
        None => scripts,
    }
}

/// The node table after one more line.
pub open spec fn node_step(
    tb: NodeTable,
    line: Seq<char>,
    ext: Seq<(Seq<char>, Seq<char>)>,
) -> NodeTable {
    let t = trim_start(line);
    if section_line(t, "[node"@) {
        match attr(t, "path"@) {
            Some(p) => NodeTable {
                nodes: tb.nodes.push(p),
                scripts: with_script(tb.scripts, p, line_script(t, ext)),
                current: Some(p),
                root: if tb.root is None && p == "."@ {
                    Some(p)
                } else {
                    tb.root
                },
            },
            None => match attr(t, "name"@) {
                Some(n) => {
                    let parent = match attr(t, "parent"@) {
                        Some(x) => x,
                        None => "."@,
                    };
                    let full = child_path(parent, n);
                    NodeTable {
                        nodes: tb.nodes.push(full),
                        scripts: with_script(tb.scripts, full, line_script(t, ext)),
                        current: Some(full),
                        root: if tb.root is None && parent == "."@ {
                            Some(full)
                        } else {
                            tb.root
                        },
                    }
                },
                None => tb,
            },
        }
    } else {
        match tb.current {
            Some(cur) => NodeTable {
                nodes: tb.nodes,
                scripts: with_script(tb.scripts, cur, line_script(t, ext)),
                current: tb.current,
                root: tb.root,
            },
            None => tb,
        }
    }
}

pub open spec fn initial_nodes() -> NodeTable {
    NodeTable { nodes: seq!["."@], scripts: Seq::empty(), current: None, root: None }
}

/// The node table of a scene, from its lines.
pub open spec fn node_table(lines: Seq<Seq<char>>, ext: Seq<(Seq<char>, Seq<char>)>) -> NodeTable
    decreases lines.len(),
{
    if lines.len() == 0 {
        initial_nodes()
    } else {
        node_step(node_table(lines.drop_last(), ext), lines.last(), ext)
    }
}

/// `s` is an identifier: a letter or `_`, then letters, digits or `_`.
pub open spec fn is_ident(s: Seq<char>) -> bool {
    s.len() > 0 && is_word(s[0]) && !is_digit(s[0]) && forall|k: int|
        0 <= k < s.len() ==> is_word(#[trigger] s[k])
}

/// Only blanks stand between a line start and position `p` (blanks may span lines).
pub open spec fn blank_to_line_start(src: Seq<char>, p: int) -> bool
    decreases p,
{
    if p <= 0 {
        true
    } else if src[p - 1] == '\n' {
        true
    } else if is_ws(src[p - 1]) {
        blank_to_line_start(src, p - 1)
    } else {
        false
    }
}

/// A declaration `func <name>(` starts at `p`, blanks allowed before `(` and required after
/// `func`, only blanks before it on its line.
pub open spec fn func_decl_at(src: Seq<char>, p: int, name: Seq<char>) -> bool {
    let q = ws_end(src, p + 4);
    let r = ws_end(src, q + name.len());
    blank_to_line_start(src, p) && has_at(src, p, "func"@) && q > p + 4 && has_at(src, q, name)
        && r < src.len() && src[r] == '('
}

/// Some declaration of `name` starts at or after `p`.
pub open spec fn func_decl_from(src: Seq<char>, p: int, name: Seq<char>) -> bool
    decreases src.len() - p,
{
    if p < 0 || p >= src.len() {
        false
    } else {
        func_decl_at(src, p, name) || func_decl_from(src, p + 1, name)
    }
}

pub open spec fn ends_with(s: Seq<char>, suffix: Seq<char>) -> bool {
    s.len() >= suffix.len() && s.subrange(s.len() - suffix.len(), s.len() as int) == suffix
}

/// The node whose script a connection to `to` calls into: `to` itself, or for `.` the node
/// with path `.` if it has a script, else the root node.
pub open spec fn target_node(tb: NodeTable, to: Seq<char>) -> Option<Seq<char>> {
    if to == "."@ {
        if ext_lookup(tb.scripts, "."@) is Some {
            Some("."@)
        } else {
            tb.root
        }
    } else {
        Some(to)
    }
}

pub open spec fn invalid_method_msg(m: Seq<char>) -> Seq<char> {
    "Invalid method name: '"@ + m
        + "' — hint: use letters/numbers/underscore and start with a letter/underscore"@
}

pub open spec fn method_missing_msg(mn: Seq<char>, to: Seq<char>, sp: Seq<char>) -> Seq<char> {
    "Target method not found: method='"@ + mn + "' to='"@ + to + "' — hint: define 'func "@ + mn
        + "(...)' in "@ + sp
}

/// Findings on the method of a complete connection record.
pub open spec fn method_issues(
    file: Seq<char>,
    files: Seq<(Seq<char>, Seq<char>)>,
    tb: NodeTable,
    to: Seq<char>,
    m: Seq<char>,
    lno: int,
) -> Seq<SceneIssueV> {
    let mn = trim(m);
    if !is_ident(mn) {
        seq![scene_issue(file, lno, None, invalid_method_msg(m))]
    } else {
        match target_node(tb, to) {
            Some(tnp) => match ext_lookup(tb.scripts, tnp) {
                Some(sp) => if ends_with(sp, ".gd"@) && has_at(sp, 0, "res://"@) {
                    match file_text(files, sp.subrange(6, sp.len() as int)) {
                        Some(src) => if func_decl_from(src, 0, mn) {
                            Seq::empty()
                        } else {
                            seq![scene_issue(file, lno, None, method_missing_msg(mn, to, sp))]
                        },
                        None => Seq::empty(),
                    }
                } else {
                    Seq::empty()
                },
                None => Seq::empty(),
            },
            None => Seq::empty(),
        }
    }
}

pub open spec fn endpoint_issues(
    file: Seq<char>,
    tb: NodeTable,
    v: Option<Seq<char>>,
    which: Seq<char>,
    lno: int,
) -> Seq<SceneIssueV> {
    match v {
        Some(x) => if x != "."@ && !tb.nodes.contains(x) {
            seq![
                scene_issue(
                    file,
                    lno,
                    None,
                    "Unknown connection '"@ + which + "' node: "@ + x
                        + " — hint: create node or correct the '"@ + which + "' path"@,
                ),
            ]
        } else {
            Seq::empty()
        },
        None => seq![
            scene_issue(
                file,
                lno,
                None,
                "Connection missing "@ + which + " field — hint: set "@ + which
                    + "=\"<node_path>\" (use '.' for the scene root)"@,
            ),
        ],
    }
}

pub type ConnKey = (Seq<char>, Seq<char>, Seq<char>, Seq<char>);

/// The signal validator on one line: the connections seen after it and the findings on it.
pub open spec fn conn_line(
    file: Seq<char>,
    files: Seq<(Seq<char>, Seq<char>)>,
    tb: NodeTable,
    seen: Seq<ConnKey>,
    line: Seq<char>,
    lno: int,
) -> (Seq<ConnKey>, Seq<SceneIssueV>) {
    let t = trim_start(line);
    if !section_line(t, "[connection"@) {
        (seen, Seq::empty())
    } else {
        let signal = attr(t, "signal"@);
        let from = attr(t, "from"@);
        let to = attr(t, "to"@);
        let method = attr(t, "method"@);
        let i1 = if signal is None {
            seq![
                scene_issue(
                    file,
                    lno,
                    None,
                    "Connection missing signal field — hint: set signal=\"<name>\" in [connection]"@,
                ),
            ]
        } else {
            Seq::empty()
        };
        let i2 = if method is None {
            seq![
                scene_issue(
                    file,
                    lno,
                    None,
                    "Connection missing method field — hint: set method=\"<func>\" and ensure the target node's script defines it"@,
                ),
            ]
        } else {
            Seq::empty()
        };
        let i3 = endpoint_issues(file, tb, from, "from"@, lno);
        let i4 = endpoint_issues(file, tb, to, "to"@, lno);
        match (signal, from, to, method) {
            (Some(s), Some(f), Some(t2), Some(m)) => {
                let key = (s, f, t2, m);
                let dup = if seen.contains(key) {
                    seq![
                        scene_issue(
                            file,
                            lno,
                            None,
                            "Duplicate connection: signal="@ + s + " from="@ + f + " to="@ + t2
                                + " method="@ + m
                                + " — hint: remove the duplicate [connection] line"@,
                        ),
                    ]
                } else {
                    Seq::empty()
                };
                (
                    seen.push(key),
                    i1 + i2 + i3 + i4 + dup + method_issues(file, files, tb, t2, m, lno),
                )
            },
            _ => (seen, i1 + i2 + i3 + i4),
        }
    }
}

/// The signal validator on the lines from `k` on.
pub open spec fn conn_scan(
    file: Seq<char>,
    files: Seq<(Seq<char>, Seq<char>)>,
    tb: NodeTable,
    lines: Seq<Seq<char>>,
    k: int,
    seen: Seq<ConnKey>,
) -> Seq<SceneIssueV>
    decreases lines.len() - k,
{
    if k < 0 || k >= lines.len() {
        Seq::empty()
    } else {
        let (seen2, found) = conn_line(file, files, tb, seen, lines[k], k + 1);
        found + conn_scan(file, files, tb, lines, k + 1, seen2)
    }
}

/// The findings of the signal validator on the scene at `scene_rel`: none if it was not read.
pub open spec fn signal_findings(tree: ProjectTreeV, scene_rel: Seq<char>) -> Seq<SceneIssueV> {
    match file_text(tree.files, scene_rel) {
        Some(text) => {
            let lines = lines_of(text);
            let tb = node_table(lines, ext_table(lines));
            conn_scan(scene_rel, tree.files, tb, lines, 0, Seq::empty())
        },
        None => Seq::empty(),
    }
}

/// The external resources of a scene.
fn build_ext_table(lines: &Vec<Vec<char>>) -> (r: Vec<(Vec<char>, Vec<char>)>)
    ensures
        pairs_view(r@) == ext_table(lines.deep_view()),
{
    let mut out: Vec<(Vec<char>, Vec<char>)> = Vec::new();
    let mut k: usize = 0;
    assert(lines.deep_view().take(0) =~= Seq::<Seq<char>>::empty());
    while k < lines.len()
        invariant
            k <= lines.len(),
            pairs_view(out@) == ext_table(lines.deep_view().take(k as int)),
        decreases lines.len() - k,
    {
        proof {
            lemma_lines_deep_view(*lines, k as int);
            assert(lines.deep_view().take(k + 1).drop_last() =~= lines.deep_view().take(k as int));
        }
        let t = trim_start_chars(&lines[k]);
        if is_section_line(&t, "[ext_resource") {
            let id = first_match_from(Pat::Id, &t, 0);
            let p = first_match_from(Pat::PathAttr, &t, 0);
            match (id, p) {
                (Some(id), Some(p)) => {
                    let ghost before = out@;
                    let ghost pair = (id.a@, p.a@);
                    out.push((id.a, p.a));
                    assert(pairs_view(out@) =~= pairs_view(before).push(pair));
                },
                _ => {},
            }
        }
        k = k + 1;
    }
    assert(lines.deep_view().take(k as int) =~= lines.deep_view());
    out
}

/// The node table while the lines of a scene are read.
pub struct Nodes {
    pub nodes: Vec<Vec<char>>,
    pub scripts: Vec<(Vec<char>, Vec<char>)>,
    pub current: Option<Vec<char>>,
    pub root: Option<Vec<char>>,
}

impl View for Nodes {
    type V = NodeTable;

    open spec fn view(&self) -> NodeTable {
        NodeTable {
            nodes: self.nodes.deep_view(),
            scripts: pairs_view(self.scripts@),
            current: opt_chars(self.current),
            root: opt_chars(self.root),
        }
    }
}

fn copy_chars(v: &Vec<char>) -> (r: Vec<char>)
    ensures
        r@ == v@,
{
    let r = slice(v, 0, v.len());
    assert(r@ =~= v@);
    r
}

fn opt_copy(o: &Option<Vec<char>>) -> (r: Option<Vec<char>>)
    ensures
        opt_chars(r) == opt_chars(*o),
{
    match o {
        Some(v) => Some(copy_chars(v)),
        None => None,
    }
}

/// The script that a trimmed line assigns.
fn script_of_line(t: &Vec<char>, ext: &Vec<(Vec<char>, Vec<char>)>) -> (r: Option<Vec<char>>)
    ensures
        opt_chars(r) == line_script(t@, pairs_view(ext@)),
{
    proof {
        reveal_strlit("res://");
    }
    match first_match_from(Pat::ScriptExt, t, 0) {
        Some(c) => match lookup_ext(ext, &c.a) {
            Some(p) => {
                if at(&p, 0, &chars_of("res://")) {
                    Some(p)
                } else {
                    None
                }
            },
            None => None,
        },
        None => match first_match_from(Pat::ScriptPath, t, 0) {
            Some(c) => Some(c.a),
            None => None,
        },
    }
}

fn add_script(
    scripts: &mut Vec<(Vec<char>, Vec<char>)>,
    node: &Vec<char>,
    sc: Option<Vec<char>>,
)
    ensures
        pairs_view(final(scripts)@) == with_script(pairs_view(old(scripts)@), node@, opt_chars(sc)),
{
    match sc {
        Some(p) => {
            let ghost before = scripts@;
            let ghost pair = (node@, p@);
            scripts.push((copy_chars(node), p));
            assert(pairs_view(scripts@) =~= pairs_view(before).push(pair));
        },
        None => {},
    }
}

fn push_node(nodes: &mut Vec<Vec<char>>, p: &Vec<char>)
    ensures
        final(nodes).deep_view() == old(nodes).deep_view().push(p@),
{
    let c = copy_chars(p);
    proof {
        lemma_chars_deep_view(c);
    }
    nodes.push(c);
    assert(nodes.deep_view() =~= old(nodes).deep_view().push(p@));
}

fn is_dot(v: &Vec<char>) -> (r: bool)
    ensures
        r == (v@ == "."@),
{
    proof {
        reveal_strlit(".");
    }
    same(v, &chars_of("."))
}

/// The node table after one more line.
#[verifier::rlimit(30)]
fn step_nodes(tb: &mut Nodes, line: &Vec<char>, ext: &Vec<(Vec<char>, Vec<char>)>)
    ensures
        final(tb)@ == node_step(old(tb)@, line@, pairs_view(ext@)),
{
    let t = trim_start_chars(line);
    if is_section_line(&t, "[node") {
        match extract_attr(&t, "path") {
            Some(p) => {
                if tb.root.is_none() && is_dot(&p) {
                    tb.root = Some(copy_chars(&p));
                }
                push_node(&mut tb.nodes, &p);
                add_script(&mut tb.scripts, &p, script_of_line(&t, ext));
                tb.current = Some(p);
            },
            None => match extract_attr(&t, "name") {
                Some(n) => {
                    let parent = match extract_attr(&t, "parent") {
                        Some(x) => x,
                        None => chars_of("."),
                    };
                    let full = if is_dot(&parent) {
                        n
                    } else {
                        let mut f = copy_chars(&parent);
                        f.push('/');
                        push_all(&mut f, &n);
                        proof {
                            reveal_strlit("/");
                            assert(f@ =~= parent@ + "/"@ + n@);
                        }
                        f
                    };
                    if tb.root.is_none() && is_dot(&parent) {
                        tb.root = Some(copy_chars(&full));
                    }
                    push_node(&mut tb.nodes, &full);
                    add_script(&mut tb.scripts, &full, script_of_line(&t, ext));
                    tb.current = Some(full);
                },
                None => {},
            },
        }
    } else {
        match &tb.current {
            Some(cur) => {
                let c = copy_chars(cur);
                add_script(&mut tb.scripts, &c, script_of_line(&t, ext));
            },
            None => {},
        }
    }
}

/// The node table of a scene.
fn build_node_table(lines: &Vec<Vec<char>>, ext: &Vec<(Vec<char>, Vec<char>)>) -> (r: Nodes)
    ensures
        r@ == node_table(lines.deep_view(), pairs_view(ext@)),
{
    let mut nodes: Vec<Vec<char>> = Vec::new();
    push_node(&mut nodes, &chars_of("."));
    let mut tb = Nodes { nodes, scripts: Vec::new(), current: None, root: None };
    assert(tb@ == initial_nodes()) by {
        assert(tb.nodes.deep_view() =~= seq!["."@]);
        assert(pairs_view(tb.scripts@) =~= Seq::empty());
    }
    let mut k: usize = 0;
    assert(lines.deep_view().take(0) =~= Seq::<Seq<char>>::empty());
    while k < lines.len()
        invariant
            k <= lines.len(),
            tb@ == node_table(lines.deep_view().take(k as int), pairs_view(ext@)),
        decreases lines.len() - k,
    {
        proof {
            lemma_lines_deep_view(*lines, k as int);
            assert(lines.deep_view().take(k + 1).drop_last() =~= lines.deep_view().take(k as int));
        }
        step_nodes(&mut tb, &lines[k], ext);
        k = k + 1;
    }
    assert(lines.deep_view().take(k as int) =~= lines.deep_view());
    tb
}

fn ident(s: &Vec<char>) -> (r: bool)
    ensures
        r == is_ident(s@),
{
    if s.len() == 0 || !is_word_char(s[0]) || is_digit_char(s[0]) {
        return false;
    }
    let mut k: usize = 0;
    while k < s.len()
        invariant
            k <= s.len(),
            forall|m: int| 0 <= m < k ==> is_word(#[trigger] s@[m]),
        decreases s.len() - k,
    {
        if !is_word_char(s[k]) {
            return false;
        }
        k = k + 1;
    }
    true
}

/// Whether only blanks stand between a line start and `p`.
pub fn blank_before(src: &Vec<char>, p: usize) -> (r: bool)
    requires
        p <= src.len(),
    ensures
        r == blank_to_line_start(src@, p as int),
{
    let mut k = p;
    while k > 0
        invariant
            k <= p <= src.len(),
            blank_to_line_start(src@, k as int) == blank_to_line_start(src@, p as int),
        decreases k,
    {
        if src[k - 1] == '\n' {
            return true;
        }
        if !is_ws_char(src[k - 1]) {
            return false;
        }
        k = k - 1;
    }
    true
}

fn func_decl_here(src: &Vec<char>, p: usize, name: &Vec<char>) -> (r: bool)
    requires
        p <= src.len(),
    ensures
        r == func_decl_at(src@, p as int, name@),
{
    proof {
        reveal_strlit("func");
    }
    if !at(src, p, &chars_of("func")) {
        return false;
    }
    if !blank_before(src, p) {
        return false;
    }
    let q = skip_ws(src, p + 4);
    if q <= p + 4 || !at(src, q, name) {
        return false;
    }
    let r = skip_ws(src, q + name.len());
    r < src.len() && src[r] == '('
}

/// Whether `src` declares `func <name>(` at the start of some line.
fn declares_func(src: &Vec<char>, name: &Vec<char>) -> (r: bool)
    ensures
        r == func_decl_from(src@, 0, name@),
{
    let mut p: usize = 0;
    while p < src.len()
        invariant
            p <= src.len(),
            func_decl_from(src@, 0, name@) == func_decl_from(src@, p as int, name@),
        decreases src.len() - p,
    {
        if func_decl_here(src, p, name) {
            return true;
        }
        p = p + 1;
    }
    false
}

fn has_suffix(s: &Vec<char>, suffix: &str) -> (r: bool)
    ensures
        r == ends_with(s@, suffix@),
{
    let t = chars_of(suffix);
    if s.len() < t.len() {
        return false;
    }
    let r = at(s, s.len() - t.len(), &t);
    r
}

fn push_issue(out: &mut Vec<SceneIssue>, file: &String, lno: usize, msg: &Vec<char>)
    ensures
        scene_issues_view(final(out)@) == scene_issues_view(old(out)@).push(
            scene_issue(file@, lno as int, None, msg@),
        ),
{
    out.push(SceneIssue { file: file.clone(), line: lno, node_path: None, message: string_of(msg) });
    assert(scene_issues_view(out@) =~= scene_issues_view(old(out)@).push(
        scene_issue(file@, lno as int, None, msg@),
    ));
}

#[verifier::rlimit(30)]
fn push_method_issues(
    out: &mut Vec<SceneIssue>,
    file: &String,
    tree: &ProjectTree,
    tb: &Nodes,
    to: &Vec<char>,
    m: &Vec<char>,
    lno: usize,
)
    ensures
        scene_issues_view(final(out)@) == scene_issues_view(old(out)@) + method_issues(
            file@,
            tree@.files,
            tb@,
            to@,
            m@,
            lno as int,
        ),
{
    let ghost out0 = scene_issues_view(out@);
    let mn = trim_chars(m);
    if !ident(&mn) {
        let mut msg = cat("Invalid method name: '", m);
        push_all(
            &mut msg,
            &chars_of("' — hint: use letters/numbers/underscore and start with a letter/underscore"),
        );
        push_issue(out, file, lno, &msg);
        assert(scene_issues_view(out@) =~= out0 + method_issues(file@, tree@.files, tb@, to@, m@, lno as int));
        return;
    }
    let target = if is_dot(to) {
        let dot = chars_of(".");
        if lookup_ext(&tb.scripts, &dot).is_some() {
            Some(dot)
        } else {
            opt_copy(&tb.root)
        }
    } else {
        Some(copy_chars(to))
    };
    proof {
        reveal_strlit("res://");
    }
    match target {
        Some(tnp) => match lookup_ext(&tb.scripts, &tnp) {
            Some(sp) => {
                if has_suffix(&sp, ".gd") && at(&sp, 0, &chars_of("res://")) {
                    let rel = slice(&sp, 6, sp.len());
                    match tree.text_of(&rel) {
                        Some(src) => {
                            let srcc = chars_of(src.as_str());
                            if !declares_func(&srcc, &mn) {
                                let mut msg = cat("Target method not found: method='", &mn);
                                push_all(&mut msg, &chars_of("' to='"));
                                push_all(&mut msg, to);
                                push_all(&mut msg, &chars_of("' — hint: define 'func "));
                                push_all(&mut msg, &mn);
                                push_all(&mut msg, &chars_of("(...)' in "));
                                push_all(&mut msg, &sp);
                                push_issue(out, file, lno, &msg);
                            }
                        },
                        None => {},
                    }
                }
            },
            None => {},
        },
        None => {},
    }
    assert(scene_issues_view(out@) =~= out0 + method_issues(file@, tree@.files, tb@, to@, m@, lno as int));
}

fn push_endpoint_issues(
    out: &mut Vec<SceneIssue>,
    file: &String,
    tb: &Nodes,
    v: &Option<Vec<char>>,
    which: &str,
    lno: usize,
)
    ensures
        scene_issues_view(final(out)@) == scene_issues_view(old(out)@) + endpoint_issues(
            file@,
            tb@,
            opt_chars(*v),
            which@,
            lno as int,
        ),
{
    let ghost out0 = scene_issues_view(out@);
    let w = chars_of(which);
    match v {
        Some(x) => {
            if !is_dot(x) && !crate::scene_validate::tree_has(&tb.nodes, x) {
                let mut msg = cat("Unknown connection '", &w);
                push_all(&mut msg, &chars_of("' node: "));
                push_all(&mut msg, x);
                push_all(&mut msg, &chars_of(" — hint: create node or correct the '"));
                push_all(&mut msg, &w);
                push_all(&mut msg, &chars_of("' path"));
                push_issue(out, file, lno, &msg);
            }
        },
        None => {
            let mut msg = cat("Connection missing ", &w);
            push_all(&mut msg, &chars_of(" field — hint: set "));
            push_all(&mut msg, &w);
            push_all(&mut msg, &chars_of("=\"<node_path>\" (use '.' for the scene root)"));
            push_issue(out, file, lno, &msg);
        },
    }
    assert(scene_issues_view(out@) =~= out0 + endpoint_issues(file@, tb@, opt_chars(*v), which@, lno as int));
}

pub open spec fn keys_view(v: Seq<(Vec<char>, Vec<char>, Vec<char>, Vec<char>)>) -> Seq<ConnKey> {
    v.map_values(|k: (Vec<char>, Vec<char>, Vec<char>, Vec<char>)| (k.0@, k.1@, k.2@, k.3@))
}

fn seen_before(
    seen: &Vec<(Vec<char>, Vec<char>, Vec<char>, Vec<char>)>,
    s: &Vec<char>,
    f: &Vec<char>,
    t: &Vec<char>,
    m: &Vec<char>,
) -> (r: bool)
    ensures
        r == keys_view(seen@).contains((s@, f@, t@, m@)),
{
    let mut k: usize = 0;
    while k < seen.len()
        invariant
            k <= seen.len(),
            forall|j: int| 0 <= j < k ==> keys_view(seen@)[j] != (s@, f@, t@, m@),
        decreases seen.len() - k,
    {
        let e = &seen[k];
        if same(&e.0, s) && same(&e.1, f) && same(&e.2, t) && same(&e.3, m) {
            assert(keys_view(seen@)[k as int] == (s@, f@, t@, m@));
            return true;
        }
        k = k + 1;
    }
    false
}

/// The signal validator on one line: records the connection and appends the findings.
#[verifier::rlimit(30)]
fn check_connection_line(
    out: &mut Vec<SceneIssue>,
    seen: &mut Vec<(Vec<char>, Vec<char>, Vec<char>, Vec<char>)>,
    file: &String,
    tree: &ProjectTree,
    tb: &Nodes,
    line: &Vec<char>,
    lno: usize,
)
    ensures
        keys_view(final(seen)@) == conn_line(file@, tree@.files, tb@, keys_view(old(seen)@), line@, lno as int).0,
        scene_issues_view(final(out)@) == scene_issues_view(old(out)@) + conn_line(
            file@,
            tree@.files,
            tb@,
            keys_view(old(seen)@),
            line@,
            lno as int,
        ).1,
{
    let ghost out0 = scene_issues_view(out@);
    let ghost seen0 = keys_view(seen@);
    let ghost spec_r = conn_line(file@, tree@.files, tb@, seen0, line@, lno as int);
    let t = trim_start_chars(line);
    if !is_section_line(&t, "[connection") {
        assert(scene_issues_view(out@) =~= out0 + spec_r.1);
        return;
    }
    let signal = extract_attr(&t, "signal");
    let from = extract_attr(&t, "from");
    let to = extract_attr(&t, "to");
    let method = extract_attr(&t, "method");
    if signal.is_none() {
        push_issue(
            out,
            file,
            lno,
            &chars_of("Connection missing signal field — hint: set signal=\"<name>\" in [connection]"),
        );
    }
    if method.is_none() {
        push_issue(
            out,
            file,
            lno,
            &chars_of(
                "Connection missing method field — hint: set method=\"<func>\" and ensure the target node's script defines it",
            ),
        );
    }
    push_endpoint_issues(out, file, tb, &from, "from", lno);
    push_endpoint_issues(out, file, tb, &to, "to", lno);
    match (signal, from, to, method) {
        (Some(s), Some(f), Some(t2), Some(m)) => {
            if seen_before(seen, &s, &f, &t2, &m) {
                let mut msg = cat("Duplicate connection: signal=", &s);
                push_all(&mut msg, &chars_of(" from="));
                push_all(&mut msg, &f);
                push_all(&mut msg, &chars_of(" to="));
                push_all(&mut msg, &t2);
                push_all(&mut msg, &chars_of(" method="));
                push_all(&mut msg, &m);
                push_all(&mut msg, &chars_of(" — hint: remove the duplicate [connection] line"));
                push_issue(out, file, lno, &msg);
            }
            push_method_issues(out, file, tree, tb, &t2, &m, lno);
            let ghost key = (s@, f@, t2@, m@);
            let ghost before = seen@;
            seen.push((s, f, t2, m));
            assert(keys_view(seen@) =~= keys_view(before).push(key));
        },
        _ => {},
    }
    assert(scene_issues_view(out@) =~= out0 + spec_r.1);
}

/// Validates the connection records of the scene at `scene_rel`: missing fields, unknown
/// endpoints, repeated records, malformed method names, and methods that the target node's
/// script does not declare. A scene that was not read gives no findings.
#[verifier::rlimit(30)]
pub fn validate_scene_signals(tree: &ProjectTree, scene_rel: &str) -> (r: Vec<SceneIssue>)
    ensures
        scene_issues_view(r@) == signal_findings(tree@, scene_rel@),
{
    let rel = chars_of(scene_rel);
    let text = match tree.text_of(&rel) {
        Some(t) => t,
        None => {
            return Vec::new();
        },
    };
    let file = string_of(&rel);
    let lines = split_lines(&chars_of(text.as_str()));
    let ext = build_ext_table(&lines);
    let tb = build_node_table(&lines, &ext);
    let mut seen: Vec<(Vec<char>, Vec<char>, Vec<char>, Vec<char>)> = Vec::new();
    let mut out: Vec<SceneIssue> = Vec::new();
    let ghost all = lines.deep_view();
    assert(keys_view(seen@) =~= Seq::empty());
    let mut k: usize = 0;
    while k < lines.len()
        invariant
            k <= lines.len(),
            all == lines.deep_view(),
            tb@ == node_table(all, ext_table(all)),
            scene_issues_view(out@) + conn_scan(file@, tree@.files, tb@, all, k as int, keys_view(seen@))
                == conn_scan(file@, tree@.files, tb@, all, 0, Seq::empty()),
        decreases lines.len() - k,
    {
        proof {
            lemma_lines_deep_view(lines, k as int);
        }
        let ghost before = scene_issues_view(out@);
        let ghost seen_before_v = keys_view(seen@);
        check_connection_line(&mut out, &mut seen, &file, tree, &tb, &lines[k], k + 1);
        assert(before + conn_scan(file@, tree@.files, tb@, all, k as int, seen_before_v)
            =~= scene_issues_view(out@) + conn_scan(file@, tree@.files, tb@, all, k + 1, keys_view(seen@)));
        k = k + 1;
    }
    assert(scene_issues_view(out@) + conn_scan(file@, tree@.files, tb@, all, k as int, keys_view(seen@))
        =~= scene_issues_view(out@));
    out
}

/// A well-formed connection of a scene, for the connection graph.
#[derive(Clone, Debug)]
pub struct ConnectionEdge {
    pub scene: String,
    pub from: String,
    pub to: String,
    pub signal: String,
    pub method: String,
}

pub struct EdgeV {
    pub scene: Seq<char>,
    pub from: Seq<char>,
    pub to: Seq<char>,
    pub signal: Seq<char>,
    pub method: Seq<char>,
}

impl View for ConnectionEdge {
    type V = EdgeV;

    open spec fn view(&self) -> EdgeV {
        EdgeV {
            scene: self.scene@,
            from: self.from@,
            to: self.to@,
            signal: self.signal@,
            method: self.method@,
        }
    }
}

/// Edges order by scene (component by component), then `from`, `to`, `signal`, `method`.
impl Keyed for ConnectionEdge {
    open spec fn key_of(v: EdgeV) -> Seq<int> {
        path_key(v.scene) + seq![0] + text_key(v.from) + seq![0] + text_key(v.to) + seq![0]
            + text_key(v.signal) + seq![0] + text_key(v.method)
    }

    fn sort_key(&self) -> (r: Vec<u64>) {
        let mut r: Vec<u64> = Vec::new();
        assert(crate::sort::keys_int(r@) =~= Seq::empty());
        push_path_key(&mut r, &chars_of(self.scene.as_str()));
        push_sep(&mut r);
        push_text_key(&mut r, &chars_of(self.from.as_str()));
        push_sep(&mut r);
        push_text_key(&mut r, &chars_of(self.to.as_str()));
        push_sep(&mut r);
        push_text_key(&mut r, &chars_of(self.signal.as_str()));
        push_sep(&mut r);
        push_text_key(&mut r, &chars_of(self.method.as_str()));
        assert(crate::sort::keys_int(r@) =~= Self::key_of(self@));
        r
    }
}

/// The connection records of a scene, in file order, that name all of `signal`, `from`, `to`
/// and `method` and whose endpoints are `.` or known node paths.
pub open spec fn edges_of(scene: Seq<char>, nodes: Seq<Seq<char>>, lines: Seq<Seq<char>>) -> Seq<EdgeV>
    decreases lines.len(),
{
    if lines.len() == 0 {
        Seq::empty()
    } else {
        let prev = edges_of(scene, nodes, lines.drop_last());
        let t = trim_start(lines.last());
        if section_line(t, "[connection"@) {
            match (attr(t, "signal"@), attr(t, "from"@), attr(t, "to"@), attr(t, "method"@)) {
                (Some(sg), Some(f), Some(to), Some(m)) => if (f == "."@ || nodes.contains(f)) && (
                to == "."@ || nodes.contains(to)) {
                    prev.push(EdgeV { scene, from: f, to, signal: sg, method: m })
                } else {
                    prev
                },
                _ => prev,
            }
        } else {
            prev
        }
    }
}

/// The well-formed connections of the scene at `scene_rel`, sorted: none if it was not read.
pub open spec fn scene_edges(tree: ProjectTreeV, scene_rel: Seq<char>) -> Seq<EdgeV> {
    match file_text(tree.files, scene_rel) {
        Some(text) => {
            let lines = lines_of(text);
            stable_sort(
                edges_of(scene_rel, node_table(lines, Seq::empty()).nodes, lines),
                key_fn::<ConnectionEdge>(),
            )
        },
        None => Seq::empty(),
    }
}

/// Collects the well-formed connections of the scene at `scene_rel`, sorted. Unlike
/// `validate_scene_signals`, nothing is reported: a record with an unknown endpoint is left out.
#[verifier::rlimit(30)]
pub fn extract_scene_connections(tree: &ProjectTree, scene_rel: &str) -> (r: Vec<ConnectionEdge>)
    ensures
        views(r@) == scene_edges(tree@, scene_rel@),
{
    let rel = chars_of(scene_rel);
    let text = match tree.text_of(&rel) {
        Some(t) => t,
        None => {
            assert(views(Seq::<ConnectionEdge>::empty()) =~= Seq::empty());
            return Vec::new();
        },
    };
    let lines = split_lines(&chars_of(text.as_str()));
    let no_ext: Vec<(Vec<char>, Vec<char>)> = Vec::new();
    assert(pairs_view(no_ext@) =~= Seq::empty());
    let tb = build_node_table(&lines, &no_ext);
    let ghost all = lines.deep_view();
    let mut edges: Vec<ConnectionEdge> = Vec::new();
    let mut k: usize = 0;
    assert(all.take(0) =~= Seq::<Seq<char>>::empty());
    assert(views(edges@) =~= Seq::empty());
    while k < lines.len()
        invariant
            k <= lines.len(),
            all == lines.deep_view(),
            tb@.nodes == node_table(all, Seq::empty()).nodes,
            views(edges@) == edges_of(rel@, tb@.nodes, all.take(k as int)),
        decreases lines.len() - k,
    {
        proof {
            lemma_lines_deep_view(lines, k as int);
            assert(all.take(k + 1).drop_last() =~= all.take(k as int));
        }
        let t = trim_start_chars(&lines[k]);
        if is_section_line(&t, "[connection") {
            let sg = extract_attr(&t, "signal");
            let f = extract_attr(&t, "from");
            let to = extract_attr(&t, "to");
            let m = extract_attr(&t, "method");
            match (sg, f, to, m) {
                (Some(sg), Some(f), Some(to), Some(m)) => {
                    if (is_dot(&f) || crate::scene_validate::tree_has(&tb.nodes, &f)) && (is_dot(&to)
                        || crate::scene_validate::tree_has(&tb.nodes, &to)) {
                        let e = ConnectionEdge {
                            scene: string_of(&rel),
                            from: string_of(&f),
                            to: string_of(&to),
                            signal: string_of(&sg),
                            method: string_of(&m),
                        };
                        let ghost before = edges@;
                        edges.push(e);
                        assert(views(edges@) =~= views(before).push(
                            EdgeV { scene: rel@, from: f@, to: to@, signal: sg@, method: m@ },
                        ));
                    }
                },
                _ => {},
            }
        }
        k = k + 1;
    }
    assert(all.take(k as int) =~= all);
    sort_stable(edges)
}

/// `s` with `\` put before each `"`.
pub open spec fn escape_quotes(s: Seq<char>) -> Seq<char>
    decreases s.len(),
{
    if s.len() == 0 {
        s
    } else {
        escape_quotes(s.drop_last()) + if s.last() == '"' {
            seq!['\\', '"']
        } else {
            seq![s.last()]
        }
    }
}

fn push_escaped(out: &mut Vec<char>, s: &Vec<char>)
    ensures
        final(out)@ == old(out)@ + escape_quotes(s@),
{
    let ghost start = out@;
    let mut k: usize = 0;
    assert(s@.take(0) =~= Seq::<char>::empty());
    assert(out@ =~= start + escape_quotes(s@.take(0)));
    while k < s.len()
        invariant
            k <= s.len(),
            out@ == start + escape_quotes(s@.take(k as int)),
        decreases s.len() - k,
    {
        assert(s@.take(k + 1).drop_last() =~= s@.take(k as int));
        if s[k] == '"' {
            out.push('\\');
            out.push('"');
        } else {
            out.push(s[k]);
        }
        assert(out@ =~= start + escape_quotes(s@.take(k + 1)));
        k = k + 1;
    }
    assert(s@.take(k as int) =~= s@);
}

/// The line that draws one edge: from `"<scene>:<from>"` to `"<scene>:<to>"`, labelled
/// `"<signal>:<method>"`, quotes escaped.
pub open spec fn dot_edge(e: EdgeV) -> Seq<char> {
    "  \""@ + escape_quotes(e.scene + ":"@ + e.from) + "\" -> \""@ + escape_quotes(
        e.scene + ":"@ + e.to,
    ) + "\" [label=\""@ + escape_quotes(e.signal + ":"@ + e.method) + "\"];\n"@
}

pub open spec fn dot_edges(edges: Seq<EdgeV>) -> Seq<char>
    decreases edges.len(),
{
    if edges.len() == 0 {
        Seq::empty()
    } else {
        dot_edges(edges.drop_last()) + dot_edge(edges.last())
    }
}

/// The directed graph of the given edges, in DOT.
pub open spec fn dot_text(edges: Seq<EdgeV>) -> Seq<char> {
    "digraph Signals {\n  rankdir=LR;\n"@ + dot_edges(edges) + "}\n"@
}

fn joined(a: &String, b: &String) -> (r: Vec<char>)
    ensures
        r@ == a@ + ":"@ + b@,
{
    let mut r = chars_of(a.as_str());
    push_all(&mut r, &chars_of(":"));
    push_all(&mut r, &chars_of(b.as_str()));
    r
}

/// Renders edges as a directed graph in DOT, one edge statement per edge, in the given order.
#[verifier::rlimit(30)]
pub fn connections_to_dot(edges: &Vec<ConnectionEdge>) -> (r: String)
    ensures
        r@ == dot_text(views(edges@)),
{
    let mut out = chars_of("digraph Signals {\n  rankdir=LR;\n");
    let ghost head = out@;
    let mut k: usize = 0;
    assert(views(edges@).take(0) =~= Seq::<EdgeV>::empty());
    assert(out@ =~= head + dot_edges(views(edges@).take(0)));
    while k < edges.len()
        invariant
            k <= edges.len(),
            head == "digraph Signals {\n  rankdir=LR;\n"@,
            out@ == head + dot_edges(views(edges@).take(k as int)),
        decreases edges.len() - k,
    {
        let e = &edges[k];
        assert(views(edges@).take(k + 1).drop_last() =~= views(edges@).take(k as int));
        assert(views(edges@).take(k + 1).last() == e@);
        let ghost prev = out@;
        push_all(&mut out, &chars_of("  \""));
        push_escaped(&mut out, &joined(&e.scene, &e.from));
        push_all(&mut out, &chars_of("\" -> \""));
        push_escaped(&mut out, &joined(&e.scene, &e.to));
        push_all(&mut out, &chars_of("\" [label=\""));
        push_escaped(&mut out, &joined(&e.signal, &e.method));
        push_all(&mut out, &chars_of("\"];\n"));
        assert(out@ =~= prev + dot_edge(e@));
        k = k + 1;
    }
    assert(views(edges@).take(k as int) =~= views(edges@));
    push_all(&mut out, &chars_of("}\n"));
    string_of(&out)
}

} // verus!
