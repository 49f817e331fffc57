use vstd::prelude::*;
use crate::pattern::{all_matches, first_match, first_match_from, matches_from, CapV, Pat};
use crate::{file_text, ProjectTree, ProjectTreeV};
use crate::text::{
    at, attr, chars_of, extract_attr, has_at, is_word, is_word_char, lines_of, push_all, skip_ws,
    split_lines, string_of, ws_end,
};

verus! {

broadcast use vstd::string::group_string_axioms;

/// A finding of the scene validator or of the signal validator, tied to a line of a scene.
#[derive(Clone, Debug)]
pub struct SceneIssue {
    pub file: String,
    /// 1-based.
    pub line: usize,
    pub node_path: Option<String>,
    pub message: String,
}

pub struct SceneIssueV {
    pub file: Seq<char>,
    pub line: int,
    pub node_path: Option<Seq<char>>,
    pub message: Seq<char>,
}

impl View for SceneIssue {
    type V = SceneIssueV;

    open spec fn view(&self) -> SceneIssueV {
        SceneIssueV {
            file: self.file@,
            line: self.line as int,
            node_path: crate::opt_str_view(self.node_path),
            message: self.message@,
        }
    }
}

pub open spec fn scene_issues_view(v: Seq<SceneIssue>) -> Seq<SceneIssueV> {
    v.map_values(|i: SceneIssue| i@)
}

/// After leading blanks, the line opens the section `tag` (`[ext_resource`, `[node`, ...),
/// the tag not continued by an identifier character.
pub open spec fn section_line(line: Seq<char>, tag: Seq<char>) -> bool {
    let j = ws_end(line, 0);
    has_at(line, j, tag) && (j + tag.len() == line.len() || !is_word(line[j + tag.len()]))
}

/// Whether `line` opens the section `tag`.
pub fn is_section_line(line: &Vec<char>, tag: &str) -> (r: bool)
    ensures
        r == section_line(line@, tag@),
{
    let t = chars_of(tag);
    let j = skip_ws(line, 0);
    if !at(line, j, &t) {
        return false;
    }
    let e = j + t.len();
    e == line.len() || !is_word_char(line[e])
}

/// The file that a project-relative `res://` path names is absent from `tree`, the set of paths
/// (relative to the project root) that exist. Other paths are never missing.
pub open spec fn res_missing(tree: Seq<Seq<char>>, p: Seq<char>) -> bool {
    has_at(p, 0, "res://"@) && !tree.contains(p.subrange(6, p.len() as int))
}

/// Whether `tree` holds `p`.
pub fn tree_has(tree: &Vec<Vec<char>>, p: &Vec<char>) -> (r: bool)
    ensures
        r == tree.deep_view().contains(p@),
{
    let mut k: usize = 0;
    while k < tree.len()
        invariant
            k <= tree.len(),
            forall|m: int| 0 <= m < k ==> tree.deep_view()[m] != p@,
        decreases tree.len() - k,
    {
        proof {
            crate::text::lemma_lines_deep_view(*tree, k as int);
        }
        if crate::text::same(&tree[k], p) {
            return true;
        }
        k = k + 1;
    }
    false
}

/// Whether `p` is a `res://` path whose file is not in `tree`.
pub fn is_res_missing(tree: &Vec<Vec<char>>, p: &Vec<char>) -> (r: bool)
    ensures
        r == res_missing(tree.deep_view(), p@),
{
    proof {
        reveal_strlit("res://");
    }
    if !at(p, 0, &chars_of("res://")) {
        return false;
    }
    let rest = crate::text::slice(p, 6, p.len());
    !tree_has(tree, &rest)
}

/// `a` followed by `b`.
pub fn cat(a: &str, b: &Vec<char>) -> (r: Vec<char>)
    ensures
        r@ == a@ + b@,
{
    let mut r = chars_of(a);
    push_all(&mut r, b);
    r
}

/// What the scene validator knows when it reaches a line: the external resources declared so
/// far (id and path, latest last), the local resource ids declared so far, and the current node.
pub struct SceneScan {
    pub ext: Seq<(Seq<char>, Seq<char>)>,
    pub subs: Seq<Seq<char>>,
    pub node: Option<Seq<char>>,
}

/// The path declared for external resource `id`; a later declaration replaces an earlier one.
pub open spec fn ext_lookup(ext: Seq<(Seq<char>, Seq<char>)>, id: Seq<char>) -> Option<Seq<char>>
    decreases ext.len(),
{
    if ext.len() == 0 {
        None
    } else if ext.last().0 == id {
        Some(ext.last().1)
    } else {
        ext_lookup(ext.drop_last(), id)
    }
}

pub open spec fn scene_issue(file: Seq<char>, lno: int, node: Option<Seq<char>>, msg: Seq<char>) -> SceneIssueV {
    SceneIssueV { file, line: lno, node_path: node, message: msg }
}

/// A use of external resource `id`: unknown id, or a declared `res://` path whose file is
/// missing (reported as `missing_prefix` followed by the path).
pub open spec fn ext_use_issues(
    file: Seq<char>,
    tree: Seq<Seq<char>>,
    ext: Seq<(Seq<char>, Seq<char>)>,
    lno: int,
    node: Option<Seq<char>>,
    id: Seq<char>,
    missing_prefix: Seq<char>,
) -> Seq<SceneIssueV> {
    match ext_lookup(ext, id) {
        Some(path) => if res_missing(tree, path) {
            seq![scene_issue(file, lno, node, missing_prefix + path)]
        } else {
            Seq::empty()
        },
        None => seq![scene_issue(file, lno, node, "Unknown ExtResource id: "@ + id)],
    }
}

/// One finding for each `SubResource(...)` use in `caps` whose id was not declared.
pub open spec fn unknown_sub_issues(
    file: Seq<char>,
    lno: int,
    node: Option<Seq<char>>,
    subs: Seq<Seq<char>>,
    caps: Seq<CapV>,
) -> Seq<SceneIssueV>
    decreases caps.len(),
{
    if caps.len() == 0 {
        Seq::empty()
    } else {
        let rest = unknown_sub_issues(file, lno, node, subs, caps.drop_last());
        if subs.contains(caps.last().a) {
            rest
        } else {
            rest.push(scene_issue(file, lno, node, "Unknown SubResource id: "@ + caps.last().a))
        }
    }
}

/// A `preload("res://...")` or `load("res://...")` whose file is missing.
pub open spec fn call_issues(
    file: Seq<char>,
    tree: Seq<Seq<char>>,
    lno: int,
    m: Option<CapV>,
    prefix: Seq<char>,
) -> Seq<SceneIssueV> {
    match m {
        Some(c) => if res_missing(tree, c.a) {
            seq![scene_issue(file, lno, None, prefix + c.a)]
        } else {
            Seq::empty()
        },
        None => Seq::empty(),
    }
}

/// The path of a node declared with `name` under `parent`: the name alone under `.`.
pub open spec fn child_path(parent: Seq<char>, name: Seq<char>) -> Seq<char> {
    if parent == "."@ {
        name
    } else {
        parent + "/"@ + name
    }
}

/// The node path that a node header names: its `path` attribute, or else its `name` joined to
/// its `parent` (`.` when absent).
pub open spec fn header_node(line: Seq<char>) -> Option<Seq<char>> {
    match attr(line, "path"@) {
        Some(p) => Some(p),
        None => match attr(line, "name"@) {
            Some(n) => Some(
                child_path(
                    match attr(line, "parent"@) {
                        Some(x) => x,
                        None => "."@,
                    },
                    n,
                ),
            ),
            None => None,
        },
    }
}

/// The node path that a node header names.
pub fn header_node_of(line: &Vec<char>) -> (r: Option<Vec<char>>)
    ensures
        opt_chars(r) == header_node(line@),
{
    match extract_attr(line, "path") {
        Some(p) => Some(p),
        None => match extract_attr(line, "name") {
            Some(n) => {
                let parent = match extract_attr(line, "parent") {
                    Some(x) => x,
                    None => chars_of("."),
                };
                proof {
                    reveal_strlit(".");
                    reveal_strlit("/");
                }
                if crate::text::same(&parent, &chars_of(".")) {
                    Some(n)
                } else {
                    let mut f = parent;
                    f.push('/');
                    push_all(&mut f, &n);
                    Some(f)
                }
            },
            None => None,
        },
    }
}

/// The state after a line that declares no external resource.
pub open spec fn next_state(st: SceneScan, line: Seq<char>) -> SceneScan {
    let subs = if section_line(line, "[sub_resource"@) && first_match(Pat::Id, line, 0) is Some {
        st.subs.push(first_match(Pat::Id, line, 0)->0.a)
    } else {
        st.subs
    };
    let node = if has_at(line, ws_end(line, 0), "[node "@) {
        header_node(line)
    } else {
        st.node
    };
    SceneScan { ext: st.ext, subs, node }
}

/// Findings on the node's script: a `script="res://..."` attribute whose file is missing, and a
/// `script = ExtResource("id")` use.
pub open spec fn script_issues(
    file: Seq<char>,
    tree: Seq<Seq<char>>,
    st: SceneScan,
    line: Seq<char>,
    lno: int,
) -> Seq<SceneIssueV> {
    let i1 = match attr(line, "script"@) {
        Some(sc) => if res_missing(tree, sc) {
            seq![scene_issue(file, lno, st.node, "Missing script: "@ + sc)]
        } else {
            Seq::empty()
        },
        None => Seq::empty(),
    };
    let i2 = match first_match(Pat::ScriptExt, line, 0) {
        Some(c) => ext_use_issues(
            file,
            tree,
            st.ext,
            lno,
            st.node,
            c.a,
            "Script ExtResource("@ + c.a + ") missing file "@,
        ),
        None => Seq::empty(),
    };
    i1 + i2
}

/// Findings on the other references of a line: a property set from an external resource, local
/// resource uses, and `preload` / `load` calls.
pub open spec fn reference_issues(
    file: Seq<char>,
    tree: Seq<Seq<char>>,
    st: SceneScan,
    line: Seq<char>,
    lno: int,
) -> Seq<SceneIssueV> {
    let i3 = match first_match(Pat::PropExt, line, 0) {
        Some(c) => ext_use_issues(
            file,
            tree,
            st.ext,
            lno,
            st.node,
            c.b,
            "Property '"@ + c.a + "' ExtResource("@ + c.b + ") missing file "@,
        ),
        None => Seq::empty(),
    };
    let i4 = match first_match(Pat::PropSub, line, 0) {
        Some(c) => if st.subs.contains(c.b) {
            Seq::empty()
        } else {
            seq![scene_issue(file, lno, st.node, "Unknown SubResource id: "@ + c.b)]
        },
        None => Seq::empty(),
    };
    let i5 = unknown_sub_issues(file, lno, st.node, st.subs, all_matches(Pat::AnySub, line, 0));
    let i6 = call_issues(file, tree, lno, first_match(Pat::Preload, line, 0), "Preload missing file: "@);
    let i7 = call_issues(file, tree, lno, first_match(Pat::Load, line, 0), "Load missing file: "@);
    i3 + i4 + i5 + i6 + i7
}

/// The scene validator on one line: the state after it and the findings on it. A line that sets
/// `script` from an external resource through the property form is not checked further.
pub open spec fn scene_line(
    file: Seq<char>,
    tree: Seq<Seq<char>>,
    st: SceneScan,
    line: Seq<char>,
    lno: int,
) -> (SceneScan, Seq<SceneIssueV>) {
    if section_line(line, "[ext_resource"@) {
        match (first_match(Pat::Id, line, 0), first_match(Pat::PathAttr, line, 0)) {
            (Some(id), Some(p)) => (
                SceneScan { ext: st.ext.push((id.a, p.a)), subs: st.subs, node: st.node },
                if res_missing(tree, p.a) {
                    seq![scene_issue(file, lno, None, "Missing ext_resource path: "@ + p.a)]
                } else {
                    Seq::empty()
                },
            ),
            _ => (st, Seq::empty()),
        }
    } else {
        let st2 = next_state(st, line);
        match first_match(Pat::PropExt, line, 0) {
            Some(c) if c.a == "script"@ => (st2, script_issues(file, tree, st2, line, lno)),
            _ => (
                st2,
                script_issues(file, tree, st2, line, lno) + reference_issues(
                    file,
                    tree,
                    st2,
                    line,
                    lno,
                ),
            ),
        }
    }
}

/// The scene validator on the lines from `k` on, in state `st`.
pub open spec fn scene_scan(
    file: Seq<char>,
    tree: Seq<Seq<char>>,
    lines: Seq<Seq<char>>,
    k: int,
    st: SceneScan,
) -> Seq<SceneIssueV>
    decreases lines.len() - k,
{
    if k < 0 || k >= lines.len() {
        Seq::empty()
    } else {
        let (st2, found) = scene_line(file, tree, st, lines[k], k + 1);
        found + scene_scan(file, tree, lines, k + 1, st2)
    }
}

pub open spec fn empty_scan() -> SceneScan {
    SceneScan { ext: Seq::empty(), subs: Seq::empty(), node: None }
}

/// The findings of the scene validator on the scene at `scene_rel`: none if it was not read.
pub open spec fn scene_findings(tree: ProjectTreeV, scene_rel: Seq<char>) -> Seq<SceneIssueV> {
    match file_text(tree.files, scene_rel) {
        Some(t) => scene_scan(scene_rel, tree.paths, lines_of(t), 0, empty_scan()),
        None => Seq::empty(),
    }
}

/// The validator's state while it walks the lines of a scene.
pub struct ScanState {
    pub ext: Vec<(Vec<char>, Vec<char>)>,
    pub subs: Vec<Vec<char>>,
    pub node: Option<Vec<char>>,
}

pub open spec fn opt_chars(o: Option<Vec<char>>) -> Option<Seq<char>> {
    match o {
        Some(v) => Some(v@),
        None => None,
    }
}

pub open spec fn pairs_view(v: Seq<(Vec<char>, Vec<char>)>) -> Seq<(Seq<char>, Seq<char>)> {
    v.map_values(|p: (Vec<char>, Vec<char>)| (p.0@, p.1@))
}

impl View for ScanState {
    type V = SceneScan;

    open spec fn view(&self) -> SceneScan {
        SceneScan { ext: pairs_view(self.ext@), subs: self.subs.deep_view(), node: opt_chars(self.node) }
    }
}

/// `o` as an optional string.
pub fn opt_string(o: &Option<Vec<char>>) -> (r: Option<String>)
    ensures
        crate::opt_str_view(r) == opt_chars(*o),
{
    match o {
        Some(v) => Some(string_of(v)),
        None => None,
    }
}

/// The path declared for external resource `id`.
pub fn lookup_ext(ext: &Vec<(Vec<char>, Vec<char>)>, id: &Vec<char>) -> (r: Option<Vec<char>>)
    ensures
        opt_chars(r) == ext_lookup(pairs_view(ext@), id@),
{
    let mut k = ext.len();
    assert(pairs_view(ext@).take(k as int) =~= pairs_view(ext@));
    while k > 0
        invariant
            k <= ext.len(),
            ext_lookup(pairs_view(ext@), id@) == ext_lookup(pairs_view(ext@).take(k as int), id@),
        decreases k,
    {
        assert(pairs_view(ext@).take(k as int).drop_last() =~= pairs_view(ext@).take(k - 1));
        if crate::text::same(&ext[k - 1].0, id) {
            return Some(crate::text::slice(&ext[k - 1].1, 0, ext[k - 1].1.len()));
        }
        k = k - 1;
    }
    None
}

fn push_scene_issue(
    out: &mut Vec<SceneIssue>,
    file: &String,
    lno: usize,
    node: &Option<Vec<char>>,
    msg: &Vec<char>,
)
    ensures
        scene_issues_view(final(out)@) == scene_issues_view(old(out)@).push(
            scene_issue(file@, lno as int, opt_chars(*node), msg@),
        ),
{
    let iss = SceneIssue {
        file: file.clone(),
        line: lno,
        node_path: opt_string(node),
        message: string_of(msg),
    };
    out.push(iss);
    assert(scene_issues_view(out@) =~= scene_issues_view(old(out)@).push(
        scene_issue(file@, lno as int, opt_chars(*node), msg@),
    ));
}

fn push_ext_use(
    out: &mut Vec<SceneIssue>,
    file: &String,
    tree: &Vec<Vec<char>>,
    ext: &Vec<(Vec<char>, Vec<char>)>,
    lno: usize,
    node: &Option<Vec<char>>,
    id: &Vec<char>,
    missing_prefix: &Vec<char>,
)
    ensures
        scene_issues_view(final(out)@) == scene_issues_view(old(out)@) + ext_use_issues(
            file@,
            tree.deep_view(),
            pairs_view(ext@),
            lno as int,
            opt_chars(*node),
            id@,
            missing_prefix@,
        ),
{
    match lookup_ext(ext, id) {
        Some(path) => {
            if is_res_missing(tree, &path) {
                let mut msg = crate::text::slice(missing_prefix, 0, missing_prefix.len());
                assert(msg@ =~= missing_prefix@);
                push_all(&mut msg, &path);
                push_scene_issue(out, file, lno, node, &msg);
            }
        },
        None => {
            let msg = cat("Unknown ExtResource id: ", id);
            push_scene_issue(out, file, lno, node, &msg);
        },
    }
    assert(scene_issues_view(final(out)@) =~= scene_issues_view(old(out)@) + ext_use_issues(
        file@,
        tree.deep_view(),
        pairs_view(ext@),
        lno as int,
        opt_chars(*node),
        id@,
        missing_prefix@,
    ));
}

pub open spec fn caps_view(v: Seq<crate::pattern::Cap>) -> Seq<CapV> {
    v.map_values(|c: crate::pattern::Cap| c@)
}

fn push_unknown_subs(
    out: &mut Vec<SceneIssue>,
    file: &String,
    lno: usize,
    node: &Option<Vec<char>>,
    subs: &Vec<Vec<char>>,
    caps: &Vec<crate::pattern::Cap>,
)
    ensures
        scene_issues_view(final(out)@) == scene_issues_view(old(out)@) + unknown_sub_issues(
            file@,
            lno as int,
            opt_chars(*node),
            subs.deep_view(),
            caps_view(caps@),
        ),
{
    let ghost start = scene_issues_view(out@);
    let mut k: usize = 0;
    assert(start + unknown_sub_issues(file@, lno as int, opt_chars(*node), subs.deep_view(), caps_view(caps@).take(0)) =~= start);
    while k < caps.len()
        invariant
            k <= caps.len(),
            scene_issues_view(out@) == start + unknown_sub_issues(
                file@,
                lno as int,
                opt_chars(*node),
                subs.deep_view(),
                caps_view(caps@).take(k as int),
            ),
        decreases caps.len() - k,
    {
        assert(caps_view(caps@).take(k + 1).drop_last() =~= caps_view(caps@).take(k as int));
        if !tree_has(subs, &caps[k].a) {
            let msg = cat("Unknown SubResource id: ", &caps[k].a);
            push_scene_issue(out, file, lno, node, &msg);
        }
        k = k + 1;
    }
    assert(caps_view(caps@).take(k as int) =~= caps_view(caps@));
}

fn push_call_issue(
    out: &mut Vec<SceneIssue>,
    file: &String,
    tree: &Vec<Vec<char>>,
    lno: usize,
    m: &Option<crate::pattern::Cap>,
    prefix: &str,
)
    ensures
        scene_issues_view(final(out)@) == scene_issues_view(old(out)@) + call_issues(
            file@,
            tree.deep_view(),
            lno as int,
            crate::pattern::opt_cap(*m),
            prefix@,
        ),
{
    match m {
        Some(c) => {
            if is_res_missing(tree, &c.a) {
                let msg = cat(prefix, &c.a);
                push_scene_issue(out, file, lno, &None, &msg);
            }
        },
        None => {},
    }
    assert(scene_issues_view(final(out)@) =~= scene_issues_view(old(out)@) + call_issues(
        file@,
        tree.deep_view(),
        lno as int,
        crate::pattern::opt_cap(*m),
        prefix@,
    ));
}

#[verifier::rlimit(30)]
fn push_script_issues(
    out: &mut Vec<SceneIssue>,
    st: &ScanState,
    file: &String,
    tree: &Vec<Vec<char>>,
    line: &Vec<char>,
    lno: usize,
)
    ensures
        scene_issues_view(final(out)@) == scene_issues_view(old(out)@) + script_issues(
            file@,
            tree.deep_view(),
            st@,
            line@,
            lno as int,
        ),
{
    let ghost out0 = scene_issues_view(out@);
    match extract_attr(line, "script") {
        Some(sc) => {
            if is_res_missing(tree, &sc) {
                let msg = cat("Missing script: ", &sc);
                push_scene_issue(out, file, lno, &st.node, &msg);
            }
        },
        None => {},
    }
    match first_match_from(Pat::ScriptExt, line, 0) {
        Some(c) => {
            let mut pre = cat("Script ExtResource(", &c.a);
            push_all(&mut pre, &chars_of(") missing file "));
            push_ext_use(out, file, tree, &st.ext, lno, &st.node, &c.a, &pre);
        },
        None => {},
    }
    assert(scene_issues_view(out@) =~= out0 + script_issues(
        file@,
        tree.deep_view(),
        st@,
        line@,
        lno as int,
    ));
}

#[verifier::rlimit(30)]
fn push_reference_issues(
    out: &mut Vec<SceneIssue>,
    st: &ScanState,
    file: &String,
    tree: &Vec<Vec<char>>,
    line: &Vec<char>,
    lno: usize,
)
    ensures
        scene_issues_view(final(out)@) == scene_issues_view(old(out)@) + reference_issues(
            file@,
            tree.deep_view(),
            st@,
            line@,
            lno as int,
        ),
{
    let ghost out0 = scene_issues_view(out@);
    match first_match_from(Pat::PropExt, line, 0) {
        Some(c) => {
            let mut pre = cat("Property '", &c.a);
            push_all(&mut pre, &chars_of("' ExtResource("));
            push_all(&mut pre, &c.b);
            push_all(&mut pre, &chars_of(") missing file "));
            push_ext_use(out, file, tree, &st.ext, lno, &st.node, &c.b, &pre);
        },
        None => {},
    }
    match first_match_from(Pat::PropSub, line, 0) {
        Some(c) => {
            if !tree_has(&st.subs, &c.b) {
                let msg = cat("Unknown SubResource id: ", &c.b);
                push_scene_issue(out, file, lno, &st.node, &msg);
            }
        },
        None => {},
    }
    let subs_found = matches_from(Pat::AnySub, line, 0);
    push_unknown_subs(out, file, lno, &st.node, &st.subs, &subs_found);
    let pre = first_match_from(Pat::Preload, line, 0);
    push_call_issue(out, file, tree, lno, &pre, "Preload missing file: ");
    let lo = first_match_from(Pat::Load, line, 0);
    push_call_issue(out, file, tree, lno, &lo, "Load missing file: ");
    assert(scene_issues_view(out@) =~= out0 + reference_issues(
        file@,
        tree.deep_view(),
        st@,
        line@,
        lno as int,
    ));
}

/// The state after a line that declares no external resource.
fn advance_state(st: &mut ScanState, line: &Vec<char>)
    ensures
        final(st)@ == next_state(old(st)@, line@),
{
    let ghost st0 = st@;
    if is_section_line(line, "[sub_resource") {
        match first_match_from(Pat::Id, line, 0) {
            Some(c) => {
                proof {
                    crate::text::lemma_chars_deep_view(c.a);
                }
                st.subs.push(c.a);
                assert(st.subs.deep_view() =~= st0.subs.push(c.a@));
            },
            None => {},
        }
    }
    let j = skip_ws(line, 0);
    proof {
        reveal_strlit("[node ");
    }
    if at(line, j, &chars_of("[node ")) {
        st.node = header_node_of(line);
    }
}

/// The scene validator on one line: updates the state and appends the line's findings.
#[verifier::rlimit(30)]
fn scan_line(
    out: &mut Vec<SceneIssue>,
    st: &mut ScanState,
    file: &String,
    tree: &Vec<Vec<char>>,
    line: &Vec<char>,
    lno: usize,
)
    ensures
        final(st)@ == scene_line(file@, tree.deep_view(), old(st)@, line@, lno as int).0,
        scene_issues_view(final(out)@) == scene_issues_view(old(out)@) + scene_line(
            file@,
            tree.deep_view(),
            old(st)@,
            line@,
            lno as int,
        ).1,
{
    let ghost st0 = st@;
    let ghost out0 = scene_issues_view(out@);
    let ghost spec_r = scene_line(file@, tree.deep_view(), st0, line@, lno as int);
    if is_section_line(line, "[ext_resource") {
        let id = first_match_from(Pat::Id, line, 0);
        let p = first_match_from(Pat::PathAttr, line, 0);
        match (id, p) {
            (Some(id), Some(p)) => {
                if is_res_missing(tree, &p.a) {
                    let msg = cat("Missing ext_resource path: ", &p.a);
                    push_scene_issue(out, file, lno, &None, &msg);
                }
                let ghost pv = p.a@;
                let ghost before = st.ext@;
                st.ext.push((id.a, p.a));
                assert(pairs_view(st.ext@) =~= pairs_view(before).push((spec_r.0.ext.last().0, pv)));
            },
            _ => {},
        }
        assert(scene_issues_view(out@) =~= out0 + spec_r.1);
        return;
    }
    advance_state(st, line);
    push_script_issues(out, st, file, tree, line, lno);
    let prop = first_match_from(Pat::PropExt, line, 0);
    let skip_rest = match &prop {
        Some(c) => crate::text::same(&c.a, &chars_of("script")),
        None => false,
    };
    if !skip_rest {
        push_reference_issues(out, st, file, tree, line, lno);
    }
    assert(scene_issues_view(out@) =~= out0 + spec_r.1);
}

/// Validates the scene at `scene_rel`: broken script, external-resource, local-resource,
/// `preload` and `load` references, line by line. A scene that was not read gives no findings.
#[verifier::rlimit(30)]
pub fn validate_scene(tree: &ProjectTree, scene_rel: &str) -> (r: Vec<SceneIssue>)
    ensures
        scene_issues_view(r@) == scene_findings(tree@, scene_rel@),
{
    let rel = chars_of(scene_rel);
    let text = match tree.text_of(&rel) {
        Some(t) => t,
        None => {
            return Vec::new();
        },
    };
    let file = string_of(&rel);
    let paths = tree.path_chars();
    let lines = split_lines(&chars_of(text.as_str()));
    let mut st = ScanState { ext: Vec::new(), subs: Vec::new(), node: None };
    let mut out: Vec<SceneIssue> = Vec::new();
    let ghost all = lines.deep_view();
    assert(st@ == empty_scan()) by {
        assert(pairs_view(st.ext@) =~= Seq::empty());
        assert(st.subs.deep_view() =~= Seq::<Seq<char>>::empty());
    }
    let mut k: usize = 0;
    while k < lines.len()
        invariant
            k <= lines.len(),
            all == lines.deep_view(),
            scene_issues_view(out@) + scene_scan(file@, paths.deep_view(), all, k as int, st@)
                == scene_scan(file@, paths.deep_view(), all, 0, empty_scan()),
        decreases lines.len() - k,
    {
        proof {
            crate::text::lemma_lines_deep_view(lines, k as int);
        }
        let ghost before = scene_issues_view(out@);
        let ghost st_before = st@;
        scan_line(&mut out, &mut st, &file, &paths, &lines[k], k + 1);
        assert(before + scene_scan(file@, paths.deep_view(), all, k as int, st_before)
            =~= scene_issues_view(out@) + scene_scan(file@, paths.deep_view(), all, k + 1, st@));
        k = k + 1;
    }
    assert(scene_issues_view(out@) + scene_scan(file@, paths.deep_view(), all, k as int, st@)
        =~= scene_issues_view(out@));
    out
}

} // verus!
