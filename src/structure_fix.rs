use vstd::prelude::*;
use crate::report::{has_prefix, starts_with};
use crate::script_lint::lower;
use crate::sort::{
    key_fn, path_key, push_path_key, push_sep, sort_stable, stable_sort, views, Keyed,
};
use crate::text::{
    at, chars_of, extension, file_name, find_char, find_char_from, path_extension, push_all,
    rfind_char, same, slice, string_of,
};
use crate::manifest::ext_decl_path;
use crate::pattern::{all_matches, matches_from, CapV, Pat};
use crate::scene_validate::caps_view;
use crate::text::{
    find, find_from, lemma_find_from_bounds, lemma_lines_deep_view, lines_of, split_lines,
};
use crate::{strs_view, ProjectTree};

verus! {

broadcast use vstd::string::group_string_axioms;

/// A proposed relocation, from one `res://` path to another.
#[derive(Clone, Debug)]
pub struct FileMove {
    pub from: String,
    pub to: String,
}

#[derive(Clone, Debug)]
pub struct FileRename {
    pub from: String,
    pub to: String,
}

/// An edit made while references were rewritten: the file, the kind of reference, and how many
/// were replaced.
#[derive(Clone, Debug)]
pub struct FileEdit {
    pub file: String,
    pub kind: String,
    pub count: usize,
}

#[derive(Clone, Copy, Debug, PartialEq, Eq, Structural, Default)]
pub struct PlanStats {
    pub scanned: usize,
    pub proposed: usize,
}

/// A structure-fix plan: the rules that produced it, the moves, and what was scanned.
#[derive(Clone, Debug)]
pub struct FixPlan {
    pub rules: Vec<String>,
    pub moves: Vec<FileMove>,
    pub renames: Vec<FileRename>,
    pub edits: Vec<FileEdit>,
    pub skipped: Vec<String>,
    pub stats: PlanStats,
}

/// What an apply did: the moves performed, the files edited, the number of backups.
#[derive(Clone, Debug)]
pub struct ApplySummary {
    pub moved: Vec<FileMove>,
    pub edited: Vec<FileEdit>,
    pub backed_up: usize,
}

pub struct MoveV {
    pub from: Seq<char>,
    pub to: Seq<char>,
}

impl View for FileMove {
    type V = MoveV;

    open spec fn view(&self) -> MoveV {
        MoveV { from: self.from@, to: self.to@ }
    }
}

/// Moves order by source path, then destination path, component by component.
impl Keyed for FileMove {
    open spec fn key_of(v: MoveV) -> Seq<int> {
        path_key(v.from) + seq![0] + path_key(v.to)
    }

    fn sort_key(&self) -> (r: Vec<u64>) {
        let mut r: Vec<u64> = Vec::new();
        assert(crate::sort::keys_int(r@) =~= Seq::empty());
        push_path_key(&mut r, &chars_of(self.from.as_str()));
        push_sep(&mut r);
        push_path_key(&mut r, &chars_of(self.to.as_str()));
        r
    }
}

/// `rel` is the directory `dir` or lies under it.
pub open spec fn under(rel: Seq<char>, dir: Seq<char>) -> bool {
    rel == dir || starts_with(rel, dir + "/"@)
}

/// Paths under the directory where apply keeps its backups: no scanner treats them as
/// project content.
pub open spec fn in_backups(rel: Seq<char>) -> bool {
    under(rel, ".structure_fix"@)
}

/// Whether `rel` lies in the backup directory.
pub fn is_backup_path(rel: &Vec<char>) -> (r: bool)
    ensures
        r == in_backups(rel@),
{
    is_under(rel, ".structure_fix")
}

/// Files that the planner does not consider: backups, infrastructure directories and import
/// sidecars.
pub open spec fn plan_skips(rel: Seq<char>) -> bool {
    in_backups(rel) || under(rel, "addons"@) || under(rel, "crates"@) || under(rel, "docs"@) || under(rel, "target"@)
        || under(rel, ".git"@) || extension(rel) == Some("import"@)
}

/// The extension in ASCII small letters, empty when there is none.
pub open spec fn lower_ext(rel: Seq<char>) -> Seq<char> {
    match extension(rel) {
        Some(e) => lower(e),
        None => Seq::empty(),
    }
}

pub open spec fn first_component(rel: Seq<char>) -> Seq<char> {
    match find_char_from(rel, 0, '/') {
        Some(i) => rel.subrange(0, i),
        None => rel,
    }
}

/// `rel` with each `\` written as `/`.
pub open spec fn slashed(rel: Seq<char>) -> Seq<char> {
    rel.map_values(|c: char| if c == '\\' { '/' } else { c })
}

pub open spec fn is_asset_ext(e: Seq<char>) -> bool {
    e == "png"@ || e == "jpg"@ || e == "jpeg"@ || e == "webp"@ || e == "svg"@ || e == "tga"@
        || e == "bmp"@ || e == "ogg"@ || e == "wav"@ || e == "mp3"@ || e == "ttf"@ || e == "otf"@
        || e == "gdshader"@ || e == "tres"@
}

/// Where the planner sends a considered file: scripts to `scripts/<name>`, scenes to
/// `scenes/<name>`, assets to `assets/<path>`; none for a file already under its directory,
/// of another kind, or already in place.
pub open spec fn destination(rel: Seq<char>) -> Option<Seq<char>> {
    let ext = lower_ext(rel);
    let from = "res://"@ + slashed(rel);
    let to = if ext == "gd"@ && first_component(rel) != "scripts"@ {
        Some("res://scripts/"@ + file_name(rel))
    } else if ext == "tscn"@ && first_component(rel) != "scenes"@ {
        Some("res://scenes/"@ + file_name(rel))
    } else if ext != "gd"@ && ext != "tscn"@ && is_asset_ext(ext) && first_component(rel) != "assets"@ {
        Some("res://assets/"@ + slashed(rel))
    } else {
        None
    };
    match to {
        Some(t) => if t != from {
            Some(t)
        } else {
            None
        },
        None => None,
    }
}

/// The moves proposed for the files, in walk order.
pub open spec fn planned_moves(files: Seq<Seq<char>>) -> Seq<MoveV>
    decreases files.len(),
{
    if files.len() == 0 {
        Seq::empty()
    } else {
        let prev = planned_moves(files.drop_last());
        let rel = files.last();
        if !plan_skips(rel) && destination(rel) is Some {
            prev.push(MoveV { from: "res://"@ + slashed(rel), to: destination(rel)->0 })
        } else {
            prev
        }
    }
}

/// How many files the planner considered.
pub open spec fn scanned_count(files: Seq<Seq<char>>) -> int
    decreases files.len(),
{
    if files.len() == 0 {
        0
    } else {
        scanned_count(files.drop_last()) + if plan_skips(files.last()) {
            0int
        } else {
            1int
        }
    }
}

fn is_under(rel: &Vec<char>, dir: &str) -> (r: bool)
    ensures
        r == under(rel@, dir@),
{
    let d = chars_of(dir);
    let mut ds = chars_of(dir);
    ds.push('/');
    proof {
        reveal_strlit("/");
        assert(ds@ =~= dir@ + "/"@);
    }
    same(rel, &d) || at(rel, 0, &ds)
}

fn skipped_by_plan(rel: &Vec<char>) -> (r: bool)
    ensures
        r == plan_skips(rel@),
{
    is_backup_path(rel) || is_under(rel, "addons") || is_under(rel, "crates") || is_under(rel, "docs") || is_under(
        rel,
        "target",
    ) || is_under(rel, ".git") || crate::text::has_extension(rel, "import")
}

fn ext_lower(rel: &Vec<char>) -> (r: Vec<char>)
    ensures
        r@ == lower_ext(rel@),
{
    match path_extension(rel) {
        Some(e) => crate::script_lint::lower_chars(&e),
        None => Vec::new(),
    }
}

fn first_component_of(rel: &Vec<char>) -> (r: Vec<char>)
    ensures
        r@ == first_component(rel@),
{
    match find_char(rel, 0, '/') {
        Some(i) => {
            proof {
                crate::text::lemma_find_char_from_bounds(rel@, 0, '/');
            }
            slice(rel, 0, i)
        },
        None => slice(rel, 0, rel.len()),
    }
}

fn slashed_chars(rel: &Vec<char>) -> (r: Vec<char>)
    ensures
        r@ == slashed(rel@),
{
    let mut out: Vec<char> = Vec::new();
    let mut k: usize = 0;
    while k < rel.len()
        invariant
            k <= rel.len(),
            out@ == slashed(rel@.take(k as int)),
        decreases rel.len() - k,
    {
        let c = rel[k];
        out.push(if c == '\\' { '/' } else { c });
        assert(out@ =~= slashed(rel@.take(k + 1)));
        k = k + 1;
    }
    assert(rel@.take(k as int) =~= rel@);
    out
}

fn is_asset(e: &Vec<char>) -> (r: bool)
    ensures
        r == is_asset_ext(e@),
{
    same(e, &chars_of("png")) || same(e, &chars_of("jpg")) || same(e, &chars_of("jpeg")) || same(
        e,
        &chars_of("webp"),
    ) || same(e, &chars_of("svg")) || same(e, &chars_of("tga")) || same(e, &chars_of("bmp"))
        || same(e, &chars_of("ogg")) || same(e, &chars_of("wav")) || same(e, &chars_of("mp3"))
        || same(e, &chars_of("ttf")) || same(e, &chars_of("otf")) || same(e, &chars_of("gdshader"))
        || same(e, &chars_of("tres"))
}

fn name_of(rel: &Vec<char>) -> (r: Vec<char>)
    ensures
        r@ == file_name(rel@),
{
    let r = match rfind_char(rel, '/', rel.len()) {
        Some(i) => slice(rel, i + 1, rel.len()),
        None => slice(rel, 0, rel.len()),
    };
    assert(rel@.subrange(0, rel@.len() as int) =~= rel@);
    r
}

/// Where the planner sends a considered file.
#[verifier::rlimit(30)]
pub fn destination_of(rel: &Vec<char>) -> (r: Option<Vec<char>>)
    ensures
        r matches Some(t) ==> destination(rel@) == Some(t@),
        r is None ==> destination(rel@) is None,
{
    let ext = ext_lower(rel);
    let first = first_component_of(rel);
    let mut from = chars_of("res://");
    push_all(&mut from, &slashed_chars(rel));
    let gd = same(&ext, &chars_of("gd"));
    let tscn = same(&ext, &chars_of("tscn"));
    let to = if gd && !same(&first, &chars_of("scripts")) {
        let mut t = chars_of("res://scripts/");
        push_all(&mut t, &name_of(rel));
        Some(t)
    } else if tscn && !same(&first, &chars_of("scenes")) {
        let mut t = chars_of("res://scenes/");
        push_all(&mut t, &name_of(rel));
        Some(t)
    } else if !gd && !tscn && is_asset(&ext) && !same(&first, &chars_of("assets")) {
        let mut t = chars_of("res://assets/");
        push_all(&mut t, &slashed_chars(rel));
        Some(t)
    } else {
        None
    };
    match to {
        Some(t) => {
            if !same(&t, &from) {
                Some(t)
            } else {
                None
            }
        },
        None => None,
    }
}

pub open spec fn rule_texts() -> Seq<Seq<char>> {
    seq![
        ".gd => res://scripts/<filename>"@,
        ".tscn => res://scenes/<filename>"@,
        "assets(ext) => res://assets/<relpath> (prefix)"@,
    ]
}

/// Plans the structure fix for the project's files: each script to `scripts/`, each scene to
/// `scenes/`, each asset under `assets/` keeping its path; infrastructure directories and
/// import sidecars are not considered. The moves are sorted by source, then destination.
#[verifier::rlimit(30)]
pub fn plan_structure_fix(tree: &ProjectTree) -> (r: FixPlan)
    ensures
        views(r.moves@) == stable_sort(planned_moves(tree@.file_list), key_fn::<FileMove>()),
        strs_view(r.rules@) == rule_texts(),
        r.renames@.len() == 0,
        r.edits@.len() == 0,
        r.skipped@.len() == 0,
        r.stats.scanned == scanned_count(tree@.file_list),
        r.stats.proposed == r.moves@.len(),
{
    let mut rules: Vec<String> = Vec::new();
    rules.push(string_of(&chars_of(".gd => res://scripts/<filename>")));
    rules.push(string_of(&chars_of(".tscn => res://scenes/<filename>")));
    rules.push(string_of(&chars_of("assets(ext) => res://assets/<relpath> (prefix)")));
    assert(strs_view(rules@) =~= rule_texts());
    let ghost files = tree@.file_list;
    let mut moves: Vec<FileMove> = Vec::new();
    let mut scanned: usize = 0;
    let mut k: usize = 0;
    assert(files.take(0) =~= Seq::<Seq<char>>::empty());
    assert(views(moves@) =~= Seq::<MoveV>::empty());
    while k < tree.file_list.len()
        invariant
            k <= tree.file_list.len(),
            files == tree@.file_list,
            scanned <= k,
            scanned == scanned_count(files.take(k as int)),
            views(moves@) == planned_moves(files.take(k as int)),
        decreases tree.file_list.len() - k,
    {
        assert(files.take(k + 1).drop_last() =~= files.take(k as int));
        let rel = chars_of(tree.file_list[k].as_str());
        if !skipped_by_plan(&rel) {
            scanned = scanned + 1;
            match destination_of(&rel) {
                Some(t) => {
                    let mut from = chars_of("res://");
                    push_all(&mut from, &slashed_chars(&rel));
                    let ghost before = moves@;
                    moves.push(FileMove { from: string_of(&from), to: string_of(&t) });
                    assert(views(moves@) =~= views(before).push(MoveV { from: from@, to: t@ }));
                },
                None => {},
            }
        }
        k = k + 1;
    }
    assert(files.take(k as int) =~= files);
    let moves = sort_stable(moves);
    let proposed = moves.len();
    FixPlan {
        rules,
        moves,
        renames: Vec::new(),
        edits: Vec::new(),
        skipped: Vec::new(),
        stats: PlanStats { scanned, proposed },
    }
}

/// The old-to-new `res://` path pairs of a plan's moves (a move onto itself left out).
pub open spec fn mapping_of(moves: Seq<MoveV>) -> Seq<(Seq<char>, Seq<char>)>
    decreases moves.len(),
{
    if moves.len() == 0 {
        Seq::empty()
    } else {
        let prev = mapping_of(moves.drop_last());
        let m = moves.last();
        if m.from == m.to {
            prev
        } else {
            prev.push((m.from, m.to))
        }
    }
}

/// The new path of `old`: the first pair that maps it.
pub open spec fn map_lookup(mapping: Seq<(Seq<char>, Seq<char>)>, old: Seq<char>) -> Option<Seq<char>>
    decreases mapping.len(),
{
    if mapping.len() == 0 {
        None
    } else if mapping[0].0 == old {
        Some(mapping[0].1)
    } else {
        map_lookup(mapping.drop_first(), old)
    }
}

/// The old-to-new path pairs of a plan.
pub fn move_mapping(plan: &FixPlan) -> (r: Vec<(String, String)>)
    ensures
        r@.map_values(|p: (String, String)| (p.0@, p.1@)) == mapping_of(views(plan.moves@)),
{
    let ghost mv = views(plan.moves@);
    let mut out: Vec<(String, String)> = Vec::new();
    let mut k: usize = 0;
    assert(mv.take(0) =~= Seq::<MoveV>::empty());
    assert(out@.map_values(|p: (String, String)| (p.0@, p.1@)) =~= Seq::<(Seq<char>, Seq<char>)>::empty());
    while k < plan.moves.len()
        invariant
            k <= plan.moves.len(),
            mv == views(plan.moves@),
            out@.map_values(|p: (String, String)| (p.0@, p.1@)) == mapping_of(mv.take(k as int)),
        decreases plan.moves.len() - k,
    {
        assert(mv.take(k + 1).drop_last() =~= mv.take(k as int));
        let m = &plan.moves[k];
        if !(m.from == m.to) {
            let ghost before = out@;
            out.push((m.from.clone(), m.to.clone()));
            assert(out@.map_values(|p: (String, String)| (p.0@, p.1@)) =~= before.map_values(
                |p: (String, String)| (p.0@, p.1@),
            ).push((m.from@, m.to@)));
        }
        k = k + 1;
    }
    assert(mv.take(k as int) =~= mv);
    out
}

pub open spec fn mapping_view(v: Seq<(Vec<char>, Vec<char>)>) -> Seq<(Seq<char>, Seq<char>)> {
    crate::scene_validate::pairs_view(v)
}

fn lookup_new(mapping: &Vec<(Vec<char>, Vec<char>)>, old: &Vec<char>) -> (r: Option<Vec<char>>)
    ensures
        crate::scene_validate::opt_chars(r) == map_lookup(mapping_view(mapping@), old@),
{
    let ghost mv = mapping_view(mapping@);
    let mut k: usize = 0;
    assert(mv.skip(0) =~= mv);
    while k < mapping.len()
        invariant
            k <= mapping.len(),
            mv == mapping_view(mapping@),
            map_lookup(mv, old@) == map_lookup(mv.skip(k as int), old@),
        decreases mapping.len() - k,
    {
        assert(mv.skip(k as int).drop_first() =~= mv.skip(k + 1));
        if same(&mapping[k].0, old) {
            let r = slice(&mapping[k].1, 0, mapping[k].1.len());
            assert(r@ =~= mapping@[k as int].1@);
            return Some(r);
        }
        k = k + 1;
    }
    None
}

/// `s` with the first occurrence of `old` replaced by `new`.
pub open spec fn replace_first(s: Seq<char>, old: Seq<char>, new: Seq<char>) -> Seq<char> {
    match find_from(s, 0, old) {
        Some(i) => s.subrange(0, i) + new + s.subrange(i + old.len(), s.len() as int),
        None => s,
    }
}

fn replace_first_chars(s: &Vec<char>, old: &Vec<char>, new: &Vec<char>) -> (r: Vec<char>)
    ensures
        r@ == replace_first(s@, old@, new@),
{
    match find(s, 0, old) {
        Some(i) => {
            proof {
                lemma_find_from_bounds(s@, 0, old@);
            }
            assert(i + old.len() <= s.len());
            let mut r = slice(s, 0, i);
            push_all(&mut r, new);
            push_all(&mut r, &slice(s, i + old.len(), s.len()));
            r
        },
        None => slice(s, 0, s.len()),
    }
}

/// A scene or resource file with its declarations moved: each line ends with a line break,
/// and a declaration whose path is mapped gets its first occurrence of that path replaced.
/// Also how many lines changed.
pub open spec fn scene_rewrite(lines: Seq<Seq<char>>, mapping: Seq<(Seq<char>, Seq<char>)>) -> (Seq<char>, int)
    decreases lines.len(),
{
    if lines.len() == 0 {
        (Seq::empty(), 0)
    } else {
        let prev = scene_rewrite(lines.drop_last(), mapping);
        let l = lines.last();
        match ext_decl_path(l) {
            Some(p) => match map_lookup(mapping, p) {
                Some(np) => (prev.0 + replace_first(l, p, np) + "\n"@, prev.1 + 1),
                None => (prev.0 + l + "\n"@, prev.1),
            },
            None => (prev.0 + l + "\n"@, prev.1),
        }
    }
}

/// Rewrites the declarations of a scene or resource file.
pub fn rewrite_scene_refs(content: &Vec<char>, mapping: &Vec<(Vec<char>, Vec<char>)>) -> (r: (Vec<char>, usize))
    ensures
        (r.0@, r.1 as int) == scene_rewrite(lines_of(content@), mapping_view(mapping@)),
{
    let lines = split_lines(content);
    let ghost all = lines.deep_view();
    let mut out: Vec<char> = Vec::new();
    let mut count: usize = 0;
    let mut k: usize = 0;
    assert(all.take(0) =~= Seq::<Seq<char>>::empty());
    while k < lines.len()
        invariant
            k <= lines.len(),
            all == lines.deep_view(),
            count <= k,
            (out@, count as int) == scene_rewrite(all.take(k as int), mapping_view(mapping@)),
        decreases lines.len() - k,
    {
        proof {
            lemma_lines_deep_view(lines, k as int);
            assert(all.take(k + 1).drop_last() =~= all.take(k as int));
        }
        let l = &lines[k];
        let mut done = false;
        match crate::manifest::ext_decl_path_of(l) {
            Some(p) => match lookup_new(mapping, &p) {
                Some(np) => {
                    push_all(&mut out, &replace_first_chars(l, &p, &np));
                    count = count + 1;
                    done = true;
                },
                None => {},
            },
            None => {},
        }
        if !done {
            push_all(&mut out, l);
        }
        out.push('\n');
        proof {
            reveal_strlit("\n");
        }
        k = k + 1;
    }
    assert(all.take(k as int) =~= all);
    (out, count)
}

/// A script with its `preload` / `load` paths moved: text outside the calls kept, and each call
/// whose path is mapped gets its first occurrence of that path replaced. Also how many calls
/// changed, and where the last call ended.
pub open spec fn script_rewrite_calls(
    content: Seq<char>,
    caps: Seq<CapV>,
    mapping: Seq<(Seq<char>, Seq<char>)>,
) -> (Seq<char>, int, int)
    decreases caps.len(),
{
    if caps.len() == 0 {
        (Seq::empty(), 0, 0)
    } else {
        let prev = script_rewrite_calls(content, caps.drop_last(), mapping);
        let c = caps.last();
        let seg = content.subrange(prev.2, c.start);
        let whole = content.subrange(c.start, c.end);
        match map_lookup(mapping, c.b) {
            Some(np) => (prev.0 + seg + replace_first(whole, c.b, np), prev.1 + 1, c.end),
            None => (prev.0 + seg + whole, prev.1, c.end),
        }
    }
}

/// A script with its `preload` / `load` paths moved, and how many calls changed.
pub open spec fn script_rewrite(content: Seq<char>, mapping: Seq<(Seq<char>, Seq<char>)>) -> (Seq<char>, int) {
    let r = script_rewrite_calls(content, all_matches(Pat::GdRef, content, 0), mapping);
    (r.0 + content.subrange(r.2, content.len() as int), r.1)
}

/// Rewrites the `preload` / `load` calls of a script.
#[verifier::rlimit(30)]
pub fn rewrite_script_refs(content: &Vec<char>, mapping: &Vec<(Vec<char>, Vec<char>)>) -> (r: (Vec<char>, usize))
    ensures
        (r.0@, r.1 as int) == script_rewrite(content@, mapping_view(mapping@)),
{
    let caps = matches_from(Pat::GdRef, content, 0);
    let ghost cv = caps_view(caps@);
    assert(cv == all_matches(Pat::GdRef, content@, 0));
    let mut out: Vec<char> = Vec::new();
    let mut count: usize = 0;
    let mut last: usize = 0;
    let mut k: usize = 0;
    assert(cv.take(0) =~= Seq::<CapV>::empty());
    while k < caps.len()
        invariant
            k <= caps.len(),
            cv == caps_view(caps@),
            count <= k,
            last <= content.len(),
            k > 0 ==> last == caps@[k - 1].end,
            k == 0 ==> last == 0,
            forall|j: int| 0 <= j < caps.len() ==> 0 <= #[trigger] caps@[j].start < caps@[j].end <= content.len(),
            forall|j: int| 0 < j < caps.len() ==> caps@[j - 1].end <= #[trigger] caps@[j].start,
            (out@, count as int, last as int) == script_rewrite_calls(
                content@,
                cv.take(k as int),
                mapping_view(mapping@),
            ),
        decreases caps.len() - k,
    {
        assert(cv.take(k + 1).drop_last() =~= cv.take(k as int));
        let c = &caps[k];
        assert(last <= c.start) by {
            if k > 0 {
                assert(caps@[k - 1].end <= caps@[k as int].start);
            }
        }
        push_all(&mut out, &slice(content, last, c.start));
        let whole = slice(content, c.start, c.end);
        match lookup_new(mapping, &c.b) {
            Some(np) => {
                push_all(&mut out, &replace_first_chars(&whole, &c.b, &np));
                count = count + 1;
            },
            None => {
                push_all(&mut out, &whole);
            },
        }
        last = c.end;
        k = k + 1;
    }
    assert(cv.take(k as int) =~= cv);
    push_all(&mut out, &slice(content, last, content.len()));
    (out, count)
}

/// Why a plan cannot be applied.
#[derive(Clone, Debug)]
pub enum ApplyError {
    /// A move names a path that is not a `res://` path.
    NotResUri(String),
}

/// What one move does on disk: the source and destination relative to the project root, and
/// where the source's backup goes.
#[derive(Clone, Debug)]
pub struct MoveStep {
    pub from_rel: String,
    pub to_rel: String,
    pub backup_rel: String,
}

/// The backup of a file at `rel`: the same relative path under `.structure_fix/backup/`.
pub open spec fn backup_of(rel: Seq<char>) -> Seq<char> {
    ".structure_fix/backup/"@ + rel
}

/// The project-relative path of a `res://` path.
pub open spec fn res_rel(uri: Seq<char>) -> Option<Seq<char>> {
    if starts_with(uri, "res://"@) {
        Some(uri.subrange(6, uri.len() as int))
    } else {
        None
    }
}

/// The project-relative path of a `res://` path.
pub fn res_relative(uri: &str) -> (r: Option<String>)
    ensures
        r matches Some(p) ==> res_rel(uri@) == Some(p@),
        r is None ==> res_rel(uri@) is None,
{
    let u = chars_of(uri);
    proof {
        reveal_strlit("res://");
    }
    if has_prefix(&u, "res://") {
        Some(string_of(&slice(&u, 6, u.len())))
    } else {
        None
    }
}

/// The step for one move: none for a move onto itself; an error when either path is not a
/// `res://` path (the source is checked first).
pub fn move_step(mv: &FileMove) -> (r: Result<Option<MoveStep>, ApplyError>)
    ensures
        mv.from@ == mv.to@ ==> r matches Ok(None),
        mv.from@ != mv.to@ && res_rel(mv.from@) is None ==> (r matches Err(
            ApplyError::NotResUri(u),
        ) && u@ == mv.from@),
        mv.from@ != mv.to@ && res_rel(mv.from@) is Some && res_rel(mv.to@) is None ==> (r matches Err(
            ApplyError::NotResUri(u),
        ) && u@ == mv.to@),
        mv.from@ != mv.to@ && res_rel(mv.from@) is Some && res_rel(mv.to@) is Some ==> (r matches Ok(
            Some(st),
        ) && st.from_rel@ == res_rel(mv.from@)->0 && st.to_rel@ == res_rel(mv.to@)->0
            && st.backup_rel@ == backup_of(res_rel(mv.from@)->0)),
{
    if mv.from == mv.to {
        return Ok(None);
    }
    let from_rel = match res_relative(mv.from.as_str()) {
        Some(p) => p,
        None => {
            return Err(ApplyError::NotResUri(mv.from.clone()));
        },
    };
    let to_rel = match res_relative(mv.to.as_str()) {
        Some(p) => p,
        None => {
            return Err(ApplyError::NotResUri(mv.to.clone()));
        },
    };
    let mut b = chars_of(".structure_fix/backup/");
    push_all(&mut b, &chars_of(from_rel.as_str()));
    Ok(Some(MoveStep { from_rel, to_rel, backup_rel: string_of(&b) }))
}

/// Files whose references are never rewritten: backups and infrastructure directories.
pub open spec fn rewrite_skips(rel: Seq<char>) -> bool {
    in_backups(rel) || under(rel, "target"@) || under(rel, ".git"@) || under(rel, "docs"@)
        || under(rel, "crates"@)
}

pub open spec fn is_decl_file(rel: Seq<char>) -> bool {
    lower_ext(rel) == "tscn"@ || lower_ext(rel) == "tres"@
}

pub open spec fn is_script_file(rel: Seq<char>) -> bool {
    lower_ext(rel) == "gd"@
}

/// The rewrite of one file after the moves: for a scene or resource file its declarations,
/// for a script its `preload` / `load` calls; the new text and the count of replacements.
pub open spec fn file_rewrite(rel: Seq<char>, content: Seq<char>, mapping: Seq<(Seq<char>, Seq<char>)>) -> Option<(Seq<char>, int)> {
    if rewrite_skips(rel) {
        None
    } else if is_decl_file(rel) {
        Some(scene_rewrite(lines_of(content), mapping))
    } else if is_script_file(rel) {
        Some(script_rewrite(content, mapping))
    } else {
        None
    }
}

pub struct EditV {
    pub file: Seq<char>,
    pub kind: Seq<char>,
    pub count: int,
}

impl View for FileEdit {
    type V = EditV;

    open spec fn view(&self) -> EditV {
        EditV { file: self.file@, kind: self.kind@, count: self.count as int }
    }
}

/// Rewrites the references of one file after the moves. None when the file is not rewritten
/// or nothing in it changed; else its new text and the edit record (kind `gd-load-preload`
/// for a script, `ext_resource-path` otherwise).
#[verifier::rlimit(30)]
pub fn rewrite_file(rel: &str, content: &str, mapping: &Vec<(String, String)>) -> (r: Option<(String, FileEdit)>)
    ensures
        ({
            let mv = mapping@.map_values(|p: (String, String)| (p.0@, p.1@));
            match file_rewrite(rel@, content@, mv) {
                Some(t) => if t.1 > 0 {
                    r matches Some(x) && x.0@ == t.0 && x.1@ == (EditV {
                        file: rel@,
                        kind: if is_script_file(rel@) {
                            "gd-load-preload"@
                        } else {
                            "ext_resource-path"@
                        },
                        count: t.1,
                    })
                } else {
                    r is None
                },
                None => r is None,
            }
        }),
{
    let relc = chars_of(rel);
    let mut m: Vec<(Vec<char>, Vec<char>)> = Vec::new();
    let mut k: usize = 0;
    while k < mapping.len()
        invariant
            k <= mapping.len(),
            mapping_view(m@) == mapping@.map_values(|p: (String, String)| (p.0@, p.1@)).take(k as int),
        decreases mapping.len() - k,
    {
        let ghost before = m@;
        let a = chars_of(mapping[k].0.as_str());
        let b = chars_of(mapping[k].1.as_str());
        let ghost pair = (a@, b@);
        m.push((a, b));
        assert(mapping_view(m@) =~= mapping_view(before).push(pair));
        assert(mapping_view(m@) =~= mapping@.map_values(|p: (String, String)| (p.0@, p.1@)).take(k + 1));
        k = k + 1;
    }
    assert(mapping@.map_values(|p: (String, String)| (p.0@, p.1@)).take(k as int) =~= mapping@.map_values(
        |p: (String, String)| (p.0@, p.1@),
    ));
    if is_backup_path(&relc) || is_under(&relc, "target") || is_under(&relc, ".git")
        || is_under(&relc, "docs") || is_under(&relc, "crates") {
        return None;
    }
    let ext = ext_lower(&relc);
    let text = chars_of(content);
    let script = same(&ext, &chars_of("gd"));
    let (new_text, count) = if same(&ext, &chars_of("tscn")) || same(&ext, &chars_of("tres")) {
        rewrite_scene_refs(&text, &m)
    } else if script {
        rewrite_script_refs(&text, &m)
    } else {
        return None;
    };
    if count == 0 {
        return None;
    }
    let kind = if script {
        string_of(&chars_of("gd-load-preload"))
    } else {
        string_of(&chars_of("ext_resource-path"))
    };
    Some((string_of(&new_text), FileEdit { file: string_of(&relc), kind, count }))
}

/// A file that the planner moves, named by its planned source path (a `\` in the file name
/// is written `/` there, and then names another file).
pub open spec fn planned_and_named(rel: Seq<char>) -> bool {
    !plan_skips(rel) && destination(rel) is Some && slashed(rel) == rel
}

/// Where a file is once the plan's moves are carried out: the destination (relative to the
/// root) of a file that a move names, else where it was.
pub open spec fn moved_path(rel: Seq<char>) -> Seq<char> {
    if planned_and_named(rel) {
        let d = destination(rel)->0;
        d.subrange(6, d.len() as int)
    } else {
        rel
    }
}

pub open spec fn after_moves(files: Seq<Seq<char>>) -> Seq<Seq<char>> {
    files.map_values(|f: Seq<char>| moved_path(f))
}

proof fn lemma_last_index_exhaustive(s: Seq<char>, c: char, j: int)
    requires
        0 <= j <= s.len(),
    ensures
        last_index_before_none_or_tail(s, c, j),
    decreases j,
{
    if j > 0 && s[j - 1] != c {
        lemma_last_index_exhaustive(s, c, j - 1);
    }
}

/// What `last_index_before` found: nothing holds `c` after the position it gives (or at all).
pub open spec fn last_index_before_none_or_tail(s: Seq<char>, c: char, j: int) -> bool {
    match crate::text::last_index_before(s, c, j) {
        Some(i) => 0 <= i < j && s[i] == c && forall|k: int| i < k < j ==> s[k] != c,
        None => forall|k: int| 0 <= k < j ==> s[k] != c,
    }
}

proof fn lemma_last_index_concat(a: Seq<char>, b: Seq<char>, c: char, j: int)
    requires
        a.len() > 0,
        a.last() == c,
        a.len() <= j <= a.len() + b.len(),
    ensures
        crate::text::last_index_before(a + b, c, j) == match crate::text::last_index_before(
            b,
            c,
            j - a.len(),
        ) {
            Some(i) => Some(a.len() + i),
            None => Some(a.len() - 1),
        },
    decreases j,
{
    if j > a.len() {
        assert((a + b)[j - 1] == b[j - 1 - a.len()]);
        if b[j - 1 - a.len()] != c {
            lemma_last_index_concat(a, b, c, j - 1);
        }
    } else {
        assert((a + b)[j - 1] == a.last());
    }
}

proof fn lemma_file_name_after_dir(a: Seq<char>, b: Seq<char>)
    requires
        a.len() > 0,
        a.last() == '/',
    ensures
        file_name(a + b) == file_name(b),
{
    lemma_last_index_concat(a, b, '/', (a.len() + b.len()) as int);
    crate::text::lemma_last_index_bounds(b, '/', b.len() as int);
    assert((a + b).len() == a.len() + b.len());
    match crate::text::last_index_before(b, '/', b.len() as int) {
        Some(i) => {
            assert((a + b).subrange(a.len() + i + 1, (a + b).len() as int) =~= b.subrange(
                i + 1,
                b.len() as int,
            ));
        },
        None => {
            assert((a + b).subrange(a.len() as int, (a + b).len() as int) =~= b);
        },
    }
}

proof fn lemma_file_name_has_no_slash(p: Seq<char>)
    ensures
        forall|k: int| 0 <= k < file_name(p).len() ==> file_name(p)[k] != '/',
{
    lemma_last_index_exhaustive(p, '/', p.len() as int);
    match crate::text::last_index_before(p, '/', p.len() as int) {
        Some(i) => {
            assert forall|k: int| 0 <= k < file_name(p).len() implies file_name(p)[k] != '/' by {
                assert(file_name(p)[k] == p[i + 1 + k]);
            }
        },
        None => {},
    }
}

proof fn lemma_file_name_of_name(n: Seq<char>)
    requires
        forall|k: int| 0 <= k < n.len() ==> n[k] != '/',
    ensures
        file_name(n) == n,
{
    lemma_last_index_exhaustive(n, '/', n.len() as int);
}

proof fn lemma_find_char_exact(s: Seq<char>, c: char, i: int, j: int)
    requires
        0 <= i <= j < s.len(),
        s[j] == c,
        forall|k: int| i <= k < j ==> s[k] != c,
    ensures
        find_char_from(s, i, c) == Some(j),
    decreases j - i,
{
    if i < j {
        lemma_find_char_exact(s, c, i + 1, j);
    }
}

/// A file moved into `dir/` (a directory name without `/`) has that directory as its first
/// component and keeps its extension.
proof fn lemma_moved_into(dir: Seq<char>, rest: Seq<char>, orig: Seq<char>)
    requires
        dir.len() > 0,
        forall|k: int| 0 <= k < dir.len() ==> dir[k] != '/',
        file_name(rest) == file_name(orig),
    ensures
        first_component(dir + "/"@ + rest) == dir,
        lower_ext(dir + "/"@ + rest) == lower_ext(orig),
{
    let d = dir + "/"@;
    assert(d.len() == dir.len() + 1) by {
        reveal_strlit("/");
    }
    assert(d.last() == '/') by {
        reveal_strlit("/");
    }
    let n = d + rest;
    assert(n == dir + "/"@ + rest);
    assert(n[dir.len() as int] == '/');
    assert forall|k: int| 0 <= k < dir.len() implies n[k] != '/' by {
        assert(n[k] == dir[k]);
    }
    lemma_find_char_exact(n, '/', 0, dir.len() as int);
    assert(n.subrange(0, dir.len() as int) =~= dir);
    lemma_file_name_after_dir(d, rest);
}

proof fn lemma_moved_path_into(f: Seq<char>, prefix: Seq<char>, rest: Seq<char>)
    requires
        planned_and_named(f),
        prefix.len() == 6,
        destination(f) == Some(prefix + rest),
    ensures
        moved_path(f) == rest,
{
    let d = prefix + rest;
    assert(d.subrange(6, d.len() as int) =~= rest);
}

proof fn lemma_no_move_in_own_dir(n: Seq<char>, dir: Seq<char>, ext: Seq<char>)
    requires
        first_component(n) == dir,
        lower_ext(n) == ext,
        (ext == "gd"@ && dir == "scripts"@) || (ext == "tscn"@ && dir == "scenes"@),
    ensures
        destination(n) is None,
{
    assert("gd"@ != "tscn"@) by {
        reveal_strlit("gd");
        reveal_strlit("tscn");
        assert("gd"@.len() == 2);
        assert("tscn"@.len() == 4);
    }
}

#[verifier::rlimit(40)]
proof fn lemma_dir_move_stays(f: Seq<char>, dir: Seq<char>, ext: Seq<char>)
    requires
        planned_and_named(f),
        lower_ext(f) == ext,
        (ext == "gd"@ && dir == "scripts"@) || (ext == "tscn"@ && dir == "scenes"@),
        dir.len() > 0,
        forall|k: int| 0 <= k < dir.len() ==> dir[k] != '/',
        destination(f) == Some("res://"@ + (dir + "/"@ + file_name(f))),
    ensures
        destination(moved_path(f)) is None,
{
    let name = file_name(f);
    lemma_file_name_has_no_slash(f);
    lemma_file_name_of_name(name);
    assert("res://"@.len() == 6) by {
        reveal_strlit("res://");
    }
    lemma_moved_path_into(f, "res://"@, dir + "/"@ + name);
    lemma_moved_into(dir, name, f);
    lemma_no_move_in_own_dir(moved_path(f), dir, ext);
}

#[verifier::rlimit(40)]
proof fn lemma_asset_move_stays(f: Seq<char>)
    requires
        planned_and_named(f),
        lower_ext(f) != "gd"@,
        lower_ext(f) != "tscn"@,
        is_asset_ext(lower_ext(f)),
        first_component(f) != "assets"@,
        destination(f) == Some("res://assets/"@ + f),
    ensures
        destination(moved_path(f)) is None,
{
    reveal_strlit("res://assets/");
    reveal_strlit("assets");
    reveal_strlit("/");
    let n = moved_path(f);
    assert(n =~= "assets"@ + "/"@ + f);
    lemma_moved_into("assets"@, f, f);
}

/// The planner leaves a moved file where it is.
#[verifier::rlimit(40)]
proof fn lemma_moved_file_stays(f: Seq<char>)
    requires
        !plan_skips(f) && destination(f) is Some ==> slashed(f) == f,
    ensures
        plan_skips(moved_path(f)) || destination(moved_path(f)) is None,
{
    if !plan_skips(f) && destination(f) is Some {
        let ext = lower_ext(f);
        reveal_strlit("gd");
        reveal_strlit("tscn");
        reveal_strlit("res://");
        reveal_strlit("res://scripts/");
        reveal_strlit("res://scenes/");
        reveal_strlit("scripts");
        reveal_strlit("scenes");
        reveal_strlit("/");
        if ext == "gd"@ && first_component(f) != "scripts"@ {
            assert("res://scripts/"@ + file_name(f) =~= "res://"@ + ("scripts"@ + "/"@ + file_name(f)));
            lemma_dir_move_stays(f, "scripts"@, ext);
        } else if ext == "tscn"@ && first_component(f) != "scenes"@ {
            assert("res://scenes/"@ + file_name(f) =~= "res://"@ + ("scenes"@ + "/"@ + file_name(f)));
            lemma_dir_move_stays(f, "scenes"@, ext);
        } else {
            lemma_asset_move_stays(f);
        }
    }
}

/// The backups that apply writes: one for each file that a move names, at
/// `.structure_fix/backup/<path>`.
pub open spec fn backups_of(files: Seq<Seq<char>>) -> Seq<Seq<char>>
    decreases files.len(),
{
    if files.len() == 0 {
        Seq::empty()
    } else {
        let prev = backups_of(files.drop_last());
        if planned_and_named(files.last()) {
            prev.push(backup_of(files.last()))
        } else {
            prev
        }
    }
}

/// The files of the tree once apply has carried out the plan: each file where its move put it,
/// and the backups.
pub open spec fn applied_tree(files: Seq<Seq<char>>) -> Seq<Seq<char>> {
    after_moves(files) + backups_of(files)
}

proof fn lemma_no_moves(s: Seq<Seq<char>>)
    requires
        forall|i: int| 0 <= i < s.len() ==> plan_skips(#[trigger] s[i]) || destination(s[i]) is None,
    ensures
        planned_moves(s) == Seq::<MoveV>::empty(),
    decreases s.len(),
{
    if s.len() > 0 {
        let init = s.drop_last();
        assert forall|i: int| 0 <= i < init.len() implies plan_skips(#[trigger] init[i])
            || destination(init[i]) is None by {
            assert(init[i] == s[i]);
        }
        lemma_no_moves(init);
        assert(plan_skips(s[s.len() - 1]) || destination(s[s.len() - 1]) is None);
    }
}

proof fn lemma_backup_is_skipped(f: Seq<char>)
    ensures
        plan_skips(backup_of(f)),
{
    reveal_strlit(".structure_fix/backup/");
    reveal_strlit(".structure_fix");
    reveal_strlit("/");
    let b = backup_of(f);
    assert(b.subrange(0, 15) =~= ".structure_fix"@ + "/"@);
}

proof fn lemma_backups_skipped(files: Seq<Seq<char>>)
    ensures
        forall|j: int| 0 <= j < backups_of(files).len() ==> plan_skips(#[trigger] backups_of(files)[j]),
    decreases files.len(),
{
    if files.len() > 0 {
        lemma_backups_skipped(files.drop_last());
        lemma_backup_is_skipped(files.last());
        let prev = backups_of(files.drop_last());
        assert forall|j: int| 0 <= j < backups_of(files).len() implies plan_skips(
            #[trigger] backups_of(files)[j],
        ) by {
            if j < prev.len() {
                assert(backups_of(files)[j] == prev[j]);
            }
        }
    }
}

/// Once apply has carried out the plan, planning again proposes no move: the moved files sit
/// in their directories and the backups are not project content. This needs every planned
/// source path to name its file: a file name with a `\` is planned under a path with `/`
/// there, which no move finds, so the move would be proposed again.
pub proof fn law_replan_after_apply(files: Seq<Seq<char>>)
    requires
        forall|i: int|
            0 <= i < files.len() && !plan_skips(#[trigger] files[i]) && destination(files[i]) is Some
                ==> slashed(files[i]) == files[i],
    ensures
        planned_moves(applied_tree(files)) == Seq::<MoveV>::empty(),
{
    let moved = after_moves(files);
    let backups = backups_of(files);
    lemma_backups_skipped(files);
    assert forall|i: int| 0 <= i < moved.len() implies plan_skips(#[trigger] moved[i])
        || destination(moved[i]) is None by {
        let f = files[i];
        assert(!plan_skips(f) && destination(f) is Some ==> slashed(f) == f);
        lemma_moved_file_stays(f);
    }
    let t = applied_tree(files);
    assert forall|i: int| 0 <= i < t.len() implies plan_skips(#[trigger] t[i]) || destination(t[i]) is None by {
        if i < moved.len() {
            assert(t[i] == moved[i]);
        } else {
            assert(t[i] == backups[i - moved.len()]);
        }
    }
    lemma_no_moves(t);
}
} // verus!
