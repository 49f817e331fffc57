//! Static analysis of a Godot project tree: the project manifest, external-resource
//! references, scenes and their signal connections, script lint rules, and a structure-fix
//! planner whose moves keep references consistent. Every function works on a snapshot of the
//! tree (`ProjectTree`); reading the disk and carrying out moves is left to the caller.

use vstd::prelude::*;

pub mod config;
pub mod laws;
pub mod manifest;
pub mod pattern;
pub mod report;
pub mod scene_validate;
pub mod script_lint;
pub mod signal_validate;
pub mod sort;
pub mod structure_fix;
pub mod text;

pub use manifest::analyze_project;
pub use report::{
    scene_issues_as_report, scene_issues_as_report_with, signal_graph_dot, signal_issues_as_report,
    to_junit, SceneCheckOptions,
};

verus! {

/// How serious a finding is; `Info < Warn < Error`.
#[derive(Clone, Copy, Debug, PartialEq, Eq, Structural, PartialOrd, Ord, Hash)]
pub enum Severity {
    Info,
    Warn,
    Error,
}

/// Numeric rank of a severity, the order used for sorting and thresholds.
pub open spec fn severity_rank(s: Severity) -> int {
    match s {
        Severity::Info => 0,
        Severity::Warn => 1,
        Severity::Error => 2,
    }
}

/// One finding of the project analysis.
#[derive(Clone, Debug)]
pub struct Issue {
    pub severity: Severity,
    pub message: String,
    pub file: Option<String>,
}

pub struct IssueV {
    pub severity: Severity,
    pub message: Seq<char>,
    pub file: Option<Seq<char>>,
}

pub open spec fn opt_str_view(o: Option<String>) -> Option<Seq<char>> {
    match o {
        Some(s) => Some(s@),
        None => None,
    }
}

impl View for Issue {
    type V = IssueV;

    open spec fn view(&self) -> IssueV {
        IssueV { severity: self.severity, message: self.message@, file: opt_str_view(self.file) }
    }
}

pub open spec fn issues_view(v: Seq<Issue>) -> Seq<IssueV> {
    v.map_values(|i: Issue| i@)
}

/// Texts order character by character.
impl sort::Keyed for String {
    open spec fn key_of(v: Seq<char>) -> Seq<int> {
        sort::text_key(v)
    }

    fn sort_key(&self) -> (r: Vec<u64>) {
        let mut r: Vec<u64> = Vec::new();
        assert(sort::keys_int(r@) =~= Seq::empty());
        sort::push_text_key(&mut r, &text::chars_of(self.as_str()));
        assert(sort::keys_int(r@) =~= sort::text_key(self@));
        r
    }
}

/// Issues order by severity, then message.
impl sort::Keyed for Issue {
    open spec fn key_of(v: IssueV) -> Seq<int> {
        seq![severity_rank(v.severity)] + sort::text_key(v.message)
    }

    fn sort_key(&self) -> (r: Vec<u64>) {
        let mut r: Vec<u64> = Vec::new();
        r.push(
            match self.severity {
                Severity::Info => 0,
                Severity::Warn => 1,
                Severity::Error => 2,
            },
        );
        let ghost head = sort::keys_int(r@);
        assert(head =~= seq![severity_rank(self.severity)]);
        sort::push_text_key(&mut r, &text::chars_of(self.message.as_str()));
        r
    }
}

/// An export preset: its name, platform and declared output path.
#[derive(Clone, Debug)]
pub struct ExportPreset {
    pub name: String,
    pub platform: String,
    pub export_path: Option<String>,
}

pub struct ExportPresetV {
    pub name: Seq<char>,
    pub platform: Seq<char>,
    pub export_path: Option<Seq<char>>,
}

impl View for ExportPreset {
    type V = ExportPresetV;

    open spec fn view(&self) -> ExportPresetV {
        ExportPresetV {
            name: self.name@,
            platform: self.platform@,
            export_path: opt_str_view(self.export_path),
        }
    }
}

/// Presets order by name, then platform.
impl sort::Keyed for ExportPreset {
    open spec fn key_of(v: ExportPresetV) -> Seq<int> {
        sort::text_key(v.name) + seq![0] + sort::text_key(v.platform)
    }

    fn sort_key(&self) -> (r: Vec<u64>) {
        let mut r: Vec<u64> = Vec::new();
        assert(sort::keys_int(r@) =~= Seq::empty());
        sort::push_text_key(&mut r, &text::chars_of(self.name.as_str()));
        sort::push_sep(&mut r);
        sort::push_text_key(&mut r, &text::chars_of(self.platform.as_str()));
        r
    }
}

/// The result of a project analysis.
#[derive(Clone, Debug)]
pub struct GodotProjectReport {
    pub project_path: String,
    pub project_format_version: Option<i32>,
    pub addons: Vec<String>,
    pub export_presets: Vec<ExportPreset>,
    pub issues: Vec<Issue>,
}

pub struct ReportV {
    pub project_path: Seq<char>,
    pub version: Option<int>,
    pub addons: Seq<Seq<char>>,
    pub presets: Seq<ExportPresetV>,
    pub issues: Seq<IssueV>,
}

impl View for GodotProjectReport {
    type V = ReportV;

    open spec fn view(&self) -> ReportV {
        ReportV {
            project_path: self.project_path@,
            version: match self.project_format_version {
                Some(n) => Some(n as int),
                None => None,
            },
            addons: strs_view(self.addons@),
            presets: sort::views(self.export_presets@),
            issues: issues_view(self.issues@),
        }
    }
}

impl Issue {
    pub fn info(msg: String, file: Option<String>) -> (r: Issue)
        ensures
            r@ == (IssueV { severity: Severity::Info, message: msg@, file: opt_str_view(file) }),
    {
        Issue { severity: Severity::Info, message: msg, file }
    }

    pub fn warn(msg: String, file: Option<String>) -> (r: Issue)
        ensures
            r@ == (IssueV { severity: Severity::Warn, message: msg@, file: opt_str_view(file) }),
    {
        Issue { severity: Severity::Warn, message: msg, file }
    }

    pub fn error(msg: String, file: Option<String>) -> (r: Issue)
        ensures
            r@ == (IssueV { severity: Severity::Error, message: msg@, file: opt_str_view(file) }),
    {
        Issue { severity: Severity::Error, message: msg, file }
    }
}

/// A file of the project and its text.
#[derive(Clone, Debug)]
pub struct SourceFile {
    /// Relative to the project root, with `/` between components.
    pub path: String,
    pub text: String,
}

/// What the analysis reads of a project: every path under the root that exists (files and
/// directories, relative, `/`-separated; the root itself is the empty path), and the text of
/// the files that could be read. An absolute path in `paths` is a directory outside the tree
/// that exists (the parent of an export path).
#[derive(Clone, Debug)]
pub struct ProjectTree {
    pub paths: Vec<String>,
    /// The directories among `paths`, in the order they were walked.
    pub dirs: Vec<String>,
    /// Every file under the root, in the order they were walked.
    pub file_list: Vec<String>,
    pub files: Vec<SourceFile>,
}

pub struct ProjectTreeV {
    pub paths: Seq<Seq<char>>,
    pub dirs: Seq<Seq<char>>,
    pub file_list: Seq<Seq<char>>,
    pub files: Seq<(Seq<char>, Seq<char>)>,
}

pub open spec fn strs_view(v: Seq<String>) -> Seq<Seq<char>> {
    v.map_values(|s: String| s@)
}

impl View for ProjectTree {
    type V = ProjectTreeV;

    open spec fn view(&self) -> ProjectTreeV {
        ProjectTreeV {
            paths: strs_view(self.paths@),
            dirs: strs_view(self.dirs@),
            file_list: strs_view(self.file_list@),
            files: self.files@.map_values(|f: SourceFile| (f.path@, f.text@)),
        }
    }
}

/// The text of the file at `path`, if it was read: the first entry with that path.
pub open spec fn file_text(files: Seq<(Seq<char>, Seq<char>)>, path: Seq<char>) -> Option<Seq<char>>
    decreases files.len(),
{
    if files.len() == 0 {
        None
    } else if files[0].0 == path {
        Some(files[0].1)
    } else {
        file_text(files.drop_first(), path)
    }
}

impl ProjectTree {
    /// The text of the file at `path`, if it was read.
    pub fn text_of(&self, path: &Vec<char>) -> (r: Option<&String>)
        ensures
            r matches Some(t) ==> file_text(self@.files, path@) == Some(t@),
            r is None ==> file_text(self@.files, path@) is None,
    {
        let mut k: usize = 0;
        assert(self@.files.skip(0) =~= self@.files);
        while k < self.files.len()
            invariant
                k <= self.files.len(),
                file_text(self@.files, path@) == file_text(self@.files.skip(k as int), path@),
            decreases self.files.len() - k,
        {
            let p = text::chars_of(self.files[k].path.as_str());
            assert(self@.files.skip(k as int).drop_first() =~= self@.files.skip(k + 1));
            if text::same(&p, path) {
                return Some(&self.files[k].text);
            }
            k = k + 1;
        }
        None
    }

    /// The existing paths, as character sequences.
    pub fn path_chars(&self) -> (r: Vec<Vec<char>>)
        ensures
            r.deep_view() == self@.paths,
    {
        let mut out: Vec<Vec<char>> = Vec::new();
        let mut k: usize = 0;
        while k < self.paths.len()
            invariant
                k <= self.paths.len(),
                out.deep_view() == strs_view(self.paths@).take(k as int),
            decreases self.paths.len() - k,
        {
            let c = text::chars_of(self.paths[k].as_str());
            proof {
                text::lemma_chars_deep_view(c);
            }
            let ghost before = out.deep_view();
            out.push(c);
            assert(out.deep_view() =~= before.push(c@));
            k = k + 1;
            assert(out.deep_view() =~= strs_view(self.paths@).take(k as int));
        }
        assert(strs_view(self.paths@).take(k as int) =~= strs_view(self.paths@));
        out
    }
}

} // verus!
