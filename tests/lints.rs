use godot_analyzer::script_lint::lint_gd_scripts;
use godot_analyzer::{ProjectTree, Severity, SourceFile};

fn lint_tree(files: &[(&str, &str)]) -> ProjectTree {
    let mut paths: Vec<String> = vec![String::new()];
    let mut dirs: Vec<String> = vec![String::new()];
    for (p, _) in files {
        if let Some((d, _)) = p.rsplit_once('/') {
            if !dirs.contains(&d.to_string()) {
                dirs.push(d.to_string());
                paths.push(d.to_string());
            }
        }
        paths.push(p.to_string());
    }
    ProjectTree {
        paths,
        dirs,
        file_list: files.iter().map(|(p, _)| p.to_string()).collect(),
        files: files
            .iter()
            .map(|(p, t)| SourceFile { path: p.to_string(), text: t.to_string() })
            .collect(),
    }
}

#[test]
fn lints_common_gdscript_issues() {
    let tree = lint_tree(&[
        ("Foo.gd", "class_name Bar\nprint(\"dbg\")\n\t# tab\npreload(\"res://missing/asset.tres\")\n"),
        ("NoExtends.gd", "# no extends here\nvar x=1\n"),
        ("assets/exists.tres", ""),
        ("Ok.gd", "extends Node\npreload(\"res://assets/exists.tres\")\n"),
    ]);
    let findings = lint_gd_scripts(&tree);
    let msgs: Vec<String> = findings.iter().map(|f| f.message.clone()).collect();
    assert!(msgs.iter().any(|m| m.starts_with("Class name mismatch:")));
    assert!(msgs.iter().any(|m| m == "Debug print found"));
    assert!(msgs.iter().any(|m| m == "Tab indentation used"));
    assert!(msgs.iter().any(|m| m == "Missing extends declaration"));
    assert!(msgs.iter().any(|m| m.starts_with("GDScript preload missing file:")) || msgs.iter().any(|m| m.contains("missing file")));
    assert!(findings.len() >= 4);
}

#[test]
fn respects_gd_lint_disable_list() {
    let tree = lint_tree(&[(
        "Suppressed.gd",
        "# gd-lint: disable=debug-print,tab-indentation\nclass_name Foo\nprint(\"dbg\")\n\t# tab indent\nextends Node\n",
    )]);
    let findings = lint_gd_scripts(&tree);
    let msgs: Vec<String> = findings.iter().map(|f| f.message.clone()).collect();
    assert!(!msgs.iter().any(|m| m == "Debug print found"));
    assert!(!msgs.iter().any(|m| m == "Tab indentation used"));
    assert!(msgs.iter().any(|m| m.starts_with("Class name mismatch:")));
}

#[test]
fn respects_gd_lint_off() {
    let tree = lint_tree(&[("DisabledAll.gd", "# gd-lint: off\nprint(\"dbg\")\n\t# tab indent\n")]);
    let findings = lint_gd_scripts(&tree);
    assert!(findings.is_empty());
}

#[test]
fn findings_are_sorted_and_levels_apply() {
    let tree = lint_tree(&[
        ("b/Zed.gd", "# gd-lint: level=ERROR\nclass_name Other\nload(\"res://nope.png\")\n"),
        ("a/Zed.gd", "extends Node\n  prints (1)\n"),
        ("readme.txt", "print(1)\n"),
    ]);
    let findings = lint_gd_scripts(&tree);
    let got: Vec<(&str, &str, &str, Severity)> = findings
        .iter()
        .map(|f| (f.code.as_str(), f.message.as_str(), f.file.as_str(), f.severity))
        .collect();
    assert_eq!(
        got,
        vec![
            ("class-name-mismatch", "Class name mismatch: class_name Other but file is Zed.gd", "b/Zed.gd", Severity::Error),
            ("debug-print", "Debug print found", "a/Zed.gd", Severity::Warn),
            ("missing-extends", "Missing extends declaration", "b/Zed.gd", Severity::Error),
            ("missing-resource-ref", "GDScript load missing file: res://nope.png", "b/Zed.gd", Severity::Error),
        ]
    );
}
