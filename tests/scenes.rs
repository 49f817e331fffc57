use godot_analyzer::scene_validate::validate_scene;
use godot_analyzer::{scene_issues_as_report_with, ProjectTree, SceneCheckOptions, SourceFile};

fn scene_tree(files: &[(&str, &str)]) -> ProjectTree {
    let mut paths: Vec<String> = vec![String::new()];
    let mut dirs: Vec<String> = vec![String::new()];
    for (p, _) in files {
        if let Some((d, _)) = p.rsplit_once('/') {
            if !dirs.contains(&d.to_string()) {
                dirs.push(d.to_string());
                paths.push(d.to_string());
            }
        }
        paths.push(p.to_string());
    }
    ProjectTree {
        paths,
        dirs,
        file_list: files.iter().map(|(p, _)| p.to_string()).collect(),
        files: files
            .iter()
            .map(|(p, t)| SourceFile { path: p.to_string(), text: t.to_string() })
            .collect(),
    }
}

#[test]
fn unknown_subresource_id_is_reported() {
    let scene = "[gd_scene load_steps=2 format=2]\n\n[node name=\"Root\" type=\"AnimationPlayer\" path=\"/root\"]\nlibraries = {\"\": SubResource(\"1\")}\n";
    let tree = scene_tree(&[("project.godot", "[application]\nconfig_version=5\n"), ("main.tscn", scene)]);
    let issues = validate_scene(&tree, "main.tscn");
    assert!(issues.iter().any(|i| i.message.contains("Unknown SubResource id: 1")), "issues: {issues:?}");
}

#[test]
fn preload_missing_file_is_reported() {
    let scene = "[gd_scene load_steps=2 format=2]\n\n[node name=\"Root\" type=\"Node\" path=\"/root\"]\nscript=\"res://scripts/exists.gd\"\n# GDScript-like content embedded or adjacent lines\n_some_prop = preload(\"res://not_found/thing.tscn\")\n";
    let tree = scene_tree(&[
        ("project.godot", "[application]\nconfig_version=5\n"),
        ("scripts/exists.gd", "extends Node\n"),
        ("main.tscn", scene),
    ]);
    let issues = validate_scene(&tree, "main.tscn");
    assert!(
        issues.iter().any(|i| i.message.contains("Preload missing file: res://not_found/thing.tscn")),
        "issues: {issues:?}"
    );
}

#[test]
fn load_missing_file_is_reported() {
    let scene = "[gd_scene load_steps=2 format=2]\n\n[node name=\"Root\" type=\"Node\" path=\"/root\"]\n_some_prop = load(\"res://not_found/thing2.tscn\")\n";
    let tree = scene_tree(&[("project.godot", "[application]\nconfig_version=5\n"), ("main.tscn", scene)]);
    let issues = validate_scene(&tree, "main.tscn");
    assert!(
        issues.iter().any(|i| i.message.contains("Load missing file: res://not_found/thing2.tscn")),
        "issues: {issues:?}"
    );
}

#[test]
fn reports_missing_script_in_scene() {
    let scene = "[gd_scene load_steps=2 format=2]\n\n[node name=\"Root\" type=\"Node\" path=\"/root\"]\nscript=\"res://scripts/missing.gd\"\n";
    let tree = scene_tree(&[("project.godot", "[application]\nconfig_version=5\n"), ("scenes/main.tscn", scene)]);
    let issues = validate_scene(&tree, "scenes/main.tscn");
    assert!(issues.iter().any(|i| i.message.contains("Missing script: res://scripts/missing.gd")));
    let hit = issues.iter().find(|i| i.message.contains("Missing script")).unwrap();
    assert!(hit.line >= 3);
    assert_eq!(hit.node_path.as_deref(), Some("/root"));
}

#[test]
fn ok_when_script_exists() {
    let scene = "[gd_scene load_steps=2 format=2]\n\n[node name=\"Root\" type=\"Node\" path=\"/root\"]\nscript=\"res://scripts/exists.gd\"\n";
    let tree = scene_tree(&[
        ("project.godot", "[application]\nconfig_version=5\n"),
        ("scripts/exists.gd", "extends Node\n"),
        ("main.tscn", scene),
    ]);
    let issues = validate_scene(&tree, "main.tscn");
    assert!(issues.is_empty(), "expected no issues, got: {issues:?}");
}

#[test]
fn ext_resource_missing_file_is_reported() {
    let scene = "[gd_scene load_steps=2 format=2]\n\n[ext_resource type=\"Script\" path=\"res://scripts/missing.gd\" id=1]\n\n[node name=\"Root\" type=\"Node\" path=\"/root\"]\nscript = ExtResource(\"1\")\n";
    let tree = scene_tree(&[("project.godot", "[application]\nconfig_version=5\n"), ("main.tscn", scene)]);
    let issues = validate_scene(&tree, "main.tscn");
    assert!(issues.iter().any(|i| i.message.contains("Missing ext_resource path: res://scripts/missing.gd")));
    assert!(issues.iter().any(|i| i.message.contains("Script ExtResource(1) missing file res://scripts/missing.gd")));
}

#[test]
fn unknown_ext_resource_id_is_reported() {
    let scene = "[gd_scene load_steps=2 format=2]\n\n[node name=\"Root\" type=\"Node\" path=\"/root\"]\nscript = ExtResource(\"99\")\n";
    let tree = scene_tree(&[("project.godot", "[application]\nconfig_version=5\n"), ("main.tscn", scene)]);
    let issues = validate_scene(&tree, "main.tscn");
    assert!(issues.iter().any(|i| i.message.contains("Unknown ExtResource id: 99")));
}

#[test]
fn declaration_and_usage_findings_coexist() {
    let scene = "[ext_resource type=\"Script\" path=\"res://nowhere.gd\" id=1]\n[node name=\"Root\" type=\"Node\"]\nscript = ExtResource(\"1\")\n";
    let tree = scene_tree(&[("main.tscn", scene)]);
    let issues = validate_scene(&tree, "main.tscn");
    let found: Vec<(usize, &str)> = issues.iter().map(|i| (i.line, i.message.as_str())).collect();
    assert_eq!(
        found,
        vec![
            (1, "Missing ext_resource path: res://nowhere.gd"),
            (3, "Script ExtResource(1) missing file res://nowhere.gd"),
        ]
    );
    let report = godot_analyzer::analyze_project("/p", &tree);
    assert!(report.issues.iter().any(|i| i.message == "Missing ext_resource path: res://nowhere.gd"));
    let scene_report = godot_analyzer::scene_issues_as_report(&tree);
    assert_eq!(scene_report.len(), 1);
    assert_eq!(scene_report[0].message, "Script ExtResource(1) missing file res://nowhere.gd [node: Root]");
}

#[test]
fn node_path_is_appended_and_checks_can_be_deselected() {
    let scene = "[node name=\"Root\" type=\"Node\" path=\"/root\"]\nscript=\"res://gone.gd\"\nx = preload(\"res://gone.tscn\")\n";
    let tree = scene_tree(&[("main.tscn", scene), ("notes.txt", "SubResource(\"4\")")]);
    let all = scene_issues_as_report_with(&tree, &SceneCheckOptions::default());
    let msgs: Vec<&str> = all.iter().map(|i| i.message.as_str()).collect();
    assert_eq!(
        msgs,
        vec!["Missing script: res://gone.gd [node: /root]", "Preload missing file: res://gone.tscn"]
    );
    let only_preload = SceneCheckOptions { script: false, properties: false, subresource: false, preload: true, load: false };
    let some = scene_issues_as_report_with(&tree, &only_preload);
    assert_eq!(some.len(), 1);
    assert_eq!(some[0].message, "Preload missing file: res://gone.tscn");
    assert_eq!(some[0].file.as_deref(), Some("main.tscn"));
}

#[test]
fn unread_scene_gives_no_findings() {
    let tree = scene_tree(&[]);
    assert!(validate_scene(&tree, "missing.tscn").is_empty());
}

#[test]
fn node_declared_by_name_and_parent_gives_the_finding_its_path() {
    let scene = "[node name=\"Root\" type=\"Node\"]\n[node name=\"A\" type=\"Node\" parent=\".\"]\nscript=\"res://gone_a.gd\"\n[node name=\"B\" type=\"Node\" parent=\"A\"]\nscript=\"res://gone_b.gd\"\n";
    let tree = scene_tree(&[("main.tscn", scene)]);
    let issues = validate_scene(&tree, "main.tscn");
    let got: Vec<(usize, Option<&str>)> = issues.iter().map(|i| (i.line, i.node_path.as_deref())).collect();
    assert_eq!(got, vec![(3, Some("A")), (5, Some("A/B"))]);
}

#[test]
fn scene_backups_are_not_scanned() {
    let scene = "[ext_resource type=\"Script\" path=\"res://old.gd\" id=1]\n[node name=\"Root\" type=\"Node\"]\nscript = ExtResource(\"1\")\n";
    let tree = scene_tree(&[(".structure_fix/backup/main.tscn", scene)]);
    assert!(godot_analyzer::scene_issues_as_report(&tree).is_empty());
    let report = godot_analyzer::analyze_project("/p", &tree);
    assert!(!report.issues.iter().any(|i| i.message.starts_with("Missing ext_resource path")));
    assert!(godot_analyzer::signal_issues_as_report(&tree).is_empty());
}
