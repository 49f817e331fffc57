use godot_analyzer::report::sarif_results;
use godot_analyzer::{
    analyze_project, scene_issues_as_report, to_junit, ProjectTree, Severity, SourceFile,
};

/// A project tree holding the given files (with their text) and directories.
fn tree_of(files: &[(&str, &str)], dirs: &[&str]) -> ProjectTree {
    let mut all_dirs: Vec<String> = vec![String::new()];
    let mut add_dir = |d: String, all: &mut Vec<String>| {
        if !all.contains(&d) {
            all.push(d);
        }
    };
    for d in dirs {
        let mut acc = String::new();
        for part in d.split('/') {
            if !acc.is_empty() {
                acc.push('/');
            }
            acc.push_str(part);
            add_dir(acc.clone(), &mut all_dirs);
        }
    }
    for (p, _) in files {
        let parts: Vec<&str> = p.split('/').collect();
        let mut acc = String::new();
        for part in &parts[..parts.len() - 1] {
            if !acc.is_empty() {
                acc.push('/');
            }
            acc.push_str(part);
            add_dir(acc.clone(), &mut all_dirs);
        }
    }
    let mut paths = all_dirs.clone();
    for (p, _) in files {
        paths.push(p.to_string());
    }
    ProjectTree {
        paths,
        dirs: all_dirs,
        file_list: files.iter().map(|(p, _)| p.to_string()).collect(),
        files: files
            .iter()
            .map(|(p, t)| SourceFile { path: p.to_string(), text: t.to_string() })
            .collect(),
    }
}

#[test]
fn warns_when_addon_missing_plugin_cfg() {
    let tree = tree_of(&[("project.godot", "[application]\nconfig_version=5\n")], &["addons/foo"]);
    let report = analyze_project("/tmp/proj", &tree);
    assert!(report.issues.iter().any(|i| i.message.contains("Addon 'foo' missing plugin.cfg")));
    assert_eq!(report.addons, vec!["foo".to_string()]);
}

#[test]
fn warns_when_icon_and_main_scene_missing() {
    let tree = tree_of(&[("project.godot", "[application]\nconfig_version=5\n")], &[]);
    let report = analyze_project("/tmp/proj", &tree);
    assert!(report.issues.iter().any(|i| i.message.contains("No application icon configured")));
    assert!(report.issues.iter().any(|i| i.message.contains("No main scene configured")));
    assert_eq!(report.project_format_version, Some(5));
}

#[test]
fn junit_uses_scene_validator_classname_for_scene_findings() {
    let scene = "[gd_scene load_steps=2 format=2]\n\n[ext_resource type=\"Script\" path=\"res://scripts/missing.gd\" id=1]\n\n[node name=\"Root\" type=\"Node\" path=\"/root\"]\nscript = ExtResource(\"1\")\n";
    let tree = tree_of(
        &[("project.godot", "[application]\nconfig_version=5\n"), ("main.tscn", scene)],
        &[],
    );
    let mut report = analyze_project("/tmp/proj", &tree);
    let scene_issues = scene_issues_as_report(&tree);
    assert!(!scene_issues.is_empty());
    report.issues.extend(scene_issues);
    let junit = to_junit(&report);
    assert!(junit.contains("classname=\"scene-validator\""));
}

#[test]
fn detects_missing_ext_resource() {
    let scene = "[gd_scene load_steps=2 format=3]\n[ext_resource type=\"Texture2D\" uid=\"uid://abcd\" path=\"res://assets/missing.png\" id=\"1\"]\n[node name=\"Root\" type=\"Node\"]\n";
    let tree = tree_of(
        &[("project.godot", "config_version=5\n"), ("scenes/missing_ref.tscn", scene)],
        &["scenes"],
    );
    let report = analyze_project("/tmp/proj", &tree);
    assert!(report.issues.iter().any(|i| i.message.contains("Missing ext_resource path")));
    let hit = report
        .issues
        .iter()
        .find(|i| i.message == "Missing ext_resource path: res://assets/missing.png")
        .unwrap();
    assert_eq!(hit.severity, Severity::Error);
    assert_eq!(hit.file.as_deref(), Some("scenes/missing_ref.tscn"));
}

#[test]
fn sarif_and_junit_generation_succeeds() {
    let tree = tree_of(&[("project.godot", "[application]\nconfig_version=5\n")], &[]);
    let report = analyze_project("/tmp/proj", &tree);
    let results = sarif_results(&report);
    assert_eq!(results.len(), report.issues.len());
    assert!(results.iter().all(|r| r.rule_id == "godot-analyzer"));
    let junit = to_junit(&report);
    assert!(junit.contains("<testsuite"));
}

#[test]
fn property_extresource_missing_file_is_reported_and_ruleid_is_scene_validator() {
    let scene = "[gd_scene load_steps=2 format=2]\n\n[ext_resource type=\"Texture2D\" path=\"res://textures/missing.png\" id=1]\n\n[node name=\"Root\" type=\"Sprite2D\" path=\"/root\"]\ntexture = ExtResource(\"1\")\n";
    let tree = tree_of(
        &[("project.godot", "[application]\nconfig_version=5\n"), ("main.tscn", scene)],
        &[],
    );
    let issues = godot_analyzer::scene_validate::validate_scene(&tree, "main.tscn");
    assert!(issues.iter().any(|i| i.message.contains(
        "Property 'texture' ExtResource(1) missing file res://textures/missing.png"
    )));
    let mut report = analyze_project("/tmp/proj", &tree);
    let scene_issues = scene_issues_as_report(&tree);
    assert!(!scene_issues.is_empty());
    report.issues.extend(scene_issues);
    let results = sarif_results(&report);
    assert!(results.iter().any(|r| r.rule_id == "scene-validator"));
}

#[test]
fn scene_issues_helper_reports_missing_script_and_extresource() {
    let scene = "[gd_scene load_steps=2 format=2]\n\n[ext_resource type=\"Script\" path=\"res://scripts/missing.gd\" id=1]\n\n[node name=\"Root\" type=\"Node\" path=\"/root\"]\nscript = ExtResource(\"1\")\n";
    let tree = tree_of(
        &[("project.godot", "config_version=5\n"), ("scenes/main.tscn", scene)],
        &["scenes"],
    );
    let issues = scene_issues_as_report(&tree);
    assert!(!issues.is_empty());
    assert!(issues
        .iter()
        .any(|i| i.message.contains("ExtResource(") || i.message.contains("Missing ext_resource path:")));
}

#[test]
fn analysis_is_repeatable_and_sorted() {
    let scene = "[ext_resource type=\"Script\" path=\"res://gone.gd\" id=1]\n";
    let tree = tree_of(
        &[
            ("project.godot", "config_version=4\nconfig/icon='res://icon.png'\n"),
            ("export_presets.cfg", "[preset.0]\nname=Web\nplatform=Web\nexport_path=out/web/index.html\n[preset.1]\nname='Linux'\nplatform=Linux/X11\n"),
            ("b.tscn", scene),
            ("a.tres", scene),
        ],
        &["addons/zeta", "addons/alpha"],
    );
    let first = analyze_project("/tmp/proj", &tree);
    let second = analyze_project("/tmp/proj", &tree);
    let show = |r: &godot_analyzer::GodotProjectReport| {
        format!("{:?}|{:?}|{:?}|{:?}", r.project_format_version, r.addons, r.export_presets, r.issues)
    };
    assert_eq!(show(&first), show(&second));
    assert_eq!(first.addons, vec!["alpha".to_string(), "zeta".to_string()]);
    let names: Vec<&str> = first.export_presets.iter().map(|p| p.name.as_str()).collect();
    assert_eq!(names, vec!["Linux", "Web"]);
    for w in first.issues.windows(2) {
        assert!((w[0].severity, &w[0].message) <= (w[1].severity, &w[1].message));
    }
    assert!(first.issues.iter().any(|i| i.message == "Missing application icon: res://icon.png"));
    assert!(first
        .issues
        .iter()
        .any(|i| i.message == "Export path parent directory does not exist: /tmp/proj/out/web"));
    let broken: Vec<&str> = first
        .issues
        .iter()
        .filter(|i| i.message == "Missing ext_resource path: res://gone.gd")
        .map(|i| i.file.as_deref().unwrap())
        .collect();
    assert_eq!(broken, vec!["b.tscn", "a.tres"]);
}

#[test]
fn missing_manifest_and_presets_are_reported() {
    let tree = tree_of(&[], &[]);
    let report = analyze_project("/p", &tree);
    let msgs: Vec<(Severity, &str)> = report.issues.iter().map(|i| (i.severity, i.message.as_str())).collect();
    assert_eq!(
        msgs,
        vec![
            (Severity::Info, "Missing export_presets.cfg"),
            (Severity::Info, "No addons/ directory found"),
            (Severity::Warn, "Missing project.godot"),
        ]
    );
    assert_eq!(report.project_format_version, None);
}

#[test]
fn empty_presets_file_warns() {
    let tree = tree_of(&[("project.godot", "config_version=+7\n"), ("export_presets.cfg", "")], &[]);
    let report = analyze_project("/p", &tree);
    assert!(report
        .issues
        .iter()
        .any(|i| i.severity == Severity::Warn && i.message == "export_presets.cfg present but no presets found"));
    assert_eq!(report.project_format_version, Some(7));
}

#[test]
fn junit_escapes_and_counts() {
    let tree = tree_of(&[], &[]);
    let mut report = analyze_project("/p", &tree);
    report.issues = vec![godot_analyzer::Issue::error("a<b & c>d".to_string(), Some("x&y".to_string()))];
    let junit = to_junit(&report);
    assert_eq!(
        junit,
        "<?xml version=\"1.0\" encoding=\"UTF-8\"?>\n<testsuite name=\"godot-analyzer\" tests=\"1\">\n  <testcase name=\"a&lt;b &amp; c&gt;d\" classname=\"godot-analyzer\">\n    <failure message=\"Error\">x&amp;y</failure>\n  </testcase>\n</testsuite>\n"
    );
}

#[test]
fn export_path_stays_with_its_section() {
    let tree = tree_of(
        &[("project.godot", "config_version=5\n"), ("export_presets.cfg", "[a]\nexport_path=x\n[b]\nname=n\nplatform=p\n")],
        &[],
    );
    let report = analyze_project("/p", &tree);
    assert_eq!(report.export_presets.len(), 1);
    assert_eq!(report.export_presets[0].name, "n");
    assert_eq!(report.export_presets[0].export_path, None);
}
