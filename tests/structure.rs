use godot_analyzer::structure_fix::{
    move_mapping, move_step, plan_structure_fix, res_relative, rewrite_file, ApplyError, FileMove,
};
use godot_analyzer::{ProjectTree, SourceFile};

fn files_tree(files: &[(&str, &str)]) -> ProjectTree {
    let mut paths: Vec<String> = vec![String::new()];
    let mut dirs: Vec<String> = vec![String::new()];
    for (p, _) in files {
        if let Some((d, _)) = p.rsplit_once('/') {
            if !dirs.contains(&d.to_string()) {
                dirs.push(d.to_string());
                paths.push(d.to_string());
            }
        }
        paths.push(p.to_string());
    }
    ProjectTree {
        paths,
        dirs,
        file_list: files.iter().map(|(p, _)| p.to_string()).collect(),
        files: files
            .iter()
            .map(|(p, t)| SourceFile { path: p.to_string(), text: t.to_string() })
            .collect(),
    }
}

fn move_pairs(moves: &[FileMove]) -> Vec<(String, String)> {
    moves.iter().map(|m| (m.from.clone(), m.to.clone())).collect()
}

#[test]
fn plans_moves_for_scripts_and_scenes() {
    let tree = files_tree(&[
        ("main.tscn", "[node name=Root type=Node]"),
        ("player.gd", "extends Node"),
        ("subdir/tex.png", "fake"),
    ]);
    let plan = plan_structure_fix(&tree);
    let moves = move_pairs(&plan.moves);
    assert!(moves.contains(&("res://player.gd".into(), "res://scripts/player.gd".into())));
    assert!(moves.contains(&("res://main.tscn".into(), "res://scenes/main.tscn".into())));
    assert!(moves.contains(&("res://subdir/tex.png".into(), "res://assets/subdir/tex.png".into())));
}

#[test]
fn apply_moves_and_updates_references() {
    let scene = "[gd_scene]\n[ext_resource path=\"res://player.gd\" type=\"Script\" id=1]\n[node name=Root type=Node]\n";
    let script = "extends Node\nvar T = preload(\"res://player.gd\")\n";
    let tree = files_tree(&[("player.gd", script), ("main.tscn", scene), ("sub/tex.png", "fake")]);
    let plan = plan_structure_fix(&tree);
    assert!(!plan.moves.is_empty());
    let steps: Vec<(String, String, String)> = plan
        .moves
        .iter()
        .map(|m| {
            let st = move_step(m).ok().unwrap().unwrap();
            (st.from_rel, st.to_rel, st.backup_rel)
        })
        .collect();
    assert!(steps.contains(&("player.gd".into(), "scripts/player.gd".into(), ".structure_fix/backup/player.gd".into())));
    assert!(steps.contains(&("main.tscn".into(), "scenes/main.tscn".into(), ".structure_fix/backup/main.tscn".into())));
    assert!(steps.contains(&("sub/tex.png".into(), "assets/sub/tex.png".into(), ".structure_fix/backup/sub/tex.png".into())));
    let mapping = move_mapping(&plan);
    let (new_scene, scene_edit) = rewrite_file("scenes/main.tscn", scene, &mapping).unwrap();
    assert!(new_scene.contains("res://scripts/player.gd"));
    assert_eq!(scene_edit.kind, "ext_resource-path");
    assert_eq!(scene_edit.count, 1);
    let (new_script, script_edit) = rewrite_file("scripts/player.gd", script, &mapping).unwrap();
    assert!(new_script.contains("res://scripts/player.gd"));
    assert_eq!(new_script, "extends Node\nvar T = preload(\"res://scripts/player.gd\")\n");
    assert_eq!(script_edit.kind, "gd-load-preload");
    assert_eq!(script_edit.file, "scripts/player.gd");
}

#[test]
fn plan_is_sorted_and_counts_scanned_files() {
    let tree = files_tree(&[
        ("z.gd", ""),
        ("a.tscn", ""),
        ("scripts/ok.gd", ""),
        ("addons/x/plugin.gd", ""),
        ("icon.png.import", ""),
        ("notes.txt", ""),
        ("Art/Logo.PNG", ""),
    ]);
    let plan = plan_structure_fix(&tree);
    assert_eq!(
        move_pairs(&plan.moves),
        vec![
            ("res://Art/Logo.PNG".to_string(), "res://assets/Art/Logo.PNG".to_string()),
            ("res://a.tscn".to_string(), "res://scenes/a.tscn".to_string()),
            ("res://z.gd".to_string(), "res://scripts/z.gd".to_string()),
        ]
    );
    assert_eq!(plan.stats.scanned, 5);
    assert_eq!(plan.stats.proposed, 3);
    assert_eq!(plan.rules.len(), 3);
}

#[test]
fn replanning_after_moves_proposes_nothing() {
    let tree = files_tree(&[("a.gd", "extends Node"), ("b.tscn", "[gd_scene]"), ("sub/c.png", "")]);
    let plan = plan_structure_fix(&tree);
    assert_eq!(
        move_pairs(&plan.moves),
        vec![
            ("res://a.gd".to_string(), "res://scripts/a.gd".to_string()),
            ("res://b.tscn".to_string(), "res://scenes/b.tscn".to_string()),
            ("res://sub/c.png".to_string(), "res://assets/sub/c.png".to_string()),
        ]
    );
    let moved = files_tree(&[("scripts/a.gd", "extends Node"), ("scenes/b.tscn", "[gd_scene]"), ("assets/sub/c.png", "")]);
    let again = plan_structure_fix(&moved);
    assert!(again.moves.is_empty());
}

#[test]
fn non_res_paths_are_refused() {
    let bad = FileMove { from: "file:///x.gd".into(), to: "res://scripts/x.gd".into() };
    match move_step(&bad) {
        Err(ApplyError::NotResUri(u)) => assert_eq!(u, "file:///x.gd"),
        _ => panic!("expected an error"),
    }
    let same = FileMove { from: "res://a.gd".into(), to: "res://a.gd".into() };
    assert!(matches!(move_step(&same), Ok(None)));
    assert_eq!(res_relative("res://a/b.gd").as_deref(), Some("a/b.gd"));
    assert_eq!(res_relative("uid://abc"), None);
}

#[test]
fn files_without_mapped_references_are_left_alone() {
    let mapping = vec![("res://a.gd".to_string(), "res://scripts/a.gd".to_string())];
    assert!(rewrite_file("x.tscn", "[ext_resource path=\"res://b.gd\" id=1]\n", &mapping).is_none());
    assert!(rewrite_file(".structure_fix/backup/a.gd", "load(\"res://a.gd\")", &mapping).is_none());
    assert!(rewrite_file("notes.txt", "load(\"res://a.gd\")", &mapping).is_none());
    let (text, edit) = rewrite_file("y.tres", "[ext_resource  type=\"Script\" path=\"res://a.gd\"]\r\nkeep", &mapping).unwrap();
    assert_eq!(text, "[ext_resource  type=\"Script\" path=\"res://scripts/a.gd\"]\nkeep\n");
    assert_eq!(edit.count, 1);
}

#[test]
fn backups_are_never_moved_or_linted() {
    let tree = files_tree(&[(".structure_fix/backup/a.gd", "print(1)\n")]);
    let plan = plan_structure_fix(&tree);
    assert!(plan.moves.is_empty());
    assert_eq!(plan.stats.scanned, 0);
    assert!(godot_analyzer::script_lint::lint_gd_scripts(&tree).is_empty());
    let after = files_tree(&[
        ("scripts/a.gd", "extends Node"),
        ("scenes/b.tscn", "[gd_scene]"),
        ("assets/sub/c.png", ""),
        (".structure_fix/backup/a.gd", "extends Node"),
        (".structure_fix/backup/b.tscn", "[gd_scene]"),
        (".structure_fix/backup/sub/c.png", ""),
    ]);
    let again = plan_structure_fix(&after);
    assert!(again.moves.is_empty());
    assert_eq!(again.stats.proposed, 0);
}
