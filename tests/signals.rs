use godot_analyzer::signal_validate::{
    connections_to_dot, extract_scene_connections, validate_scene_signals, ConnectionEdge,
};
use godot_analyzer::{signal_graph_dot, signal_issues_as_report, ProjectTree, SourceFile};

fn signal_tree(files: &[(&str, &str)]) -> ProjectTree {
    let mut paths: Vec<String> = vec![String::new()];
    let mut dirs: Vec<String> = vec![String::new()];
    for (p, _) in files {
        if let Some((d, _)) = p.rsplit_once('/') {
            if !dirs.contains(&d.to_string()) {
                dirs.push(d.to_string());
                paths.push(d.to_string());
            }
        }
        paths.push(p.to_string());
    }
    ProjectTree {
        paths,
        dirs,
        file_list: files.iter().map(|(p, _)| p.to_string()).collect(),
        files: files
            .iter()
            .map(|(p, t)| SourceFile { path: p.to_string(), text: t.to_string() })
            .collect(),
    }
}

const RECEIVER_SCENE: &str = "\n[ext_resource type=\"Script\" path=\"res://scripts/receiver.gd\" id=1]\n\n[node name=\"Root\" type=\"Node\" path=\".\"]\n[node name=\"A\" type=\"Node\" parent=\".\"]\n[node name=\"B\" type=\"Node\" parent=\".\" script=ExtResource(\"1\")]\n\n[connection signal=\"pressed\" from=\"A\" to=\"B\" method=\"on_pressed\"]\n";

#[test]
fn generates_signal_graph_dot() {
    let scene = "\n[node name=\"Root\" type=\"Node\"]\n[node name=\"A\" type=\"Node\" parent=\".\"]\n[node name=\"B\" type=\"Node\" parent=\".\"]\n\n[connection signal=\"pressed\" from=\"A\" to=\"B\" method=\"on_pressed\"]\n[connection signal=\"released\" from=\"B\" to=\"A\" method=\"on_released\"]\n";
    let tree = signal_tree(&[("test.tscn", scene)]);
    let dot = signal_graph_dot(&tree);
    assert!(dot.starts_with("digraph Signals"));
    assert!(dot.contains("\"test.tscn:A\" -> \"test.tscn:B\" [label=\"pressed:on_pressed\"];"));
    assert!(dot.contains("\"test.tscn:B\" -> \"test.tscn:A\" [label=\"released:on_released\"];"));
}

#[test]
fn flags_missing_target_method_for_gdscript() {
    let tree = signal_tree(&[
        ("scripts/receiver.gd", "\nextends Node\n\nfunc other_func():\n    pass\n"),
        ("test.tscn", RECEIVER_SCENE),
    ]);
    let issues = signal_issues_as_report(&tree);
    assert!(issues.iter().any(|i| i.message.starts_with("Target method not found:")));
    let hit = issues.iter().find(|i| i.message.starts_with("Target method not found:")).unwrap();
    assert_eq!(
        hit.message,
        "Target method not found: method='on_pressed' to='B' — hint: define 'func on_pressed(...)' in res://scripts/receiver.gd"
    );
}

#[test]
fn accepts_existing_target_method_for_gdscript() {
    let tree = signal_tree(&[
        ("scripts/receiver.gd", "\nextends Node\n\nfunc on_pressed():\n    pass\n"),
        ("test.tscn", RECEIVER_SCENE),
    ]);
    let issues = signal_issues_as_report(&tree);
    assert!(!issues.iter().any(|i| i.message.starts_with("Target method not found:")));
}

#[test]
fn skips_method_check_for_csharp_script() {
    let scene = RECEIVER_SCENE.replace("receiver.gd", "receiver.cs");
    let tree = signal_tree(&[("scripts/receiver.cs", "// csharp placeholder"), ("test.tscn", &scene)]);
    let issues = signal_issues_as_report(&tree);
    assert!(!issues.iter().any(|i| i.message.starts_with("Target method not found:")));
}

#[test]
fn flags_unknown_from_to_and_duplicate_connection() {
    let scene = "\n[node name=\"Root\" type=\"Node\"]\n[node name=\"A\" type=\"Node\" parent=\".\"]\n\n[connection signal=\"pressed\" from=\"A\" to=\"X\" method=\"on_pressed\"]\n[connection signal=\"pressed\" from=\"A\" to=\"X\" method=\"on_pressed\"]\n";
    let tree = signal_tree(&[("test.tscn", scene)]);
    let issues = signal_issues_as_report(&tree);
    assert!(issues.iter().any(|i| i.message.starts_with("Unknown connection 'to' node:")));
    assert!(issues.iter().any(|i| i.message.starts_with("Duplicate connection:")));
}

#[test]
fn duplicate_is_reported_once_on_second_line() {
    let scene = "[node name=\"Root\" type=\"Node\"]\n[node name=\"A\" type=\"Node\" parent=\".\"]\n[connection signal=\"s\" from=\"A\" to=\".\" method=\"m\"]\n[connection signal=\"s\" from=\"A\" to=\".\" method=\"m\"]\n";
    let tree = signal_tree(&[("x.tscn", scene)]);
    let issues = validate_scene_signals(&tree, "x.tscn");
    let dups: Vec<usize> = issues
        .iter()
        .filter(|i| i.message.starts_with("Duplicate connection:"))
        .map(|i| i.line)
        .collect();
    assert_eq!(dups, vec![4]);
    assert_eq!(issues.len(), 1);
    assert_eq!(
        issues[0].message,
        "Duplicate connection: signal=s from=A to=. method=m — hint: remove the duplicate [connection] line"
    );
}

#[test]
fn unknown_target_is_reported_but_left_out_of_graph() {
    let scene = "[node name=\"Root\" type=\"Node\"]\n[node name=\"A\" type=\"Node\" parent=\".\"]\n[connection signal=\"s\" from=\"A\" to=\"Ghost\" method=\"m\"]\n[connection signal=\"t\" from=\"A\" to=\"Root\" method=\"n\"]\n";
    let tree = signal_tree(&[("x.tscn", scene)]);
    let issues = validate_scene_signals(&tree, "x.tscn");
    assert!(issues.iter().any(|i| i.line == 3
        && i.message == "Unknown connection 'to' node: Ghost — hint: create node or correct the 'to' path"));
    let edges = extract_scene_connections(&tree, "x.tscn");
    assert_eq!(edges.len(), 1);
    assert_eq!(edges[0].to, "Root");
    assert!(edges.iter().all(|e| e.to != "Ghost"));
}

#[test]
fn missing_fields_and_bad_method_names_are_reported() {
    let scene = "[connection from=\".\" method=\"1bad\"]\n[connection signal=\"s\" from=\".\" to=\".\" method=\"2x\"]\n";
    let tree = signal_tree(&[("x.tscn", scene)]);
    let issues = validate_scene_signals(&tree, "x.tscn");
    let msgs: Vec<(usize, &str)> = issues.iter().map(|i| (i.line, i.message.as_str())).collect();
    assert_eq!(
        msgs,
        vec![
            (1, "Connection missing signal field — hint: set signal=\"<name>\" in [connection]"),
            (1, "Connection missing to field — hint: set to=\"<node_path>\" (use '.' for the scene root)"),
            (2, "Invalid method name: '2x' — hint: use letters/numbers/underscore and start with a letter/underscore"),
        ]
    );
}

#[test]
fn dot_escapes_quotes_and_sorts_edges() {
    let edges = vec![
        ConnectionEdge {
            scene: "b.tscn".into(),
            from: "A".into(),
            to: "B".into(),
            signal: "say\"hi\"".into(),
            method: "m".into(),
        },
    ];
    let dot = connections_to_dot(&edges);
    assert_eq!(
        dot,
        "digraph Signals {\n  rankdir=LR;\n  \"b.tscn:A\" -> \"b.tscn:B\" [label=\"say\\\"hi\\\":m\"];\n}\n"
    );
    let scene = "[node name=\"A\" type=\"Node\" parent=\".\"]\n[connection signal=\"z\" from=\"A\" to=\".\" method=\"m\"]\n[connection signal=\"a\" from=\"A\" to=\".\" method=\"m\"]\n";
    let tree = signal_tree(&[("s.tscn", scene)]);
    let found = extract_scene_connections(&tree, "s.tscn");
    let signals: Vec<&str> = found.iter().map(|e| e.signal.as_str()).collect();
    assert_eq!(signals, vec!["a", "z"]);
}

#[test]
fn unknown_source_node_is_reported_on_its_line() {
    let scene = "[node name=\"A\" type=\"Node\" parent=\".\"]\n[connection signal=\"s\" from=\"Nope\" to=\"A\" method=\"m\"]\n[connection signal=\"s\" from=\"A\" to=\"A\" method=\"m\"]\n";
    let tree = signal_tree(&[("x.tscn", scene)]);
    let issues = validate_scene_signals(&tree, "x.tscn");
    let got: Vec<(usize, &str)> = issues.iter().map(|i| (i.line, i.message.as_str())).collect();
    assert_eq!(
        got,
        vec![(2, "Unknown connection 'from' node: Nope — hint: create node or correct the 'from' path")]
    );
}
