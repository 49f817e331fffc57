use godot_analyzer::config::{default_auto_start_watchers, AppConfig, ServerConfig};

fn godot_mcp_common_types() -> AppConfig {
    AppConfig { server: ServerConfig { host: "127.0.0.1".into(), port: 8080, auto_start_watchers: true } }
}

#[test]
fn types_exist() {
    let _ = godot_mcp_common_types();
}

#[test]
fn watchers_start_by_default() {
    assert!(default_auto_start_watchers());
    let cfg = godot_mcp_common_types();
    assert_eq!(cfg.server.port, 8080);
    assert_eq!(cfg.server.host, "127.0.0.1");
}
