use amp_rs::clock::Timestamp;
use amp_rs::config::{join_path, Cli, Command, Config};
use amp_rs::http::routes::{health_check, status_response, uptime_secs, VERSION};

#[test]
fn test_config_default() {
    let config = Config::default_for_home(Some("/home/me".to_string()));
    assert_eq!(config.port, 8080);
    assert_eq!(config.embedding_threads, 2);
    assert_eq!(config.log_level, "info");
    assert!(config.watch_dirs.is_empty());
    assert_eq!(config.data_dir, "/home/me/.amp-rs");
}

#[test]
fn test_config_default_without_home() {
    let config = Config::default_for_home(None);
    assert_eq!(config.data_dir, "./.amp-rs");
}

#[test]
fn test_join_path() {
    assert_eq!(join_path("/data", "amp.db"), "/data/amp.db");
    assert_eq!(join_path("/data/", "amp.db"), "/data/amp.db");
    assert_eq!(join_path("", "models"), "models");
    assert_eq!(join_path("/data", "/abs"), "/abs");
    assert_eq!(join_path("rel", ""), "rel/");
}

#[test]
fn test_command_values() {
    let cli = Cli {
        command: Command::Serve {
            data_dir: "~/.amp-rs".to_string(),
            watch_dirs: vec!["/a".to_string()],
            embedding_threads: 2,
            port: 8080,
            debug: false,
        },
    };
    match cli.command {
        Command::Serve { port, .. } => assert_eq!(port, 8080),
        Command::Index { .. } => panic!("expected serve"),
    }
}

#[test]
fn test_health_check() {
    let h = health_check();
    assert_eq!(h.status, "ok");
    assert_eq!(h.version, VERSION);
    assert_eq!(h.version, "0.1.0");
}

#[test]
fn test_status_response() {
    let s = status_response(3, 2, 1, 42);
    assert_eq!(s.status, "ok");
    assert_eq!(s.version, VERSION);
    assert_eq!((s.lessons_count, s.checkpoints_count, s.chunks_count), (3, 2, 1));
    assert_eq!(s.uptime_seconds, 42);
}

#[test]
fn test_uptime_secs() {
    let start = Timestamp { secs: 1000, nanos: 500_000_000 };
    assert_eq!(uptime_secs(start, Timestamp { secs: 1010, nanos: 400_000_000 }), 9);
    assert_eq!(uptime_secs(start, Timestamp { secs: 1010, nanos: 600_000_000 }), 10);
    assert_eq!(uptime_secs(start, start), 0);
    assert_eq!(uptime_secs(start, Timestamp { secs: 900, nanos: 0 }), 0);
}

#[test]
fn test_server_status_missing_db() {
    let dir = tempfile::tempdir().unwrap();
    let state = amp_rs::http::AppState {
        db_path: std::sync::Arc::new(dir.path().join("none.db").to_string_lossy().to_string()),
        start_time: amp_rs::clock::now_utc(),
    };
    let s = amp_rs::http::routes::server_status(&state);
    assert_eq!(s.status, "ok");
    assert_eq!((s.lessons_count, s.checkpoints_count, s.chunks_count), (0, 0, 0));
}
