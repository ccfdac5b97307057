use grweb::config::{db_backend, default_worker_pool_size, AppConfig, DbBackend, LoggingConfig, ServerConfig};
use grweb::logging::{logger_settings, parse_level, plain_log_file, LogLevel, LogTarget};

#[test]
fn default_configuration() {
    let c = AppConfig::default();
    assert_eq!(c.server.host, "127.0.0.1");
    assert_eq!(c.server.port, 9030);
    assert_eq!(c.server.read_buffer_size, 8192);
    assert!(c.server.tcp_nodelay);
    assert_eq!(c.server.keep_alive_timeout, 5);
    assert_eq!(c.server.static_dir, "public");
    assert_eq!(c.server.max_connections, 0);
    assert_eq!(c.server.connection_timeout, 30);
    assert!(c.server.worker_pool_size >= 1);
    assert_eq!(default_worker_pool_size(), c.server.worker_pool_size);
    assert_eq!(c.database.db_type, "sqlite");
    assert_eq!(c.database.username, "root");
    assert_eq!(c.database.password, "");
    assert_eq!(c.database.database, "grweb_db");
    assert_eq!(c.database.max_size, 100);
    assert_eq!(c.logging.level, "info");
    assert_eq!(c.logging.output, "console");
    assert_eq!(c.logging.file, None);
    assert_eq!(c.cors.allowed_origins, vec!["*".to_string()]);
    assert_eq!(c.cors.allowed_methods, vec!["GET", "POST", "PUT", "DELETE", "OPTIONS"]);
    assert_eq!(c.cors.allowed_headers, vec!["Content-Type".to_string()]);
}

#[test]
fn listen_address() {
    let mut s = ServerConfig::default();
    assert_eq!(s.addr(), "127.0.0.1:9030");
    s.host = "0.0.0.0".to_string();
    s.port = 0;
    assert_eq!(s.addr(), "0.0.0.0:0");
    s.port = 65535;
    assert_eq!(s.addr(), "0.0.0.0:65535");
}

#[test]
fn database_backends() {
    assert_eq!(db_backend("sqlite"), DbBackend::Sqlite);
    assert_eq!(db_backend("mysql"), DbBackend::Mysql);
    assert_eq!(db_backend("postgres"), DbBackend::Postgres);
    assert_eq!(db_backend("SQLite"), DbBackend::Postgres);
    assert_eq!(db_backend(""), DbBackend::Postgres);
}

#[test]
fn log_levels() {
    assert_eq!(parse_level("trace"), LogLevel::Trace);
    assert_eq!(parse_level("DEBUG"), LogLevel::Debug);
    assert_eq!(parse_level("Info"), LogLevel::Info);
    assert_eq!(parse_level("warn"), LogLevel::Warn);
    assert_eq!(parse_level("ERROR"), LogLevel::Error);
    assert_eq!(parse_level("off"), LogLevel::Off);
    assert_eq!(parse_level("verbose"), LogLevel::Info);
    assert_eq!(parse_level("warning"), LogLevel::Info);
}

#[test]
fn log_targets() {
    let file = LoggingConfig { level: "debug".to_string(), output: "FILE".to_string(), file: Some("/tmp/x.log".to_string()) };
    let s = logger_settings(&file);
    assert_eq!(s.level, LogLevel::Debug);
    assert_eq!(s.target, LogTarget::File("/tmp/x.log".to_string()));
    let no_path = LoggingConfig { level: "x".to_string(), output: "file".to_string(), file: None };
    assert_eq!(logger_settings(&no_path).target, LogTarget::Stderr);
    let out = LoggingConfig { level: "off".to_string(), output: "Stdout".to_string(), file: None };
    let s2 = logger_settings(&out);
    assert_eq!((s2.level, s2.target), (LogLevel::Off, LogTarget::Stdout));
    let console = LoggingConfig::default();
    assert_eq!(logger_settings(&console).target, LogTarget::Stderr);
}

#[test]
fn plain_logger_file_choice() {
    let file = LoggingConfig { level: "info".to_string(), output: "file".to_string(), file: Some("/tmp/y.log".to_string()) };
    assert_eq!(plain_log_file(&file), Some("/tmp/y.log".to_string()));
    let upper = LoggingConfig { level: "info".to_string(), output: "FILE".to_string(), file: Some("/tmp/y.log".to_string()) };
    assert_eq!(plain_log_file(&upper), None);
    let no_path = LoggingConfig { level: "info".to_string(), output: "file".to_string(), file: None };
    assert_eq!(plain_log_file(&no_path), None);
    assert_eq!(plain_log_file(&LoggingConfig::default()), None);
}

#[test]
fn level_names_in_any_case() {
    assert_eq!(parse_level("DEBUG"), LogLevel::Debug);
    assert_eq!(parse_level("Warn"), LogLevel::Warn);
    assert_eq!(parse_level("loud"), LogLevel::Info);
}
