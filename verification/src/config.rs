//! Application settings and their defaults.
use vstd::prelude::*;
use crate::text::{decimal, itoa_u64, push_str, str_equal};

verus! {

broadcast use vstd::string::group_string_axioms;

/// The whole configuration of an application.
pub struct AppConfig {
    pub server: ServerConfig,
    pub database: DatabaseConfig,
    pub logging: LoggingConfig,
    pub cors: CorsConfig,
}

/// How the server listens and serves.
pub struct ServerConfig {
    pub host: String,
    pub port: u16,
    pub worker_pool_size: usize,
    pub read_buffer_size: usize,
    pub tcp_nodelay: bool,
    pub keep_alive_timeout: u64,
    pub static_dir: String,
    pub max_connections: usize,
    pub connection_timeout: u64,
}

/// Where the database is and how many connections the pool may hold.
pub struct DatabaseConfig {
    pub db_type: String,
    pub host: String,
    pub port: u16,
    pub username: String,
    pub password: String,
    pub database: String,
    pub max_size: usize,
}

/// How much is logged and where.
pub struct LoggingConfig {
    pub level: String,
    pub output: String,
    pub file: Option<String>,
}

/// The cross-origin settings.
pub struct CorsConfig {
    pub allowed_origins: Vec<String>,
    pub allowed_methods: Vec<String>,
    pub allowed_headers: Vec<String>,
}

fn string_of(s: &str) -> (r: String)
    ensures
        r@ == s@,
{
    s.to_owned()
}

pub fn default_db_type() -> (r: String)
    ensures
        r@ == "sqlite"@,
{
    string_of("sqlite")
}

pub fn default_host() -> (r: String)
    ensures
        r@ == "127.0.0.1"@,
{
    string_of("127.0.0.1")
}

pub fn default_port() -> (r: u16)
    ensures
        r == 9030,
{
    9030
}

/// Calls `num_cpus::get`: the number of logical CPUs this process may use.
/// The count depends on the machine; the crate documents that it is always at
/// least 1, and that is all that is promised of it.
#[verifier::external_body]
fn cpu_count() -> (r: usize)
    ensures
        r >= 1,
{
    num_cpus::get()
}

/// One worker per logical CPU that the process may use: at least one.
pub fn default_worker_pool_size() -> (r: usize)
    ensures
        r >= 1,
{
    cpu_count()
}

pub fn default_read_buffer_size() -> (r: usize)
    ensures
        r == 8192,
{
    8192
}

pub fn default_tcp_nodelay() -> (r: bool)
    ensures
        r,
{
    true
}

pub fn default_keep_alive_timeout() -> (r: u64)
    ensures
        r == 5,
{
    5
}

pub fn default_static_dir() -> (r: String)
    ensures
        r@ == "public"@,
{
    string_of("public")
}

/// No limit on open connections.
pub fn default_max_connections() -> (r: usize)
    ensures
        r == 0,
{
    0
}

pub fn default_connection_timeout() -> (r: u64)
    ensures
        r == 30,
{
    30
}

pub fn default_username() -> (r: String)
    ensures
        r@ == "root"@,
{
    string_of("root")
}

pub fn default_password() -> (r: String)
    ensures
        r@ == ""@,
{
    string_of("")
}

pub fn default_database() -> (r: String)
    ensures
        r@ == "grweb_db"@,
{
    string_of("grweb_db")
}

pub fn default_max_size() -> (r: usize)
    ensures
        r == 100,
{
    100
}

pub fn default_log_level() -> (r: String)
    ensures
        r@ == "info"@,
{
    string_of("info")
}

pub fn default_log_output() -> (r: String)
    ensures
        r@ == "console"@,
{
    string_of("console")
}

pub fn default_allowed_origins() -> (r: Vec<String>)
    ensures
        r.deep_view() == seq!["*"@],
{
    let mut v: Vec<String> = Vec::new();
    v.push(string_of("*"));
    assert(v.deep_view() =~= seq!["*"@]);
    v
}

pub fn default_allowed_methods() -> (r: Vec<String>)
    ensures
        r.deep_view() == seq!["GET"@, "POST"@, "PUT"@, "DELETE"@, "OPTIONS"@],
{
    let mut v: Vec<String> = Vec::new();
    v.push(string_of("GET"));
    v.push(string_of("POST"));
    v.push(string_of("PUT"));
    v.push(string_of("DELETE"));
    v.push(string_of("OPTIONS"));
    assert(v.deep_view() =~= seq!["GET"@, "POST"@, "PUT"@, "DELETE"@, "OPTIONS"@]);
    v
}

pub fn default_allowed_headers() -> (r: Vec<String>)
    ensures
        r.deep_view() == seq!["Content-Type"@],
{
    let mut v: Vec<String> = Vec::new();
    v.push(string_of("Content-Type"));
    assert(v.deep_view() =~= seq!["Content-Type"@]);
    v
}

impl Default for ServerConfig {
    fn default() -> (r: Self)
        ensures
            r.host@ == "127.0.0.1"@,
            r.port == 9030,
            r.worker_pool_size >= 1,
            r.read_buffer_size == 8192,
            r.tcp_nodelay,
            r.keep_alive_timeout == 5,
            r.static_dir@ == "public"@,
            r.max_connections == 0,
            r.connection_timeout == 30,
    {
        ServerConfig {
            host: default_host(),
            port: default_port(),
            worker_pool_size: default_worker_pool_size(),
            read_buffer_size: default_read_buffer_size(),
            tcp_nodelay: default_tcp_nodelay(),
            keep_alive_timeout: default_keep_alive_timeout(),
            static_dir: default_static_dir(),
            max_connections: default_max_connections(),
            connection_timeout: default_connection_timeout(),
        }
    }
}

impl Default for DatabaseConfig {
    fn default() -> (r: Self)
        ensures
            r.db_type@ == "sqlite"@,
            r.host@ == "127.0.0.1"@,
            r.port == 9030,
            r.username@ == "root"@,
            r.password@ == ""@,
            r.database@ == "grweb_db"@,
            r.max_size == 100,
    {
        DatabaseConfig {
            db_type: default_db_type(),
            host: default_host(),
            port: default_port(),
            username: default_username(),
            password: default_password(),
            database: default_database(),
            max_size: default_max_size(),
        }
    }
}

impl Default for LoggingConfig {
    fn default() -> (r: Self)
        ensures
            r.level@ == "info"@,
            r.output@ == "console"@,
            r.file is None,
    {
        LoggingConfig { level: default_log_level(), output: default_log_output(), file: None }
    }
}

impl Default for CorsConfig {
    fn default() -> (r: Self)
        ensures
            r.allowed_origins.deep_view() == seq!["*"@],
            r.allowed_methods.deep_view() == seq!["GET"@, "POST"@, "PUT"@, "DELETE"@, "OPTIONS"@],
            r.allowed_headers.deep_view() == seq!["Content-Type"@],
    {
        CorsConfig {
            allowed_origins: default_allowed_origins(),
            allowed_methods: default_allowed_methods(),
            allowed_headers: default_allowed_headers(),
        }
    }
}

impl Default for AppConfig {
    fn default() -> (r: Self)
        ensures
            r.server.host@ == "127.0.0.1"@,
            r.server.port == 9030,
            r.server.worker_pool_size >= 1,
            r.server.read_buffer_size == 8192,
            r.server.tcp_nodelay,
            r.server.keep_alive_timeout == 5,
            r.server.static_dir@ == "public"@,
            r.server.max_connections == 0,
            r.server.connection_timeout == 30,
            r.database.db_type@ == "sqlite"@,
            r.database.host@ == "127.0.0.1"@,
            r.database.port == 9030,
            r.database.username@ == "root"@,
            r.database.password@ == ""@,
            r.database.database@ == "grweb_db"@,
            r.database.max_size == 100,
            r.logging.level@ == "info"@,
            r.logging.output@ == "console"@,
            r.logging.file is None,
            r.cors.allowed_origins.deep_view() == seq!["*"@],
            r.cors.allowed_methods.deep_view() == seq!["GET"@, "POST"@, "PUT"@, "DELETE"@, "OPTIONS"@],
            r.cors.allowed_headers.deep_view() == seq!["Content-Type"@],
    {
        AppConfig {
            server: ServerConfig::default(),
            database: DatabaseConfig::default(),
            logging: LoggingConfig::default(),
            cors: CorsConfig::default(),
        }
    }
}

impl ServerConfig {
    /// The address to listen on: `host:port`.
    pub fn addr(&self) -> (r: String)
        ensures
            r@ == self.host@ + ":"@ + decimal(self.port as nat),
    {
        let mut s = self.host.clone();
        push_str(&mut s, ":");
        let p = itoa_u64(self.port as u64);
        push_str(&mut s, p.as_str());
        s
    }
}

/// The database a configuration names by its `db_type`.
#[derive(Debug, Clone, Copy, PartialEq, Eq, Structural)]
pub enum DbBackend {
    Sqlite,
    Mysql,
    Postgres,
}

/// `sqlite` and `mysql` name their databases; any other type means PostgreSQL.
pub open spec fn backend_named(t: Seq<char>) -> DbBackend {
    if t == "sqlite"@ {
        DbBackend::Sqlite
    } else if t == "mysql"@ {
        DbBackend::Mysql
    } else {
        DbBackend::Postgres
    }
}

/// The backend that a `db_type` names.
pub fn db_backend(db_type: &str) -> (r: DbBackend)
    ensures
        r == backend_named(db_type@),
{
    if str_equal(db_type, "sqlite") {
        DbBackend::Sqlite
    } else if str_equal(db_type, "mysql") {
        DbBackend::Mysql
    } else {
        DbBackend::Postgres
    }
}

} // verus!
