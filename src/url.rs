use vstd::prelude::*;
use crate::db_type::SqlDialect;
use crate::text::{has_prefix, str_eq};

verus! {

pub open spec fn starts_with(s: Seq<char>, p: Seq<char>) -> bool {
    p.len() <= s.len() && s.subrange(0, p.len() as int) == p
}

/// How many leading characters of a connection string are its scheme. The
/// prefixes are tried in this order, so `file://` wins over `file:`.
pub open spec fn scheme_len(s: Seq<char>) -> int {
    if starts_with(s, "file://"@) {
        "file://"@.len() as int
    } else if starts_with(s, "sqlite://"@) {
        "sqlite://"@.len() as int
    } else if starts_with(s, "file:"@) {
        "file:"@.len() as int
    } else if starts_with(s, "sqlite:"@) {
        "sqlite:"@.len() as int
    } else if starts_with(s, "mysql://"@) {
        "mysql://"@.len() as int
    } else if starts_with(s, "postgres://"@) {
        "postgres://"@.len() as int
    } else if starts_with(s, "mssql://"@) {
        "mssql://"@.len() as int
    } else {
        0
    }
}

/// The connection string without its scheme.
pub fn remove_scheme(url: &str) -> (r: &str)
    ensures
        r@ == url@.subrange(scheme_len(url@), url@.len() as int),
{
    let n = if has_prefix(url, "file://") {
        "file://".unicode_len()
    } else if has_prefix(url, "sqlite://") {
        "sqlite://".unicode_len()
    } else if has_prefix(url, "file:") {
        "file:".unicode_len()
    } else if has_prefix(url, "sqlite:") {
        "sqlite:".unicode_len()
    } else if has_prefix(url, "mysql://") {
        "mysql://".unicode_len()
    } else if has_prefix(url, "postgres://") {
        "postgres://".unicode_len()
    } else if has_prefix(url, "mssql://") {
        "mssql://".unicode_len()
    } else {
        0
    };
    let len = url.unicode_len();
    url.substring_char(n, len)
}

/// Whether the string names an in-memory SQLite database.
pub fn is_memory_url(url: &str) -> (r: bool)
    ensures
        r == (url@ == ":memory:"@),
{
    str_eq(url, ":memory:")
}

/// The parts of a connection URL that connectors read and adjust.
pub struct ConnectionUrl {
    pub scheme: String,
    pub username: String,
    pub password: Option<String>,
    pub host: String,
    pub port: Option<u16>,
    pub path: String,
}

/// A MySQL URL without a user name connects as `root`, with an empty
/// password unless one is given; other URLs stay as they are.
pub fn normalized_url(dialect: SqlDialect, url: ConnectionUrl) -> (r: ConnectionUrl)
    ensures
        if dialect == SqlDialect::MySQL && url.username@.len() == 0 {
            &&& r.username@ == "root"@
            &&& match url.password {
                Some(p) => r.password == Some(p),
                None => r.password matches Some(p) && p@.len() == 0,
            }
            &&& r == (ConnectionUrl { username: r.username, password: r.password, ..url })
        } else {
            r == url
        },
{
    let mut url = url;
    if dialect == SqlDialect::MySQL && url.username.as_str().unicode_len() == 0 {
        url.username = String::from_str("root");
        if url.password.is_none() {
            url.password = Some(String::new());
        }
    }
    url
}

/// The URL of the server itself rather than of one database on it:
/// PostgreSQL's maintenance database `/postgres`, otherwise the root path.
pub fn remove_db_path(dialect: SqlDialect, url: &ConnectionUrl) -> (r: ConnectionUrl)
    ensures
        dialect == SqlDialect::PostgreSQL ==> r.path@ == "/postgres"@,
        dialect != SqlDialect::PostgreSQL ==> r.path@ == "/"@,
        r.scheme@ == url.scheme@,
        r.username@ == url.username@,
        r.password == url.password,
        r.host@ == url.host@,
        r.port == url.port,
{
    let path = if dialect == SqlDialect::PostgreSQL {
        String::from_str("/postgres")
    } else {
        String::from_str("/")
    };
    ConnectionUrl {
        scheme: url.scheme.clone(),
        username: url.username.clone(),
        password: url.password.clone(),
        host: url.host.clone(),
        port: url.port,
        path,
    }
}

/// The SQL dialect a connection string names by its scheme, if any.
pub open spec fn dialect_spec(s: Seq<char>) -> Option<SqlDialect> {
    if starts_with(s, "mysql:"@) {
        Some(SqlDialect::MySQL)
    } else if starts_with(s, "postgres:"@) {
        Some(SqlDialect::PostgreSQL)
    } else if starts_with(s, "sqlite:"@) || starts_with(s, "file:"@) {
        Some(SqlDialect::SQLite)
    } else if starts_with(s, "mssql:"@) {
        Some(SqlDialect::MSSQL)
    } else {
        None
    }
}

/// The SQL dialect of a connection string; see [`dialect_spec`].
pub fn dialect_of(url: &str) -> (r: Option<SqlDialect>)
    ensures
        r == dialect_spec(url@),
{
    if has_prefix(url, "mysql:") {
        Some(SqlDialect::MySQL)
    } else if has_prefix(url, "postgres:") {
        Some(SqlDialect::PostgreSQL)
    } else if has_prefix(url, "sqlite:") || has_prefix(url, "file:") {
        Some(SqlDialect::SQLite)
    } else if has_prefix(url, "mssql:") {
        Some(SqlDialect::MSSQL)
    } else {
        None
    }
}

} // verus!
