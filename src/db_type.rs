use vstd::prelude::*;
use crate::field::FieldType;

verus! {

/// The SQL dialects a connector can speak.
#[derive(PartialEq, Eq, Structural, Clone, Copy, Debug)]
pub enum SqlDialect {
    MySQL,
    PostgreSQL,
    SQLite,
    MSSQL,
}

/// A concrete column type. `m` is a display width or length, `u` marks
/// unsigned integers, `d` a number of decimals, `n` a character set and `c`
/// a collation.
#[derive(Debug)]
pub enum DatabaseType {
    Undefined,
    Bool,
    TinyInt { m: Option<u8>, u: bool },
    SmallInt { m: Option<u8>, u: bool },
    Int { m: Option<u8>, u: bool },
    BigInt { m: Option<u8>, u: bool },
    Real,
    Double { m: Option<u8>, d: Option<u8> },
    VarChar { m: u16, n: Option<String>, c: Option<String> },
    Date,
    DateTime(u8),
    Decimal { m: Option<u8>, d: Option<u8> },
}

/// The MySQL column type of each field type. Only types kept out of band
/// have none: enums, lists, dictionaries and objects, and object ids, which
/// exist for MongoDB alone.
pub open spec fn mysql_type(t: FieldType) -> DatabaseType {
    match t {
        FieldType::Bool => DatabaseType::Bool,
        FieldType::I8 => DatabaseType::TinyInt { m: None, u: false },
        FieldType::I16 => DatabaseType::SmallInt { m: None, u: false },
        FieldType::I32 => DatabaseType::Int { m: None, u: false },
        FieldType::I64 => DatabaseType::BigInt { m: None, u: false },
        FieldType::I128 => DatabaseType::BigInt { m: None, u: false },
        FieldType::U8 => DatabaseType::TinyInt { m: None, u: true },
        FieldType::U16 => DatabaseType::SmallInt { m: None, u: true },
        FieldType::U32 => DatabaseType::Int { m: None, u: true },
        FieldType::U64 => DatabaseType::BigInt { m: None, u: true },
        FieldType::U128 => DatabaseType::BigInt { m: None, u: true },
        FieldType::F32 => DatabaseType::Real,
        FieldType::F64 => DatabaseType::Double { m: None, d: None },
        FieldType::String => DatabaseType::VarChar { m: 191, n: None, c: None },
        FieldType::Date => DatabaseType::Date,
        FieldType::DateTime => DatabaseType::DateTime(3),
        FieldType::Decimal => DatabaseType::Decimal { m: None, d: None },
        _ => DatabaseType::Undefined,
    }
}

/// Maps a field type to a column type of a dialect.
pub trait ToDatabaseType {
    spec fn spec_database_type(&self, dialect: SqlDialect) -> DatabaseType;

    fn to_database_type(&self, dialect: SqlDialect) -> (r: DatabaseType)
        ensures
            r == self.spec_database_type(dialect),
    ;
}

impl ToDatabaseType for FieldType {
    /// Every dialect uses the MySQL table.
    open spec fn spec_database_type(&self, dialect: SqlDialect) -> DatabaseType {
        mysql_type(*self)
    }

    fn to_database_type(&self, dialect: SqlDialect) -> (r: DatabaseType) {
        match dialect {
            SqlDialect::SQLite => default_database_type_sqlite(self),
            SqlDialect::MySQL => default_database_type_mysql(self),
            SqlDialect::PostgreSQL => default_database_type_postgresql(self),
            SqlDialect::MSSQL => default_database_type_mssql(self),
        }
    }
}

pub fn default_database_type_mysql(field_type: &FieldType) -> (r: DatabaseType)
    ensures
        r == mysql_type(*field_type),
{
    match field_type {
        FieldType::Bool => DatabaseType::Bool,
        FieldType::I8 => DatabaseType::TinyInt { m: None, u: false },
        FieldType::I16 => DatabaseType::SmallInt { m: None, u: false },
        FieldType::I32 => DatabaseType::Int { m: None, u: false },
        FieldType::I64 => DatabaseType::BigInt { m: None, u: false },
        FieldType::I128 => DatabaseType::BigInt { m: None, u: false },
        FieldType::U8 => DatabaseType::TinyInt { m: None, u: true },
        FieldType::U16 => DatabaseType::SmallInt { m: None, u: true },
        FieldType::U32 => DatabaseType::Int { m: None, u: true },
        FieldType::U64 => DatabaseType::BigInt { m: None, u: true },
        FieldType::U128 => DatabaseType::BigInt { m: None, u: true },
        FieldType::F32 => DatabaseType::Real,
        FieldType::F64 => DatabaseType::Double { m: None, d: None },
        FieldType::String => DatabaseType::VarChar { m: 191, n: None, c: None },
        FieldType::Date => DatabaseType::Date,
        FieldType::DateTime => DatabaseType::DateTime(3),
        FieldType::Decimal => DatabaseType::Decimal { m: None, d: None },
        _ => DatabaseType::Undefined,
    }
}

/// PostgreSQL has no table of its own yet: it takes the MySQL one.
pub fn default_database_type_postgresql(field_type: &FieldType) -> (r: DatabaseType)
    ensures
        r == mysql_type(*field_type),
{
    default_database_type_mysql(field_type)
}

/// SQLite has no table of its own yet: it takes the MySQL one.
pub fn default_database_type_sqlite(field_type: &FieldType) -> (r: DatabaseType)
    ensures
        r == mysql_type(*field_type),
{
    default_database_type_mysql(field_type)
}

/// MSSQL has no table of its own yet: it takes the MySQL one.
pub fn default_database_type_mssql(field_type: &FieldType) -> (r: DatabaseType)
    ensures
        r == mysql_type(*field_type),
{
    default_database_type_mysql(field_type)
}

} // verus!
