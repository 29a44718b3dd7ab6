//! The declarative operation types, request/response shapes and small
//! shared structures of the service.

use vstd::prelude::*;

verus! {

/// Comparison operators a filter can apply.
#[derive(Debug, Clone, Copy, PartialEq, Eq, Structural)]
pub enum FilterOp {
    Eq,
    Ne,
    Gt,
    Ge,
    Lt,
    Le,
    Contains,
}

/// Aggregation functions a group-by can compute.
#[derive(Debug, Clone, Copy, PartialEq, Eq, Structural)]
pub enum AggFunc {
    Sum,
    Avg,
    Max,
    Min,
    Count,
}

/// One aggregation inside a group-by: a function over a named column,
/// with an optional output alias.
#[derive(Debug, Clone)]
pub struct Aggregation {
    pub function: AggFunc,
    pub column: String,
    pub alias: Option<String>,
}

/// The mathematical value of an aggregation.
pub struct AggregationV {
    pub function: AggFunc,
    pub column: Seq<char>,
    pub alias: Option<Seq<char>>,
}

impl View for Aggregation {
    type V = AggregationV;

    open spec fn view(&self) -> AggregationV {
        AggregationV {
            function: self.function,
            column: self.column@,
            alias: match self.alias {
                Some(a) => Some(a@),
                None => None,
            },
        }
    }
}

/// Elementwise arithmetic a transform can apply.
#[derive(Debug, Clone, Copy, PartialEq, Eq, Structural)]
pub enum TransformOp {
    Multiply,
    Divide,
    Add,
    Subtract,
}

/// One pipeline operation.  Operations are inert data; the executor
/// gives them their semantics.  A transform's scalar is carried as the
/// IEEE-754 bit pattern of the double it stands for.
#[derive(Debug, Clone)]
pub enum Operations {
    Select { columns: Vec<String> },
    Filter { column: String, operator: FilterOp, value: String },
    GroupBy { columns: Vec<String>, aggregations: Vec<Aggregation> },
    Sort { column: String, ascending: bool },
    Limit { count: usize },
    Transform { column: String, operation: TransformOp, value: u64, alias: String },
}

/// The mathematical value of an operation.
pub enum OperationV {
    Select { columns: Seq<Seq<char>> },
    Filter { column: Seq<char>, operator: FilterOp, value: Seq<char> },
    GroupBy { columns: Seq<Seq<char>>, aggregations: Seq<AggregationV> },
    Sort { column: Seq<char>, ascending: bool },
    Limit { count: int },
    Transform { column: Seq<char>, operation: TransformOp, value: u64, alias: Seq<char> },
}

impl View for Operations {
    type V = OperationV;

    open spec fn view(&self) -> OperationV {
        match self {
            Operations::Select { columns } => OperationV::Select {
                columns: columns@.map_values(|c: String| c@),
            },
            Operations::Filter { column, operator, value } => OperationV::Filter {
                column: column@,
                operator: *operator,
                value: value@,
            },
            Operations::GroupBy { columns, aggregations } => OperationV::GroupBy {
                columns: columns@.map_values(|c: String| c@),
                aggregations: aggregations@.map_values(|a: Aggregation| a@),
            },
            Operations::Sort { column, ascending } => OperationV::Sort {
                column: column@,
                ascending: *ascending,
            },
            Operations::Limit { count } => OperationV::Limit { count: *count as int },
            Operations::Transform { column, operation, value, alias } => OperationV::Transform {
                column: column@,
                operation: *operation,
                value: *value,
                alias: alias@,
            },
        }
    }
}

/// One JSON-typed value of a result row.  A float is carried as the
/// IEEE-754 bit pattern of a finite double.
#[derive(Debug, Clone)]
pub enum JsonValue {
    Null,
    Bool(bool),
    Int(i64),
    Float(u64),
    Str(String),
}

/// The mathematical value of a JSON-typed value.
pub enum JsonV {
    Null,
    Bool(bool),
    Int(i64),
    Float(u64),
    Str(Seq<char>),
}

impl View for JsonValue {
    type V = JsonV;

    open spec fn view(&self) -> JsonV {
        match self {
            JsonValue::Null => JsonV::Null,
            JsonValue::Bool(b) => JsonV::Bool(*b),
            JsonValue::Int(i) => JsonV::Int(*i),
            JsonValue::Float(b) => JsonV::Float(*b),
            JsonValue::Str(s) => JsonV::Str(s@),
        }
    }
}

/// A query to run: the table to load and the operations to apply.
#[derive(Debug, Clone)]
pub struct QueryRequest {
    pub table_name: Option<String>,
    pub operations: Vec<Operations>,
}

/// The encoded result of a pipeline: ordered column names plus rows of
/// JSON-typed values, each row positionally aligned to the columns.
#[derive(Debug, Clone)]
pub struct QueryResponse {
    pub columns: Vec<String>,
    pub rows: Vec<Vec<JsonValue>>,
}

/// The mathematical value of a query response.
pub struct QueryResponseV {
    pub columns: Seq<Seq<char>>,
    pub rows: Seq<Seq<JsonV>>,
}

impl View for QueryResponse {
    type V = QueryResponseV;

    open spec fn view(&self) -> QueryResponseV {
        QueryResponseV {
            columns: self.columns@.map_values(|c: String| c@),
            rows: self.rows@.map_values(|r: Vec<JsonValue>| r@.map_values(|v: JsonValue| v@)),
        }
    }
}

/// A user signing up.
#[derive(Debug, Clone)]
pub struct NewUser {
    pub email: String,
    pub password: String,
}

/// Credentials offered at registration.
#[derive(Debug, Clone)]
pub struct RegisterRequest {
    pub email: String,
    pub password: String,
}

/// Credentials offered at login.
#[derive(Debug, Clone)]
pub struct LoginRequest {
    pub email: String,
    pub password: String,
}

/// Account facts reported to the caller.
#[derive(Debug, Clone)]
pub struct UserInfo {
    pub id: String,
    pub email: String,
    pub total_queries: i32,
    pub total_files_processed: i32,
    pub total_saved_queries: i32,
}

/// A successful login: the bearer token and the account it belongs to.
#[derive(Debug, Clone)]
pub struct AuthResponse {
    pub token: String,
    pub user: UserInfo,
}

/// A request to save a named query definition.
#[derive(Debug, Clone)]
pub struct CreateSavedQueryRequest {
    pub name: String,
    pub description: Option<String>,
    pub query: Vec<Operations>,
}

/// A request to replace a saved query definition.
#[derive(Debug, Clone)]
pub struct UpdateSavedQueryRequest {
    pub name: String,
    pub description: Option<String>,
    pub query: Vec<Operations>,
}

/// Acknowledgement of a deletion.
#[derive(Debug, Clone)]
pub struct DeleteResponse {
    pub message: String,
}

/// Which page of a listing to return, and how large a page is.
#[derive(Debug, Clone)]
pub struct PaginationParams {
    pub page: i64,
    pub page_size: i64,
}

/// The page requested when none is named.
pub fn default_page() -> (r: i64)
    ensures
        r == 1,
{
    1
}

/// The page size used when none is named.
pub fn default_page_size() -> (r: i64)
    ensures
        r == 10,
{
    10
}

/// One page of a listing.
#[derive(Debug, Clone)]
pub struct PaginatedResponse<T> {
    pub data: Vec<T>,
    pub total: i64,
    pub page: i64,
    pub page_size: i64,
    pub total_pages: i64,
}

/// How many pages a listing spans: the total divided by the page size,
/// rounded up.
pub fn total_pages(total: i64, page_size: i64) -> (r: i64)
    requires
        total >= 0,
        page_size >= 1,
        total + page_size - 1 <= i64::MAX,
    ensures
        r == (total + page_size - 1) / page_size as int,
{
    (total - 1 + page_size) / page_size
}

/// The number of rows a page skips.
pub fn page_offset(page: i64, page_size: i64) -> (r: i64)
    requires
        page >= 1,
        page_size >= 1,
        (page - 1) * page_size <= i64::MAX,
    ensures
        r == (page - 1) * page_size,
{
    proof {
        vstd::arithmetic::mul::lemma_mul_nonnegative(page - 1, page_size as int);
    }
    (page - 1) * page_size
}

} // verus!
