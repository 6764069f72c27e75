//! Statement metadata and statement handles.

use vstd::prelude::*;
use vstd::slice::slice_to_vec;
use vstd::string::StringSliceAdditionalSpecFns;

use mysql_common::packets::Column;
use std::sync::Arc;

use crate::wire::{
    named_params_of, names_view, parse_named_params, parse_stmt_packet, stmt_packet_fields,
    stmt_packet_ok,
};

verus! {

/// What can go wrong while a statement is prepared, bound or executed.
#[derive(Debug, Clone, PartialEq, Eq)]
pub enum Error {
    /// A packet of the server could not be decoded.
    MalformedPacket,
    /// The query mixes named and positional placeholders.
    MixedParams,
    /// The statement takes `required` parameters and `supplied` were given.
    StmtParamsMismatch { required: u16, supplied: usize },
    /// Named parameters were given for a statement written with `?` placeholders.
    NamedParamsForPositionalQuery,
    /// The named parameters lack a value for this name.
    MissingNamedParameter(Vec<u8>),
    /// The statement belongs to another connection.
    StmtConnectionMismatch { statement: u32, connection: u32 },
}

/// One statement as the server prepared it.
#[derive(Debug, Clone, PartialEq, Eq)]
pub struct StmtInner {
    /// The query text sent to the server, with `?` placeholders.
    pub raw_query: Vec<u8>,
    /// Result column definitions; empty when the statement returns no rows.
    pub columns: Vec<Column>,
    /// Parameter definitions; empty when the statement takes no parameters.
    pub params: Vec<Column>,
    /// The server's statement id.
    pub id: u32,
    /// Result column count that the server announced.
    pub num_columns: u16,
    /// Parameter count that the server announced.
    pub num_params: u16,
    /// The connection that prepared the statement.
    pub connection_id: u32,
}

impl StmtInner {
    /// Both lists of definitions are filled in, with the counts the server announced.
    pub open spec fn wf(&self) -> bool {
        self.params@.len() == self.num_params as int && self.columns@.len() == self.num_columns as int
    }

    /// Reads the prepare-OK packet; no definitions are attached yet.
    pub fn from_payload(pld: &[u8], connection_id: u32, raw_query: Vec<u8>) -> (r: Result<StmtInner, Error>)
        ensures
            r is Ok <==> stmt_packet_ok(pld@),
            r is Err ==> r == Err::<StmtInner, Error>(Error::MalformedPacket),
            r is Ok ==> ({
                let s = r->Ok_0;
                &&& (s.id, s.num_columns, s.num_params) == stmt_packet_fields(pld@)
                &&& s.raw_query@ == raw_query@
                &&& s.connection_id == connection_id
                &&& s.params@.len() == 0
                &&& s.columns@.len() == 0
            }),
    {
        match parse_stmt_packet(pld) {
            Ok((id, num_columns, num_params)) => Ok(StmtInner {
                raw_query,
                columns: Vec::new(),
                params: Vec::new(),
                id,
                num_columns,
                num_params,
                connection_id,
            }),
            Err(_) => Err(Error::MalformedPacket),
        }
    }

    /// Attaches the parameter definitions.
    pub fn with_params(self, params: Vec<Column>) -> (r: Self)
        ensures
            r == (StmtInner { params, ..self }),
    {
        StmtInner { params, ..self }
    }

    /// Attaches the result column definitions.
    pub fn with_columns(self, columns: Vec<Column>) -> (r: Self)
        ensures
            r == (StmtInner { columns, ..self }),
    {
        StmtInner { columns, ..self }
    }
}

/// A prepared statement: shared metadata and, where the query had named
/// placeholders, their names in order.
#[derive(Debug, Clone, PartialEq, Eq)]
pub struct Statement {
    pub inner: Arc<StmtInner>,
    pub named_params: Option<Vec<Vec<u8>>>,
}

/// The bytes of each name, copied.
fn clone_names(names: &Option<Vec<Vec<u8>>>) -> (r: Option<Vec<Vec<u8>>>)
    ensures
        names_view(r) == names_view(*names),
{
    match names {
        None => None,
        Some(v) => {
            let mut out: Vec<Vec<u8>> = Vec::new();
            let mut i: usize = 0;
            while i < v.len()
                invariant
                    i <= v@.len(),
                    out@.len() == i,
                    forall|j: int| 0 <= j < i ==> (#[trigger] out@[j])@ == v@[j]@,
                decreases v@.len() - i,
            {
                out.push(slice_to_vec(v[i].as_slice()));
                i = i + 1;
            }
            assert(out@.map_values(|x: Vec<u8>| x@) =~= v@.map_values(|x: Vec<u8>| x@));
            Some(out)
        }
    }
}

impl Statement {
    pub fn new(inner: Arc<StmtInner>, named_params: Option<Vec<Vec<u8>>>) -> (r: Self)
        ensures
            r.inner == inner,
            r.named_params == named_params,
    {
        Statement { inner, named_params }
    }

    /// Result column definitions.
    pub fn columns(&self) -> (r: &[Column])
        ensures
            r@ == self.inner.columns@,
    {
        self.inner.columns.as_slice()
    }

    /// Parameter definitions.
    pub fn params(&self) -> (r: &[Column])
        ensures
            r@ == self.inner.params@,
    {
        self.inner.params.as_slice()
    }

    /// The server's statement id.
    pub fn id(&self) -> (r: u32)
        ensures
            r == self.inner.id,
    {
        self.inner.id
    }

    /// The connection that prepared the statement.
    pub fn connection_id(&self) -> (r: u32)
        ensures
            r == self.inner.connection_id,
    {
        self.inner.connection_id
    }

    /// Parameter count that the server announced.
    pub fn num_params(&self) -> (r: u16)
        ensures
            r == self.inner.num_params,
    {
        self.inner.num_params
    }

    /// Result column count that the server announced.
    pub fn num_columns(&self) -> (r: u16)
        ensures
            r == self.inner.num_columns,
    {
        self.inner.num_columns
    }
}

/// A placeholder scan of a query: the names of its named placeholders (`None` where
/// there are none) and the query with `?` in their place.
pub type QueryInfo = (Option<Vec<Vec<u8>>>, Vec<u8>);

/// Scans query text for named placeholders.
pub fn query_info(q: &str) -> (r: Result<QueryInfo, Error>)
    ensures
        match named_params_of(q.spec_bytes()) {
            Some((names, text)) => r is Ok && names_view(r->Ok_0.0) == names && r->Ok_0.1@ == text,
            None => r == Err::<QueryInfo, Error>(Error::MixedParams),
        },
{
    match parse_named_params(q.as_bytes()) {
        Ok(info) => Ok(info),
        Err(_) => Err(Error::MixedParams),
    }
}

/// The names and the query text of a statement already prepared: no scan.
pub fn statement_info(s: &Statement) -> (r: QueryInfo)
    ensures
        names_view(r.0) == names_view(s.named_params),
        r.1@ == s.inner.raw_query@,
{
    (clone_names(&s.named_params), slice_to_vec(s.inner.raw_query.as_slice()))
}

/// Something that names a statement: query text, or a statement already prepared.
pub trait StatementLike {
    /// What `info` returns for this value.
    spec fn info_spec(&self, r: Result<QueryInfo, Error>) -> bool;

    /// The names of the named placeholders, and the query text with `?` placeholders.
    fn info(&self) -> (r: Result<QueryInfo, Error>)
        ensures
            self.info_spec(r),
    ;
}

impl StatementLike for str {
    /// The placeholder scan of the text.
    open spec fn info_spec(&self, r: Result<QueryInfo, Error>) -> bool {
        match named_params_of(self.spec_bytes()) {
            Some((names, text)) => r is Ok && names_view(r->Ok_0.0) == names && r->Ok_0.1@ == text,
            None => r == Err::<QueryInfo, Error>(Error::MixedParams),
        }
    }

    fn info(&self) -> (r: Result<QueryInfo, Error>) {
        query_info(self)
    }
}

impl StatementLike for Statement {
    /// The statement's own names and query text; no scan.
    open spec fn info_spec(&self, r: Result<QueryInfo, Error>) -> bool {
        r is Ok && names_view(r->Ok_0.0) == names_view(self.named_params) && r->Ok_0.1@ == self.inner.raw_query@
    }

    fn info(&self) -> (r: Result<QueryInfo, Error>) {
        Ok(statement_info(self))
    }
}

} // verus!
