//! The decisions of the prepare, execute and close exchanges of one connection.
//! The caller moves the bytes: it writes the commands handed out here and reads
//! the packets asked for, then hands them back.

use vstd::prelude::*;
use vstd::string::StringSliceAdditionalSpecFns;

use mysql_common::packets::Column;
use mysql_common::value::Value;
use std::sync::Arc;

use crate::binder::{bind_params, bound, bound_values, long_data_values, long_data_limit, long_data_spec, send_long_data, Params};
use crate::cache::{
    index_of, insert_spec, lemma_insert_keeps_entries, lemma_lookup_after_insert, lookup, StmtCache,
};
use crate::stmt::{query_info, Error, Statement, StmtInner};
use crate::wire::{
    build_execute_request, column_def_parses, execute_request_of, encode_close, le32, named_params_of, names_view,
    has_name, parse_column, stmt_packet_fields, stmt_packet_ok,
};

verus! {

/// Packets that follow `n` definitions: the definitions, and an EOF marker unless
/// the server leaves it out.
pub open spec fn defs_packets(n: u16, deprecate_eof: bool) -> nat {
    n as nat + if deprecate_eof { 0nat } else { 1nat }
}

/// Where a prepare exchange stands: what the next packets are.
pub enum Prepare {
    /// The prepare command is out; the prepare-OK packet comes next.
    AwaitHeader(Vec<u8>),
    /// The parameter definitions come next.
    AwaitParams(StmtInner),
    /// The result column definitions come next.
    AwaitColumns(StmtInner),
}

/// What the caller does next in a prepare exchange.
pub enum PrepareStep {
    /// Read this many packets and hand them over with this state.
    Read(Prepare, usize),
    /// The statement is prepared and cached. Where a command comes with it, write it:
    /// it closes the statement that the cache let go.
    Done(Arc<StmtInner>, Option<Vec<u8>>),
}

/// The statement being built in a state, or the query of the first state.
pub open spec fn stage_inner(p: Prepare) -> StmtInner {
    match p {
        Prepare::AwaitHeader(_) => arbitrary(),
        Prepare::AwaitParams(s) => s,
        Prepare::AwaitColumns(s) => s,
    }
}

/// A state as the exchange on connection `connection_id` leaves it: the statement
/// belongs to that connection, the definitions of later stages not yet there.
pub open spec fn prepare_wf(p: Prepare, connection_id: u32) -> bool {
    match p {
        Prepare::AwaitHeader(_) => true,
        Prepare::AwaitParams(s) => s.columns@.len() == 0 && s.connection_id == connection_id,
        Prepare::AwaitColumns(s) => s.params@.len() == s.num_params as int && s.connection_id == connection_id,
    }
}

/// How many packets a state reads.
pub open spec fn packets_wanted(p: Prepare, deprecate_eof: bool) -> nat {
    match p {
        Prepare::AwaitHeader(_) => 1,
        Prepare::AwaitParams(s) => defs_packets(s.num_params, deprecate_eof),
        Prepare::AwaitColumns(s) => defs_packets(s.num_columns, deprecate_eof),
    }
}

/// The packets of a state can be decoded.
pub open spec fn packets_ok(p: Prepare, packets: Seq<Vec<u8>>) -> bool {
    match p {
        Prepare::AwaitHeader(_) => stmt_packet_ok(packets[0]@),
        Prepare::AwaitParams(s) => forall|i: int| 0 <= i < s.num_params ==> column_def_parses(#[trigger] packets[i]@),
        Prepare::AwaitColumns(s) => forall|i: int| 0 <= i < s.num_columns ==> column_def_parses(#[trigger] packets[i]@),
    }
}

/// `x` is the statement of state `p` once that state's packets are read (of the
/// definitions, only their count is stated).
pub open spec fn filled(p: Prepare, packets: Seq<Vec<u8>>, connection_id: u32, x: StmtInner) -> bool {
    match p {
        Prepare::AwaitHeader(q) => {
            &&& (x.id, x.num_columns, x.num_params) == stmt_packet_fields(packets[0]@)
            &&& x.raw_query@ == q@
            &&& x.connection_id == connection_id
            &&& x.params@.len() == 0
            &&& x.columns@.len() == 0
        },
        Prepare::AwaitParams(s) => x == (StmtInner { params: x.params, ..s }) && x.params@.len() == s.num_params as int,
        Prepare::AwaitColumns(s) => x == (StmtInner { columns: x.columns, ..s }) && x.columns@.len() == s.num_columns as int,
    }
}

/// The state after `p` for its filled statement `x`, with the packets it reads;
/// `None` once the exchange is over.
pub open spec fn next_stage(p: Prepare, x: StmtInner, deprecate_eof: bool) -> Option<(Prepare, nat)> {
    let after_header = p is AwaitHeader;
    let after_columns = p is AwaitColumns;
    if after_header && x.num_params > 0 {
        Some((Prepare::AwaitParams(x), defs_packets(x.num_params, deprecate_eof)))
    } else if !after_columns && x.num_columns > 0 {
        Some((Prepare::AwaitColumns(x), defs_packets(x.num_columns, deprecate_eof)))
    } else {
        None
    }
}

/// The commands that close the statement a cache let go, if any.
pub open spec fn close_of(evicted: Option<StmtInner>) -> Option<Seq<u8>> {
    match evicted {
        Some(s) => Some(seq![25u8] + le32(s.id)),
        None => None,
    }
}

/// The parameters bind to the statement: as many positional values as it has
/// parameters, or named values for every one of its names, which are as many.
pub open spec fn binds(stmt: Statement, params: Params) -> bool {
    let k = stmt.inner.num_params as int;
    match params {
        Params::Empty => k == 0,
        Params::Positional(v) => v@.len() == k,
        Params::Named(m) => match stmt.named_params {
            None => false,
            Some(names) => (forall|i: int| 0 <= i < names@.len() ==> has_name(m@, #[trigger] names@[i]@))
                && names@.len() == k,
        },
    }
}

/// How a query resolves against the cache.
pub enum Resolved {
    /// The statement is cached: nothing goes over the wire.
    Cached(Statement),
    /// The statement must be prepared: send the query, then start from
    /// `Prepare::AwaitHeader`. The names go with the prepared statement.
    NeedsPrepare { named_params: Option<Vec<Vec<u8>>>, query: Vec<u8> },
}

/// The statement side of one connection: its id, whether the server leaves out EOF
/// markers, and its statement cache.
pub struct Conn {
    pub id: u32,
    pub deprecate_eof: bool,
    pub cache: StmtCache,
}

impl Conn {
    /// The cache is well formed, and each cached statement is complete and
    /// belongs to this connection.
    pub open spec fn wf(&self) -> bool {
        &&& self.cache.wf()
        &&& forall|i: int| 0 <= i < self.cache@.len() ==> (#[trigger] self.cache@[i]).1.wf()
            && self.cache@[i].1.connection_id == self.id
    }

    /// A connection with an empty cache of capacity `cap`.
    pub fn new(id: u32, deprecate_eof: bool, cap: usize) -> (r: Self)
        ensures
            r.wf(),
            r.id == id,
            r.deprecate_eof == deprecate_eof,
            r.cache@.len() == 0,
            r.cache.capacity() == cap,
    {
        Conn { id, deprecate_eof, cache: StmtCache::new(cap) }
    }

    /// How many packets follow `num` definitions on this connection.
    pub fn column_def_packets(&self, num: u16) -> (r: usize)
        ensures
            r == defs_packets(num, self.deprecate_eof),
    {
        if self.deprecate_eof {
            num as usize
        } else {
            num as usize + 1
        }
    }

    /// Decodes the first `num` packets as column definitions; a trailing EOF marker
    /// is not read.
    pub fn read_column_defs(&self, packets: &Vec<Vec<u8>>, num: u16) -> (r: Result<Vec<Column>, Error>)
        requires
            num as int <= packets@.len(),
        ensures
            r is Ok <==> forall|i: int| 0 <= i < num ==> column_def_parses(#[trigger] packets@[i]@),
            r is Ok ==> r->Ok_0@.len() == num as int,
            r is Err ==> r == Err::<Vec<Column>, Error>(Error::MalformedPacket),
    {
        let mut defs: Vec<Column> = Vec::new();
        let mut i: usize = 0;
        while i < num as usize
            invariant
                num as int <= packets@.len(),
                i <= num,
                defs@.len() == i,
                forall|j: int| 0 <= j < i ==> column_def_parses(#[trigger] packets@[j]@),
            decreases num - i,
        {
            match parse_column(packets[i].as_slice()) {
                Ok(c) => defs.push(c),
                Err(_) => return Err(Error::MalformedPacket),
            }
            i = i + 1;
        }
        Ok(defs)
    }

    /// Resolves query text: the cached statement, or what must be prepared.
    pub fn get_statement(&self, raw: &str) -> (r: Result<Resolved, Error>)
        requires
            self.wf(),
        ensures
            match named_params_of(raw.spec_bytes()) {
                None => r == Err::<Resolved, Error>(Error::MixedParams),
                Some((names, text)) => r is Ok && match lookup(self.cache@, text) {
                    Some(s) => r->Ok_0 is Cached && *r->Ok_0->Cached_0.inner == s
                        && names_view(r->Ok_0->Cached_0.named_params) == names
                        && s.wf() && s.connection_id == self.id,
                    None => r->Ok_0 is NeedsPrepare && r->Ok_0->NeedsPrepare_query@ == text
                        && names_view(r->Ok_0->NeedsPrepare_named_params) == names,
                },
            },
    {
        let (named_params, query) = query_info(raw)?;
        proof {
            if let Some(i) = index_of(self.cache@, query@) {
                assert(self.cache@[i].1.wf());
            }
        }
        match self.cache.get(query.as_slice()) {
            Some(inner) => Ok(Resolved::Cached(Statement::new(inner, named_params))),
            None => Ok(Resolved::NeedsPrepare { named_params, query }),
        }
    }

    /// The commands that execute `stmt` with `params`, in the order to write them:
    /// the long-data commands of bytes values where the values do not fit in one
    /// packet, then the execute request. Nothing is returned, so nothing is sent,
    /// unless the statement belongs to this connection and the parameters bind.
    pub fn execute_statement(&self, stmt: &Statement, params: Params) -> (r: Result<Vec<Vec<u8>>, Error>)
        ensures
            stmt.inner.connection_id != self.id ==> r == Err::<Vec<Vec<u8>>, Error>(
                Error::StmtConnectionMismatch { statement: stmt.inner.connection_id, connection: self.id }),
            stmt.inner.connection_id == self.id ==> (r is Ok <==> binds(*stmt, params)),
            stmt.inner.connection_id == self.id && r is Err ==> bound(*stmt, params, Err(r->Err_0)),
            r is Ok ==> ({
                let cmds = r->Ok_0@;
                let vs = bound_values(*stmt, params);
                let (body, as_long_data) = execute_request_of(stmt.inner.id, vs);
                &&& vs.len() == stmt.inner.num_params as int
                &&& cmds.len() >= 1
                &&& cmds.last()@ == body
                &&& body.len() >= 5
                &&& body.subrange(0, 5) == seq![23u8] + le32(stmt.inner.id)
                &&& cmds.drop_last().map_values(|c: Vec<u8>| c@) == if as_long_data {
                    long_data_spec(stmt.inner.id, long_data_values(vs), long_data_limit())
                } else {
                    Seq::<Seq<u8>>::empty()
                }
                &&& stmt.inner.num_params == 0 ==> cmds.len() == 1 && body.len() == 10
            }),
    {
        if stmt.inner.connection_id != self.id {
            return Err(Error::StmtConnectionMismatch { statement: stmt.inner.connection_id, connection: self.id });
        }
        let values = match bind_params(stmt, params) {
            Ok(values) => values,
            Err(e) => return Err(e),
        };
        let id = stmt.inner.id;
        let (body, as_long_data) = build_execute_request(id, &values);
        let ghost body_view = body@;
        let mut cmds: Vec<Vec<u8>> = if as_long_data {
            send_long_data(id, &values)
        } else {
            Vec::new()
        };
        let ghost before = cmds@;
        cmds.push(body);
        proof {
            assert(cmds@.drop_last() =~= before);
            assert(cmds@.last()@ == body_view);
            if !as_long_data {
                assert(before.map_values(|c: Vec<u8>| c@) =~= Seq::<Seq<u8>>::empty());
            }
        }
        Ok(cmds)
    }

    /// The command that closes statement `id` on the server; no answer comes.
    pub fn close_statement(&self, id: u32) -> (r: Vec<u8>)
        ensures
            r@ == seq![25u8] + le32(id),
    {
        encode_close(id)
    }

    /// Hands over the packets that state `p` asked for and says what comes next. At
    /// the end the statement is cached; a statement that the cache lets go comes back
    /// as the command that closes it.
    pub fn prepare_next(&mut self, p: Prepare, packets: &Vec<Vec<u8>>) -> (r: Result<PrepareStep, Error>)
        requires
            old(self).wf(),
            prepare_wf(p, old(self).id),
            packets@.len() == packets_wanted(p, old(self).deprecate_eof),
        ensures
            final(self).wf(),
            final(self).id == old(self).id,
            final(self).deprecate_eof == old(self).deprecate_eof,
            final(self).cache.capacity() == old(self).cache.capacity(),
            r is Ok <==> packets_ok(p, packets@),
            r is Err ==> r == Err::<PrepareStep, Error>(Error::MalformedPacket) && final(self).cache@ == old(self).cache@,
            r is Ok ==> match r->Ok_0 {
                PrepareStep::Read(next, n) => {
                    &&& filled(p, packets@, old(self).id, stage_inner(next))
                    &&& next_stage(p, stage_inner(next), old(self).deprecate_eof) == Some((next, n as nat))
                    &&& prepare_wf(next, old(self).id)
                    &&& final(self).cache@ == old(self).cache@
                },
                PrepareStep::Done(s, close) => {
                    let (entries, evicted) = insert_spec(old(self).cache@, old(self).cache.capacity(), *s);
                    &&& filled(p, packets@, old(self).id, *s)
                    &&& next_stage(p, *s, old(self).deprecate_eof) is None
                    &&& s.wf()
                    &&& final(self).cache@ == entries
                    &&& match close {
                        Some(c) => close_of(evicted) == Some(c@),
                        None => close_of(evicted) is None,
                    }
                },
            },
    {
        let (x, after_header, after_columns) = match p {
            Prepare::AwaitHeader(q) => {
                match StmtInner::from_payload(packets[0].as_slice(), self.id, q) {
                    Ok(x) => (x, true, false),
                    Err(e) => return Err(e),
                }
            }
            Prepare::AwaitParams(s) => {
                let n = s.num_params;
                match self.read_column_defs(packets, n) {
                    Ok(defs) => (s.with_params(defs), false, false),
                    Err(e) => return Err(e),
                }
            }
            Prepare::AwaitColumns(s) => {
                let n = s.num_columns;
                match self.read_column_defs(packets, n) {
                    Ok(defs) => (s.with_columns(defs), false, true),
                    Err(e) => return Err(e),
                }
            }
        };
        if after_header && x.num_params > 0 {
            let n = self.column_def_packets(x.num_params);
            Ok(PrepareStep::Read(Prepare::AwaitParams(x), n))
        } else if !after_columns && x.num_columns > 0 {
            let n = self.column_def_packets(x.num_columns);
            Ok(PrepareStep::Read(Prepare::AwaitColumns(x), n))
        } else {
            let ghost sv: StmtInner = x;
            let stmt = Arc::new(x);
            let ghost before = self.cache@;
            let evicted = self.cache.insert(stmt.clone());
            proof {
                lemma_insert_keeps_entries(before, self.cache.capacity(), sv);
                assert forall|i: int| 0 <= i < self.cache@.len() implies (#[trigger] self.cache@[i]).1.wf()
                    && self.cache@[i].1.connection_id == self.id by {
                    if self.cache@[i].1 != sv {
                        let j = choose|j: int| 0 <= j < before.len() && before[j] == self.cache@[i];
                        assert(before[j].1.wf());
                    }
                }
            }
            let close = match evicted {
                Some(e) => Some(encode_close(e.id)),
                None => None,
            };
            Ok(PrepareStep::Done(stmt, close))
        }
    }
}

/// Resolving query text, preparing it and resolving it again: the second resolution
/// finds the statement just prepared (same metadata, same statement id) in the
/// cache, so only the first one leads to a prepare exchange.
pub proof fn lemma_second_resolution_hits(before: Conn, after: Conn, raw: Seq<u8>, s: StmtInner)
    requires
        before.wf(),
        before.cache.capacity() > 0,
        named_params_of(raw) is Some,
        s.raw_query@ == named_params_of(raw)->Some_0.1,
        after.cache@ == insert_spec(before.cache@, before.cache.capacity(), s).0,
    ensures
        lookup(after.cache@, named_params_of(raw)->Some_0.1) == Some(s),
{
    lemma_lookup_after_insert(before.cache, s);
}

/// Positional values are bound without looking at the statement's names: with or
/// without names, the same values bind, or fail, in the same way.
pub proof fn lemma_positional_ignores_names(stmt: Statement, v: Vec<Value>, names: Option<Vec<Vec<u8>>>)
    ensures
        ({
            let other = Statement { named_params: names, ..stmt };
            &&& bound_values(stmt, Params::Positional(v)) == bound_values(other, Params::Positional(v))
            &&& binds(stmt, Params::Positional(v)) == binds(other, Params::Positional(v))
            &&& forall|r: Result<Vec<Value>, Error>| bound(stmt, Params::Positional(v), r)
                == bound(other, Params::Positional(v), r)
        }),
{
}

} // verus!

