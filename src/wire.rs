//! The codec of `mysql_common`, seen through contracts.

use vstd::prelude::*;

use mysql_common::io::ParseBuf;
use mysql_common::named_params::MixedParamsError;
use mysql_common::packets::{
    Column, ComStmtClose, ComStmtExecuteRequestBuilder, ComStmtSendLongData, StmtPacket,
};
use mysql_common::proto::MySerialize;
use mysql_common::value::Value;
use std::collections::HashMap;

use crate::binder::Params;

verus! {

#[verifier::external_type_specification]
#[verifier::external_body]
pub struct ExIoError(std::io::Error);

#[verifier::external_type_specification]
#[verifier::external_body]
pub struct ExColumn(Column);

#[verifier::external_type_specification]
#[verifier::external_body]
pub struct ExValue(Value);

#[verifier::external_type_specification]
#[verifier::external_body]
pub struct ExMixedParamsError(MixedParamsError);

/// Little-endian bytes of a 16-bit integer.
pub open spec fn le16(x: u16) -> Seq<u8> {
    seq![(x % 256) as u8, (x / 256) as u8]
}

/// Little-endian bytes of a 32-bit integer.
pub open spec fn le32(x: u32) -> Seq<u8> {
    seq![
        (x % 256) as u8,
        ((x / 256) % 256) as u8,
        ((x / 65536) % 256) as u8,
        (x / 16777216) as u8,
    ]
}

/// The little-endian 16-bit integer at offset `i` of `b`.
pub open spec fn u16_at(b: Seq<u8>, i: int) -> u16 {
    (b[i] as int + 256 * b[i + 1] as int) as u16
}

/// The little-endian 32-bit integer at offset `i` of `b`.
pub open spec fn u32_at(b: Seq<u8>, i: int) -> u32 {
    (b[i] as int + 256 * b[i + 1] as int + 65536 * b[i + 2] as int + 16777216 * b[i + 3] as int) as u32
}

/// A prepare-OK packet: twelve bytes at least, status byte zero.
pub open spec fn stmt_packet_ok(b: Seq<u8>) -> bool {
    b.len() >= 12 && b[0] == 0
}

/// Statement id, column count and parameter count of a prepare-OK packet.
pub open spec fn stmt_packet_fields(b: Seq<u8>) -> (u32, u16, u16) {
    (u32_at(b, 1), u16_at(b, 5), u16_at(b, 7))
}

/// Relies on `mysql_common`'s `StmtPacket` deserializer (through `ParseBuf::parse`):
/// it takes twelve bytes, wants a zero status byte, then reads the statement id,
/// the column count and the parameter count, little-endian.
#[verifier::external_body]
pub(crate) fn parse_stmt_packet(pld: &[u8]) -> (r: Result<(u32, u16, u16), std::io::Error>)
    ensures
        r is Ok <==> stmt_packet_ok(pld@),
        r is Ok ==> r->Ok_0 == stmt_packet_fields(pld@),
{
    let p: StmtPacket = ParseBuf(pld).parse(())?;
    Ok((p.statement_id(), p.num_columns(), p.num_params()))
}

/// Whether `mysql_common`'s `Column` deserializer accepts a column-definition packet.
pub uninterp spec fn column_def_parses(b: Seq<u8>) -> bool;

/// Relies on `mysql_common`'s `Column` deserializer (through `ParseBuf::parse`):
/// whether it accepts a packet depends on the packet's bytes alone.
#[verifier::external_body]
pub(crate) fn parse_column(pld: &[u8]) -> (r: Result<Column, std::io::Error>)
    ensures
        r is Ok <==> column_def_parses(pld@),
{
    ParseBuf(pld).parse(())
}

/// What `mysql_common`'s `parse_named_params` makes of a query: the names of its
/// named placeholders (`None` where it has none) and the query with each of them
/// written as `?`; `None` where the query mixes named and positional placeholders.
pub uninterp spec fn named_params_of(q: Seq<u8>) -> Option<(Option<Seq<Seq<u8>>>, Seq<u8>)>;

/// The view of an optional list of names.
pub open spec fn names_view(n: Option<Vec<Vec<u8>>>) -> Option<Seq<Seq<u8>>> {
    match n {
        Some(v) => Some(v@.map_values(|x: Vec<u8>| x@)),
        None => None,
    }
}

/// Relies on `mysql_common`'s `parse_named_params`, the placeholder scanner:
/// its result depends on the query's bytes alone.
#[verifier::external_body]
pub(crate) fn parse_named_params(q: &[u8]) -> (r: Result<(Option<Vec<Vec<u8>>>, Vec<u8>), MixedParamsError>)
    ensures
        match r {
            Ok((n, t)) => named_params_of(q@) == Some((names_view(n), t@)),
            Err(_) => named_params_of(q@) is None,
        },
{
    match mysql_common::named_params::parse_named_params(q) {
        Ok((names, text)) => Ok((names, text.into_owned())),
        Err(e) => Err(e),
    }
}

/// Relies on `mysql_common`'s `MAX_PAYLOAD_LEN`, the largest payload of one packet.
#[verifier::external_body]
pub(crate) fn max_payload_len() -> (r: usize)
    ensures
        r == 16_777_215,
{
    mysql_common::constants::MAX_PAYLOAD_LEN
}

/// The execute request that `mysql_common` builds for a statement id and values: the
/// serialized body, and whether bytes values are left out of it to go as long data.
pub uninterp spec fn execute_request_of(stmt_id: u32, params: Seq<Value>) -> (Seq<u8>, bool);

/// Relies on `mysql_common`'s `ComStmtExecuteRequestBuilder::build` and the request's
/// serializer: the result depends on the id and the values alone; the body opens with the COM_STMT_EXECUTE byte and the statement id, is
/// ten bytes long without parameters, and the flag tells whether bytes values are left
/// out of the body, to be sent as long data.
#[verifier::external_body]
pub(crate) fn build_execute_request(stmt_id: u32, params: &Vec<Value>) -> (r: (Vec<u8>, bool))
    ensures
        (r.0@, r.1) == execute_request_of(stmt_id, params@),
        r.0@.len() >= 5,
        r.0@.subrange(0, 5) == seq![23u8] + le32(stmt_id),
        params@.len() == 0 ==> r.0@.len() == 10 && !r.1,
{
    let (req, as_long_data) = ComStmtExecuteRequestBuilder::new(stmt_id).build(params);
    let mut body = Vec::new();
    req.serialize(&mut body);
    (body, as_long_data)
}

/// Relies on `mysql_common`'s `ComStmtSendLongData` serializer: the command byte, the
/// statement id, the parameter index, then the chunk as it is.
#[verifier::external_body]
pub(crate) fn encode_long_data(stmt_id: u32, param_index: u16, chunk: &[u8]) -> (r: Vec<u8>)
    ensures
        r@ == seq![24u8] + le32(stmt_id) + le16(param_index) + chunk@,
{
    let mut buf = Vec::new();
    ComStmtSendLongData::new(stmt_id, param_index, chunk).serialize(&mut buf);
    buf
}

/// Relies on `mysql_common`'s `ComStmtClose` serializer: the command byte, then the
/// statement id.
#[verifier::external_body]
pub(crate) fn encode_close(stmt_id: u32) -> (r: Vec<u8>)
    ensures
        r@ == seq![25u8] + le32(stmt_id),
{
    let mut buf = Vec::new();
    ComStmtClose::new(stmt_id).serialize(&mut buf);
    buf
}

/// The map has a key whose bytes are `n`.
pub open spec fn has_name(m: Map<Vec<u8>, Value>, n: Seq<u8>) -> bool {
    exists|k: Vec<u8>| m.contains_key(k) && k@ == n
}

/// The value that the map holds under the key whose bytes are `n`.
pub open spec fn value_named(m: Map<Vec<u8>, Value>, n: Seq<u8>) -> Value {
    m[choose|k: Vec<u8>| m.contains_key(k) && k@ == n]
}

/// Relies on `mysql_common`'s `Params::into_positional` on named parameters: the
/// values in the order of `names`, or the first name that the map lacks.
#[verifier::external_body]
pub(crate) fn named_into_positional(map: HashMap<Vec<u8>, Value>, names: &Vec<Vec<u8>>) -> (r: Result<Params, Vec<u8>>)
    ensures
        r is Ok <==> (forall|i: int| 0 <= i < names@.len() ==> has_name(map@, #[trigger] names@[i]@)),
        r is Ok ==> r->Ok_0 is Positional,
        r is Ok ==> r->Ok_0->Positional_0@.len() == names@.len() && (forall|i: int| 0 <= i < names@.len()
            ==> #[trigger] r->Ok_0->Positional_0@[i] == value_named(map@, names@[i]@)),
        r is Err ==> exists|i: int| 0 <= i < names@.len() && !has_name(map@, #[trigger] names@[i]@)
            && r->Err_0@ == names@[i]@
            && (forall|j: int| 0 <= j < i ==> has_name(map@, #[trigger] names@[j]@)),
{
    match mysql_common::params::Params::Named(map).into_positional(names) {
        Ok(mysql_common::params::Params::Empty) => Ok(Params::Empty),
        Ok(mysql_common::params::Params::Named(m)) => Ok(Params::Named(m)),
        Ok(mysql_common::params::Params::Positional(values)) => Ok(Params::Positional(values)),
        Err(e) => Err(e.0),
    }
}

/// The bytes of a `Value::Bytes`; `None` for any other variant.
pub uninterp spec fn bytes_of_value(v: Value) -> Option<Seq<u8>>;

/// Relies on `mysql_common`'s `Value` enum: the bytes of a `Value::Bytes`, `None`
/// for any other variant; the result depends on the value alone.
#[verifier::external_body]
pub(crate) fn value_bytes(v: &Value) -> (r: Option<Vec<u8>>)
    ensures
        match r {
            Some(b) => bytes_of_value(*v) == Some(b@),
            None => bytes_of_value(*v) is None,
        },
{
    match v {
        Value::Bytes(b) => Some(b.clone()),
        _ => None,
    }
}

} // verus!
