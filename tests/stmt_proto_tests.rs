use std::collections::HashMap;
use std::sync::Arc;

use mysql_common::value::Value;
use stmt_proto::binder::{bind_params, long_data_chunks, long_data_commands, Params};
use stmt_proto::cache::{bytes_eq, StmtCache};
use stmt_proto::driver::{Conn, Prepare, PrepareStep, Resolved};
use stmt_proto::stmt::{query_info, statement_info, Error, Statement, StatementLike, StmtInner};

fn header(id: u32, num_columns: u16, num_params: u16) -> Vec<u8> {
    let mut p = vec![0u8];
    p.extend_from_slice(&id.to_le_bytes());
    p.extend_from_slice(&num_columns.to_le_bytes());
    p.extend_from_slice(&num_params.to_le_bytes());
    p.extend_from_slice(&[0, 0, 0]);
    p
}

fn column_def(name: &str) -> Vec<u8> {
    let mut p = vec![3, b'd', b'e', b'f', 0, 0, 0, name.len() as u8];
    p.extend_from_slice(name.as_bytes());
    p.extend_from_slice(&[0, 0x0c, 0x21, 0, 11, 0, 0, 0, 8, 0, 0, 0, 0, 0]);
    p
}

fn inner(id: u32, connection_id: u32, query: &str, num_params: u16) -> StmtInner {
    StmtInner {
        raw_query: query.as_bytes().to_vec(),
        columns: Vec::new(),
        params: Vec::new(),
        id,
        num_columns: 0,
        num_params,
        connection_id,
    }
}

fn stmt(num_params: u16, names: Option<Vec<&str>>) -> Statement {
    Statement::new(
        Arc::new(inner(4, 1, "SELECT ?", num_params)),
        names.map(|v| v.iter().map(|n| n.as_bytes().to_vec()).collect()),
    )
}

/// Runs a whole prepare exchange on `conn`, handing over the given packets.
fn prepare(conn: &mut Conn, query: Vec<u8>, mut packets: Vec<Vec<u8>>) -> Result<(Arc<StmtInner>, Option<Vec<u8>>), Error> {
    let mut state = Prepare::AwaitHeader(query);
    let mut n = 1usize;
    loop {
        let rest = packets.split_off(n);
        let step = conn.prepare_next(state, &packets)?;
        packets = rest;
        match step {
            PrepareStep::Read(s, k) => {
                state = s;
                n = k;
            }
            PrepareStep::Done(s, close) => return Ok((s, close)),
        }
    }
}

#[test]
fn from_payload_reads_header_fields() {
    let s = StmtInner::from_payload(&header(7, 2, 3), 11, b"SELECT ?".to_vec()).unwrap();
    assert_eq!(s.id, 7);
    assert_eq!(s.num_columns, 2);
    assert_eq!(s.num_params, 3);
    assert_eq!(s.connection_id, 11);
    assert!(s.params.is_empty() && s.columns.is_empty());
}

#[test]
fn from_payload_rejects_bad_status_and_short_packet() {
    let mut p = header(7, 0, 0);
    p[0] = 0xff;
    assert_eq!(StmtInner::from_payload(&p, 1, Vec::new()), Err(Error::MalformedPacket));
    assert_eq!(StmtInner::from_payload(&header(7, 0, 0)[..11], 1, Vec::new()), Err(Error::MalformedPacket));
}

#[test]
fn query_info_rewrites_named_placeholders() {
    let (names, text) = query_info("SELECT :a, :b").unwrap();
    assert_eq!(names, Some(vec![b"a".to_vec(), b"b".to_vec()]));
    assert_eq!(text, b"SELECT ?, ?".to_vec());
    let (names, text) = query_info("SELECT ?").unwrap();
    assert_eq!(names, None);
    assert_eq!(text, b"SELECT ?".to_vec());
}

#[test]
fn mixed_placeholders_are_refused() {
    let q = "SELECT * FROM t WHERE id = ? AND name = :name";
    assert_eq!(query_info(q), Err(Error::MixedParams));
    assert_eq!(q.info(), Err(Error::MixedParams));
    let conn = Conn::new(1, true, 4);
    assert!(matches!(conn.get_statement(q), Err(Error::MixedParams)));
}

#[test]
fn statement_info_returns_own_names_and_query() {
    let s = stmt(1, Some(vec!["x"]));
    assert_eq!(statement_info(&s), (Some(vec![b"x".to_vec()]), b"SELECT ?".to_vec()));
    assert_eq!(s.info(), Ok((Some(vec![b"x".to_vec()]), b"SELECT ?".to_vec())));
}

#[test]
fn statement_getters() {
    let s = stmt(2, None);
    assert_eq!(s.id(), 4);
    assert_eq!(s.connection_id(), 1);
    assert_eq!(s.num_params(), 2);
    assert_eq!(s.num_columns(), 0);
    assert!(s.params().is_empty() && s.columns().is_empty());
}

#[test]
fn bytes_eq_compares_contents() {
    assert!(bytes_eq(b"abc", b"abc"));
    assert!(!bytes_eq(b"abc", b"abd"));
    assert!(!bytes_eq(b"abc", b"ab"));
}

#[test]
fn cache_lookup_after_insert() {
    let mut c = StmtCache::new(2);
    assert!(c.get(b"SELECT 1").is_none());
    assert!(c.insert(Arc::new(inner(1, 1, "SELECT 1", 0))).is_none());
    assert_eq!(c.get(b"SELECT 1").unwrap().id, 1);
    assert_eq!(c.len(), 1);
}

#[test]
fn cache_evicts_oldest_when_full() {
    let mut c = StmtCache::new(2);
    assert!(c.insert(Arc::new(inner(1, 1, "q1", 0))).is_none());
    assert!(c.insert(Arc::new(inner(2, 1, "q2", 0))).is_none());
    let evicted = c.insert(Arc::new(inner(3, 1, "q3", 0))).unwrap();
    assert_eq!(evicted.id, 1);
    assert_eq!(c.len(), 2);
    assert!(c.get(b"q1").is_none());
    assert_eq!(c.get(b"q2").unwrap().id, 2);
    assert_eq!(c.get(b"q3").unwrap().id, 3);
}

#[test]
fn cache_replaces_same_key() {
    let mut c = StmtCache::new(2);
    c.insert(Arc::new(inner(1, 1, "q1", 0)));
    let old = c.insert(Arc::new(inner(5, 1, "q1", 0))).unwrap();
    assert_eq!(old.id, 1);
    assert_eq!(c.get(b"q1").unwrap().id, 5);
    assert_eq!(c.len(), 1);
}

#[test]
fn cache_of_capacity_zero_keeps_nothing() {
    let mut c = StmtCache::new(0);
    assert!(c.insert(Arc::new(inner(1, 1, "q1", 0))).is_none());
    assert_eq!(c.len(), 0);
}

#[test]
fn positional_count_mismatch() {
    let s = stmt(2, None);
    let r = bind_params(&s, Params::Positional(vec![Value::Int(1)]));
    assert_eq!(r, Err(Error::StmtParamsMismatch { required: 2, supplied: 1 }));
    let r = bind_params(&s, Params::Positional(vec![Value::Int(1), Value::Int(2), Value::Int(3)]));
    assert_eq!(r, Err(Error::StmtParamsMismatch { required: 2, supplied: 3 }));
    let r = bind_params(&s, Params::Positional(vec![Value::Int(1), Value::Int(2)]));
    assert_eq!(r, Ok(vec![Value::Int(1), Value::Int(2)]));
}

#[test]
fn empty_params() {
    assert_eq!(bind_params(&stmt(0, None), Params::Empty), Ok(vec![]));
    assert_eq!(
        bind_params(&stmt(3, None), Params::Empty),
        Err(Error::StmtParamsMismatch { required: 3, supplied: 0 })
    );
}

#[test]
fn named_params_on_positional_statement() {
    let mut m = HashMap::new();
    m.insert(b"a".to_vec(), Value::Int(1));
    assert_eq!(bind_params(&stmt(1, None), Params::Named(m)), Err(Error::NamedParamsForPositionalQuery));
}

#[test]
fn named_params_resolve_in_name_order() {
    let mut m = HashMap::new();
    m.insert(b"a".to_vec(), Value::Int(1));
    m.insert(b"b".to_vec(), Value::Int(2));
    let s = stmt(3, Some(vec!["b", "a", "b"]));
    assert_eq!(bind_params(&s, Params::Named(m)), Ok(vec![Value::Int(2), Value::Int(1), Value::Int(2)]));
}

#[test]
fn named_param_missing() {
    let mut m = HashMap::new();
    m.insert(b"a".to_vec(), Value::Int(1));
    let s = stmt(2, Some(vec!["a", "b"]));
    assert_eq!(bind_params(&s, Params::Named(m)), Err(Error::MissingNamedParameter(b"b".to_vec())));
}

#[test]
fn named_params_with_wrong_count() {
    let mut m = HashMap::new();
    m.insert(b"name".to_vec(), Value::from("a"));
    let s = stmt(2, Some(vec!["name"]));
    assert_eq!(bind_params(&s, Params::Named(m)), Err(Error::StmtParamsMismatch { required: 2, supplied: 1 }));
}

#[test]
fn positional_values_ignore_names() {
    let s = stmt(1, Some(vec!["a"]));
    assert_eq!(bind_params(&s, Params::Positional(vec![Value::Int(9)])), Ok(vec![Value::Int(9)]));
}

#[test]
fn chunks_of_empty_value() {
    assert_eq!(long_data_chunks(&[], 4), vec![Vec::<u8>::new()]);
}

#[test]
fn chunks_split_and_rejoin() {
    let b: Vec<u8> = (0..10).collect();
    let chunks = long_data_chunks(&b, 4);
    assert_eq!(chunks.len(), 3);
    assert_eq!(chunks[0], vec![0, 1, 2, 3]);
    assert_eq!(chunks[2], vec![8, 9]);
    assert_eq!(chunks.concat(), b);
    assert_eq!(long_data_chunks(&b, 5).len(), 2);
    assert_eq!(long_data_chunks(&b, 10).len(), 1);
}

#[test]
fn long_data_commands_layout() {
    let vals = vec![None, Some(vec![1, 2, 3]), Some(vec![])];
    let cmds = long_data_commands(0x01020304, &vals, 2);
    assert_eq!(
        cmds,
        vec![
            vec![24, 4, 3, 2, 1, 1, 0, 1, 2],
            vec![24, 4, 3, 2, 1, 1, 0, 3],
            vec![24, 4, 3, 2, 1, 2, 0],
        ]
    );
}

#[test]
fn close_statement_command() {
    let conn = Conn::new(1, true, 1);
    assert_eq!(conn.close_statement(0x0a0b0c0d), vec![25, 0x0d, 0x0c, 0x0b, 0x0a]);
}

#[test]
fn column_def_packet_counts() {
    assert_eq!(Conn::new(1, true, 1).column_def_packets(3), 3);
    assert_eq!(Conn::new(1, false, 1).column_def_packets(3), 4);
}

#[test]
fn read_column_defs_parses_and_fails() {
    let conn = Conn::new(1, false, 1);
    let packets = vec![column_def("a"), column_def("b"), vec![0xfe, 0, 0, 2, 0]];
    assert_eq!(conn.read_column_defs(&packets, 2).unwrap().len(), 2);
    let bad = vec![vec![1, 2], vec![0xfe]];
    assert_eq!(conn.read_column_defs(&bad, 1), Err(Error::MalformedPacket));
}

#[test]
fn prepare_then_resolve_again_hits_cache() {
    let mut conn = Conn::new(3, false, 4);
    let (names, query) = match conn.get_statement("SELECT :x").unwrap() {
        Resolved::NeedsPrepare { named_params, query } => (named_params, query),
        Resolved::Cached(_) => panic!("empty cache"),
    };
    assert_eq!(query, b"SELECT ?".to_vec());
    let eof = vec![0xfe, 0, 0, 2, 0];
    let packets = vec![header(42, 1, 1), column_def("x"), eof.clone(), column_def("c"), eof];
    let (s, close) = prepare(&mut conn, query, packets).unwrap();
    assert!(close.is_none());
    assert_eq!((s.id, s.num_params, s.num_columns, s.connection_id), (42, 1, 1, 3));
    assert_eq!((s.params.len(), s.columns.len()), (1, 1));
    let first = Statement::new(s, names);
    match conn.get_statement("SELECT :x").unwrap() {
        Resolved::Cached(second) => {
            assert_eq!(second.id(), first.id());
            assert_eq!(second.named_params, Some(vec![b"x".to_vec()]));
        }
        Resolved::NeedsPrepare { .. } => panic!("second resolution prepared again"),
    }
}

#[test]
fn prepare_without_params_or_columns_is_one_packet() {
    let mut conn = Conn::new(3, true, 4);
    let r = conn.prepare_next(Prepare::AwaitHeader(b"DO 1".to_vec()), &vec![header(8, 0, 0)]).unwrap();
    match r {
        PrepareStep::Done(s, None) => assert_eq!(s.id, 8),
        _ => panic!("expected the end of the exchange"),
    }
}

#[test]
fn prepare_reads_columns_without_eof_marker() {
    let mut conn = Conn::new(3, true, 4);
    match conn.prepare_next(Prepare::AwaitHeader(b"SELECT 1".to_vec()), &vec![header(8, 2, 0)]).unwrap() {
        PrepareStep::Read(Prepare::AwaitColumns(_), n) => assert_eq!(n, 2),
        _ => panic!("expected column definitions next"),
    }
}

#[test]
fn prepare_fails_on_bad_header() {
    let mut conn = Conn::new(3, true, 4);
    let r = conn.prepare_next(Prepare::AwaitHeader(b"SELECT 1".to_vec()), &vec![vec![0xff, 1, 2]]);
    assert!(matches!(r, Err(Error::MalformedPacket)));
    assert_eq!(conn.cache.len(), 0);
}

#[test]
fn prepare_past_capacity_closes_evicted() {
    let mut conn = Conn::new(3, true, 1);
    let (_, close) = prepare(&mut conn, b"q1".to_vec(), vec![header(1, 0, 0)]).unwrap();
    assert!(close.is_none());
    let (s, close) = prepare(&mut conn, b"q2".to_vec(), vec![header(2, 0, 0)]).unwrap();
    assert_eq!(s.id, 2);
    assert_eq!(close, Some(vec![25, 1, 0, 0, 0]));
    assert!(matches!(conn.get_statement("q1").unwrap(), Resolved::NeedsPrepare { .. }));
}

#[test]
fn execute_on_other_connection_is_refused() {
    let conn = Conn::new(2, true, 1);
    let r = conn.execute_statement(&stmt(0, None), Params::Empty);
    assert_eq!(r, Err(Error::StmtConnectionMismatch { statement: 1, connection: 2 }));
}

#[test]
fn execute_without_params() {
    let conn = Conn::new(1, true, 1);
    let cmds = conn.execute_statement(&stmt(0, None), Params::Empty).unwrap();
    assert_eq!(cmds.len(), 1);
    assert_eq!(cmds[0].len(), 10);
    assert_eq!(&cmds[0][..5], &[23, 4, 0, 0, 0]);
}

#[test]
fn execute_with_small_values_inlines_them() {
    let conn = Conn::new(1, true, 1);
    let cmds = conn
        .execute_statement(&stmt(2, None), Params::Positional(vec![Value::Int(1), Value::Bytes(b"ab".to_vec())]))
        .unwrap();
    assert_eq!(cmds.len(), 1);
    assert_eq!(&cmds[0][..5], &[23, 4, 0, 0, 0]);
}

#[test]
fn execute_count_mismatch_sends_nothing() {
    let conn = Conn::new(1, true, 1);
    let r = conn.execute_statement(&stmt(2, None), Params::Positional(vec![Value::Int(1)]));
    assert_eq!(r, Err(Error::StmtParamsMismatch { required: 2, supplied: 1 }));
}

#[test]
fn execute_with_huge_bytes_sends_long_data_first() {
    let conn = Conn::new(1, true, 1);
    let big = vec![7u8; 16_777_209 + 5];
    let cmds = conn
        .execute_statement(&stmt(2, None), Params::Positional(vec![Value::Int(1), Value::Bytes(big)]))
        .unwrap();
    assert_eq!(cmds.len(), 3);
    assert_eq!(&cmds[0][..7], &[24, 4, 0, 0, 0, 1, 0]);
    assert_eq!(cmds[0].len(), 7 + 16_777_209);
    assert_eq!(cmds[1].len(), 7 + 5);
    assert_eq!(&cmds[2][..5], &[23, 4, 0, 0, 0]);
}

#[test]
fn named_and_positional_execute_alike() {
    let conn = Conn::new(1, true, 1);
    let s = stmt(2, Some(vec!["a", "b"]));
    let mut m = HashMap::new();
    m.insert(b"a".to_vec(), Value::Int(1));
    m.insert(b"b".to_vec(), Value::Bytes(b"xy".to_vec()));
    let named = conn.execute_statement(&s, Params::Named(m)).unwrap();
    let positional = conn
        .execute_statement(&s, Params::Positional(vec![Value::Int(1), Value::Bytes(b"xy".to_vec())]))
        .unwrap();
    assert_eq!(named, positional);
}
