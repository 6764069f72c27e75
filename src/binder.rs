//! Parameter binding and long-data chunking.

use vstd::prelude::*;
use vstd::slice::{slice_subrange, slice_to_vec};

use mysql_common::value::Value;
use std::collections::HashMap;

use crate::stmt::{Error, Statement};
use crate::wire::{bytes_of_value, encode_long_data, max_payload_len, value_bytes, has_name, le16, le32, named_into_positional, names_view, value_named};

verus! {

/// Parameters of one execution.
pub enum Params {
    Empty,
    Named(HashMap<Vec<u8>, Value>),
    Positional(Vec<Value>),
}

/// What binding `params` to `stmt` gives: the values in placeholder order, or the error.
pub open spec fn bound(stmt: Statement, params: Params, r: Result<Vec<Value>, Error>) -> bool {
    let k = stmt.inner.num_params;
    match params {
        Params::Empty => if k == 0 {
            r is Ok && r->Ok_0@.len() == 0
        } else {
            r == Err::<Vec<Value>, Error>(Error::StmtParamsMismatch { required: k, supplied: 0 })
        },
        Params::Positional(v) => if v@.len() == k as int {
            r is Ok && r->Ok_0@ == v@
        } else {
            r == Err::<Vec<Value>, Error>(Error::StmtParamsMismatch { required: k, supplied: v@.len() as usize })
        },
        Params::Named(m) => match stmt.named_params {
            None => r == Err::<Vec<Value>, Error>(Error::NamedParamsForPositionalQuery),
            Some(names) => if !(forall|i: int| 0 <= i < names@.len() ==> has_name(m@, #[trigger] names@[i]@)) {
                r is Err && r->Err_0 is MissingNamedParameter && exists|i: int| 0 <= i < names@.len()
                    && !has_name(m@, #[trigger] names@[i]@)
                    && r->Err_0->MissingNamedParameter_0@ == names@[i]@
                    && (forall|j: int| 0 <= j < i ==> has_name(m@, #[trigger] names@[j]@))
            } else if names@.len() == k as int {
                r is Ok && r->Ok_0@.len() == names@.len() && forall|i: int| 0 <= i < names@.len()
                    ==> #[trigger] r->Ok_0@[i] == value_named(m@, names@[i]@)
            } else {
                r == Err::<Vec<Value>, Error>(Error::StmtParamsMismatch { required: k, supplied: names@.len() as usize })
            },
        },
    }
}

/// The values that binding `params` to `stmt` sends, in placeholder order.
pub open spec fn bound_values(stmt: Statement, params: Params) -> Seq<Value> {
    match params {
        Params::Empty => Seq::empty(),
        Params::Positional(v) => v@,
        Params::Named(m) => match stmt.named_params {
            Some(names) => names@.map_values(|n: Vec<u8>| value_named(m@, n@)),
            None => Seq::empty(),
        },
    }
}

/// What each value gives as long data: its bytes for a bytes value, else nothing.
pub open spec fn long_data_values(vs: Seq<Value>) -> Seq<Option<Seq<u8>>> {
    vs.map_values(|v: Value| bytes_of_value(v))
}

/// Turns a parameter set into the values to send, in placeholder order: named
/// parameters are looked up by the statement's names first, then the count must
/// match the statement's.
pub fn bind_params(stmt: &Statement, params: Params) -> (r: Result<Vec<Value>, Error>)
    ensures
        bound(*stmt, params, r),
        r is Ok ==> r->Ok_0@ == bound_values(*stmt, params),
{
    let k = stmt.inner.num_params;
    match params {
        Params::Empty => {
            if k > 0 {
                Err(Error::StmtParamsMismatch { required: k, supplied: 0 })
            } else {
                Ok(Vec::new())
            }
        }
        Params::Positional(values) => {
            if values.len() != k as usize {
                Err(Error::StmtParamsMismatch { required: k, supplied: values.len() })
            } else {
                Ok(values)
            }
        }
        Params::Named(map) => {
            match &stmt.named_params {
                None => Err(Error::NamedParamsForPositionalQuery),
                Some(names) => {
                    match named_into_positional(map, names) {
                        Err(missing) => Err(Error::MissingNamedParameter(missing)),
                        Ok(Params::Empty) | Ok(Params::Named(_)) => {
                            proof {
                                assert(false);
                            }
                            Err(Error::NamedParamsForPositionalQuery)
                        }
                        Ok(Params::Positional(values)) => {
                            assert(values@ =~= names@.map_values(|n: Vec<u8>| value_named(map@, n@)));
                            if values.len() != k as usize {
                                Err(Error::StmtParamsMismatch { required: k, supplied: values.len() })
                            } else {
                                Ok(values)
                            }
                        }
                    }
                }
            }
        }
    }
}

/// `n` split into pieces of at most `m`: how many.
pub open spec fn chunk_count(n: nat, m: nat) -> nat {
    if n == 0 { 1 } else { ((n + m - 1) / m as int) as nat }
}

/// The chunks of `b` at most `m` long, in order; one empty chunk for empty `b`.
pub open spec fn chunks_spec(b: Seq<u8>, m: nat) -> Seq<Seq<u8>> {
    if b.len() == 0 {
        seq![Seq::<u8>::empty()]
    } else {
        Seq::new(chunk_count(b.len(), m), |i: int| b.subrange(i * m, if (i + 1) * m < b.len() { (i + 1) * m } else { b.len() as int }))
    }
}

/// The byte strings of `s` joined in order.
pub open spec fn join(s: Seq<Seq<u8>>) -> Seq<u8>
    decreases s.len(),
{
    if s.len() == 0 {
        Seq::empty()
    } else {
        join(s.drop_last()) + s.last()
    }
}

proof fn lemma_count_bounds(n: int, m: int)
    requires
        n > 0,
        m > 0,
    ensures
        ((n + m - 1) / m - 1) * m < n,
        n <= ((n + m - 1) / m) * m,
        (n + m - 1) / m >= 1,
{
    let c = (n + m - 1) / m;
    let r = (n + m - 1) % m;
    assert(n + m - 1 == c * m + r && 0 <= r < m) by (nonlinear_arith)
        requires m > 0, c == (n + m - 1) / m, r == (n + m - 1) % m;
    assert((c - 1) * m == c * m - m) by (nonlinear_arith);
    assert(c >= 1) by (nonlinear_arith)
        requires n + m - 1 == c * m + r, 0 <= r < m, n > 0, m > 0;
}

proof fn lemma_join_prefix(b: Seq<u8>, m: nat, k: int)
    requires
        m > 0,
        b.len() > 0,
        0 <= k <= chunks_spec(b, m).len(),
    ensures
        join(chunks_spec(b, m).take(k)) == b.subrange(0, if k * m < b.len() { k * m } else { b.len() as int }),
    decreases k,
{
    let n = b.len() as int;
    let cs = chunks_spec(b, m);
    let c = cs.len() as int;
    lemma_count_bounds(n, m as int);
    if k == 0 {
        assert(cs.take(0) =~= Seq::<Seq<u8>>::empty());
        assert(b.subrange(0, 0) =~= Seq::<u8>::empty());
    } else {
        let j = k - 1;
        lemma_join_prefix(b, m, j);
        assert(j * m <= (c - 1) * m) by (nonlinear_arith) requires j <= c - 1, m > 0;
        assert((j + 1) * m == j * m + m) by (nonlinear_arith);
        assert(cs.take(k).drop_last() =~= cs.take(j));
        assert(cs.take(k).last() == cs[j]);
        let hi = if k * m < n { k * m } else { n };
        assert(b.subrange(0, j * m) + b.subrange(j * m, hi) =~= b.subrange(0, hi));
    }
}

/// Chunking loses nothing and adds nothing: an empty value gives one empty chunk,
/// a value of `n > 0` bytes gives `ceil(n / m)` chunks of at most `m` bytes, and the
/// chunks joined in order give the value back.
pub proof fn lemma_chunks_rejoin(b: Seq<u8>, m: nat)
    requires
        m > 0,
    ensures
        b.len() == 0 ==> chunks_spec(b, m) == seq![Seq::<u8>::empty()],
        b.len() > 0 ==> chunks_spec(b, m).len() == (b.len() + m - 1) / m as int,
        forall|i: int| 0 <= i < chunks_spec(b, m).len() ==> (#[trigger] chunks_spec(b, m)[i]).len() <= m,
        join(chunks_spec(b, m)) == b,
{
    let n = b.len() as int;
    let cs = chunks_spec(b, m);
    if n == 0 {
        assert(cs.drop_last() =~= Seq::<Seq<u8>>::empty());
        assert(join(cs.drop_last()) == Seq::<u8>::empty());
        assert(join(cs) == join(cs.drop_last()) + cs.last());
        assert(join(cs) =~= b);
    } else {
        let c = cs.len() as int;
        lemma_count_bounds(n, m as int);
        assert forall|i: int| 0 <= i < c implies (#[trigger] cs[i]).len() <= m by {
            assert((i + 1) * m == i * m + m) by (nonlinear_arith);
            assert(i * m <= (c - 1) * m) by (nonlinear_arith) requires i <= c - 1, m > 0;
        }
        lemma_join_prefix(b, m, c);
        assert(cs.take(c) =~= cs);
        assert(b.subrange(0, n) =~= b);
    }
}

/// Splits `b` into chunks of at most `m` bytes, in order; empty `b` gives one
/// empty chunk.
pub fn long_data_chunks(b: &[u8], m: usize) -> (r: Vec<Vec<u8>>)
    requires
        m > 0,
    ensures
        r@.map_values(|c: Vec<u8>| c@) == chunks_spec(b@, m as nat),
{
    let n = b.len();
    let mut out: Vec<Vec<u8>> = Vec::new();
    if n == 0 {
        out.push(Vec::new());
        assert(out@.map_values(|c: Vec<u8>| c@) =~= chunks_spec(b@, m as nat));
        return out;
    }
    let mut start: usize = 0;
    assert(out@.len() * m == 0) by (nonlinear_arith)
        requires out@.len() == 0;
    while start < n
        invariant
            n == b@.len(),
            n > 0,
            m > 0,
            start <= n,
            out@.len() > 0 ==> (out@.len() - 1) * m < n,
            start < n ==> start == out@.len() * m,
            start == n ==> out@.len() > 0 && (out@.len() - 1) * m < n && n <= out@.len() * m,
            forall|j: int| 0 <= j < out@.len() ==> (#[trigger] out@[j])@ == b@.subrange(j * m, if (j + 1) * m < n { (j + 1) * m } else { n as int }),
        decreases n - start,
    {
        let end: usize = if n - start > m { start + m } else { n };
        let ghost j = out@.len() as int;
        proof {
            assert((j + 1) * m == j * m + m) by (nonlinear_arith);
        }
        out.push(slice_to_vec(slice_subrange(b, start, end)));
        proof {
            assert((j + 1) * m == j * m + m) by (nonlinear_arith);
        }
        start = end;
    }
    proof {
        let c = out@.len() as int;
        let mm = m as int;
        let nn = n as int;
        assert((c - 1) * mm < nn && nn <= c * mm);
        assert((nn + mm - 1) / mm == c) by (nonlinear_arith)
            requires (c - 1) * mm < nn, nn <= c * mm, mm > 0, c > 0;
    }
    assert(out@.map_values(|c: Vec<u8>| c@) =~= chunks_spec(b@, m as nat));
    out
}

/// The command that sends `chunk` as long data of parameter `idx` of statement `id`.
pub open spec fn long_data_cmd(id: u32, idx: int, chunk: Seq<u8>) -> Seq<u8> {
    seq![24u8] + le32(id) + le16(idx as u16) + chunk
}

/// The long-data commands of the bytes values among `vals`, by position, each
/// value's chunks in order.
pub open spec fn long_data_spec(id: u32, vals: Seq<Option<Seq<u8>>>, m: nat) -> Seq<Seq<u8>>
    decreases vals.len(),
{
    if vals.len() == 0 {
        Seq::empty()
    } else {
        let i = vals.len() - 1;
        long_data_spec(id, vals.drop_last(), m) + match vals[i] {
            Some(b) => chunks_spec(b, m).map_values(|c: Seq<u8>| long_data_cmd(id, i, c)),
            None => Seq::empty(),
        }
    }
}

/// The view of a list of optional byte strings.
pub open spec fn opt_bytes_view(v: Seq<Option<Vec<u8>>>) -> Seq<Option<Seq<u8>>> {
    v.map_values(|o: Option<Vec<u8>>| match o {
        Some(b) => Some(b@),
        None => None,
    })
}

/// The long-data commands for the bytes values among `vals` (`None` for any other
/// value), chunks of at most `m` bytes.
pub fn long_data_commands(stmt_id: u32, vals: &Vec<Option<Vec<u8>>>, m: usize) -> (r: Vec<Vec<u8>>)
    requires
        m > 0,
        vals@.len() <= 65536,
    ensures
        r@.map_values(|c: Vec<u8>| c@) == long_data_spec(stmt_id, opt_bytes_view(vals@), m as nat),
{
    let mut out: Vec<Vec<u8>> = Vec::new();
    let mut i: usize = 0;
    assert(opt_bytes_view(vals@).take(0) =~= Seq::<Option<Seq<u8>>>::empty());
    assert(out@.map_values(|c: Vec<u8>| c@) =~= Seq::<Seq<u8>>::empty());
    while i < vals.len()
        invariant
            m > 0,
            i <= vals@.len(),
            vals@.len() <= 65536,
            out@.map_values(|c: Vec<u8>| c@) == long_data_spec(stmt_id, opt_bytes_view(vals@).take(i as int), m as nat),
        decreases vals@.len() - i,
    {
        let ghost before = out@.map_values(|c: Vec<u8>| c@);
        let ghost vs = opt_bytes_view(vals@);
        assert(vs.take(i as int + 1).drop_last() =~= vs.take(i as int));
        match &vals[i] {
            Some(b) => {
                let chunks = long_data_chunks(b.as_slice(), m);
                let ghost cs = chunks_spec(b@, m as nat).map_values(|c: Seq<u8>| long_data_cmd(stmt_id, i as int, c));
                let mut k: usize = 0;
                while k < chunks.len()
                    invariant
                        k <= chunks@.len(),
                        i < 65536,
                        chunks@.map_values(|c: Vec<u8>| c@) == chunks_spec(b@, m as nat),
                        cs == chunks_spec(b@, m as nat).map_values(|c: Seq<u8>| long_data_cmd(stmt_id, i as int, c)),
                        out@.map_values(|c: Vec<u8>| c@) == before + cs.take(k as int),
                    decreases chunks@.len() - k,
                {
                    let cmd = encode_long_data(stmt_id, i as u16, chunks[k].as_slice());
                    assert(chunks@.map_values(|c: Vec<u8>| c@)[k as int] == chunks@[k as int]@);
                    assert(cs[k as int] == cmd@);
                    let ghost prev = out@;
                    let ghost cmd_view = cmd@;
                    out.push(cmd);
                    assert(out@.map_values(|c: Vec<u8>| c@) =~= prev.map_values(|c: Vec<u8>| c@).push(cmd_view));
                    assert(before + cs.take(k as int + 1) =~= (before + cs.take(k as int)).push(cs[k as int]));
                    assert(out@.map_values(|c: Vec<u8>| c@) =~= before + cs.take(k as int + 1));
                    k = k + 1;
                }
                assert(cs.take(chunks@.len() as int) =~= cs);
            }
            None => {
                assert(out@.map_values(|c: Vec<u8>| c@) =~= before + Seq::<Seq<u8>>::empty());
            }
        }
        i = i + 1;
    }
    assert(opt_bytes_view(vals@).take(vals@.len() as int) =~= opt_bytes_view(vals@));
    out
}

/// The largest chunk of long data: a packet's payload less the command's header.
pub open spec fn long_data_limit() -> nat {
    16_777_209
}

/// The long-data commands for the bytes values among `params`, by position.
pub fn send_long_data(stmt_id: u32, params: &Vec<Value>) -> (r: Vec<Vec<u8>>)
    requires
        params@.len() <= 65536,
    ensures
        r@.map_values(|c: Vec<u8>| c@) == long_data_spec(stmt_id, long_data_values(params@), long_data_limit()),
{
    let mut vals: Vec<Option<Vec<u8>>> = Vec::new();
    let mut i: usize = 0;
    while i < params.len()
        invariant
            i <= params@.len(),
            vals@.len() == i,
            opt_bytes_view(vals@) == long_data_values(params@.take(i as int)),
        decreases params@.len() - i,
    {
        let ghost prev = vals@;
        let b = value_bytes(&params[i]);
        vals.push(b);
        assert(opt_bytes_view(vals@) =~= long_data_values(params@.take(i as int + 1))) by {
            assert(vals@ =~= prev.push(b));
            assert(params@.take(i as int + 1) =~= params@.take(i as int).push(params@[i as int]));
            let lhs = opt_bytes_view(vals@);
            let rhs = long_data_values(params@.take(i as int + 1));
            assert forall|j: int| 0 <= j < lhs.len() implies lhs[j] == rhs[j] by {
                if j < i {
                    assert(opt_bytes_view(prev)[j] == long_data_values(params@.take(i as int))[j]);
                } else {
                    assert(lhs[j] == bytes_of_value(params@[i as int]));
                }
            }
        }
        i = i + 1;
    }
    assert(params@.take(params@.len() as int) =~= params@);
    let m = max_payload_len() - 6;
    let r = long_data_commands(stmt_id, &vals, m);
    assert(m as nat == long_data_limit());
    r
}

} // verus!
