use vstd::prelude::*;

use crate::frame::{
    clone_bytes, duplicate_mappings, frame_views, mapping_views, FrameModel, MappingConfig,
    MappingMode, ProtFrame,
};
use crate::mapping::{is_last_match, lookup_mapping, spec_match};

verus! {

/// A writer cuts a byte stream into `Data` frames of at most this many
/// payload bytes.
pub const MAX_CHUNK: usize = 16384;

/// The substream identifiers run modulo 2^24 inside one tunnel byte-space.
pub const ID_SPACE: u32 = 0x1000000;

// ---------------------------------------------------------------------------
// Live substream table
// ---------------------------------------------------------------------------

/// `id` stands somewhere in `s`.
pub open spec fn has_id(s: Seq<u32>, id: u32) -> bool {
    exists|k: int| 0 <= k < s.len() && s[k] == id
}

/// No identifier stands twice.
pub open spec fn no_dups(s: Seq<u32>) -> bool {
    forall|i: int, j: int| 0 <= i < j < s.len() ==> s[i] != s[j]
}

/// The two tables hold the same identifiers, except that `new_s` holds `id`
/// exactly when `present` says so.
pub open spec fn ids_same_but(old_s: Seq<u32>, new_s: Seq<u32>, id: u32, present: bool) -> bool {
    &&& has_id(new_s, id) == present
    &&& forall|x: u32| x != id ==> has_id(new_s, x) == has_id(old_s, x)
}

/// Whether the table holds `id`.
pub fn contains_id(v: &Vec<u32>, id: u32) -> (b: bool)
    ensures
        b == has_id(v@, id),
{
    let mut i: usize = 0;
    while i < v.len()
        invariant
            0 <= i <= v@.len(),
            forall|k: int| 0 <= k < i ==> v@[k] != id,
        decreases v@.len() - i,
    {
        if v[i] == id {
            return true;
        }
        i = i + 1;
    }
    false
}

/// Puts `id` into the table; a present identifier is not doubled.
pub fn add_id(v: &mut Vec<u32>, id: u32)
    requires
        no_dups(old(v)@),
    ensures
        no_dups(final(v)@),
        ids_same_but(old(v)@, final(v)@, id, true),
{
    if !contains_id(v, id) {
        v.push(id);
        proof {
            assert(v@[old(v)@.len() as int] == id);
            assert(has_id(v@, id));
            assert forall|x: u32| x != id implies has_id(v@, x) == has_id(old(v)@, x) by {
                if has_id(old(v)@, x) {
                    let k = choose|k: int| 0 <= k < old(v)@.len() && old(v)@[k] == x;
                    assert(v@[k] == x);
                }
                if has_id(v@, x) {
                    let k = choose|k: int| 0 <= k < v@.len() && v@[k] == x;
                    assert(k < old(v)@.len());
                    assert(old(v)@[k] == x);
                }
            }
            assert forall|i: int, j: int| 0 <= i < j < v@.len() implies v@[i] != v@[j] by {
                if j == v@.len() - 1 {
                    if old(v)@[i] == id {
                        assert(has_id(old(v)@, id));
                    }
                }
            }
        }
    }
}

/// Takes `id` out of the table, if present.
pub fn remove_id(v: &mut Vec<u32>, id: u32)
    requires
        no_dups(old(v)@),
    ensures
        no_dups(final(v)@),
        ids_same_but(old(v)@, final(v)@, id, false),
{
    let mut i: usize = 0;
    while i < v.len()
        invariant
            0 <= i <= v@.len(),
            v@ == old(v)@,
            no_dups(old(v)@),
            forall|k: int| 0 <= k < i ==> v@[k] != id,
        decreases v@.len() - i,
    {
        if v[i] == id {
            v.remove(i);
            proof {
                assert(v@ == old(v)@.subrange(0, i as int) + old(v)@.subrange(
                    i as int + 1,
                    old(v)@.len() as int,
                ));
                assert forall|x: u32| x != id implies has_id(v@, x) == has_id(old(v)@, x) by {
                    if has_id(old(v)@, x) {
                        let k = choose|k: int| 0 <= k < old(v)@.len() && old(v)@[k] == x;
                        if k < i {
                            assert(v@[k] == x);
                        } else {
                            assert(k > i);
                            assert(v@[k - 1] == x);
                        }
                    }
                    if has_id(v@, x) {
                        let k = choose|k: int| 0 <= k < v@.len() && v@[k] == x;
                        if k < i {
                            assert(old(v)@[k] == x);
                        } else {
                            assert(old(v)@[k + 1] == x);
                        }
                    }
                }
                assert forall|k: int| 0 <= k < v@.len() implies v@[k] != id by {
                    if k < i {
                        assert(v@[k] == old(v)@[k]);
                    } else {
                        assert(v@[k] == old(v)@[k + 1]);
                    }
                }
                assert(!has_id(v@, id)) by {
                    if has_id(v@, id) {
                        let k = choose|k: int| 0 <= k < v@.len() && v@[k] == id;
                    }
                }
                assert forall|a: int, b: int| 0 <= a < b < v@.len() implies v@[a] != v@[b] by {
                    if b < i {
                    } else if a < i {
                        assert(v@[a] == old(v)@[a] && v@[b] == old(v)@[b + 1]);
                    } else {
                        assert(v@[a] == old(v)@[a + 1] && v@[b] == old(v)@[b + 1]);
                    }
                }
            }
            return ;
        }
        i = i + 1;
    }
    proof {
        assert(v@ == old(v)@);
        assert(!has_id(v@, id)) by {
            if has_id(v@, id) {
                let k = choose|k: int| 0 <= k < v@.len() && v@[k] == id;
            }
        }
    }
}

// ---------------------------------------------------------------------------
// Substream identifier allocation
// ---------------------------------------------------------------------------

/// The `k`-th identifier candidate after `next`: stepping by two, wrapping
/// inside the 24-bit space, so the parity of `next` is kept.
pub open spec fn candidate(next: u32, k: int) -> u32 {
    ((next + 2 * k) % (ID_SPACE as int)) as u32
}

/// A full substream identifier: the server byte on top of a 24-bit local
/// identifier.
pub open spec fn compose_sock_map(server_id: u8, low: u32) -> u32
    recommends
        low < ID_SPACE,
{
    (server_id as u32) << 24 | low
}

/// Composes a full substream identifier.
pub fn calc_sock_map(server_id: u8, low: u32) -> (r: u32)
    requires
        low < ID_SPACE,
    ensures
        r == compose_sock_map(server_id, low),
{
    (server_id as u32) << 24 | low
}

/// Allocates a fresh substream identifier: the first candidate from `next`
/// (stepping by two, wrapping, keeping parity, skipping zero and every
/// identifier in `live`). Yields the identifier and the counter to continue
/// from; `None` only if every one of the `live.len() + 1` candidates
/// inspected is zero or already live, which a table smaller than the
/// identifier space never brings about.
pub fn alloc_sock_map(live: &Vec<u32>, next: u32, server_id: u8) -> (r: Option<(u32, u32)>)
    requires
        next < ID_SPACE,
    ensures
        r matches Some(p) ==> {
            &&& p.0 != 0
            &&& !has_id(live@, p.0)
            &&& p.0 % 2 == next % 2
            &&& p.1 < ID_SPACE
            &&& p.1 % 2 == next % 2
            &&& exists|k: int|
                {
                    &&& 0 <= k <= live@.len()
                    &&& p.0 == compose_sock_map(server_id, #[trigger] candidate(next, k))
                    &&& p.1 == candidate(next, k + 1)
                    &&& forall|k2: int|
                        0 <= k2 < k ==> (compose_sock_map(
                            server_id,
                            #[trigger] candidate(next, k2),
                        ) == 0 || has_id(live@, compose_sock_map(server_id, candidate(next, k2))))
                }
        },
        r is None ==> forall|k: int|
            0 <= k <= live@.len() ==> (compose_sock_map(server_id, #[trigger] candidate(next, k))
                == 0 || has_id(live@, compose_sock_map(server_id, candidate(next, k)))),
{
    let n = live.len();
    let mut k: usize = 0;
    let mut cur: u32 = next;
    proof {
        vstd::arithmetic::div_mod::lemma_small_mod(next as nat, ID_SPACE as nat);
    }
    loop
        invariant
            0 <= k <= n,
            n == live@.len(),
            next < ID_SPACE,
            cur < ID_SPACE,
            cur == candidate(next, k as int),
            cur % 2 == next % 2,
            forall|k2: int|
                0 <= k2 < k ==> (compose_sock_map(server_id, #[trigger] candidate(next, k2)) == 0
                    || has_id(live@, compose_sock_map(server_id, candidate(next, k2)))),
        decreases n - k,
    {
        let id = calc_sock_map(server_id, cur);
        let fresh_here = id != 0 && !contains_id(live, id);
        let step: u32 = if cur + 2 >= ID_SPACE {
            cur + 2 - ID_SPACE
        } else {
            cur + 2
        };
        proof {
            if cur + 2 >= ID_SPACE {
                vstd::arithmetic::div_mod::lemma_mod_multiples_vanish(
                    1,
                    cur + 2 - ID_SPACE as int,
                    ID_SPACE as int,
                );
                vstd::arithmetic::div_mod::lemma_small_mod(
                    (cur + 2 - ID_SPACE) as nat,
                    ID_SPACE as nat,
                );
            } else {
                vstd::arithmetic::div_mod::lemma_small_mod((cur + 2) as nat, ID_SPACE as nat);
            }
            assert(step == (cur + 2) % (ID_SPACE as int));
            vstd::arithmetic::div_mod::lemma_small_mod(2nat, ID_SPACE as nat);
            vstd::arithmetic::div_mod::lemma_add_mod_noop(
                next + 2 * (k as int),
                2,
                ID_SPACE as int,
            );
            assert(step == candidate(next, k as int + 1));
        }
        if fresh_here {
            let m: u32 = cur % 2;
            assert(id % 2 == m) by (bit_vector)
                requires
                    id == (server_id as u32) << 24 | cur,
                    m == cur % 2,
            ;
            proof {
                assert(cur == candidate(next, k as int));
            }
            return Some((id, step));
        }
        if k == n {
            return None;
        }
        cur = step;
        k = k + 1;
    }
}


/// Two different steps from the same counter give different candidates,
/// as long as fewer than half the identifier space separates them.
proof fn lemma_candidates_distinct(next: u32, j: int, k: int)
    requires
        next < ID_SPACE,
        0 <= j < k,
        2 * (k - j) < ID_SPACE,
    ensures
        candidate(next, j) != candidate(next, k),
{
    let m = ID_SPACE as int;
    let a = next + 2 * j;
    let b = next + 2 * k;
    vstd::arithmetic::div_mod::lemma_fundamental_div_mod(a, m);
    vstd::arithmetic::div_mod::lemma_fundamental_div_mod(b, m);
    vstd::arithmetic::div_mod::lemma_mod_bound(a, m);
    vstd::arithmetic::div_mod::lemma_mod_bound(b, m);
    if candidate(next, j) == candidate(next, k) {
        assert(a % m == b % m);
        let d = b / m - a / m;
        assert(b - a == m * d);
        assert(d >= 1) by (nonlinear_arith)
            requires
                b - a == m * d,
                b - a > 0,
                m > 0,
        ;
        assert(m * d >= m) by (nonlinear_arith)
            requires
                d >= 1,
                m > 0,
        ;
        assert(false);
    }
}

/// Stepping by two and wrapping in an even space keeps the counter's
/// parity.
proof fn lemma_candidate_parity(next: u32, k: int)
    requires
        next < ID_SPACE,
        0 <= k,
    ensures
        candidate(next, k) % 2 == next % 2,
{
    let m = ID_SPACE as int;
    let x = next + 2 * k;
    vstd::arithmetic::div_mod::lemma_fundamental_div_mod(x, m);
    vstd::arithmetic::div_mod::lemma_mod_bound(x, m);
    let q = x / m;
    assert(x % m == next + 2 * (k - 0x800000 * q));
}

/// A client's allocator never runs out: with an odd counter, zero is
/// never a candidate, and fewer live substreams than inspected candidates
/// leave at least one candidate fresh — so `alloc_sock_map` never answers
/// `None` on a client's table.
pub proof fn lemma_allocation_never_exhausts(live: Seq<u32>, next: u32, server_id: u8)
    requires
        next < ID_SPACE,
        next % 2 == 1,
        live.len() < 0x800000,
    ensures
        exists|k: int|
            0 <= k <= live.len() && compose_sock_map(server_id, #[trigger] candidate(next, k))
                != 0 && !has_id(live, compose_sock_map(server_id, candidate(next, k))),
{
    broadcast use vstd::set::group_set_axioms;
    broadcast use vstd::seq_lib::seq_to_set_is_finite;

    if !(exists|k: int|
        0 <= k <= live.len() && compose_sock_map(server_id, #[trigger] candidate(next, k)) != 0
            && !has_id(live, compose_sock_map(server_id, candidate(next, k)))) {
        let n = live.len() as int;
        assert forall|k: int| 0 <= k <= n implies compose_sock_map(
            server_id,
            #[trigger] candidate(next, k),
        ) != 0 by {
            lemma_candidate_parity(next, k);
            let low = candidate(next, k);
            assert(low % 2 == 1 ==> ((server_id as u32) << 24 | low) != 0) by (bit_vector);
        }
        let ids = Seq::new(
            (n + 1) as nat,
            |k: int| compose_sock_map(server_id, candidate(next, k)),
        );
        assert forall|i: int, j: int| 0 <= i < j < ids.len() implies ids[i] != ids[j] by {
            lemma_candidates_distinct(next, i, j);
            let a = candidate(next, i);
            let b = candidate(next, j);
            assert((a != b && a < 0x1000000 && b < 0x1000000) ==> ((server_id as u32) << 24 | a)
                != (((server_id as u32)) << 24 | b)) by (bit_vector);
        }
        assert(ids.no_duplicates());
        ids.unique_seq_to_set();
        assert forall|x: u32| ids.to_set().contains(x) implies live.to_set().contains(x) by {
            let i = choose|i: int| 0 <= i < ids.len() && ids[i] == x;
            assert(has_id(live, x));
            let w = choose|w: int| 0 <= w < live.len() && live[w] == x;
            assert(live[w] == x);
            assert(live.contains(x));
        }
        assert(ids.to_set().subset_of(live.to_set()));
        live.lemma_cardinality_of_set();
        vstd::set_lib::lemma_len_subset(ids.to_set(), live.to_set());
        assert(ids.to_set().len() == n + 1);
        assert(live.to_set().len() <= n);
        assert(false);
    }
}

// ---------------------------------------------------------------------------
// Ordered, isolated substream payload streams
// ---------------------------------------------------------------------------

/// What one frame contributes to the byte stream read on substream `id`:
/// its payload for a `Data` frame carrying `id`, nothing otherwise.
pub open spec fn data_of(f: FrameModel, id: u32) -> Seq<u8> {
    match f {
        FrameModel::Data { sock_map, data } => if sock_map == id {
            data
        } else {
            Seq::empty()
        },
        _ => Seq::empty(),
    }
}

/// The byte stream that substream `id` reads from a trace of frames: the
/// payloads of its `Data` frames, concatenated in arrival order.
pub open spec fn data_payloads(fs: Seq<FrameModel>, id: u32) -> Seq<u8>
    decreases fs.len(),
{
    if fs.len() == 0 {
        Seq::empty()
    } else {
        data_of(fs[0], id) + data_payloads(fs.skip(1), id)
    }
}

/// One more frame at the end of a trace appends exactly its contribution.
pub proof fn lemma_data_payloads_push(fs: Seq<FrameModel>, f: FrameModel, id: u32)
    ensures
        data_payloads(fs.push(f), id) == data_payloads(fs, id) + data_of(f, id),
    decreases fs.len(),
{
    if fs.len() == 0 {
        let s1 = fs.push(f);
        assert(s1.skip(1) =~= Seq::<FrameModel>::empty());
        assert(s1[0] == f);
        assert(data_payloads(s1, id) == data_of(f, id) + data_payloads(
            Seq::<FrameModel>::empty(),
            id,
        ));
        assert(data_payloads(s1, id) =~= data_of(f, id));
        assert(data_payloads(fs, id) + data_of(f, id) =~= data_of(f, id));
    } else {
        assert(fs.push(f).skip(1) =~= fs.skip(1).push(f));
        lemma_data_payloads_push(fs.skip(1), f, id);
        assert(data_payloads(fs.push(f), id) =~= data_payloads(fs, id) + data_of(f, id));
    }
}

/// Ordering per substream: the stream read from one trace followed by
/// another is the stream of the first followed by the stream of the second.
/// So for any number of writes, each cut into frames, the reader sees the
/// written bytes concatenated in write order.
pub proof fn lemma_data_payloads_concat(a: Seq<FrameModel>, b: Seq<FrameModel>, id: u32)
    ensures
        data_payloads(a + b, id) == data_payloads(a, id) + data_payloads(b, id),
    decreases a.len(),
{
    if a.len() == 0 {
        assert(a + b =~= b);
        assert(data_payloads(a, id) + data_payloads(b, id) =~= data_payloads(b, id));
    } else {
        assert((a + b).skip(1) =~= a.skip(1) + b);
        assert((a + b)[0] == a[0]);
        lemma_data_payloads_concat(a.skip(1), b, id);
        assert(data_payloads(a + b, id) =~= data_payloads(a, id) + data_payloads(b, id));
    }
}

/// Substream isolation: a trace in which no frame carries substream `id`
/// contributes nothing to what `id` reads. Bytes sent on one substream
/// never appear on another substream's read side.
pub proof fn lemma_substream_isolation(fs: Seq<FrameModel>, id: u32)
    requires
        forall|i: int| 0 <= i < fs.len() ==> (#[trigger] fs[i]).sock_map() != id,
    ensures
        data_payloads(fs, id) == Seq::<u8>::empty(),
    decreases fs.len(),
{
    if fs.len() > 0 {
        assert(fs[0].sock_map() != id);
        assert(data_of(fs[0], id) =~= Seq::<u8>::empty());
        assert forall|i: int| 0 <= i < fs.skip(1).len() implies (#[trigger] fs.skip(1)[i]).sock_map()
            != id by {
            assert(fs.skip(1)[i] == fs[i + 1]);
        }
        lemma_substream_isolation(fs.skip(1), id);
        assert(data_payloads(fs, id) =~= Seq::<u8>::empty());
    }
}


/// The bytes of any number of writes, in write order.
pub open spec fn concat_all(ws: Seq<Seq<u8>>) -> Seq<u8>
    decreases ws.len(),
{
    if ws.len() == 0 {
        Seq::empty()
    } else {
        ws[0] + concat_all(ws.skip(1))
    }
}

/// Ordering per substream, for any number of writes: when each write is
/// carried by its own run of frames, the reader of the concatenated frame
/// trace observes exactly the written bytes, concatenated in write order.
pub proof fn lemma_writes_in_order(traces: Seq<Seq<FrameModel>>, writes: Seq<Seq<u8>>, id: u32)
    requires
        traces.len() == writes.len(),
        forall|i: int|
            0 <= i < traces.len() ==> data_payloads(#[trigger] traces[i], id) == writes[i],
    ensures
        data_payloads(traces.flatten(), id) == concat_all(writes),
    decreases traces.len(),
{
    if traces.len() == 0 {
        assert(traces.flatten() =~= Seq::<FrameModel>::empty());
        assert(concat_all(writes) =~= Seq::<u8>::empty());
    } else {
        assert(traces.flatten() == traces[0] + traces.drop_first().flatten());
        lemma_data_payloads_concat(traces[0], traces.drop_first().flatten(), id);
        assert(traces.drop_first() =~= traces.skip(1));
        assert forall|i: int| 0 <= i < traces.skip(1).len() implies data_payloads(
            #[trigger] traces.skip(1)[i],
            id,
        ) == writes.skip(1)[i] by {
            assert(traces.skip(1)[i] == traces[i + 1]);
            assert(writes.skip(1)[i] == writes[i + 1]);
        }
        lemma_writes_in_order(traces.skip(1), writes.skip(1), id);
        assert(data_payloads(traces.flatten(), id) =~= concat_all(writes));
    }
}

/// Cuts a write into `Data` frames for substream `sock_map`, each carrying
/// at most `MAX_CHUNK` payload bytes. The frames carry exactly the written
/// bytes, in order, all on `sock_map`, and every frame can be encoded.
pub fn chunk_data(sock_map: u32, data: &Vec<u8>) -> (r: Vec<ProtFrame>)
    ensures
        data_payloads(frame_views(r@), sock_map) == data@,
        forall|i: int|
            0 <= i < r@.len() ==> ((#[trigger] frame_views(r@)[i]) matches FrameModel::Data {
                sock_map: s,
                data: d,
            } && s == sock_map && d.len() <= MAX_CHUNK),
        forall|i: int| 0 <= i < r@.len() ==> crate::codec::encodable(#[trigger] frame_views(r@)[i]),
{
    let mut out: Vec<ProtFrame> = Vec::new();
    let mut pos: usize = 0;
    assert(data_payloads(frame_views(out@), sock_map) =~= data@.take(0));
    while pos < data.len()
        invariant
            0 <= pos <= data@.len(),
            data_payloads(frame_views(out@), sock_map) == data@.take(pos as int),
            forall|i: int|
                0 <= i < out@.len() ==> ((#[trigger] frame_views(out@)[i])
                    matches FrameModel::Data { sock_map: s, data: d } && s == sock_map && d.len()
                    <= MAX_CHUNK),
            forall|i: int|
                0 <= i < out@.len() ==> crate::codec::encodable(#[trigger] frame_views(out@)[i]),
        decreases data@.len() - pos,
    {
        let take = if data.len() - pos > MAX_CHUNK {
            MAX_CHUNK
        } else {
            data.len() - pos
        };
        let chunk = crate::codec::copy_range(data, pos, pos + take);
        let f = ProtFrame::new_data(sock_map, chunk);
        proof {
            out@.lemma_push_map_commute(|x: ProtFrame| x@, f);
            lemma_data_payloads_push(frame_views(out@), f@, sock_map);
        }
        out.push(f);
        assert(data_payloads(frame_views(out@), sock_map) =~= data@.take((pos + take) as int));
        pos = pos + take;
    }
    assert(data@.take(data@.len() as int) =~= data@);
    out
}

/// The read side of a virtual substream: a received frame appends its
/// contribution for `id` — the payload of a `Data` frame carrying `id`,
/// nothing otherwise — to the bytes already read.
pub fn virtual_read_step(acc: &mut Vec<u8>, f: &ProtFrame, id: u32)
    ensures
        final(acc)@ == old(acc)@ + data_of(f@, id),
{
    match f {
        ProtFrame::Data(d) => {
            if d.sock_map == id {
                crate::codec::append_bytes(acc, &d.data);
            } else {
                assert(acc@ =~= old(acc)@ + data_of(f@, id));
            }
        },
        _ => {
            assert(acc@ =~= old(acc)@ + data_of(f@, id));
        },
    }
}

// ---------------------------------------------------------------------------
// Client session
// ---------------------------------------------------------------------------


/// The reason a `Create` that nothing routes is answered with: the bytes
/// of "no mapping".
pub open spec fn no_mapping_reason() -> Seq<u8> {
    seq![110u8, 111, 32, 109, 97, 112, 112, 105, 110, 103]
}

/// Builds the `Close` reply for a `Create` that no mapping routes.
pub fn no_mapping_close(sock_map: u32) -> (r: ProtFrame)
    ensures
        r@ == (FrameModel::Close { sock_map, reason: no_mapping_reason() }),
{
    let reason: Vec<u8> = vec![110u8, 111, 32, 109, 97, 112, 112, 105, 110, 103];
    assert(reason@ =~= no_mapping_reason());
    ProtFrame::new_close_reason(sock_map, reason)
}

/// What the tunnel loop should do with one received frame.
pub enum StreamAction {
    /// Write this frame back to the tunnel.
    Reply(ProtFrame),
    /// A substream was opened for a proxy-mode mapping: hand it to the
    /// embedded forward-proxy engine, with the mapping at this index.
    StartProxy { sock_map: u32, mapping: usize },
    /// A substream was opened for a dial-mode mapping: dial the local
    /// address and bridge it to the substream; on dial failure reply
    /// `Close { sock_map }`.
    StartDial { sock_map: u32, mapping: usize, local_addr: Vec<u8> },
    /// Deliver the frame to this live substream's inbound queue.
    Forward { sock_map: u32 },
    /// The peer aborted the whole tunnel.
    Abort,
    /// Nothing to do; the frame is dropped.
    Ignore,
}

/// The model of an optional credential.
pub open spec fn cred_view(c: Option<Vec<u8>>) -> Option<Seq<u8>> {
    match c {
        None => None,
        Some(v) => Some(v@),
    }
}

/// The mapping key a `Create` frame carries: its domain, or empty text.
pub open spec fn create_key(domain: Option<Seq<u8>>) -> Seq<u8> {
    match domain {
        Some(d) => d,
        None => Seq::empty(),
    }
}

/// The decision state of a center client's tunnel: what it advertises,
/// which substreams are live, and where identifier allocation stands.
/// The sockets, queues and timers around it stay outside.
pub struct ClientSession {
    /// The mappings this client advertises and routes by.
    pub mappings: Vec<MappingConfig>,
    /// Identifiers of live substreams, each at most once.
    pub live: Vec<u32>,
    /// The 24-bit counter the next allocation starts from; always odd:
    /// a client allocates odd identifiers, a server even ones.
    pub next_id: u32,
    /// The byte put on top of allocated identifiers.
    pub server_id: u8,
    /// Credentials sent first on every new tunnel, when both are set.
    pub username: Option<Vec<u8>>,
    pub password: Option<Vec<u8>>,
}

impl ClientSession {
    /// The session's bookkeeping is sound: no doubled substream and an odd
    /// in-range allocation counter.
    pub open spec fn wf(self) -> bool {
        &&& no_dups(self.live@)
        &&& self.next_id < ID_SPACE
        &&& self.next_id % 2 == 1
    }

    /// The fields that a received frame never changes.
    pub open spec fn same_config(self, other: ClientSession) -> bool {
        &&& mapping_views(other.mappings@) == mapping_views(self.mappings@)
        &&& other.server_id == self.server_id
        &&& cred_view(other.username) == cred_view(self.username)
        &&& cred_view(other.password) == cred_view(self.password)
    }

    pub fn new(
        mappings: Vec<MappingConfig>,
        server_id: u8,
        username: Option<Vec<u8>>,
        password: Option<Vec<u8>>,
    ) -> (r: ClientSession)
        ensures
            r.wf(),
            mapping_views(r.mappings@) == mapping_views(mappings@),
            r.live@ == Seq::<u32>::empty(),
            r.next_id == 1,
            r.server_id == server_id,
            cred_view(r.username) == cred_view(username),
            cred_view(r.password) == cred_view(password),
    {
        let live: Vec<u32> = Vec::new();
        assert(live@ =~= Seq::<u32>::empty());
        ClientSession { mappings, live, next_id: 1, server_id, username, password }
    }

    /// The frames a client sends right after the transport handshake:
    /// `Token` when both credentials are set, then its `Mapping` when it
    /// advertises anything.
    pub open spec fn spec_hello(self) -> Seq<FrameModel> {
        let token: Seq<FrameModel> = match (self.username, self.password) {
            (Some(u), Some(p)) => seq![
                FrameModel::Token { sock_map: 0, username: u@, password: p@ },
            ],
            _ => Seq::empty(),
        };
        let mapping: Seq<FrameModel> = if self.mappings@.len() > 0 {
            seq![
                FrameModel::Mapping { sock_map: 0, mappings: mapping_views(self.mappings@) },
            ]
        } else {
            Seq::empty()
        };
        token + mapping
    }

    /// Builds the registration frames of `spec_hello`.
    pub fn hello_frames(&self) -> (r: Vec<ProtFrame>)
        ensures
            frame_views(r@) == self.spec_hello(),
    {
        let mut out: Vec<ProtFrame> = Vec::new();
        match (&self.username, &self.password) {
            (Some(u), Some(p)) => {
                out.push(ProtFrame::new_token(clone_bytes(u), clone_bytes(p)));
            },
            _ => {},
        }
        if self.mappings.len() > 0 {
            out.push(ProtFrame::new_mapping(0, duplicate_mappings(&self.mappings)));
        }
        assert(frame_views(out@) =~= self.spec_hello());
        out
    }

    /// Decides what to do with one frame read from the tunnel, as the
    /// serve loop's routing step:
    /// - `Create`: look the domain up among the advertised mappings,
    ///   last match first; reply `Close` when nothing routes, else open the
    ///   substream toward the forward proxy or a local dial.
    /// - `Data`: deliver to the live substream, drop silently otherwise.
    /// - `Close` of substream zero: the tunnel is aborted; of a live
    ///   substream: deliver and drop the substream; otherwise drop.
    /// - `Mapping` and `Token` from the server: ignored.
    pub fn on_frame(&mut self, f: &ProtFrame) -> (r: StreamAction)
        requires
            old(self).wf(),
        ensures
            final(self).wf(),
            old(self).same_config(*final(self)),
            final(self).next_id == old(self).next_id,
            f@ matches FrameModel::Data { sock_map, .. } ==> {
                &&& final(self).live@ == old(self).live@
                &&& has_id(old(self).live@, sock_map) ==> (r
                    matches StreamAction::Forward { sock_map: s } && s == sock_map)
                &&& !has_id(old(self).live@, sock_map) ==> r is Ignore
            },
            f@ matches FrameModel::Close { sock_map, .. } ==> {
                &&& sock_map == 0 ==> r is Abort && final(self).live@ == old(self).live@
                &&& sock_map != 0 && has_id(old(self).live@, sock_map) ==> {
                    &&& r matches StreamAction::Forward { sock_map: s } && s == sock_map
                    &&& ids_same_but(old(self).live@, final(self).live@, sock_map, false)
                }
                &&& sock_map != 0 && !has_id(old(self).live@, sock_map) ==> (r is Ignore && final(self).live@ == old(self).live@)
            },
            (f@ is Mapping || f@ is Token) ==> r is Ignore && final(self).live@ == old(self).live@,
            f@ matches FrameModel::Create { sock_map, domain } ==> {
                let views = mapping_views(old(self).mappings@);
                let key = create_key(domain);
                &&& (forall|j: int| 0 <= j < views.len() ==> !spec_match(#[trigger] views[j], key))
                    ==> {
                    &&& r matches StreamAction::Reply(g) && g@ == (FrameModel::Close {
                        sock_map,
                        reason: no_mapping_reason(),
                    })
                    &&& final(self).live@ == old(self).live@
                }
                &&& forall|i: int| is_last_match(views, key, i) ==> {
                    let m = #[trigger] views[i];
                    &&& m.mode == MappingMode::Proxy ==> {
                        &&& r matches StreamAction::StartProxy { sock_map: s, mapping } && s
                            == sock_map && mapping == i
                        &&& ids_same_but(old(self).live@, final(self).live@, sock_map, true)
                    }
                    &&& m.mode != MappingMode::Proxy ==> {
                        &&& m.local_addr matches Some(a) ==> {
                            &&& r matches StreamAction::StartDial {
                                sock_map: s,
                                mapping,
                                local_addr,
                            } && s == sock_map && mapping == i && local_addr@ == a
                            &&& ids_same_but(old(self).live@, final(self).live@, sock_map, true)
                        }
                        &&& m.local_addr is None ==> {
                            &&& r matches StreamAction::Reply(g) && g@ == (FrameModel::Close {
                                sock_map,
                                reason: no_mapping_reason(),
                            })
                            &&& final(self).live@ == old(self).live@
                        }
                    }
                }
            },
    {
        match f {
            ProtFrame::Data(d) => {
                if contains_id(&self.live, d.sock_map) {
                    StreamAction::Forward { sock_map: d.sock_map }
                } else {
                    StreamAction::Ignore
                }
            },
            ProtFrame::Close(c) => {
                if c.sock_map == 0 {
                    StreamAction::Abort
                } else if contains_id(&self.live, c.sock_map) {
                    remove_id(&mut self.live, c.sock_map);
                    StreamAction::Forward { sock_map: c.sock_map }
                } else {
                    StreamAction::Ignore
                }
            },
            ProtFrame::Mapping(_) => StreamAction::Ignore,
            ProtFrame::Token(_) => StreamAction::Ignore,
            ProtFrame::Create(c) => {
                let key: Vec<u8> = match &c.domain {
                    Some(d) => clone_bytes(d),
                    None => Vec::new(),
                };
                assert(key@ =~= create_key(f@->Create_domain));
                match lookup_mapping(&self.mappings, &key) {
                    None => StreamAction::Reply(no_mapping_close(c.sock_map)),
                    Some(i) => {
                        if self.mappings[i].is_proxy() {
                            add_id(&mut self.live, c.sock_map);
                            StreamAction::StartProxy { sock_map: c.sock_map, mapping: i }
                        } else {
                            match &self.mappings[i].local_addr {
                                Some(a) => {
                                    let addr = clone_bytes(a);
                                    add_id(&mut self.live, c.sock_map);
                                    StreamAction::StartDial {
                                        sock_map: c.sock_map,
                                        mapping: i,
                                        local_addr: addr,
                                    }
                                },
                                None => StreamAction::Reply(no_mapping_close(c.sock_map)),
                            }
                        }
                    },
                }
            },
        }
    }

    /// The tunnel dropped: every live substream is closed locally — their
    /// identifiers are handed back for the caller to signal end-of-stream —
    /// and the table empties. Nothing is restored on reconnection.
    pub fn on_tunnel_lost(&mut self) -> (r: Vec<u32>)
        requires
            old(self).wf(),
        ensures
            final(self).wf(),
            old(self).same_config(*final(self)),
            final(self).next_id == old(self).next_id,
            r@ == old(self).live@,
            final(self).live@ == Seq::<u32>::empty(),
    {
        let mut out: Vec<u32> = Vec::new();
        let mut i: usize = 0;
        while i < self.live.len()
            invariant
                0 <= i <= self.live@.len(),
                out@ == self.live@.take(i as int),
            decreases self.live@.len() - i,
        {
            out.push(self.live[i]);
            assert(out@ =~= self.live@.take(i + 1 as int));
            i = i + 1;
        }
        assert(self.live@.take(self.live@.len() as int) =~= self.live@);
        self.live.clear();
        out
    }

    /// Delivery to a live substream's inbound queue failed because the
    /// queue is full. Dropping a `Close` there is harmless — it is
    /// idempotent — but a dropped `Data` frame forces the substream
    /// closed: it leaves the table and a `Close` for it goes back to the
    /// peer.
    pub fn on_delivery_failure(&mut self, f: &ProtFrame) -> (r: Option<ProtFrame>)
        requires
            old(self).wf(),
        ensures
            final(self).wf(),
            old(self).same_config(*final(self)),
            final(self).next_id == old(self).next_id,
            f@ matches FrameModel::Data { sock_map, .. } ==> {
                &&& r matches Some(g) && g@ == (FrameModel::Close {
                    sock_map,
                    reason: Seq::<u8>::empty(),
                })
                &&& ids_same_but(old(self).live@, final(self).live@, sock_map, false)
            },
            !(f@ is Data) ==> r is None && final(self).live@ == old(self).live@,
    {
        match f {
            ProtFrame::Data(d) => {
                remove_id(&mut self.live, d.sock_map);
                Some(ProtFrame::new_close(d.sock_map))
            },
            _ => None,
        }
    }

    /// Allocates the next substream identifier: the server byte over the
    /// first 24-bit candidate (stepping by two from the counter, wrapping,
    /// odd, never zero) that is not live, and advances the counter past it.
    /// Success is owed: with fewer than 2^23 live substreams the client
    /// side can never exhaust its identifiers.
    pub fn calc_next_id(&mut self) -> (r: Option<u32>)
        requires
            old(self).wf(),
        ensures
            final(self).wf(),
            old(self).same_config(*final(self)),
            final(self).live@ == old(self).live@,
            r matches Some(id) ==> {
                &&& id != 0 && id % 2 == 1 && !has_id(old(self).live@, id)
                &&& exists|k: int|
                    {
                        &&& 0 <= k <= old(self).live@.len()
                        &&& id == compose_sock_map(
                            old(self).server_id,
                            #[trigger] candidate(old(self).next_id, k),
                        )
                        &&& final(self).next_id == candidate(old(self).next_id, k + 1)
                        &&& forall|k2: int|
                            0 <= k2 < k ==> (compose_sock_map(
                                old(self).server_id,
                                #[trigger] candidate(old(self).next_id, k2),
                            ) == 0 || has_id(
                                old(self).live@,
                                compose_sock_map(
                                    old(self).server_id,
                                    candidate(old(self).next_id, k2),
                                ),
                            ))
                    }
            },
            r is None ==> final(self).next_id == old(self).next_id && forall|k: int|
                0 <= k <= old(self).live@.len() ==> (compose_sock_map(
                    old(self).server_id,
                    #[trigger] candidate(old(self).next_id, k),
                ) == 0 || has_id(
                    old(self).live@,
                    compose_sock_map(old(self).server_id, candidate(old(self).next_id, k)),
                )),
            old(self).live@.len() < 0x800000 ==> r is Some,
    {
        match alloc_sock_map(&self.live, self.next_id, self.server_id) {
            Some((id, step)) => {
                self.next_id = step;
                Some(id)
            },
            None => {
                proof {
                    if self.live@.len() < 0x800000 {
                        lemma_allocation_never_exhausts(
                            self.live@,
                            self.next_id,
                            self.server_id,
                        );
                    }
                }
                None
            },
        }
    }

    /// Opens a substream for a local connection the client itself accepted:
    /// allocates an identifier, marks it live, and hands back the `Create`
    /// frame to send, so the `Create` goes out before any `Data` for the
    /// identifier. Success is owed whenever fewer than 2^23 substreams are
    /// live; `None` only under the identifier exhaustion stated below, and
    /// nothing changes then.
    pub fn deal_new_stream(&mut self) -> (r: Option<(u32, ProtFrame)>)
        requires
            old(self).wf(),
        ensures
            final(self).wf(),
            old(self).same_config(*final(self)),
            r matches Some(p) ==> {
                &&& p.0 != 0
                &&& p.0 % 2 == 1
                &&& !has_id(old(self).live@, p.0)
                &&& ids_same_but(old(self).live@, final(self).live@, p.0, true)
                &&& p.1@ == (FrameModel::Create { sock_map: p.0, domain: None })
            },
            r is None ==> final(self).live@ == old(self).live@ && final(self).next_id == old(self).next_id
                && forall|k: int|
                0 <= k <= old(self).live@.len() ==> (compose_sock_map(
                    old(self).server_id,
                    #[trigger] candidate(old(self).next_id, k),
                ) == 0 || has_id(
                    old(self).live@,
                    compose_sock_map(old(self).server_id, candidate(old(self).next_id, k)),
                )),
            old(self).live@.len() < 0x800000 ==> r is Some,
    {
        match self.calc_next_id() {
            None => None,
            Some(id) => {
                add_id(&mut self.live, id);
                Some((id, ProtFrame::new_create(id, None)))
            },
        }
    }
}

} // verus!
