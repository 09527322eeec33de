//! The laws the engine guarantees, stated over the same spec functions its
//! contracts use and proved once and for all.

use vstd::prelude::*;
use crate::client::{ledger_key, ClientState, Status, status_forward, status_rank};
use crate::client::message_handler::packet_handler::flood_handler::flood_effect;
use crate::client::message_handler::packet_handler::nack_handler::retransmit_outcome;
use crate::client::message_handler::packet_handler::ledger_extend;
use crate::codec::{
    data_at, concat_data, frag_count, frags_complete, frags_valid, has_index, msg_bounded,
    spec_assemble, spec_assembled_bytes, spec_chunk, spec_encode_message, spec_fragments,
    lemma_message_round_trip,
};
use crate::message::MessageTypeView;
use crate::packet::{FragmentView, PacketView};

verus! {

/// The payloads of the fragments of `bytes` concatenate back to `bytes`,
/// prefix by prefix.
proof fn lemma_concat_chunks(bytes: Seq<u8>, fs: Seq<FragmentView>, k: int)
    requires
        0 <= k <= frag_count(bytes.len()),
        forall|j: int| 0 <= j < frag_count(bytes.len()) ==> #[trigger] data_at(fs, j)
            == spec_chunk(bytes, j),
    ensures
        concat_data(fs, k) == bytes.take(
            if 128 * k <= bytes.len() {
                128 * k
            } else {
                bytes.len() as int
            },
        ),
    decreases k,
{
    if k == 0 {
        assert(concat_data(fs, 0) == Seq::<u8>::empty());
        assert(bytes.take(0) =~= Seq::<u8>::empty());
    } else {
        lemma_concat_chunks(bytes, fs, k - 1);
        assert(128 * (k - 1) < 128 * k);
        if 128 * k <= bytes.len() {
            assert(bytes.take(128 * (k - 1)) + bytes.subrange(128 * (k - 1), 128 * k)
                =~= bytes.take(128 * k));
        } else {
            assert(128 * (k - 1) <= bytes.len()) by {
                if k < frag_count(bytes.len()) {
                    assert(128 * k <= 128 * (frag_count(bytes.len()) - 1));
                }
            }
            assert(bytes.take(128 * (k - 1)) + bytes.subrange(128 * (k - 1), bytes.len() as int)
                =~= bytes.take(bytes.len() as int));
        }
    }
}

/// Reassembly is invariant under permutation of fragment arrival, and
/// disassembling then reassembling a message yields the original message:
/// any reordering of the fragments of `m`'s wire form assembles back to
/// exactly `m`.
pub proof fn lemma_reassembly_round_trip(m: MessageTypeView, fs: Seq<FragmentView>)
    requires
        msg_bounded(m),
        spec_encode_message(m).len() < 0x1_0000_0000_0000_0000,
        fs.to_multiset() == spec_fragments(spec_encode_message(m)).to_multiset(),
    ensures
        spec_assemble(fs) == Some(m),
{
    let bytes = spec_encode_message(m);
    let orig = spec_fragments(bytes);
    let count = frag_count(bytes.len());
    assert(count as int <= bytes.len() || count == 1) by {
        if bytes.len() > 0 {
            assert((bytes.len() - 1) as int / 128 <= bytes.len() - 1);
        }
    }
    orig.to_multiset_ensures();
    fs.to_multiset_ensures();
    assert(orig.len() == count);
    assert(fs.len() == orig.len());
    assert(forall|i: int| 0 <= i < count ==> (#[trigger] orig[i]).fragment_index == i as u64);
    assert(orig.no_duplicates()) by {
        assert forall|a: int, b: int| 0 <= a < b < orig.len() implies orig[a] != orig[b] by {
            assert(orig[a].fragment_index == a as u64);
            assert(orig[b].fragment_index == b as u64);
        }
    }
    orig.lemma_multiset_has_no_duplicates();
    assert(frags_valid(fs)) by {
        assert forall|i: int| 0 <= i < fs.len() implies (#[trigger] fs[i]).total_n_fragments
            == fs.len() as u64 && fs[i].fragment_index < fs.len() as u64 by {
            assert(fs.contains(fs[i]));
            assert(orig.to_multiset().count(fs[i]) > 0);
            assert(orig.contains(fs[i]));
            let j = choose|j: int| 0 <= j < orig.len() && orig[j] == fs[i];
            assert(orig[j].total_n_fragments == count as u64);
            assert(orig[j].fragment_index == j as u64);
        }
        assert forall|a: int, b: int| 0 <= a < b < fs.len() implies (
        #[trigger] fs[a]).fragment_index != (#[trigger] fs[b]).fragment_index by {
            if fs[a].fragment_index == fs[b].fragment_index {
                assert(fs.contains(fs[a]));
                assert(orig.to_multiset().count(fs[a]) > 0);
                assert(orig.contains(fs[a]));
                assert(fs.contains(fs[b]));
                assert(orig.to_multiset().count(fs[b]) > 0);
                assert(orig.contains(fs[b]));
                let ja = choose|j: int| 0 <= j < orig.len() && orig[j] == fs[a];
                let jb = choose|j: int| 0 <= j < orig.len() && orig[j] == fs[b];
                assert(orig[ja].fragment_index == ja as u64);
                assert(orig[jb].fragment_index == jb as u64);
                assert(ja == jb);
                assert(fs[a] == fs[b]);
                // the same value twice in fs means its multiset count is at
                // least two, which orig, having no duplicates, cannot match
                assert(fs.remove(a).to_multiset() =~= fs.to_multiset().remove(fs[a]));
                assert(fs.remove(a).contains(fs.remove(a)[b - 1]));
                assert(fs.remove(a)[b - 1] == fs[b]);
                fs.remove(a).to_multiset_ensures();
                assert(fs.remove(a).to_multiset().count(fs[b]) > 0);
                assert(fs.to_multiset().count(fs[a]) >= 2);
                assert(orig.to_multiset().count(fs[a]) >= 2);
                assert(orig.to_multiset().contains(fs[a]));
                assert(false);
            }
        }
    }
    assert(frags_complete(fs)) by {
        assert forall|ix: int| 0 <= ix < fs.len() implies has_index(fs, ix) by {
            assert(orig[ix].fragment_index == ix as u64);
            assert(orig.contains(orig[ix]));
            assert(orig.to_multiset().count(orig[ix]) > 0);
            assert(fs.to_multiset().count(orig[ix]) > 0);
            assert(fs.contains(orig[ix]));
            let j = choose|j: int| 0 <= j < fs.len() && fs[j] == orig[ix];
            assert(0 <= j < fs.len() && (#[trigger] fs[j]).fragment_index == ix as u64);
        }
    }
    assert forall|ix: int| 0 <= ix < count implies #[trigger] data_at(fs, ix) == spec_chunk(
        bytes,
        ix,
    ) by {
        assert(has_index(fs, ix));
        let j = choose|j: int| 0 <= j < fs.len() && (#[trigger] fs[j]).fragment_index
            == ix as u64;
        assert(fs.contains(fs[j]));
        assert(orig.to_multiset().count(fs[j]) > 0);
        assert(orig.contains(fs[j]));
        let jo = choose|j2: int| 0 <= j2 < orig.len() && orig[j2] == fs[j];
        assert(orig[jo].fragment_index == jo as u64);
        assert(jo == ix);
        assert(fs[j].data == spec_chunk(bytes, ix));
    }
    lemma_concat_chunks(bytes, fs, count as int);
    assert(128 * (count as int) >= bytes.len()) by {
        if bytes.len() > 0 {
            assert(count as int == (bytes.len() - 1) as int / 128 + 1);
            assert(128 * ((bytes.len() - 1) as int / 128) > (bytes.len() - 1) - 128)
                by (nonlinear_arith);
        }
    }
    if 128 * (count as int) <= bytes.len() {
        assert(spec_assembled_bytes(fs) == bytes.take(128 * (count as int)));
        assert(bytes.take(bytes.len() as int) =~= bytes);
        assert(128 * (count as int) == bytes.len());
    } else {
        assert(spec_assembled_bytes(fs) == bytes.take(bytes.len() as int));
        assert(bytes.take(bytes.len() as int) =~= bytes);
    }
    lemma_message_round_trip(m);
}

/// A dispatched identity has a delivery-ledger entry until its ACK removes
/// it: recording `n` packets keeps an entry for each of their keys.
pub proof fn lemma_dispatched_entry_present(
    m: Map<u128, PacketView>,
    pvs: Seq<PacketView>,
    n: int,
    j: int,
)
    requires
        0 <= j < n <= pvs.len(),
    ensures
        ledger_extend(m, pvs, n).contains_key(
            ledger_key(crate::packet::spec_fragment_index(pvs[j]), pvs[j].session_id),
        ),
    decreases n,
{
    if j < n - 1 {
        lemma_dispatched_entry_present(m, pvs, n - 1, j);
    }
}

/// Receiving an ACK removes exactly the matching ledger entry: the entry
/// itself is gone, every other entry is untouched, and a duplicate ACK is
/// a no-op.
pub proof fn lemma_ack_removes_exactly(m: Map<u128, PacketView>, fragment_index: u64, session_id: u64)
    ensures
        !m.remove(ledger_key(fragment_index, session_id)).contains_key(
            ledger_key(fragment_index, session_id),
        ),
        forall|k: u128| k != ledger_key(fragment_index, session_id) ==> (#[trigger] m.remove(
            ledger_key(fragment_index, session_id),
        ).contains_key(k)) == m.contains_key(k),
        forall|k: u128| k != ledger_key(fragment_index, session_id) && m.contains_key(k)
            ==> #[trigger] m.remove(ledger_key(fragment_index, session_id))[k] == m[k],
        m.remove(ledger_key(fragment_index, session_id)).remove(
            ledger_key(fragment_index, session_id),
        ) == m.remove(ledger_key(fragment_index, session_id)),
{
    assert(m.remove(ledger_key(fragment_index, session_id)).remove(
        ledger_key(fragment_index, session_id),
    ) =~= m.remove(ledger_key(fragment_index, session_id)));
}

/// A flood round id is strictly greater than all previously issued round
/// ids for the same session: each round issues the successor of the
/// counter, and no engine step ever decreases the counter, so a later
/// round's id is strictly above an earlier round's.
pub proof fn lemma_flood_round_ids_strictly_increase(
    s0: ClientState,
    s1: ClientState,
    s2: ClientState,
    s3: ClientState,
)
    requires
        flood_effect(s0, s1),
        s1.flood_id <= s2.flood_id,
        flood_effect(s2, s3),
    ensures
        s3.flood_id > s1.flood_id,
{
}

/// A NACK of kind "Dropped" causes exactly one retransmission attempt when
/// a ledger entry and a fresh path with a live first hop exist, and none
/// when the packet has no destination or the oracle knows no path.
pub proof fn lemma_dropped_nack_retransmits_once(
    pre: ClientState,
    post: ClientState,
    p: PacketView,
)
    requires
        retransmit_outcome(pre, post, p),
    ensures
        (p.routing_header.hops.len() > 0 && (pre.routing_handler.spec_best_path(
            pre.id,
            p.routing_header.hops.last(),
        ) matches Some(path) && pre.senders@.contains_key(path[1]))) ==> post.sent_log@.len()
            == pre.sent_log@.len() + 1,
        p.routing_header.hops.len() == 0 || pre.routing_handler.spec_best_path(
            pre.id,
            p.routing_header.hops.last(),
        ) is None ==> post.sent_log == pre.sent_log,
{
    if p.routing_header.hops.len() > 0 {
        match pre.routing_handler.spec_best_path(pre.id, p.routing_header.hops.last()) {
            Some(path) => {
                if pre.senders@.contains_key(path[1]) {
                    assert(crate::client::log_view(post.sent_log@).len() == crate::client::log_view(
                        pre.sent_log@,
                    ).len() + 1);
                }
            },
            None => {},
        }
    }
}

/// Status transitions only move forward: the order is transitive, never
/// decreases, and `Terminated` is terminal.
pub proof fn lemma_status_only_forward(a: Status, b: Status, c: Status)
    requires
        status_forward(a, b),
        status_forward(b, c),
    ensures
        status_forward(a, c),
        status_rank(a) <= status_rank(b) <= status_rank(c),
        a == Status::Terminated ==> b == Status::Terminated && c == Status::Terminated,
{
}

} // verus!
