//! The abstract model of the resequencing engine: an expectation cursor, the
//! next unassigned sequence number, and the pending reply buffer, together
//! with the transition functions one reply arrival induces and the laws the
//! model obeys over whole runs.

use vstd::prelude::*;

use crate::messages::AdminRpy;

verus! {

/// Abstract state of the resequencing engine.
///
/// `cursor` is the expectation cursor: the sequence number whose reply is the
/// next eligible for emission. `total` is the next unassigned sequence number.
/// `pending` holds replies that arrived before their turn, keyed by sequence
/// number.
pub struct ReseqState {
    pub cursor: u64,
    pub total: u64,
    pub pending: Map<u64, AdminRpy>,
}

impl ReseqState {
    /// Internal consistency of the engine: the cursor never exceeds the next
    /// unassigned sequence number, and the buffer holds only replies for
    /// dispatched requests whose turn has not come.
    pub open spec fn wf(self) -> bool {
        &&& self.cursor <= self.total
        &&& self.pending.dom().finite()
        &&& forall|k: u64| self.pending.contains_key(k) ==> self.cursor < k < self.total
    }

    /// The state of a connection that has dispatched `total` requests and
    /// received no reply yet.
    pub open spec fn initial(total: u64) -> ReseqState {
        ReseqState { cursor: 0, total, pending: Map::empty() }
    }
}

/// How many consecutive sequence numbers starting at `from` (and below
/// `total`) have a buffered reply: the length of the run the cursor can drain
/// without waiting.
pub open spec fn run_len(pending: Map<u64, AdminRpy>, from: u64, total: u64) -> nat
    decreases total - from,
{
    if from < total && pending.contains_key(from) {
        1 + run_len(pending, (from + 1) as u64, total)
    } else {
        0
    }
}

/// The run the cursor drains never reaches past the last dispatched request.
pub proof fn lemma_run_len_props(pending: Map<u64, AdminRpy>, from: u64, total: u64)
    requires
        from <= total,
    ensures
        run_len(pending, from, total) <= total - from,
        forall|j: u64| from <= j < from + run_len(pending, from, total) ==> pending.contains_key(j),
        from + run_len(pending, from, total) == total || !pending.contains_key(
            (from + run_len(pending, from, total)) as u64,
        ),
    decreases total - from,
{
    if from < total && pending.contains_key(from) {
        lemma_run_len_props(pending, (from + 1) as u64, total);
    }
}

/// The sequence numbers the cursor drains when it advances past `cursor`:
/// the consecutive run of buffered replies right above it.
pub open spec fn drained_keys(s: ReseqState) -> Set<u64> {
    Set::new(
        |k: u64| s.cursor + 1 <= k <= s.cursor + run_len(s.pending, (s.cursor + 1) as u64, s.total),
    )
}

/// The replies the cursor drains from the buffer when it advances past
/// `cursor`, in sequence order.
pub open spec fn advance_emitted(s: ReseqState) -> Seq<AdminRpy> {
    Seq::new(
        run_len(s.pending, (s.cursor + 1) as u64, s.total),
        |i: int| s.pending[(s.cursor + 1 + i) as u64],
    )
}

/// The state after the reply for the cursor itself is emitted: the cursor
/// moves past it and then past every consecutively buffered reply, which
/// leaves the buffer.
pub open spec fn advance_state(s: ReseqState) -> ReseqState {
    ReseqState {
        cursor: (s.cursor + 1 + run_len(s.pending, (s.cursor + 1) as u64, s.total)) as u64,
        total: s.total,
        pending: s.pending.remove_keys(drained_keys(s)),
    }
}

/// The replies emitted when the reply for sequence number `seq` arrives in
/// state `s`: nothing if it is early, or the reply itself followed by the
/// drained run if its turn has come.
pub open spec fn step_emitted(s: ReseqState, seq: u64, rpy: AdminRpy) -> Seq<AdminRpy> {
    if seq == s.cursor {
        seq![rpy] + advance_emitted(s)
    } else {
        Seq::empty()
    }
}

/// The state after the reply for sequence number `seq` arrives in state `s`:
/// buffered if it is early, or emitted with the run above it drained if its
/// turn has come.
pub open spec fn step_state(s: ReseqState, seq: u64, rpy: AdminRpy) -> ReseqState {
    if seq == s.cursor {
        advance_state(s)
    } else {
        ReseqState { cursor: s.cursor, total: s.total, pending: s.pending.insert(seq, rpy) }
    }
}

/// A run is exactly as long as the stretch of consecutively buffered replies:
/// if every sequence number in `[from, upto)` is buffered and `upto` itself is
/// not (or is the end of the dispatched range), the run stops at `upto`.
pub proof fn lemma_run_len_exact(pending: Map<u64, AdminRpy>, from: u64, total: u64, upto: u64)
    requires
        from <= upto <= total,
        forall|j: u64| from <= j < upto ==> pending.contains_key(j),
        upto == total || !pending.contains_key(upto),
    ensures
        run_len(pending, from, total) == upto - from,
    decreases total - from,
{
    if from < upto {
        assert(pending.contains_key(from));
        lemma_run_len_exact(pending, (from + 1) as u64, total, upto);
    }
}

/// The replies a whole run of reply arrivals emits, in emission order:
/// arrivals are processed one at a time in the order `order` gives, each
/// sequence number drawing its reply from `replies`.
pub open spec fn run_emitted(s: ReseqState, replies: Seq<AdminRpy>, order: Seq<u64>) -> Seq<
    AdminRpy,
>
    decreases order.len(),
{
    if order.len() == 0 {
        Seq::empty()
    } else {
        step_emitted(s, order[0], replies[order[0] as int]) + run_emitted(
            step_state(s, order[0], replies[order[0] as int]),
            replies,
            order.drop_first(),
        )
    }
}

/// The state a whole run of reply arrivals leaves behind.
pub open spec fn run_state(s: ReseqState, replies: Seq<AdminRpy>, order: Seq<u64>) -> ReseqState
    decreases order.len(),
{
    if order.len() == 0 {
        s
    } else {
        run_state(step_state(s, order[0], replies[order[0] as int]), replies, order.drop_first())
    }
}

/// `order` delivers each of the sequence numbers `0 .. total` exactly once:
/// an arrival order that is a permutation of the issued sequence numbers.
pub open spec fn is_permutation(order: Seq<u64>, total: u64) -> bool {
    &&& order.len() == total
    &&& forall|i: int| 0 <= i < order.len() ==> order[i] < total
    &&& forall|i: int, j: int| 0 <= i < j < order.len() ==> order[i] != order[j]
    &&& forall|k: u64| k < total ==> order.contains(k)
}

/// The relation a partial run maintains between the engine state, the replies
/// the backends will send, and the set of sequence numbers whose replies have
/// already arrived: everything below the cursor has arrived and been emitted,
/// the cursor itself has not arrived, and the buffer holds exactly the
/// arrivals above the cursor, each with its own reply.
spec fn delivery_inv(s: ReseqState, replies: Seq<AdminRpy>, delivered: Set<u64>) -> bool {
    &&& s.total == replies.len()
    &&& s.cursor <= s.total
    &&& s.pending.dom().finite()
    &&& forall|k: u64| k < s.cursor ==> delivered.contains(k)
    &&& s.cursor < s.total ==> !delivered.contains(s.cursor)
    &&& forall|k: u64| delivered.contains(k) ==> k < s.total
    &&& forall|k: u64| #[trigger] s.pending.contains_key(k) <==> (delivered.contains(k)
        && s.cursor < k)
    &&& forall|k: u64| s.pending.contains_key(k) ==> s.pending[k] == replies[k as int]
}

/// One arrival preserves the delivery relation, never moves the cursor
/// backwards, and emits exactly the stretch of replies the cursor moved over.
proof fn lemma_step_delivery(s: ReseqState, replies: Seq<AdminRpy>, delivered: Set<u64>, seq: u64)
    requires
        delivery_inv(s, replies, delivered),
        seq < s.total,
        !delivered.contains(seq),
    ensures
        delivery_inv(step_state(s, seq, replies[seq as int]), replies, delivered.insert(seq)),
        step_state(s, seq, replies[seq as int]).total == s.total,
        s.cursor <= step_state(s, seq, replies[seq as int]).cursor,
        step_emitted(s, seq, replies[seq as int]) == replies.subrange(
            s.cursor as int,
            step_state(s, seq, replies[seq as int]).cursor as int,
        ),
{
    let rpy = replies[seq as int];
    let s1 = step_state(s, seq, rpy);
    assert(seq >= s.cursor);
    if seq == s.cursor {
        let c = s.cursor;
        let n = run_len(s.pending, (c + 1) as u64, s.total);
        lemma_run_len_props(s.pending, (c + 1) as u64, s.total);
        let c1 = (c + 1 + n) as u64;
        assert(s1.cursor == c1);
        assert(forall|j: u64| c + 1 <= j < c1 ==> s.pending.contains_key(j));
        assert(c1 == s.total || !s.pending.contains_key(c1));
        // The drained keys leave the buffer; everything else stays.
        assert(forall|k: u64| #[trigger] s1.pending.contains_key(k) <==> (
        s.pending.contains_key(k) && !(c + 1 <= k <= c + n)));
        assert forall|k: u64| #[trigger] s1.pending.contains_key(k) implies (
        delivered.insert(seq).contains(k) && c1 < k) by {
            assert(s.pending.contains_key(k));
            assert(delivered.contains(k) && c < k);
            assert(k != c1);
        }
        assert forall|k: u64| delivered.insert(seq).contains(k) && c1 < k implies (
        #[trigger] s1.pending.contains_key(k)) by {
            assert(k != seq);
            assert(s.pending.contains_key(k));
        }
        assert(s1.pending.dom().subset_of(s.pending.dom()));
        vstd::set_lib::lemma_len_subset(s1.pending.dom(), s.pending.dom());
        assert forall|k: u64| k < c1 implies delivered.insert(seq).contains(k) by {
            if c < k {
                assert(s.pending.contains_key(k));
                assert(delivered.contains(k));
            }
        }
        assert(c1 < s.total ==> !delivered.insert(seq).contains(c1)) by {
            if c1 < s.total {
                assert(!s.pending.contains_key(c1));
                assert(!(delivered.contains(c1) && c < c1));
            }
        }
        assert(delivery_inv(s1, replies, delivered.insert(seq)));
        // The emitted batch is the stretch the cursor moved over.
        let emitted = step_emitted(s, seq, rpy);
        assert(emitted.len() == 1 + n);
        assert forall|i: int| 0 <= i < emitted.len() implies emitted[i] == replies.subrange(
            c as int,
            c1 as int,
        )[i] by {
            if i > 0 {
                assert(s.pending.contains_key((c + i) as u64));
                assert(emitted[i] == advance_emitted(s)[i - 1]);
                assert(advance_emitted(s)[i - 1] == s.pending[(c + i) as u64]);
            }
        }
        assert(emitted =~= replies.subrange(c as int, c1 as int));
    } else {
        assert(s1.cursor == s.cursor);
        assert(s1.pending == s.pending.insert(seq, rpy));
        assert(s1.pending.dom() == s.pending.dom().insert(seq));
        assert forall|k: u64| #[trigger] s1.pending.contains_key(k) implies (
        delivered.insert(seq).contains(k) && s1.cursor < k) by {
            if k != seq {
                assert(s.pending.contains_key(k));
            }
        }
        assert(delivery_inv(s1, replies, delivered.insert(seq)));
        assert(step_emitted(s, seq, rpy) =~= replies.subrange(s.cursor as int, s.cursor as int));
    }
}

/// A run of arrivals of fresh, issued sequence numbers preserves the delivery
/// relation and emits exactly the stretch of replies the cursor moved over.
proof fn lemma_run_delivery(
    s: ReseqState,
    replies: Seq<AdminRpy>,
    order: Seq<u64>,
    delivered: Set<u64>,
)
    requires
        delivery_inv(s, replies, delivered),
        forall|i: int| 0 <= i < order.len() ==> order[i] < s.total,
        forall|i: int, j: int| 0 <= i < j < order.len() ==> order[i] != order[j],
        forall|i: int| 0 <= i < order.len() ==> !delivered.contains(#[trigger] order[i]),
    ensures
        delivery_inv(run_state(s, replies, order), replies, delivered.union(order.to_set())),
        run_state(s, replies, order).total == s.total,
        s.cursor <= run_state(s, replies, order).cursor,
        run_emitted(s, replies, order) == replies.subrange(
            s.cursor as int,
            run_state(s, replies, order).cursor as int,
        ),
    decreases order.len(),
{
    let sf = run_state(s, replies, order);
    if order.len() == 0 {
        assert(delivered.union(order.to_set()) =~= delivered);
        assert(run_emitted(s, replies, order) =~= replies.subrange(
            s.cursor as int,
            s.cursor as int,
        ));
    } else {
        let seq0 = order[0];
        let rest = order.drop_first();
        lemma_step_delivery(s, replies, delivered, seq0);
        let s1 = step_state(s, seq0, replies[seq0 as int]);
        assert(forall|i: int| 0 <= i < rest.len() ==> rest[i] == order[i + 1]);
        assert forall|i: int| 0 <= i < rest.len() implies !delivered.insert(seq0).contains(
            #[trigger] rest[i],
        ) by {
            assert(rest[i] == order[i + 1]);
            assert(order[0] != order[i + 1]);
            assert(!delivered.contains(order[i + 1]));
        }
        lemma_run_delivery(s1, replies, rest, delivered.insert(seq0));
        assert(delivered.insert(seq0).union(rest.to_set()) =~= delivered.union(order.to_set()))
            by {
            assert forall|k: u64| order.to_set().contains(k) implies delivered.insert(
                seq0,
            ).union(rest.to_set()).contains(k) by {
                let i = choose|i: int| 0 <= i < order.len() && order[i] == k;
                if i > 0 {
                    assert(rest[i - 1] == k);
                    assert(rest.contains(k));
                }
            }
            assert forall|k: u64| rest.to_set().contains(k) implies order.to_set().contains(
                k,
            ) by {
                let i = choose|i: int| 0 <= i < rest.len() && rest[i] == k;
                assert(order[i + 1] == k);
                assert(order.contains(k));
            }
            assert(order.to_set().contains(seq0)) by {
                assert(order[0] == seq0);
            }
        }
        // Stitch the two emitted stretches together.
        let c = s.cursor as int;
        let c1 = s1.cursor as int;
        let cf = sf.cursor as int;
        assert(run_emitted(s1, replies, rest) == replies.subrange(c1, cf));
        assert(run_emitted(s, replies, order) == replies.subrange(c, c1) + replies.subrange(
            c1,
            cf,
        ));
        assert(replies.subrange(c, c1) + replies.subrange(c1, cf) =~= replies.subrange(c, cf));
    }
}

/// Order preservation: however the backends' replies are permuted on arrival,
/// a connection that dispatched `replies.len()` requests emits exactly the
/// issued replies, in issuance order, once every reply has arrived.
pub proof fn lemma_order_preservation(replies: Seq<AdminRpy>, order: Seq<u64>)
    requires
        replies.len() <= u64::MAX,
        is_permutation(order, replies.len() as u64),
    ensures
        run_emitted(ReseqState::initial(replies.len() as u64), replies, order) == replies,
        run_state(ReseqState::initial(replies.len() as u64), replies, order).cursor
            == replies.len(),
        run_state(ReseqState::initial(replies.len() as u64), replies, order).pending.len() == 0,
{
    let total = replies.len() as u64;
    let s0 = ReseqState::initial(total);
    assert(delivery_inv(s0, replies, Set::empty()));
    lemma_run_delivery(s0, replies, order, Set::<u64>::empty());
    let sf = run_state(s0, replies, order);
    let delivered = Set::<u64>::empty().union(order.to_set());
    assert(forall|k: u64| k < total ==> delivered.contains(k));
    assert(sf.cursor == total) by {
        if sf.cursor < total {
            assert(!delivered.contains(sf.cursor));
        }
    }
    assert(sf.pending.dom() =~= Set::<u64>::empty());
    assert(run_emitted(s0, replies, order) == replies.subrange(0, replies.len() as int));
    assert(replies.subrange(0, replies.len() as int) =~= replies);
}

/// No duplication, no loss: over a whole run, each submitted request's reply
/// is emitted exactly as often as it was issued — once per sequence number.
pub proof fn lemma_no_duplication_no_loss(replies: Seq<AdminRpy>, order: Seq<u64>)
    requires
        replies.len() <= u64::MAX,
        is_permutation(order, replies.len() as u64),
    ensures
        run_emitted(ReseqState::initial(replies.len() as u64), replies, order).to_multiset()
            == replies.to_multiset(),
{
    lemma_order_preservation(replies, order);
}

/// Timeout equivalence: substituting the timeout reply for sequence number
/// `k`'s genuine reply changes nothing of the ordering behaviour — the run
/// emits the same stream with only position `k` replaced.
pub proof fn lemma_timeout_equivalence(replies: Seq<AdminRpy>, order: Seq<u64>, k: int)
    requires
        replies.len() <= u64::MAX,
        is_permutation(order, replies.len() as u64),
        0 <= k < replies.len(),
    ensures
        run_emitted(
            ReseqState::initial(replies.len() as u64),
            replies.update(k, AdminRpy::Timeout),
            order,
        ) == run_emitted(ReseqState::initial(replies.len() as u64), replies, order).update(
            k,
            AdminRpy::Timeout,
        ),
{
    let substituted = replies.update(k, AdminRpy::Timeout);
    lemma_order_preservation(replies, order);
    lemma_order_preservation(substituted, order);
}

/// A map whose keys all lie in `[lo, hi)` has at most `hi - lo` entries.
proof fn lemma_map_keys_below_len(p: Map<u64, AdminRpy>, lo: u64, hi: u64)
    requires
        p.dom().finite(),
        lo <= hi,
        forall|k: u64| p.contains_key(k) ==> lo <= k < hi,
    ensures
        p.len() <= hi - lo,
    decreases hi - lo,
{
    if lo == hi {
        assert(p.dom() =~= Set::<u64>::empty());
    } else {
        let kk = (hi - 1) as u64;
        if p.contains_key(kk) {
            p.lemma_remove_key_len(kk);
            lemma_map_keys_below_len(p.remove(kk), lo, kk);
        } else {
            lemma_map_keys_below_len(p, lo, kk);
        }
    }
}

/// Buffer bound: the pending reply buffer never holds more entries than the
/// distance from the expectation cursor to the highest allocated sequence
/// number; with no requests outstanding it is empty.
pub proof fn lemma_buffer_bound(s: ReseqState)
    requires
        s.wf(),
    ensures
        s.cursor == s.total ==> s.pending.len() == 0,
        s.cursor < s.total ==> s.pending.len() <= s.total - s.cursor - 1,
{
    if s.cursor == s.total {
        assert(s.pending.dom() =~= Set::<u64>::empty());
        assert(s.pending.len() == 0);
    } else {
        lemma_map_keys_below_len(s.pending, (s.cursor + 1) as u64, s.total);
    }
}

} // verus!
