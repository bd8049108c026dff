//! The generator: configuration, the codec bound to it, and the stepping of the
//! sequence from one identifier to the next.
use vstd::prelude::*;
use vstd::bits::lemma_u64_pow2_no_overflow;
use vstd::arithmetic::power2::{pow2, lemma2_to64, lemma_pow2_adds, lemma_pow2_pos, lemma_pow2_strictly_increases};
use vstd::arithmetic::div_mod::{lemma_add_mod_noop, lemma_fundamental_div_mod_converse, lemma_small_mod};
use std::time::Instant;
use crate::clock::{elapsed_millis, monotonic_now, wall_clock_millis};
use crate::codec::{
    lemma_pack_bound, lemma_pow2_64, lemma_unpack_pack, node_field, pack, pack_word, seq_field, ts_field,
    unpack_word, valid_widths,
};

verus! {

/// The default epoch, 2013-01-01T00:00:00Z, in milliseconds since the Unix epoch.
pub const DEFAULT_EPOCH: u64 = 1356998400000;

/// The state of a generator as the contracts see it.
pub struct FlakeModel {
    /// The node identifier packed into every identifier.
    pub node: u64,
    /// Milliseconds since the Unix epoch from which timestamps are counted.
    pub epoch: u64,
    /// Widths of the timestamp, node and sequence fields.
    pub bitwidths: (u64, u64, u64),
    /// The sequence value that the next identifier in the same millisecond takes.
    pub seq: u64,
    /// The wall clock, in milliseconds since the Unix epoch, when the generator was made.
    pub start_ts: u64,
    /// The elapsed milliseconds that the previous identifier was made at.
    pub duration: u64,
}

impl FlakeModel {
    /// The widths leave at least one sequence bit and sum to 64.
    pub open spec fn well_formed(self) -> bool {
        valid_widths(self.bitwidths.0 as nat, self.bitwidths.1 as nat, self.bitwidths.2 as nat)
    }

    /// The absolute timestamp `elapsed` milliseconds after the generator was made,
    /// saturating at `u64::MAX`.
    pub open spec fn timestamp_at(self, elapsed: u64) -> u64 {
        if self.start_ts + elapsed > u64::MAX {
            u64::MAX
        } else {
            (self.start_ts + elapsed) as u64
        }
    }

    /// The identifier that packs `ts` (relative to the epoch), `node` and `seq`.
    pub open spec fn encode_spec(self, ts: u64, node: u64, seq: u64) -> u64 {
        pack(
            (ts - self.epoch) as nat,
            node as nat,
            seq as nat,
            self.bitwidths.0 as nat,
            self.bitwidths.1 as nat,
            self.bitwidths.2 as nat,
        ) as u64
    }

    /// The absolute timestamp, node and sequence held in `id`; the epoch is added back
    /// to the timestamp field with wrap-around.
    pub open spec fn decode_spec(self, id: u64) -> (u64, u64, u64) {
        let sum = ts_field(id as nat, self.bitwidths.1 as nat, self.bitwidths.2 as nat) + self.epoch;
        (
            if sum > u64::MAX {
                (sum - 0x1_0000_0000_0000_0000) as u64
            } else {
                sum as u64
            },
            node_field(id as nat, self.bitwidths.1 as nat, self.bitwidths.2 as nat) as u64,
            seq_field(id as nat, self.bitwidths.2 as nat) as u64,
        )
    }

    /// The sequence value that an identifier made at `elapsed` takes: the stored one
    /// within the same millisecond, 0 in a new one.
    pub open spec fn window_seq(self, elapsed: u64) -> u64 {
        if elapsed != self.duration {
            0
        } else {
            self.seq
        }
    }

    /// The state after, and the identifier made by, a step at `elapsed` milliseconds
    /// since the generator was made.
    pub open spec fn step(self, elapsed: u64) -> (FlakeModel, u64) {
        let seq = self.window_seq(elapsed);
        (
            FlakeModel {
                seq: if seq == u64::MAX { 0 } else { (seq + 1) as u64 },
                duration: elapsed,
                ..self
            },
            self.encode_spec(self.timestamp_at(elapsed), self.node, seq),
        )
    }
}

/// A Snowflake identifier generator, encoder and decoder.
pub struct Flaken {
    node: u64,
    epoch: u64,
    bitwidths: (u64, u64, u64),
    seq: u64,
    start_ts: u64,
    start_instant: Instant,
    duration: u64,
}

impl View for Flaken {
    type V = FlakeModel;

    closed spec fn view(&self) -> FlakeModel {
        FlakeModel {
            node: self.node,
            epoch: self.epoch,
            bitwidths: self.bitwidths,
            seq: self.seq,
            start_ts: self.start_ts,
            duration: self.duration,
        }
    }
}

impl Flaken {
    #[verifier::type_invariant]
    spec fn inv(&self) -> bool {
        self@.well_formed()
    }

    /// The monotonic clock reading taken when the generator was made.
    pub closed spec fn clock_anchor(&self) -> Instant {
        self.start_instant
    }

    /// A generator with node 0, the default epoch and widths of 42 timestamp bits,
    /// 10 node bits and 12 sequence bits, anchored to the clocks at the time of the
    /// call.
    pub fn default() -> (r: Flaken)
        ensures
            r@.node == 0,
            r@.epoch == DEFAULT_EPOCH,
            r@.bitwidths == (42u64, 10u64, 12u64),
            r@.seq == 0,
            r@.duration == 0,
    {
        let ts = wall_clock_millis();
        let instant = monotonic_now();
        Flaken {
            node: 0,
            seq: 0,
            epoch: DEFAULT_EPOCH,
            bitwidths: (42, 10, 12),
            start_ts: ts,
            start_instant: instant,
            duration: 0,
        }
    }

    /// Sets the epoch.
    pub fn epoch(self, epoch: u64) -> (r: Flaken)
        ensures
            r@ == (FlakeModel { epoch, ..self@ }),
            r.clock_anchor() == self.clock_anchor(),
    {
        proof {
            use_type_invariant(&self);
        }
        let mut r = self;
        r.epoch = epoch;
        r
    }

    /// Sets the node identifier. It is not cut down here: encoding keeps its low bits.
    pub fn node(self, node: u64) -> (r: Flaken)
        ensures
            r@ == (FlakeModel { node, ..self@ }),
            r.clock_anchor() == self.clock_anchor(),
    {
        proof {
            use_type_invariant(&self);
        }
        let mut r = self;
        r.node = node;
        r
    }

    /// Sets the timestamp and node widths; the sequence field takes the rest of the
    /// 64 bits, at least one.
    pub fn bitwidths(self, ts_bits: u64, node_bits: u64) -> (r: Flaken)
        requires
            ts_bits + node_bits < 64,
        ensures
            r@ == (FlakeModel { bitwidths: (ts_bits, node_bits, (64 - ts_bits - node_bits) as u64), ..self@ }),
            r.clock_anchor() == self.clock_anchor(),
    {
        let mut r = self;
        r.bitwidths = (ts_bits, node_bits, 64 - (ts_bits + node_bits));
        r
    }

    /// The wall clock, in milliseconds since the Unix epoch, when the generator was made.
    pub fn start_ts(&self) -> (r: u64)
        ensures
            r == self@.start_ts,
    {
        self.start_ts
    }

    /// The next identifier, from the time that has passed on the monotonic clock since
    /// the generator was made. Within one millisecond the sequence counts up from 0;
    /// past `2^seq_bits` identifiers in one millisecond the sequence field wraps and
    /// identifiers no longer increase.
    pub fn next(&mut self) -> (r: u64)
        requires
            old(self)@.epoch <= old(self)@.start_ts,
        ensures
            exists|elapsed: u64| (final(self)@, r) == #[trigger] old(self)@.step(elapsed),
            final(self).clock_anchor() == old(self).clock_anchor(),
    {
        let elapsed = elapsed_millis(&self.start_instant);
        self.next_with_elapsed(elapsed)
    }

    /// The next identifier, given that `elapsed` milliseconds have passed since the
    /// generator was made.
    pub fn next_with_elapsed(&mut self, elapsed: u64) -> (r: u64)
        requires
            old(self)@.epoch <= old(self)@.timestamp_at(elapsed),
        ensures
            (final(self)@, r) == old(self)@.step(elapsed),
            final(self).clock_anchor() == old(self).clock_anchor(),
    {
        proof {
            use_type_invariant(&*self);
        }
        if elapsed != self.duration {
            self.seq = 0;
        }
        let ts = self.start_ts.saturating_add(elapsed);
        let id = self.encode(ts, self.node, self.seq);
        self.duration = elapsed;
        self.seq = self.seq.wrapping_add(1);
        id
    }

    /// Packs `ts` (milliseconds since the Unix epoch, not before the epoch), `node`
    /// and `seq` into an identifier; `node` and `seq` keep only the low bits that fit
    /// their fields, and so does the timestamp relative to the epoch.
    pub fn encode(&self, ts: u64, node: u64, seq: u64) -> (r: u64)
        requires
            ts >= self@.epoch,
        ensures
            r == self@.encode_spec(ts, node, seq),
    {
        proof {
            use_type_invariant(self);
        }
        let (ts_bits, node_bits, seq_bits) = self.bitwidths;
        pack_word(ts - self.epoch, node, seq, ts_bits, node_bits, seq_bits)
    }

    /// The timestamp (milliseconds since the Unix epoch), node and sequence held in
    /// `id`.
    pub fn decode(&self, id: u64) -> (r: (u64, u64, u64))
        ensures
            r == self@.decode_spec(id),
    {
        proof {
            use_type_invariant(self);
        }
        let (_, node_bits, seq_bits) = self.bitwidths;
        let (ts, node, seq) = unpack_word(id, node_bits, seq_bits);
        (ts.wrapping_add(self.epoch), node, seq)
    }
}

/// Decoding an encoded identifier gives back the timestamp, node and sequence, when
/// the timestamp is not before the epoch and each value fits its field.
pub proof fn lemma_round_trip(m: FlakeModel, ts: u64, node: u64, seq: u64)
    requires
        m.well_formed(),
        m.epoch <= ts,
        ts - m.epoch < pow2(m.bitwidths.0 as nat),
        node < pow2(m.bitwidths.1 as nat),
        seq < pow2(m.bitwidths.2 as nat),
    ensures
        m.decode_spec(m.encode_spec(ts, node, seq)) == (ts, node, seq),
{
    let (t, n, s) = (m.bitwidths.0 as nat, m.bitwidths.1 as nat, m.bitwidths.2 as nat);
    lemma_unpack_pack((ts - m.epoch) as nat, node as nat, seq as nat, t, n, s);
    lemma_pow2_64();
    lemma_fundamental_div_mod_converse((ts - m.epoch) as int, pow2(t) as int, 0, (ts - m.epoch) as int);
    lemma_fundamental_div_mod_converse(node as int, pow2(n) as int, 0, node as int);
    lemma_fundamental_div_mod_converse(seq as int, pow2(s) as int, 0, seq as int);
}

/// What a step's identifier decodes to: the timestamp field of its moment, the node
/// and the sequence value of its window, each cut down to its field's width.
proof fn lemma_decode_step(m: FlakeModel, elapsed: u64)
    requires
        m.well_formed(),
        m.epoch <= m.timestamp_at(elapsed),
    ensures
        m.decode_spec(m.step(elapsed).1).1 as nat == m.node as nat % pow2(m.bitwidths.1 as nat),
        m.decode_spec(m.step(elapsed).1).2 as nat == m.window_seq(elapsed) as nat % pow2(m.bitwidths.2 as nat),
        m.decode_spec(m.step(elapsed).1).0 == m.decode_spec(m.encode_spec(m.timestamp_at(elapsed), 0, 0)).0,
{
    let (t, n, s) = (m.bitwidths.0 as nat, m.bitwidths.1 as nat, m.bitwidths.2 as nat);
    let rel = (m.timestamp_at(elapsed) - m.epoch) as nat;
    lemma_pow2_64();
    lemma_unpack_pack(rel, m.node as nat, m.window_seq(elapsed) as nat, t, n, s);
    lemma_unpack_pack(rel, 0, 0, t, n, s);
    lemma_u64_pow2_no_overflow(n);
    if s < 64 {
        lemma_u64_pow2_no_overflow(s);
    }
}

/// Two steps at the same moment on a generator whose sequence is 0, as it is when the
/// generator is made, give identifiers with the same timestamp and node, and the
/// sequence values 0 and then 1.
pub proof fn lemma_same_window(m: FlakeModel, elapsed: u64)
    requires
        m.well_formed(),
        m.seq == 0,
        m.epoch <= m.timestamp_at(elapsed),
    ensures
        ({
            let (m1, id1) = m.step(elapsed);
            let (m2, id2) = m1.step(elapsed);
            &&& m.decode_spec(id1).0 == m1.decode_spec(id2).0
            &&& m.decode_spec(id1).1 == m1.decode_spec(id2).1
            &&& m.decode_spec(id1).1 as nat == m.node as nat % pow2(m.bitwidths.1 as nat)
            &&& m.decode_spec(id1).2 == 0
            &&& m1.decode_spec(id2).2 == 1
        }),
{
    let m1 = m.step(elapsed).0;
    lemma_decode_step(m, elapsed);
    lemma_decode_step(m1, elapsed);
    lemma_pow2_pos(m.bitwidths.2 as nat);
    lemma2_to64();
    lemma_pow2_strictly_increases(0, m.bitwidths.2 as nat);
    lemma_small_mod(1, pow2(m.bitwidths.2 as nat));
}

/// A step in a new millisecond resets the sequence to 0, and its identifier holds the
/// timestamp of that moment, when the timestamp fits its field.
pub proof fn lemma_new_window(m: FlakeModel, elapsed: u64)
    requires
        m.well_formed(),
        elapsed != m.duration,
        m.start_ts + elapsed <= u64::MAX,
        m.epoch <= m.start_ts + elapsed,
        m.start_ts + elapsed - m.epoch < pow2(m.bitwidths.0 as nat),
    ensures
        m.decode_spec(m.step(elapsed).1).0 == m.start_ts + elapsed,
        m.decode_spec(m.step(elapsed).1).2 == 0,
        m.step(elapsed).0.seq == 1,
{
    lemma_pow2_pos(m.bitwidths.1 as nat);
    lemma_pow2_pos(m.bitwidths.2 as nat);
    lemma_decode_step(m, elapsed);
    lemma_round_trip(m, m.timestamp_at(elapsed), 0, 0);
}

/// Changing the node between two steps at the same moment: the second identifier holds
/// the new node, the same timestamp, and the sequence value after the first one.
pub proof fn lemma_node_change(m: FlakeModel, elapsed: u64, node: u64)
    requires
        m.well_formed(),
        m.epoch <= m.timestamp_at(elapsed),
    ensures
        ({
            let (m1, id1) = m.step(elapsed);
            let m2 = FlakeModel { node, ..m1 };
            let id2 = m2.step(elapsed).1;
            &&& m2.decode_spec(id2).0 == m.decode_spec(id1).0
            &&& m2.decode_spec(id2).1 as nat == node as nat % pow2(m.bitwidths.1 as nat)
            &&& m2.decode_spec(id2).2 as nat == (m.decode_spec(id1).2 + 1) as nat % pow2(m.bitwidths.2 as nat)
        }),
{
    let m2 = FlakeModel { node, ..m.step(elapsed).0 };
    let s = m.bitwidths.2 as nat;
    let ps = pow2(s);
    let x = m.window_seq(elapsed);
    lemma_decode_step(m, elapsed);
    lemma_decode_step(m2, elapsed);
    lemma_pow2_pos(s);
    lemma2_to64();
    lemma_pow2_strictly_increases(0, s);
    lemma_small_mod(1, ps);
    if x == u64::MAX {
        lemma_pow2_64();
        lemma_pow2_adds(s, (64 - s) as nat);
        let q = pow2((64 - s) as nat);
        lemma_pow2_pos((64 - s) as nat);
        assert(x as int == (q - 1) * ps + (ps - 1)) by (nonlinear_arith)
            requires
                x as int == 0x1_0000_0000_0000_0000 - 1,
                ps * q == 0x1_0000_0000_0000_0000,
        ;
        lemma_fundamental_div_mod_converse(x as int, ps as int, q - 1, ps - 1);
        lemma_fundamental_div_mod_converse(ps as int, ps as int, 1, 0);
        lemma_fundamental_div_mod_converse(0, ps as int, 0, 0);
    } else {
        lemma_add_mod_noop(x as int, 1, ps as int);
    }
}

/// Successive identifiers increase: a step at the same moment as the previous one, or
/// a later one, gives a larger identifier, as long as the sequence fits its field
/// within one millisecond and the later timestamp fits its field.
pub proof fn lemma_next_increases(m: FlakeModel, first: u64, second: u64)
    requires
        m.well_formed(),
        first <= second,
        m.epoch <= m.timestamp_at(first),
        m.start_ts + second <= u64::MAX,
        m.start_ts + second - m.epoch < pow2(m.bitwidths.0 as nat),
        first == second ==> m.window_seq(first) + 1 < pow2(m.bitwidths.2 as nat),
    ensures
        m.step(first).0.step(second).1 > m.step(first).1,
{
    let (t, n, s) = (m.bitwidths.0 as nat, m.bitwidths.1 as nat, m.bitwidths.2 as nat);
    let m1 = m.step(first).0;
    let rel1 = (m.timestamp_at(first) - m.epoch) as nat;
    let rel2 = (m.timestamp_at(second) - m.epoch) as nat;
    let seq1 = m.window_seq(first) as nat;
    let seq2 = m1.window_seq(second) as nat;
    let ps = pow2(s);
    let pns = pow2(n + s);
    let b = m.node as nat % pow2(n);
    lemma_pow2_64();
    lemma_pow2_pos(t);
    lemma_pow2_pos(n);
    lemma_pow2_pos(s);
    lemma_unpack_pack(rel1, m.node as nat, seq1, t, n, s);
    lemma_unpack_pack(rel2, m.node as nat, seq2, t, n, s);
    lemma_fundamental_div_mod_converse(rel1 as int, pow2(t) as int, 0, rel1 as int);
    lemma_fundamental_div_mod_converse(rel2 as int, pow2(t) as int, 0, rel2 as int);
    lemma_pack_bound(rel1, b, seq1 % ps, t, n, s);
    lemma_pack_bound(rel2, b, seq2 % ps, t, n, s);
    let id1 = rel1 * pns + b * ps + seq1 % ps;
    let id2 = rel2 * pns + b * ps + seq2 % ps;
    assert(m.step(first).1 == id1);
    assert(m1.step(second).1 == id2);
    if first == second {
        lemma_fundamental_div_mod_converse(seq1 as int, ps as int, 0, seq1 as int);
        if s < 64 {
            lemma_u64_pow2_no_overflow(s);
        }
        assert(seq2 == seq1 + 1);
        lemma_fundamental_div_mod_converse(seq2 as int, ps as int, 0, seq2 as int);
    } else {
        let low = b * ps + seq1 % ps;
        assert(rel1 + 1 <= rel2);
        assert(rel1 * pns + low < rel2 * pns) by (nonlinear_arith)
            requires
                rel1 + 1 <= rel2,
                low < pns,
        ;
    }
}

} // verus!
