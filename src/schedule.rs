//! Piecewise-linear unlock schedules.
//!
//! A schedule is a list of checkpoints `(timestamp, cumulative balance)`.
//! Before the first checkpoint nothing is unlocked, from the last one on the
//! whole balance is, and in between the unlocked balance grows linearly
//! (rounded down) from one checkpoint to the next.

use crate::error::LockupError;
use crate::math::{mul_div_ceil, mul_div_floor};
use crate::{Balance, CryptoHash, TimestampSec};
use sha2::Digest;
use vstd::prelude::*;

verus! {

#[derive(Clone, Copy, Debug, PartialEq, Eq, Structural)]
pub struct Checkpoint {
    /// Seconds since the unix epoch.
    pub timestamp: TimestampSec,
    /// What is unlocked in total at `timestamp`.
    pub balance: Balance,
}

#[derive(Debug)]
pub struct Schedule(pub Vec<Checkpoint>);

impl Clone for Schedule {
    fn clone(&self) -> (r: Schedule)
        ensures
            r@ == self@,
    {
        let r = Schedule(self.0.clone());
        assert(r@ =~= self@);
        r
    }
}

impl View for Schedule {
    type V = Seq<Checkpoint>;

    open spec fn view(&self) -> Seq<Checkpoint> {
        self.0@
    }
}

/// At least two checkpoints, the first balance is zero, timestamps strictly
/// increase and balances never decrease.
pub open spec fn valid_checkpoints(cps: Seq<Checkpoint>) -> bool {
    &&& cps.len() >= 2
    &&& cps[0].balance == 0
    &&& forall|i: int, j: int|
        0 <= i < j < cps.len() ==> #[trigger] cps[i].timestamp < #[trigger] cps[j].timestamp
    &&& forall|i: int, j: int|
        0 <= i < j < cps.len() ==> #[trigger] cps[i].balance <= #[trigger] cps[j].balance
}

/// The balance of the last checkpoint.
pub open spec fn total_of(cps: Seq<Checkpoint>) -> int {
    cps.last().balance as int
}

/// The balance on the line from `p` to `q` at time `t`, rounded down.
pub open spec fn interpolate(p: Checkpoint, q: Checkpoint, t: int) -> int {
    p.balance + (t - p.timestamp) * (q.balance - p.balance) / (q.timestamp - p.timestamp)
}

/// The unlocked balance at `t`, looking for the segment of `t` from
/// checkpoint `i` on; `t` is at or after checkpoint `i`.
pub open spec fn unlocked_from(cps: Seq<Checkpoint>, i: int, t: int) -> int
    decreases cps.len() - i,
{
    if i < 0 || i + 1 >= cps.len() {
        cps.last().balance as int
    } else if t < cps[i + 1].timestamp {
        interpolate(cps[i], cps[i + 1], t)
    } else {
        unlocked_from(cps, i + 1, t)
    }
}

/// The unlocked balance of a schedule at time `t`.
pub open spec fn unlocked_at(cps: Seq<Checkpoint>, t: int) -> int {
    if cps.len() == 0 || t < cps[0].timestamp {
        0
    } else {
        unlocked_from(cps, 0, t)
    }
}

/// Where truncation to `v` cuts a schedule: walking back from the end, the
/// first checkpoint (before the one at `n - 1`) whose balance is below `v`.
pub open spec fn cut_index(cps: Seq<Checkpoint>, v: int, n: int) -> int
    decreases n,
{
    if n <= 1 {
        0
    } else if cps[n - 2].balance < v {
        n - 2
    } else {
        cut_index(cps, v, n - 1)
    }
}

/// The timestamp at which the segment from `p` to `q` reaches `v`, rounded up.
pub open spec fn reach_time(p: Checkpoint, q: Checkpoint, v: int) -> int {
    p.timestamp + ((q.timestamp - p.timestamp) * (v - p.balance) + (q.balance - p.balance) - 1)
        / (q.balance - p.balance)
}

/// The schedule cut down to a total of `v`: it follows the full schedule until
/// that reaches `v`, and stays at `v` from then on.
pub open spec fn truncated(cps: Seq<Checkpoint>, v: int) -> Seq<Checkpoint> {
    if v == 0 {
        seq![Checkpoint { timestamp: 0, balance: 0 }, Checkpoint { timestamp: 1, balance: 0 }]
    } else {
        let k = cut_index(cps, v, cps.len() as int);
        cps.subrange(0, k + 1).push(
            Checkpoint {
                timestamp: reach_time(cps[k], cps[k + 1], v) as TimestampSec,
                balance: v as Balance,
            },
        )
    }
}

/// At each checkpoint of either schedule, `lockup` has released no more than
/// `vesting`.
pub open spec fn lockup_behind(lockup: Seq<Checkpoint>, vesting: Seq<Checkpoint>) -> bool {
    &&& forall|i: int|
        0 <= i < lockup.len() ==> #[trigger] lockup[i].balance <= unlocked_at(
            vesting,
            lockup[i].timestamp as int,
        )
    &&& forall|j: int|
        0 <= j < vesting.len() ==> unlocked_at(lockup, vesting[j].timestamp as int)
            <= #[trigger] vesting[j].balance
}

/// The timestamp `ts` is a checkpoint of one schedule at which `lockup` has
/// released more than `vesting`.
pub open spec fn ordering_violated_at(
    lockup: Seq<Checkpoint>,
    vesting: Seq<Checkpoint>,
    ts: TimestampSec,
) -> bool {
    ||| exists|i: int|
        0 <= i < lockup.len() && #[trigger] lockup[i].timestamp == ts && lockup[i].balance
            > unlocked_at(vesting, ts as int)
    ||| exists|j: int|
        0 <= j < vesting.len() && #[trigger] vesting[j].timestamp == ts && unlocked_at(
            lockup,
            ts as int,
        ) > vesting[j].balance
}

/// `n` bytes of `x`, least significant first.
pub open spec fn le_bytes(x: nat, n: nat) -> Seq<u8>
    decreases n,
{
    if n == 0 {
        seq![]
    } else {
        seq![(x % 256) as u8] + le_bytes(x / 256, (n - 1) as nat)
    }
}

/// A checkpoint in its canonical binary form: the timestamp in four bytes,
/// then the balance in sixteen, little endian.
pub open spec fn checkpoint_bytes(c: Checkpoint) -> Seq<u8> {
    le_bytes(c.timestamp as nat, 4) + le_bytes(c.balance as nat, 16)
}

pub open spec fn checkpoints_bytes(cps: Seq<Checkpoint>) -> Seq<u8>
    decreases cps.len(),
{
    if cps.len() == 0 {
        seq![]
    } else {
        checkpoints_bytes(cps.drop_last()) + checkpoint_bytes(cps.last())
    }
}

/// A schedule in its canonical binary form: the number of checkpoints in four
/// bytes, then each checkpoint.
pub open spec fn schedule_bytes(cps: Seq<Checkpoint>) -> Seq<u8> {
    le_bytes(cps.len() as nat, 4) + checkpoints_bytes(cps)
}

/// The SHA-256 digest of a byte string.
pub uninterp spec fn sha256_of(data: Seq<u8>) -> Seq<u8>;

/// Relies on `sha2::Sha256::digest`: the SHA-256 digest of the bytes.
#[verifier::external_body]
fn sha256(data: &[u8]) -> (r: CryptoHash)
    ensures
        r@ == sha256_of(data@),
{
    sha2::Sha256::digest(data).into()
}

fn push_le_bytes(out: &mut Vec<u8>, x: u128, n: usize)
    ensures
        final(out)@ == old(out)@ + le_bytes(x as nat, n as nat),
    decreases n,
{
    if n == 0 {
        assert(final(out)@ =~= old(out)@ + le_bytes(x as nat, n as nat));
        return;
    }
    out.push((x % 256) as u8);
    push_le_bytes(out, x / 256, n - 1);
    assert(final(out)@ =~= old(out)@ + le_bytes(x as nat, n as nat));
}

/// Checks a revealed schedule against a commitment: true exactly when the
/// digest of the revealed schedule is the committed digest.
pub fn matches_commitment(commitment: &CryptoHash, revealed_digest: &CryptoHash) -> (r: bool)
    ensures
        r == (commitment@ == revealed_digest@),
{
    let mut i: usize = 0;
    while i < 32
        invariant
            i <= 32,
            commitment@.len() == 32,
            revealed_digest@.len() == 32,
            forall|j: int| 0 <= j < i ==> commitment@[j] == revealed_digest@[j],
        decreases 32 - i,
    {
        if commitment[i] != revealed_digest[i] {
            return false;
        }
        i = i + 1;
    }
    assert(commitment@ =~= revealed_digest@);
    true
}

// ----- facts about the model -----

proof fn lemma_unlocked_from_skip(cps: Seq<Checkpoint>, j: int, i: int, t: int)
    requires
        valid_checkpoints(cps),
        0 <= j <= i < cps.len(),
        cps[i].timestamp <= t,
    ensures
        unlocked_from(cps, j, t) == unlocked_from(cps, i, t),
    decreases i - j,
{
    if j < i {
        assert(cps[j + 1].timestamp <= cps[i].timestamp);
        lemma_unlocked_from_skip(cps, j + 1, i, t);
    }
}

/// Inside the segment from checkpoint `i` to `i + 1`, the unlocked balance is
/// the interpolation over that segment.
pub proof fn lemma_unlocked_in_segment(cps: Seq<Checkpoint>, i: int, t: int)
    requires
        valid_checkpoints(cps),
        0 <= i < cps.len() - 1,
        cps[i].timestamp <= t < cps[i + 1].timestamp,
    ensures
        unlocked_at(cps, t) == interpolate(cps[i], cps[i + 1], t),
{
    assert(cps[0].timestamp <= cps[i].timestamp);
    lemma_unlocked_from_skip(cps, 0, i, t);
}

/// From the last checkpoint on, the whole balance is unlocked.
pub proof fn lemma_unlocked_after_end(cps: Seq<Checkpoint>, t: int)
    requires
        valid_checkpoints(cps),
        cps.last().timestamp <= t,
    ensures
        unlocked_at(cps, t) == total_of(cps),
{
    assert(cps[0].timestamp <= cps[cps.len() - 1].timestamp);
    lemma_unlocked_from_skip(cps, 0, cps.len() - 1, t);
}

/// An interpolated value lies between the balances of its two ends, and
/// grows with time.
proof fn lemma_interpolate_bounds(p: Checkpoint, q: Checkpoint, t1: int, t2: int)
    requires
        p.timestamp < q.timestamp,
        p.balance <= q.balance,
        p.timestamp <= t1 <= t2 <= q.timestamp,
    ensures
        p.balance <= interpolate(p, q, t1) <= interpolate(p, q, t2) <= q.balance,
{
    let d = q.timestamp - p.timestamp;
    let b = q.balance - p.balance;
    let x1 = (t1 - p.timestamp) * b;
    let x2 = (t2 - p.timestamp) * b;
    assert(0 <= x1 <= x2 <= d * b) by (nonlinear_arith)
        requires
            0 <= t1 - p.timestamp <= t2 - p.timestamp <= d,
            0 <= b,
            x1 == (t1 - p.timestamp) * b,
            x2 == (t2 - p.timestamp) * b,
    ;
    vstd::arithmetic::div_mod::lemma_div_is_ordered(x1, x2, d);
    vstd::arithmetic::div_mod::lemma_div_is_ordered(x2, d * b, d);
    vstd::arithmetic::div_mod::lemma_div_is_ordered(0, x1, d);
    vstd::arithmetic::div_mod::lemma_div_by_multiple(b, d);
    assert(d * b == b * d) by (nonlinear_arith);
}

/// Where `t` falls: before the schedule, in a segment, or after its end.
proof fn lemma_segment_of(cps: Seq<Checkpoint>, t: int) -> (i: int)
    requires
        valid_checkpoints(cps),
        cps[0].timestamp <= t < cps.last().timestamp,
    ensures
        0 <= i < cps.len() - 1,
        cps[i].timestamp <= t < cps[i + 1].timestamp,
    decreases cps.len(),
{
    let n = cps.len();
    if cps[n - 2].timestamp <= t {
        n - 2
    } else {
        let prefix = cps.drop_last();
        assert(valid_checkpoints(prefix));
        lemma_segment_of(prefix, t)
    }
}

/// The unlocked balance never leaves `[0, total]`, and at checkpoint `i` it
/// is the checkpoint's balance.
pub proof fn lemma_unlocked_bounds(cps: Seq<Checkpoint>, t: int)
    requires
        valid_checkpoints(cps),
    ensures
        0 <= unlocked_at(cps, t) <= total_of(cps),
{
    let n = cps.len();
    if t < cps[0].timestamp {
    } else if t >= cps[n - 1].timestamp {
        lemma_unlocked_after_end(cps, t);
    } else {
        let i = lemma_segment_of(cps, t);
        lemma_unlocked_in_segment(cps, i, t);
        lemma_interpolate_bounds(cps[i], cps[i + 1], t, t);
        assert(cps[i + 1].balance <= cps[n - 1].balance);
    }
}

/// Exactly at a checkpoint, the unlocked balance is that checkpoint's
/// balance.
pub proof fn lemma_unlocked_at_checkpoint(cps: Seq<Checkpoint>, i: int)
    requires
        valid_checkpoints(cps),
        0 <= i < cps.len(),
    ensures
        unlocked_at(cps, cps[i].timestamp as int) == cps[i].balance,
{
    if i == cps.len() - 1 {
        lemma_unlocked_after_end(cps, cps[i].timestamp as int);
    } else {
        lemma_unlocked_in_segment(cps, i, cps[i].timestamp as int);
        let p = cps[i];
        let q = cps[i + 1];
        assert(0 * (q.balance - p.balance) == 0);
        assert(0int / (q.timestamp - p.timestamp) == 0);
    }
}

/// The unlocked balance never decreases over time.
pub proof fn lemma_unlocked_monotonic(cps: Seq<Checkpoint>, t1: int, t2: int)
    requires
        valid_checkpoints(cps),
        t1 <= t2,
    ensures
        unlocked_at(cps, t1) <= unlocked_at(cps, t2),
{
    let n = cps.len();
    lemma_unlocked_bounds(cps, t1);
    lemma_unlocked_bounds(cps, t2);
    if t1 < cps[0].timestamp {
    } else if t2 >= cps[n - 1].timestamp {
        lemma_unlocked_after_end(cps, t2);
    } else {
        let i = lemma_segment_of(cps, t1);
        let j = lemma_segment_of(cps, t2);
        lemma_unlocked_in_segment(cps, i, t1);
        lemma_unlocked_in_segment(cps, j, t2);
        if i == j {
            lemma_interpolate_bounds(cps[i], cps[i + 1], t1, t2);
        } else {
            assert(i < j);
            lemma_interpolate_bounds(cps[i], cps[i + 1], t1, t1);
            lemma_interpolate_bounds(cps[j], cps[j + 1], t2, t2);
            assert(cps[i + 1].balance <= cps[j].balance);
        }
    }
}

proof fn lemma_cut_index(cps: Seq<Checkpoint>, v: int, n: int)
    requires
        valid_checkpoints(cps),
        0 < v,
        2 <= n <= cps.len(),
        cps[n - 1].balance >= v,
    ensures
        0 <= cut_index(cps, v, n) <= n - 2,
        cps[cut_index(cps, v, n)].balance < v,
        cps[cut_index(cps, v, n) + 1].balance >= v,
    decreases n,
{
    if cps[n - 2].balance >= v {
        lemma_cut_index(cps, v, n - 1);
    }
}

/// `n1 / d1 <= n2 / d2` (rounded down) when the fractions compare so.
proof fn lemma_div_cross(n1: int, d1: int, n2: int, d2: int)
    requires
        0 <= n1,
        0 <= n2,
        0 < d1,
        0 < d2,
        n1 * d2 <= n2 * d1,
    ensures
        n1 / d1 <= n2 / d2,
{
    let q1 = n1 / d1;
    vstd::arithmetic::div_mod::lemma_fundamental_div_mod(n1, d1);
    assert(q1 * d1 <= n1) by {
        vstd::arithmetic::div_mod::lemma_mod_bound(n1, d1);
    }
    assert(q1 * d2 * d1 <= n2 * d1) by (nonlinear_arith)
        requires q1 * d1 <= n1, n1 * d2 <= n2 * d1, 0 < d2, 0 <= q1;
    assert(q1 * d2 <= n2) by (nonlinear_arith)
        requires q1 * d2 * d1 <= n2 * d1, 0 < d1;
    vstd::arithmetic::div_mod::lemma_div_is_ordered(q1 * d2, n2, d2);
    vstd::arithmetic::div_mod::lemma_div_by_multiple(q1, d2);
}

/// Truncating to `v` gives a valid schedule with total `v` that at no time
/// has unlocked more than the full schedule.
pub proof fn lemma_truncated_never_ahead(cps: Seq<Checkpoint>, v: int, t: int)
    requires
        valid_checkpoints(cps),
        0 <= v <= total_of(cps),
    ensures
        valid_checkpoints(truncated(cps, v)),
        total_of(truncated(cps, v)) == v,
        unlocked_at(truncated(cps, v), t) <= unlocked_at(cps, t),
{
    let tr = truncated(cps, v);
    lemma_unlocked_bounds(cps, t);
    if v == 0 {
        assert(valid_checkpoints(tr));
        lemma_unlocked_bounds(tr, t);
        return;
    }
    let n = cps.len() as int;
    lemma_cut_index(cps, v, n);
    let k = cut_index(cps, v, n);
    let p = cps[k];
    let q = cps[k + 1];
    let td = q.timestamp - p.timestamp;
    let bd = q.balance - p.balance;
    let rb = v - p.balance;
    let x = td * rb + bd - 1;
    let r = x / bd;
    assert(0 < td * rb <= td * bd) by (nonlinear_arith)
        requires 0 < td, 0 < rb <= bd;
    vstd::arithmetic::div_mod::lemma_fundamental_div_mod(x, bd);
    vstd::arithmetic::div_mod::lemma_mod_bound(x, bd);
    let m = x % bd;
    assert(1 <= r <= td && r * bd >= td * rb) by (nonlinear_arith)
        requires
            x == bd * r + m,
            0 <= m < bd,
            x == td * rb + bd - 1,
            0 < td * rb <= td * bd,
            0 < bd;
    let big_t = p.timestamp + r;
    assert(reach_time(p, q, v) == big_t);
    assert(tr.len() == k + 2);
    assert(tr[k + 1] == Checkpoint { timestamp: big_t as TimestampSec, balance: v as Balance });
    assert forall|i: int| 0 <= i <= k implies tr[i] == cps[i] by {}
    assert(valid_checkpoints(tr)) by {
        assert forall|i: int, j: int| 0 <= i < j < tr.len() implies #[trigger] tr[i].timestamp
            < #[trigger] tr[j].timestamp && tr[i].balance <= tr[j].balance by {
            if j == k + 1 {
                if i < k {
                    assert(cps[i].timestamp < cps[k].timestamp);
                    assert(cps[i].balance <= cps[k].balance);
                }
            } else {
                assert(cps[i].timestamp < cps[j].timestamp);
                assert(cps[i].balance <= cps[j].balance);
            }
        }
        assert forall|i: int, j: int| 0 <= i < j < tr.len() implies #[trigger] tr[i].balance
            <= #[trigger] tr[j].balance by {
            assert(tr[i].timestamp < tr[j].timestamp && tr[i].balance <= tr[j].balance);
        }
    }
    if t < cps[0].timestamp {
        return;
    }
    if t >= big_t {
        lemma_unlocked_after_end(tr, t);
        lemma_unlocked_monotonic(cps, big_t, t);
        if big_t == q.timestamp {
            lemma_unlocked_at_checkpoint(cps, k + 1);
        } else {
            lemma_unlocked_in_segment(cps, k, big_t);
            vstd::arithmetic::div_mod::lemma_div_is_ordered(td * rb, r * bd, td);
            vstd::arithmetic::div_mod::lemma_div_by_multiple(rb, td);
            assert(td * rb == rb * td) by (nonlinear_arith);
            assert(r * bd == (big_t - p.timestamp) * (q.balance - p.balance));
        }
        return;
    }
    let i = lemma_segment_of(tr, t);
    lemma_unlocked_in_segment(tr, i, t);
    if i < k {
        lemma_unlocked_in_segment(cps, i, t);
    } else {
        assert(i == k);
        assert(t < q.timestamp);
        lemma_unlocked_in_segment(cps, k, t);
        let dx = t - p.timestamp;
        assert(dx * rb * td <= dx * bd * r) by (nonlinear_arith)
            requires 0 <= dx, r * bd >= td * rb;
        assert(0 <= dx * rb && 0 <= dx * bd) by (nonlinear_arith)
            requires 0 <= dx, 0 <= rb, 0 <= bd;
        lemma_div_cross(dx * rb, r, dx * bd, td);
    }
}

/// `256` to the power `n`.
pub open spec fn byte_range(n: nat) -> int
    decreases n,
{
    if n == 0 {
        1
    } else {
        256 * byte_range((n - 1) as nat)
    }
}

proof fn lemma_le_bytes_len(x: nat, n: nat)
    ensures
        le_bytes(x, n).len() == n,
    decreases n,
{
    if n > 0 {
        lemma_le_bytes_len(x / 256, (n - 1) as nat);
    }
}

proof fn lemma_le_bytes_injective(x: nat, y: nat, n: nat)
    requires
        x < byte_range(n),
        y < byte_range(n),
        le_bytes(x, n) == le_bytes(y, n),
    ensures
        x == y,
    decreases n,
{
    if n == 0 {
    } else {
        let (bx, by) = (le_bytes(x, n), le_bytes(y, n));
        lemma_le_bytes_len(x / 256, (n - 1) as nat);
        lemma_le_bytes_len(y / 256, (n - 1) as nat);
        assert(bx[0] == by[0]);
        assert(bx.skip(1) =~= le_bytes(x / 256, (n - 1) as nat));
        assert(by.skip(1) =~= le_bytes(y / 256, (n - 1) as nat));
        let p = byte_range((n - 1) as nat);
        assert(x / 256 < p && y / 256 < p) by {
            vstd::arithmetic::div_mod::lemma_div_is_ordered(x as int, 256 * p - 1, 256);
            vstd::arithmetic::div_mod::lemma_div_is_ordered(y as int, 256 * p - 1, 256);
            assert((256 * p - 1) / 256 < p) by (nonlinear_arith)
                requires p >= 1;
        }
        assert(p >= 1) by {
            lemma_byte_range_pos((n - 1) as nat);
        }
        lemma_le_bytes_injective(x / 256, y / 256, (n - 1) as nat);
        assert((x % 256) as u8 == (y % 256) as u8);
        assert(x % 256 == y % 256);
        vstd::arithmetic::div_mod::lemma_fundamental_div_mod(x as int, 256);
        vstd::arithmetic::div_mod::lemma_fundamental_div_mod(y as int, 256);
    }
}

proof fn lemma_byte_range_pos(n: nat)
    ensures
        byte_range(n) >= 1,
    decreases n,
{
    if n > 0 {
        lemma_byte_range_pos((n - 1) as nat);
    }
}

proof fn lemma_checkpoint_bytes(c: Checkpoint)
    ensures
        checkpoint_bytes(c).len() == 20,
        checkpoint_bytes(c).subrange(0, 4) == le_bytes(c.timestamp as nat, 4),
        checkpoint_bytes(c).subrange(4, 20) == le_bytes(c.balance as nat, 16),
{
    lemma_le_bytes_len(c.timestamp as nat, 4);
    lemma_le_bytes_len(c.balance as nat, 16);
    assert(checkpoint_bytes(c).subrange(0, 4) =~= le_bytes(c.timestamp as nat, 4));
    assert(checkpoint_bytes(c).subrange(4, 20) =~= le_bytes(c.balance as nat, 16));
}

proof fn lemma_byte_ranges()
    ensures
        byte_range(4) == 0x1_0000_0000,
        byte_range(16) == 0x1_0000_0000_0000_0000_0000_0000_0000_0000,
{
    reveal_with_fuel(byte_range, 17);
}

proof fn lemma_checkpoint_bytes_injective(a: Checkpoint, b: Checkpoint)
    requires
        checkpoint_bytes(a) == checkpoint_bytes(b),
    ensures
        a == b,
{
    lemma_checkpoint_bytes(a);
    lemma_checkpoint_bytes(b);
    lemma_byte_ranges();
    lemma_le_bytes_injective(a.timestamp as nat, b.timestamp as nat, 4);
    lemma_le_bytes_injective(a.balance as nat, b.balance as nat, 16);
}

proof fn lemma_checkpoints_bytes_len(cps: Seq<Checkpoint>)
    ensures
        checkpoints_bytes(cps).len() == 20 * cps.len(),
    decreases cps.len(),
{
    if cps.len() > 0 {
        lemma_checkpoints_bytes_len(cps.drop_last());
        lemma_checkpoint_bytes(cps.last());
    }
}

proof fn lemma_checkpoints_bytes_injective(a: Seq<Checkpoint>, b: Seq<Checkpoint>)
    requires
        a.len() == b.len(),
        checkpoints_bytes(a) == checkpoints_bytes(b),
    ensures
        a == b,
    decreases a.len(),
{
    if a.len() > 0 {
        let n = a.len() as int;
        lemma_checkpoints_bytes_len(a.drop_last());
        lemma_checkpoints_bytes_len(b.drop_last());
        lemma_checkpoint_bytes(a.last());
        lemma_checkpoint_bytes(b.last());
        let (xa, xb) = (checkpoints_bytes(a), checkpoints_bytes(b));
        let m = 20 * (n - 1);
        assert(xa.subrange(0, m) =~= checkpoints_bytes(a.drop_last()));
        assert(xb.subrange(0, m) =~= checkpoints_bytes(b.drop_last()));
        assert(xa.subrange(m, m + 20) =~= checkpoint_bytes(a.last()));
        assert(xb.subrange(m, m + 20) =~= checkpoint_bytes(b.last()));
        lemma_checkpoints_bytes_injective(a.drop_last(), b.drop_last());
        lemma_checkpoint_bytes_injective(a.last(), b.last());
        assert(a =~= a.drop_last().push(a.last()));
        assert(b =~= b.drop_last().push(b.last()));
    }
}

/// Schedules that differ in any checkpoint have different canonical forms,
/// so a commitment names one schedule: opening it with another one would
/// take a collision of the digest.
pub proof fn lemma_schedule_bytes_injective(a: Seq<Checkpoint>, b: Seq<Checkpoint>)
    requires
        a.len() <= u32::MAX,
        b.len() <= u32::MAX,
        schedule_bytes(a) == schedule_bytes(b),
    ensures
        a == b,
{
    lemma_le_bytes_len(a.len() as nat, 4);
    lemma_le_bytes_len(b.len() as nat, 4);
    let (xa, xb) = (schedule_bytes(a), schedule_bytes(b));
    assert(xa.subrange(0, 4) =~= le_bytes(a.len() as nat, 4));
    assert(xb.subrange(0, 4) =~= le_bytes(b.len() as nat, 4));
    lemma_byte_ranges();
    lemma_le_bytes_injective(a.len() as nat, b.len() as nat, 4);
    assert(xa.skip(4) =~= checkpoints_bytes(a));
    assert(xb.skip(4) =~= checkpoints_bytes(b));
    lemma_checkpoints_bytes_injective(a, b);
}

/// Equal schedules commit alike: `hash` of a schedule is the digest of its
/// canonical form, which depends on its checkpoints alone.
pub proof fn lemma_equal_schedules_commit_alike(a: Seq<Checkpoint>, b: Seq<Checkpoint>)
    requires
        a == b,
    ensures
        sha256_of(schedule_bytes(a)) == sha256_of(schedule_bytes(b)),
{
}

// ----- executable schedule engine -----

impl Schedule {
    /// A schedule that unlocks `total_balance` at timestamp one, that is,
    /// everything is unlocked already.
    pub fn new_unlocked(total_balance: Balance) -> (r: Schedule)
        ensures
            r@ == seq![
                Checkpoint { timestamp: 0, balance: 0 },
                Checkpoint { timestamp: 1, balance: total_balance },
            ],
            valid_checkpoints(r@),
            total_of(r@) == total_balance,
    {
        Schedule::new_unlocked_since(total_balance, 1)
    }

    /// A schedule that unlocks `total_balance` at once at `timestamp`.
    pub fn new_unlocked_since(total_balance: Balance, timestamp: TimestampSec) -> (r: Schedule)
        requires
            timestamp >= 1,
        ensures
            r@ == seq![
                Checkpoint { timestamp: (timestamp - 1) as TimestampSec, balance: 0 },
                Checkpoint { timestamp, balance: total_balance },
            ],
            valid_checkpoints(r@),
            total_of(r@) == total_balance,
    {
        let mut v: Vec<Checkpoint> = Vec::new();
        v.push(Checkpoint { timestamp: timestamp - 1, balance: 0 });
        v.push(Checkpoint { timestamp, balance: total_balance });
        let r = Schedule(v);
        assert(r@ =~= seq![
            Checkpoint { timestamp: (timestamp - 1) as TimestampSec, balance: 0 },
            Checkpoint { timestamp, balance: total_balance },
        ]);
        r
    }

    /// The balance of the last checkpoint.
    pub fn total_balance(&self) -> (r: Balance)
        requires
            self@.len() > 0,
        ensures
            r == total_of(self@),
    {
        self.0[self.0.len() - 1].balance
    }

    /// Accepts the schedule when it is well formed and adds up to
    /// `total_balance`.
    pub fn assert_valid(&self, total_balance: Balance) -> (r: Result<(), LockupError>)
        ensures
            r is Ok <==> valid_checkpoints(self@) && total_of(self@) == total_balance,
            r is Err ==> r == Err::<(), LockupError>(LockupError::ScheduleInvalid),
    {
        let n = self.0.len();
        if n < 2 {
            return Err(LockupError::ScheduleInvalid);
        }
        if self.0[0].balance != 0 {
            return Err(LockupError::ScheduleInvalid);
        }
        let mut i: usize = 1;
        while i < n
            invariant
                n == self@.len(),
                1 <= i <= n,
                forall|a: int, b: int|
                    0 <= a < b < i ==> #[trigger] self@[a].timestamp < #[trigger] self@[b].timestamp,
                forall|a: int, b: int|
                    0 <= a < b < i ==> #[trigger] self@[a].balance <= #[trigger] self@[b].balance,
            decreases n - i,
        {
            let prev = self.0[i - 1];
            let cur = self.0[i];
            if prev.timestamp >= cur.timestamp || prev.balance > cur.balance {
                return Err(LockupError::ScheduleInvalid);
            }
            assert forall|a: int, b: int| 0 <= a < b < i + 1 implies #[trigger] self@[a].timestamp
                < #[trigger] self@[b].timestamp by {
                if b == i && a < i - 1 {
                    assert(self@[a].timestamp < self@[i - 1].timestamp);
                }
            }
            assert forall|a: int, b: int| 0 <= a < b < i + 1 implies #[trigger] self@[a].balance
                <= #[trigger] self@[b].balance by {
                if b == i && a < i - 1 {
                    assert(self@[a].balance <= self@[i - 1].balance);
                }
            }
            i = i + 1;
        }
        if self.0[n - 1].balance != total_balance {
            return Err(LockupError::ScheduleInvalid);
        }
        Ok(())
    }

    /// The balance unlocked at `current_timestamp`.
    pub fn unlocked_balance(&self, current_timestamp: TimestampSec) -> (r: Balance)
        requires
            valid_checkpoints(self@),
        ensures
            r == unlocked_at(self@, current_timestamp as int),
    {
        let cps = &self.0;
        let n = cps.len();
        if current_timestamp < cps[0].timestamp {
            return 0;
        }
        // Binary search for the last checkpoint at or before the timestamp.
        let mut lo: usize = 0;
        let mut hi: usize = n;
        while hi - lo > 1
            invariant
                n == self@.len(),
                cps@ == self@,
                valid_checkpoints(self@),
                0 <= lo < hi <= n,
                self@[lo as int].timestamp <= current_timestamp,
                hi < n ==> current_timestamp < self@[hi as int].timestamp,
            decreases hi - lo,
        {
            let mid = lo + (hi - lo) / 2;
            if cps[mid].timestamp <= current_timestamp {
                lo = mid;
            } else {
                hi = mid;
            }
        }
        let checkpoint = cps[lo];
        if lo + 1 == n {
            proof {
                lemma_unlocked_after_end(self@, current_timestamp as int);
            }
            return checkpoint.balance;
        }
        let next = cps[lo + 1];
        proof {
            lemma_unlocked_in_segment(self@, lo as int, current_timestamp as int);
        }
        let total_duration = next.timestamp - checkpoint.timestamp;
        let passed_duration = current_timestamp - checkpoint.timestamp;
        checkpoint.balance + mul_div_floor(
            passed_duration,
            next.balance - checkpoint.balance,
            total_duration,
        )
    }

    /// Cuts the schedule down to a total of `new_total_balance`: the result
    /// follows the full schedule until that reaches the new total, with a
    /// last checkpoint whose timestamp is rounded up, so that it never
    /// unlocks faster than the full schedule.
    pub fn terminate(&mut self, new_total_balance: Balance)
        requires
            valid_checkpoints(old(self)@),
            new_total_balance <= total_of(old(self)@),
        ensures
            final(self)@ == truncated(old(self)@, new_total_balance as int),
            valid_checkpoints(final(self)@),
            total_of(final(self)@) == new_total_balance,
    {
        proof {
            lemma_truncated_never_ahead(self@, new_total_balance as int, 0);
        }
        if new_total_balance == 0 {
            *self = Schedule::new_unlocked(0);
            return;
        }
        let ghost cps = self@;
        let ghost len = cps.len() as int;
        let ghost v = new_total_balance as int;
        let mut n: usize = self.0.len();
        loop
            invariant
                cps == old(self)@,
                valid_checkpoints(cps),
                valid_checkpoints(truncated(cps, v)),
                0 < v <= total_of(cps),
                v == new_total_balance,
                len == cps.len(),
                2 <= n <= len,
                self@ == cps.subrange(0, n as int),
                cut_index(cps, v, len) == cut_index(cps, v, n as int),
                forall|j: int| n - 1 <= j < len ==> #[trigger] cps[j].balance >= v,
            decreases n,
        {
            let checkpoint = match self.0.pop() {
                Some(c) => c,
                None => {
                    return;
                },
            };
            n = n - 1;
            assert(self@ == cps.subrange(0, n as int));
            assert(checkpoint == cps[n as int]);
            let prev = self.0[n - 1];
            if prev.balance < new_total_balance {
                let timestamp_diff = checkpoint.timestamp - prev.timestamp;
                let balance_diff = checkpoint.balance - prev.balance;
                let required_balance_diff = new_total_balance - prev.balance;
                let new_timestamp = prev.timestamp + mul_div_ceil(
                    timestamp_diff,
                    required_balance_diff,
                    balance_diff,
                );
                self.0.push(Checkpoint { timestamp: new_timestamp, balance: new_total_balance });
                assert(self@ =~= truncated(cps, v));
                return;
            }
            if n < 2 {
                return;
            }
        }
    }

    /// Accepts when, at every checkpoint timestamp of either schedule, this
    /// (lockup) schedule has unlocked no more than `termination_schedule`.
    /// Both schedules are piecewise linear, so comparing them at the
    /// checkpoints is taken to compare them everywhere.
    pub fn assert_valid_termination_schedule(&self, termination_schedule: &Schedule) -> (r: Result<
        (),
        LockupError,
    >)
        requires
            valid_checkpoints(self@),
            valid_checkpoints(termination_schedule@),
        ensures
            r is Ok <==> lockup_behind(self@, termination_schedule@),
            match r {
                Ok(_) => true,
                Err(LockupError::ScheduleOrderingViolation { timestamp }) => ordering_violated_at(
                    self@,
                    termination_schedule@,
                    timestamp,
                ),
                Err(_) => false,
            },
    {
        let mut i: usize = 0;
        while i < self.0.len()
            invariant
                valid_checkpoints(self@),
                valid_checkpoints(termination_schedule@),
                i <= self@.len(),
                forall|a: int|
                    0 <= a < i ==> #[trigger] self@[a].balance <= unlocked_at(
                        termination_schedule@,
                        self@[a].timestamp as int,
                    ),
            decreases self@.len() - i,
        {
            let checkpoint = self.0[i];
            if checkpoint.balance > termination_schedule.unlocked_balance(checkpoint.timestamp) {
                assert(ordering_violated_at(self@, termination_schedule@, checkpoint.timestamp));
                return Err(LockupError::ScheduleOrderingViolation { timestamp: checkpoint.timestamp });
            }
            i = i + 1;
        }
        let mut j: usize = 0;
        while j < termination_schedule.0.len()
            invariant
                valid_checkpoints(self@),
                valid_checkpoints(termination_schedule@),
                j <= termination_schedule@.len(),
                forall|a: int|
                    0 <= a < self@.len() ==> #[trigger] self@[a].balance <= unlocked_at(
                        termination_schedule@,
                        self@[a].timestamp as int,
                    ),
                forall|b: int|
                    0 <= b < j ==> unlocked_at(self@, termination_schedule@[b].timestamp as int)
                        <= #[trigger] termination_schedule@[b].balance,
            decreases termination_schedule@.len() - j,
        {
            let checkpoint = termination_schedule.0[j];
            if checkpoint.balance < self.unlocked_balance(checkpoint.timestamp) {
                assert(ordering_violated_at(self@, termination_schedule@, checkpoint.timestamp));
                return Err(LockupError::ScheduleOrderingViolation { timestamp: checkpoint.timestamp });
            }
            j = j + 1;
        }
        Ok(())
    }

    /// The schedule's canonical binary form.
    pub fn to_bytes(&self) -> (r: Vec<u8>)
        requires
            self@.len() <= u32::MAX,
        ensures
            r@ == schedule_bytes(self@),
    {
        let mut out: Vec<u8> = Vec::new();
        push_le_bytes(&mut out, self.0.len() as u128, 4);
        let mut i: usize = 0;
        while i < self.0.len()
            invariant
                i <= self@.len() <= u32::MAX,
                out@ == le_bytes(self@.len() as nat, 4) + checkpoints_bytes(self@.subrange(0, i as int)),
            decreases self@.len() - i,
        {
            let c = self.0[i];
            let ghost before = out@;
            push_le_bytes(&mut out, c.timestamp as u128, 4);
            push_le_bytes(&mut out, c.balance, 16);
            proof {
                let pre = self@.subrange(0, i as int + 1);
                assert(pre.drop_last() =~= self@.subrange(0, i as int));
                assert(out@ =~= before + checkpoint_bytes(c));
            }
            i = i + 1;
        }
        assert(self@.subrange(0, self@.len() as int) =~= self@);
        out
    }

    /// The digest of the schedule's canonical binary form, used to commit to
    /// a schedule without disclosing it.
    pub fn hash(&self) -> (r: CryptoHash)
        requires
            self@.len() <= u32::MAX,
        ensures
            r@ == sha256_of(schedule_bytes(self@)),
    {
        let bytes = self.to_bytes();
        sha256(bytes.as_slice())
    }
}

} // verus!
