//! Crowd separation: the impulse that two overlapping agents exchange, and
//! what a whole pass over a population adds to each velocity.
use vstd::prelude::*;
use crate::enemy::{Agent, FAST_SPEED, RADIUS};
use crate::geometry::{
    coords_bounded, div_away, div_away_from_zero, floor_root, floor_sqrt, lemma_div_away_bound,
    lemma_floor_root_covers, norm_sq, square_len, Vec2, UNIT,
};

verus! {

/// Largest magnitude of one crowding impulse coordinate: half the top speed
/// of the fastest tier.
pub const MAX_IMPULSE: i64 = 300 * UNIT;
/// Largest population that crowding accepts.
pub const MAX_AGENTS: usize = 100000;

/// One coordinate (`x_axis` picks which) of the crowding impulse that an
/// agent at `p` with top speed `speed` receives from one at `q`: away from
/// `q`, proportional to the overlap `RADIUS - distance / 2` and to
/// `speed / (100 * UNIT)`. The distance is rounded down and the impulse away
/// from zero, so that any overlap, however small, pushes. Agents that do not
/// overlap, or that stand on the same spot, push nothing.
pub open spec fn impulse(p: Vec2, speed: int, q: Vec2, x_axis: bool) -> int {
    let dx = q.x - p.x;
    let dy = q.y - p.y;
    let dsq = norm_sq(dx, dy);
    if dsq == 0 || dsq >= 4 * RADIUS * RADIUS {
        0
    } else {
        let len = floor_root(dsq);
        let d = if x_axis {
            dx
        } else {
            dy
        };
        div_away(-d * ((2 * RADIUS - len) * speed), 200 * UNIT * len)
    }
}

/// What agent `k` gains from the crowding pairs it forms with the first `m`
/// agents as the later agent of the pair.
pub open spec fn crowd_gain(ag: Seq<Agent>, k: int, m: int, x_axis: bool) -> int
    decreases m,
{
    if m <= 0 {
        0
    } else {
        crowd_gain(ag, k, m - 1, x_axis) + impulse(
            ag[k].position,
            ag[k].enemy.enemy_speed as int,
            ag[m - 1].position,
            x_axis,
        )
    }
}

/// What agent `k` loses to the crowding pairs it forms with the agents after
/// it and before index `m`, as the earlier agent of the pair.
pub open spec fn crowd_loss(ag: Seq<Agent>, k: int, m: int, x_axis: bool) -> int
    decreases m,
{
    if m <= k + 1 || m <= 0 {
        0
    } else {
        crowd_loss(ag, k, m - 1, x_axis) + impulse(
            ag[m - 1].position,
            ag[m - 1].enemy.enemy_speed as int,
            ag[k].position,
            x_axis,
        )
    }
}

/// The change that one crowding pass makes to one coordinate of the velocity
/// of agent `k` in a population `ag`.
pub open spec fn crowd_delta(ag: Seq<Agent>, k: int, x_axis: bool) -> int {
    crowd_gain(ag, k, k, x_axis) - crowd_loss(ag, k, ag.len() as int, x_axis)
}

/// Sum of `crowd_gain(ag, k, k)` over the first `m` agents.
pub open spec fn gains_upto(ag: Seq<Agent>, m: int, x_axis: bool) -> int
    decreases m,
{
    if m <= 0 {
        0
    } else {
        gains_upto(ag, m - 1, x_axis) + crowd_gain(ag, m - 1, m - 1, x_axis)
    }
}

/// Sum of `crowd_loss(ag, k, n)` over the first `m` agents.
pub open spec fn losses_upto(ag: Seq<Agent>, m: int, n: int, x_axis: bool) -> int
    decreases m,
{
    if m <= 0 {
        0
    } else {
        losses_upto(ag, m - 1, n, x_axis) + crowd_loss(ag, m - 1, n, x_axis)
    }
}

/// Sum of `crowd_delta` over the first `m` agents.
pub open spec fn crowd_total(ag: Seq<Agent>, m: int, x_axis: bool) -> int
    decreases m,
{
    if m <= 0 {
        0
    } else {
        crowd_total(ag, m - 1, x_axis) + crowd_delta(ag, m - 1, x_axis)
    }
}

proof fn lemma_total_splits(ag: Seq<Agent>, m: int, x_axis: bool)
    requires
        0 <= m,
    ensures
        crowd_total(ag, m, x_axis) == gains_upto(ag, m, x_axis) - losses_upto(
            ag,
            m,
            ag.len() as int,
            x_axis,
        ),
    decreases m,
{
    if m > 0 {
        lemma_total_splits(ag, m - 1, x_axis);
    }
}

/// Adding agent `n` to the pairs adds to the losses of the first `m` agents
/// exactly what agent `n` gains from them.
proof fn lemma_losses_grow(ag: Seq<Agent>, m: int, n: int, x_axis: bool)
    requires
        0 <= m <= n,
    ensures
        losses_upto(ag, m, n + 1, x_axis) == losses_upto(ag, m, n, x_axis) + crowd_gain(
            ag,
            n,
            m,
            x_axis,
        ),
    decreases m,
{
    if m > 0 {
        lemma_losses_grow(ag, m - 1, n, x_axis);
    }
}

/// The crowding pass conserves momentum: every impulse one agent receives is
/// matched by its negation on the other agent of the pair, so the velocity
/// changes of a whole population sum to zero on each axis.
pub proof fn lemma_crowding_conserves_momentum(ag: Seq<Agent>, x_axis: bool)
    ensures
        crowd_total(ag, ag.len() as int, x_axis) == 0,
{
    lemma_total_splits(ag, ag.len() as int, x_axis);
    lemma_pair_sums_cancel(ag, ag.len() as int, x_axis);
}

proof fn lemma_pair_sums_cancel(ag: Seq<Agent>, n: int, x_axis: bool)
    requires
        0 <= n,
    ensures
        gains_upto(ag, n, x_axis) == losses_upto(ag, n, n, x_axis),
    decreases n,
{
    if n > 0 {
        lemma_pair_sums_cancel(ag, n - 1, x_axis);
        lemma_losses_grow(ag, n - 1, n - 1, x_axis);
        assert(crowd_loss(ag, n - 1, n, x_axis) == 0);
    }
}

/// The crowding impulse of a tier no faster than `FAST_SPEED` is at most
/// `MAX_IMPULSE` on each axis.
pub proof fn lemma_impulse_bounded(p: Vec2, speed: int, q: Vec2, x_axis: bool)
    requires
        0 <= speed <= FAST_SPEED,
    ensures
        -MAX_IMPULSE <= impulse(p, speed, q, x_axis) <= MAX_IMPULSE,
{
    let dx = q.x - p.x;
    let dy = q.y - p.y;
    let dsq = norm_sq(dx, dy);
    lemma_floor_root_covers(dx, dy);
    if !(dsq == 0 || dsq >= 4 * RADIUS * RADIUS) {
        lemma_overlap_root(dx, dy);
        let len = floor_root(dsq);
        let d = if x_axis {
            dx
        } else {
            dy
        };
        let k = (2 * RADIUS - len) * speed;
        let den = 200 * UNIT * len;
        assert(0 <= k <= 2 * RADIUS * FAST_SPEED) by (nonlinear_arith)
            requires
                0 <= 2 * RADIUS - len <= 2 * RADIUS,
                0 <= speed <= FAST_SPEED,
                k == (2 * RADIUS - len) * speed,
        ;
        let num = -d * k;
        assert(-len * (2 * RADIUS * FAST_SPEED) <= num <= len * (2 * RADIUS * FAST_SPEED))
            by (nonlinear_arith)
            requires
                -len <= d <= len,
                0 <= k <= 2 * RADIUS * FAST_SPEED,
                num == -d * k,
        ;
        assert(den > 0) by (nonlinear_arith)
            requires
                den == 200 * UNIT * len,
                UNIT == 1000,
                len > 0,
        ;
        lemma_div_away_bound(num, den);
        let r = div_away(num, den);
        assert(-MAX_IMPULSE <= r <= MAX_IMPULSE) by (nonlinear_arith)
            requires
                num >= 0 ==> 0 <= r && r * den <= num + den - 1,
                num <= 0 ==> r <= 0 && -r * den <= -num + den - 1,
                -len * (2 * RADIUS * FAST_SPEED) <= num <= len * (2 * RADIUS * FAST_SPEED),
                den == 200 * UNIT * len,
                len > 0,
                RADIUS == 50000,
                UNIT == 1000,
                FAST_SPEED == 600000,
                MAX_IMPULSE == 300000,
        ;
    }
}

/// Any overlap pushes: two agents on distinct spots less than `2 * RADIUS`
/// apart exchange a non-zero impulse whenever the receiving agent can move.
pub proof fn lemma_overlap_pushes(p: Vec2, speed: int, q: Vec2)
    requires
        0 < norm_sq(q.x - p.x, q.y - p.y) < 4 * RADIUS * RADIUS,
        speed > 0,
    ensures
        impulse(p, speed, q, true) != 0 || impulse(p, speed, q, false) != 0,
{
    let dx = q.x - p.x;
    let dy = q.y - p.y;
    lemma_overlap_root(dx, dy);
    let len = floor_root(norm_sq(dx, dy));
    let k = (2 * RADIUS - len) * speed;
    let den = 200 * UNIT * len;
    assert(k > 0) by (nonlinear_arith)
        requires
            2 * RADIUS - len > 0,
            speed > 0,
            k == (2 * RADIUS - len) * speed,
    ;
    assert(den > 0) by (nonlinear_arith)
        requires
            den == 200 * UNIT * len,
            UNIT == 1000,
            len > 0,
    ;
    if dx != 0 {
        assert(-dx * k != 0) by (nonlinear_arith)
            requires
                dx != 0,
                k > 0,
        ;
        lemma_div_away_bound(-dx * k, den);
    } else {
        assert(dy != 0) by (nonlinear_arith)
            requires
                dx == 0,
                dx * dx + dy * dy > 0,
        ;
        assert(-dy * k != 0) by (nonlinear_arith)
            requires
                dy != 0,
                k > 0,
        ;
        lemma_div_away_bound(-dy * k, den);
    }
}

/// Two overlapping agents are pushed apart: the later one receives a
/// non-zero change of velocity, and the earlier one exactly its negation.
pub proof fn lemma_pair_pushed_apart(ag: Seq<Agent>)
    requires
        ag.len() == 2,
        0 < norm_sq(ag[0].position.x - ag[1].position.x, ag[0].position.y - ag[1].position.y)
            < 4 * RADIUS * RADIUS,
        ag[1].enemy.enemy_speed > 0,
    ensures
        crowd_delta(ag, 0, true) == -crowd_delta(ag, 1, true),
        crowd_delta(ag, 0, false) == -crowd_delta(ag, 1, false),
        crowd_delta(ag, 1, true) != 0 || crowd_delta(ag, 1, false) != 0,
{
    let p = ag[1].position;
    let q = ag[0].position;
    assert(norm_sq(q.x - p.x, q.y - p.y) == norm_sq(p.x - q.x, p.y - q.y)) by (nonlinear_arith);
    lemma_overlap_pushes(p, ag[1].enemy.enemy_speed as int, q);
    assert(crowd_loss(ag, 0, 1, true) == 0);
    assert(crowd_loss(ag, 0, 1, false) == 0);
    assert(crowd_gain(ag, 1, 0, true) == 0);
    assert(crowd_gain(ag, 1, 0, false) == 0);
}

pub proof fn lemma_crowd_sums_bounded(ag: Seq<Agent>, k: int, m: int, x_axis: bool)
    requires
        0 <= k < ag.len(),
        0 <= m <= ag.len(),
        forall|i: int| 0 <= i < ag.len() ==> 0 <= (#[trigger] ag[i]).enemy.enemy_speed <= FAST_SPEED,
    ensures
        -MAX_IMPULSE * m <= crowd_gain(ag, k, m, x_axis) <= MAX_IMPULSE * m,
        -MAX_IMPULSE * m <= crowd_loss(ag, k, m, x_axis) <= MAX_IMPULSE * m,
    decreases m,
{
    if m > 0 {
        lemma_crowd_sums_bounded(ag, k, m - 1, x_axis);
        assert(0 <= ag[m - 1].enemy.enemy_speed <= FAST_SPEED);
        assert(0 <= ag[k].enemy.enemy_speed <= FAST_SPEED);
        lemma_impulse_bounded(ag[k].position, ag[k].enemy.enemy_speed as int, ag[m - 1].position, x_axis);
        lemma_impulse_bounded(
            ag[m - 1].position,
            ag[m - 1].enemy.enemy_speed as int,
            ag[k].position,
            x_axis,
        );
    }
}

/// Two agents that overlap stand less than `2 * RADIUS` apart on each axis,
/// and their distance, rounded down, is positive and below `2 * RADIUS`.
proof fn lemma_overlap_root(dx: int, dy: int)
    requires
        0 < norm_sq(dx, dy) < 4 * RADIUS * RADIUS,
    ensures
        0 < floor_root(norm_sq(dx, dy)) < 2 * RADIUS,
        -floor_root(norm_sq(dx, dy)) <= dx <= floor_root(norm_sq(dx, dy)),
        -floor_root(norm_sq(dx, dy)) <= dy <= floor_root(norm_sq(dx, dy)),
{
    lemma_floor_root_covers(dx, dy);
    let len = floor_root(norm_sq(dx, dy));
    if len >= 2 * RADIUS {
        assert(len * len >= 4 * RADIUS * RADIUS) by (nonlinear_arith)
            requires
                len >= 2 * RADIUS,
                RADIUS >= 0,
        ;
    }
}

/// The crowding impulse that an agent at `p` with top speed `speed` receives
/// from one at `q`, on both axes.
pub fn crowd_impulse(p: Vec2, speed: i64, q: Vec2) -> (r: (i64, i64))
    requires
        coords_bounded(p),
        coords_bounded(q),
        0 <= speed <= FAST_SPEED,
    ensures
        r.0 == impulse(p, speed as int, q, true),
        r.1 == impulse(p, speed as int, q, false),
        0 < norm_sq(q.x - p.x, q.y - p.y) < 4 * RADIUS * RADIUS && speed > 0 ==> r.0 != 0
            || r.1 != 0,
{
    let dx = (q.x as i128) - (p.x as i128);
    let dy = (q.y as i128) - (p.y as i128);
    let dsq = square_len(dx, dy);
    let reach_sq: i128 = 10_000_000_000;
    assert(RADIUS == 50000);
    assert(reach_sq == 4 * RADIUS * RADIUS) by (nonlinear_arith)
        requires
            RADIUS == 50000,
            reach_sq == 10_000_000_000,
    ;
    if dsq == 0 || dsq >= reach_sq {
        return (0, 0);
    }
    let len = floor_sqrt(dsq as u128) as i128;
    proof {
        lemma_overlap_root(dx as int, dy as int);
        if speed > 0 {
            lemma_overlap_pushes(p, speed as int, q);
        }
        lemma_impulse_bounded(p, speed as int, q, true);
        lemma_impulse_bounded(p, speed as int, q, false);
    }
    let overlap = 2 * (RADIUS as i128) - len;
    assert(0 <= overlap * speed <= 100000 * 600000) by (nonlinear_arith)
        requires
            0 <= overlap <= 100000,
            0 <= speed <= 600000,
    ;
    let k = overlap * (speed as i128);
    assert(-100000 * 60_000_000_000 <= -dx * k <= 100000 * 60_000_000_000
        && -100000 * 60_000_000_000 <= -dy * k <= 100000 * 60_000_000_000) by (nonlinear_arith)
        requires
            -100000 <= dx <= 100000,
            -100000 <= dy <= 100000,
            0 <= k <= 60_000_000_000,
    ;
    assert(0 < 200 * UNIT * len <= 200 * 1000 * 100000) by (nonlinear_arith)
        requires
            0 < len <= 100000,
            UNIT == 1000,
    ;
    let den = 200 * (UNIT as i128) * len;
    let rx = div_away_from_zero(-dx * k, den);
    let ry = div_away_from_zero(-dy * k, den);
    (rx as i64, ry as i64)
}

} // verus!
