use vstd::prelude::*;

use crate::button::ButtonInfo;
use crate::geometry::Pos2;

verus! {

/// A closed path of waypoints, walked at `speed` layout units per second.
pub struct MovingDef {
    pub path: Vec<Pos2>,
    pub speed: u64,
}

/// Which waypoint of the path a moving button is heading for.
#[derive(Clone, Copy, Debug, PartialEq, Eq, Structural)]
pub struct MovingState {
    pub target_index: usize,
}

/// The largest `r` with `r * r <= n`.
pub open spec fn floor_sqrt(n: nat) -> nat
    decreases n,
{
    if n == 0 {
        0
    } else {
        let r = floor_sqrt((n - 1) as nat);
        if (r + 1) * (r + 1) <= n {
            r + 1
        } else {
            r
        }
    }
}

pub proof fn lemma_floor_sqrt(n: nat)
    ensures
        floor_sqrt(n) * floor_sqrt(n) <= n,
        n < (floor_sqrt(n) + 1) * (floor_sqrt(n) + 1),
    decreases n,
{
    if n > 0 {
        lemma_floor_sqrt((n - 1) as nat);
        let r = floor_sqrt((n - 1) as nat);
        let s = floor_sqrt(n);
        if (r + 1) * (r + 1) <= n {
            assert(s == r + 1);
            assert(s * s <= n && n < (s + 1) * (s + 1)) by (nonlinear_arith)
                requires
                    s == r + 1,
                    (r + 1) * (r + 1) <= n,
                    n - 1 < (r + 1) * (r + 1),
            ;
        } else {
            assert(s == r);
            assert(s * s <= n && n < (s + 1) * (s + 1)) by (nonlinear_arith)
                requires
                    s == r,
                    r * r <= n - 1,
                    !((r + 1) * (r + 1) <= n),
            ;
        }
    } else {
        let s = floor_sqrt(n);
        assert(s == 0);
        assert(s * s <= n && n < (s + 1) * (s + 1)) by (nonlinear_arith)
            requires
                s == 0,
                n == 0,
        ;
    }
}

pub proof fn lemma_floor_sqrt_unique(n: nat, r: nat)
    requires
        r * r <= n,
        n < (r + 1) * (r + 1),
    ensures
        floor_sqrt(n) == r,
{
    lemma_floor_sqrt(n);
    let s = floor_sqrt(n);
    if s < r {
        assert((s + 1) * (s + 1) <= r * r) by (nonlinear_arith)
            requires
                s + 1 <= r,
        ;
    } else if r < s {
        assert((r + 1) * (r + 1) <= s * s) by (nonlinear_arith)
            requires
                r + 1 <= s,
        ;
    }
}

/// One coordinate after a step: the offset `d` towards the target scaled by `m / r`,
/// rounded away from zero so that every step makes progress.
pub open spec fn step_axis(c: int, d: int, m: int, r: int) -> int {
    if d >= 0 {
        c + (d * m + r - 1) / r
    } else {
        c - ((-d) * m + r - 1) / r
    }
}

pub open spec fn dist_sq(a: Pos2, b: Pos2) -> int {
    (b.x - a.x) * (b.x - a.x) + (b.y - a.y) * (b.y - a.y)
}

/// Where a point at `current` ends up after moving about `m` units towards `target`
/// along the straight line: exactly on `target` when it is within reach. Each axis
/// takes its share `|d| * m / r` of the step (`r` the distance rounded down), rounded
/// up, so a step is never longer than `m` along either axis and exceeds the exact share
/// by less than one unit per axis; its straight-line length may exceed `m` by that
/// rounding.
pub open spec fn move_towards_spec(current: Pos2, target: Pos2, m: nat) -> Pos2 {
    let d2 = dist_sq(current, target);
    if d2 <= m * m {
        target
    } else {
        let r = floor_sqrt(d2 as nat) as int;
        Pos2 {
            x: step_axis(current.x as int, target.x - current.x, m as int, r) as i32,
            y: step_axis(current.y as int, target.y - current.y, m as int, r) as i32,
        }
    }
}

pub open spec fn between(a: int, v: int, b: int) -> bool {
    (a <= v <= b) || (b <= v <= a)
}

pub open spec fn abs(v: int) -> int {
    if v < 0 {
        -v
    } else {
        v
    }
}

/// The number of unit steps along the axes between two points.
pub open spec fn manhattan(a: Pos2, b: Pos2) -> int {
    abs(b.x - a.x) + abs(b.y - a.y)
}

proof fn lemma_step_axis(c: int, d: int, m: int, r: int)
    requires
        1 <= r,
        0 <= m <= r,
    ensures
        between(c, step_axis(c, d, m, r), c + d),
        d != 0 && m >= 1 ==> step_axis(c, d, m, r) != c,
        abs(step_axis(c, d, m, r) - c) * r < abs(d) * m + r,
        abs(d) <= r ==> abs(step_axis(c, d, m, r) - c) <= m,
{
    let e = abs(d);
    let q = (e * m + r - 1) / r;
    assert(0 <= e * m) by (nonlinear_arith)
        requires
            e >= 0,
            m >= 0,
    ;
    assert(e * m + r - 1 < (e + 1) * r) by (nonlinear_arith)
        requires
            m <= r,
            e >= 0,
    ;
    assert(q * r <= e * m + r - 1) by {
        vstd::arithmetic::div_mod::lemma_fundamental_div_mod(e * m + r - 1, r);
    }
    assert(q <= e) by (nonlinear_arith)
        requires
            q * r < (e + 1) * r,
            r >= 1,
            q * r <= e * m + r - 1,
            e * m + r - 1 < (e + 1) * r,
    ;
    assert(q >= 0) by {
        vstd::arithmetic::div_mod::lemma_div_pos_is_pos(e * m + r - 1, r);
    }
    assert(abs(step_axis(c, d, m, r) - c) == q);
    if e <= r {
        assert(q <= m) by (nonlinear_arith)
            requires
                e <= r,
                r >= 1,
                m >= 0,
                e >= 0,
                q * r <= e * m + r - 1,
        ;
    }
    if e >= 1 && m >= 1 {
        assert(e * m >= 1) by (nonlinear_arith)
            requires
                e >= 1,
                m >= 1,
        ;
        vstd::arithmetic::div_mod::lemma_div_is_ordered(r, e * m + r - 1, r);
        vstd::arithmetic::div_mod::lemma_div_by_self(r);
    }
}

/// A step never passes its target on either axis, and from any other point it brings
/// the mover strictly closer, counted in unit steps along the axes. Along each axis it
/// goes at most `m`, and less than one unit further than the exact share
/// `|d| * m / r` of the straight-line step.
pub proof fn lemma_move_towards_progress(current: Pos2, target: Pos2, m: nat)
    requires
        m >= 1,
    ensures
        abs(move_towards_spec(current, target, m).x - current.x) <= m,
        abs(move_towards_spec(current, target, m).y - current.y) <= m,
        dist_sq(current, target) > m * m ==> abs(move_towards_spec(current, target, m).x - current.x)
            * floor_sqrt(dist_sq(current, target) as nat) < abs(target.x - current.x) * m
            + floor_sqrt(dist_sq(current, target) as nat),
        dist_sq(current, target) > m * m ==> abs(move_towards_spec(current, target, m).y - current.y)
            * floor_sqrt(dist_sq(current, target) as nat) < abs(target.y - current.y) * m
            + floor_sqrt(dist_sq(current, target) as nat),
        between(current.x as int, move_towards_spec(current, target, m).x as int, target.x as int),
        between(current.y as int, move_towards_spec(current, target, m).y as int, target.y as int),
        current != target ==> manhattan(move_towards_spec(current, target, m), target) < manhattan(
            current,
            target,
        ),
        current == target ==> move_towards_spec(current, target, m) == target,
{
    let d2 = dist_sq(current, target);
    let dx = target.x - current.x;
    let dy = target.y - current.y;
    assert(dx * dx >= 0 && dy * dy >= 0) by (nonlinear_arith);
    if current == target {
        assert(dx == 0 && dy == 0);
        assert(d2 == 0) by (nonlinear_arith)
            requires
                dx == 0,
                dy == 0,
                d2 == dx * dx + dy * dy,
        ;
    }
    if d2 > m * m {
        let r = floor_sqrt(d2 as nat);
        lemma_floor_sqrt(d2 as nat);
        assert(m <= r) by (nonlinear_arith)
            requires
                m * m < d2,
                d2 < (r + 1) * (r + 1),
                r >= 0,
                m >= 0,
        ;
        assert(r >= 1) by (nonlinear_arith)
            requires
                m <= r,
                m >= 1,
        ;
        assert(abs(dx) <= r && abs(dy) <= r) by (nonlinear_arith)
            requires
                d2 == dx * dx + dy * dy,
                dx * dx >= 0,
                dy * dy >= 0,
                d2 < (r + 1) * (r + 1),
                r >= 0,
                abs(dx) == if dx < 0 { -dx } else { dx },
                abs(dy) == if dy < 0 { -dy } else { dy },
        ;
        lemma_step_axis(current.x as int, dx, m as int, r as int);
        lemma_step_axis(current.y as int, dy, m as int, r as int);
    } else {
        assert(abs(dx) <= m && abs(dy) <= m) by (nonlinear_arith)
            requires
                d2 == dx * dx + dy * dy,
                dx * dx >= 0,
                dy * dy >= 0,
                d2 <= m * m,
                m >= 0,
                abs(dx) == if dx < 0 { -dx } else { dx },
                abs(dy) == if dy < 0 { -dy } else { dy },
        ;
    }
}

/// The largest `r` with `r * r <= n`, by bisection.
fn isqrt(n: u128) -> (r: u128)
    requires
        n < 0x4_0000_0000_0000_0000,
    ensures
        r == floor_sqrt(n as nat),
        r < 0x2_0000_0000,
{
    let mut lo: u128 = 0;
    let mut hi: u128 = 0x2_0000_0000;
    assert(hi * hi == 0x4_0000_0000_0000_0000);
    while lo + 1 < hi
        invariant
            lo < hi <= 0x2_0000_0000,
            lo * lo <= n,
            n < hi * hi,
        decreases hi - lo,
    {
        let mid = lo + (hi - lo) / 2;
        assert(mid * mid <= 0x4_0000_0000_0000_0000) by (nonlinear_arith)
            requires
                mid < 0x2_0000_0000,
        ;
        if mid * mid <= n {
            lo = mid;
        } else {
            hi = mid;
        }
    }
    proof {
        lemma_floor_sqrt_unique(n as nat, lo as nat);
    }
    lo
}

/// Moves `current` towards `target` by about `max_distance` units, landing exactly on
/// `target` instead of passing it.
pub fn move_towards(current: Pos2, target: Pos2, max_distance: u64) -> (r: Pos2)
    ensures
        r == move_towards_spec(current, target, max_distance as nat),
{
    let dx: i128 = target.x as i128 - current.x as i128;
    let dy: i128 = target.y as i128 - current.y as i128;
    assert(dx * dx <= 0x1_0000_0000_0000_0000) by (nonlinear_arith)
        requires
            -0x1_0000_0000 <= dx <= 0x1_0000_0000,
    ;
    assert(dy * dy <= 0x1_0000_0000_0000_0000) by (nonlinear_arith)
        requires
            -0x1_0000_0000 <= dy <= 0x1_0000_0000,
    ;
    assert(dx * dx >= 0 && dy * dy >= 0) by (nonlinear_arith);
    let d2: i128 = dx * dx + dy * dy;
    let ghost m = max_distance as nat;
    assert(d2 == dist_sq(current, target));
    if max_distance >= 0x2_0000_0000 {
        assert(m * m >= 0x4_0000_0000_0000_0000) by (nonlinear_arith)
            requires
                m >= 0x2_0000_0000,
        ;
        return target;
    }
    let mi: i128 = max_distance as i128;
    assert(mi * mi < 0x4_0000_0000_0000_0000) by (nonlinear_arith)
        requires
            0 <= mi < 0x2_0000_0000,
    ;
    if d2 <= mi * mi {
        return target;
    }
    let r = isqrt(d2 as u128) as i128;
    proof {
        lemma_floor_sqrt(d2 as nat);
        assert(mi <= r) by (nonlinear_arith)
            requires
                mi * mi < d2,
                d2 < (r + 1) * (r + 1),
                r >= 0,
                mi >= 0,
        ;
        assert(r >= 1) by (nonlinear_arith)
            requires
                mi * mi < d2,
                d2 < (r + 1) * (r + 1),
                r >= 0,
        ;
        assert(r < 0x2_0000_0000) by (nonlinear_arith)
            requires
                r * r <= d2,
                d2 < 0x4_0000_0000_0000_0000,
                r >= 0,
        ;
        lemma_step_axis(current.x as int, dx as int, mi as int, r as int);
        lemma_step_axis(current.y as int, dy as int, mi as int, r as int);
        assert(dx * mi <= 0x2_0000_0000_0000_0000) by (nonlinear_arith)
            requires
                -0x1_0000_0000 <= dx <= 0x1_0000_0000,
                0 <= mi < 0x2_0000_0000,
        ;
        assert(dx * mi >= -0x2_0000_0000_0000_0000) by (nonlinear_arith)
            requires
                -0x1_0000_0000 <= dx <= 0x1_0000_0000,
                0 <= mi < 0x2_0000_0000,
        ;
        assert((-dx) * mi <= 0x2_0000_0000_0000_0000) by (nonlinear_arith)
            requires
                -0x1_0000_0000 <= dx <= 0x1_0000_0000,
                0 <= mi < 0x2_0000_0000,
        ;
        assert(dy * mi <= 0x2_0000_0000_0000_0000) by (nonlinear_arith)
            requires
                -0x1_0000_0000 <= dy <= 0x1_0000_0000,
                0 <= mi < 0x2_0000_0000,
        ;
        assert(dy * mi >= -0x2_0000_0000_0000_0000) by (nonlinear_arith)
            requires
                -0x1_0000_0000 <= dy <= 0x1_0000_0000,
                0 <= mi < 0x2_0000_0000,
        ;
        assert((-dy) * mi <= 0x2_0000_0000_0000_0000) by (nonlinear_arith)
            requires
                -0x1_0000_0000 <= dy <= 0x1_0000_0000,
                0 <= mi < 0x2_0000_0000,
        ;
    }
    let x: i128 = if dx >= 0 {
        current.x as i128 + (dx * mi + r - 1) / r
    } else {
        current.x as i128 - ((-dx) * mi + r - 1) / r
    };
    let y: i128 = if dy >= 0 {
        current.y as i128 + (dy * mi + r - 1) / r
    } else {
        current.y as i128 - ((-dy) * mi + r - 1) / r
    };
    Pos2 { x: x as i32, y: y as i32 }
}

/// How far a mover at `speed` units per second may go in `delta_ms` milliseconds.
pub open spec fn step_distance(speed: u64, delta_ms: u64) -> nat {
    let d = speed as nat * delta_ms as nat / 1000;
    if d > u64::MAX {
        u64::MAX as nat
    } else {
        d
    }
}

/// Where a mover stands and which waypoint it heads for after one frame with reach `m`.
pub open spec fn mover_step(path: Seq<Pos2>, index: int, pos: Pos2, m: nat) -> (Pos2, int) {
    let next = move_towards_spec(pos, path[index], m);
    if next == path[index] {
        (next, (index + 1) % path.len() as int)
    } else {
        (next, index)
    }
}

/// The mover after `n` frames with reach `m` each.
pub open spec fn mover_frames(path: Seq<Pos2>, index: int, pos: Pos2, m: nat, n: nat) -> (
    Pos2,
    int,
)
    decreases n,
{
    if n == 0 {
        (pos, index)
    } else {
        let (p, i) = mover_step(path, index, pos, m);
        mover_frames(path, i, p, m, (n - 1) as nat)
    }
}

/// Moves one button one frame along its path: it heads for its current waypoint, and
/// once it stands exactly on it, it turns to the next one, after the last one the first.
pub fn button_move(delta_ms: u64, def: &MovingDef, state: &mut MovingState, info: &mut ButtonInfo)
    requires
        def.path@.len() > 0,
        old(state).target_index < def.path@.len(),
    ensures
        (final(info).position.min, final(state).target_index as int) == mover_step(
            def.path@,
            old(state).target_index as int,
            old(info).position.min,
            step_distance(def.speed, delta_ms),
        ),
        final(state).target_index < def.path@.len(),
        final(info).position.width == old(info).position.width,
        final(info).position.height == old(info).position.height,
        final(info).text@ == old(info).text@,
        final(info).visible == old(info).visible,
{
    assert(def.speed as u128 * delta_ms as u128 <= u64::MAX as u128 * u64::MAX as u128)
        by (nonlinear_arith);
    let wide: u128 = def.speed as u128 * delta_ms as u128 / 1000;
    let m: u64 = if wide > u64::MAX as u128 {
        u64::MAX
    } else {
        wide as u64
    };
    let target = def.path[state.target_index];
    let new_pos = move_towards(info.position.min, target, m);
    info.position = info.position.moved_to(new_pos);
    if new_pos == target {
        let n = def.path.len();
        state.target_index = (state.target_index + 1) % n;
    }
}

/// A mover with a reach of at least one unit per frame arrives exactly on the waypoint
/// it heads for within as many frames as there are unit steps to it (one frame at
/// least), and at that frame turns to the next waypoint of the path.
pub proof fn lemma_mover_reaches_waypoint(path: Seq<Pos2>, index: int, pos: Pos2, m: nat)
    requires
        path.len() > 0,
        0 <= index < path.len(),
        m >= 1,
    ensures
        exists|k: nat|
            1 <= k <= 1 + manhattan(pos, path[index]) && #[trigger] mover_frames(
                path,
                index,
                pos,
                m,
                k,
            ) == (path[index], (index + 1) % path.len() as int),
    decreases manhattan(pos, path[index]),
{
    lemma_move_towards_progress(pos, path[index], m);
    let next = move_towards_spec(pos, path[index], m);
    let target = path[index];
    let goal = (target, (index + 1) % path.len() as int);
    if next == target {
        assert(mover_frames(path, goal.1, target, m, 0) == goal);
        assert(mover_frames(path, index, pos, m, 1) == goal);
    } else {
        assert(manhattan(next, target) < manhattan(pos, target));
        lemma_mover_reaches_waypoint(path, index, next, m);
        let k = choose|k: nat|
            1 <= k <= 1 + manhattan(next, path[index]) && #[trigger] mover_frames(
                path,
                index,
                next,
                m,
                k,
            ) == goal;
        assert(mover_frames(path, index, pos, m, k + 1) == goal);
    }
}

} // verus!
