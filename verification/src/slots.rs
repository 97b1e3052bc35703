use vstd::prelude::*;
use vstd::arithmetic::div_mod::{lemma_fundamental_div_mod, lemma_mod_bound, lemma_mod_multiples_basic};
use crate::cron::{
    contains_zero_step, cron_expression_valid, cron_is_valid, cron_next, cron_next_after, has_zero_step,
    next_after_panics, next_after_would_panic,
};
use crate::types::{Boundary, BoundarySpec, Env, Interval, SlotType};

verus! {

// ---------------------------------------------------------------------------
// The model
// ---------------------------------------------------------------------------

/// The height that opens the window, when the window opens on a height.
pub open spec fn start_height(boundary: Boundary) -> Option<u64> {
    match boundary.start {
        Some(BoundarySpec::Height(id)) => Some(id),
        _ => None,
    }
}

/// The height that closes the window, when the window closes on a height.
pub open spec fn end_height(boundary: Boundary) -> Option<u64> {
    match boundary.end {
        Some(BoundarySpec::Height(id)) => Some(id),
        _ => None,
    }
}

/// Block schedules accept a window that closes on a height or not at all.
pub open spec fn end_is_height_or_open(boundary: Boundary) -> bool {
    !(boundary.end matches Some(BoundarySpec::Time(_)))
}

/// The window has closed: it ends on a height below the current one.
pub open spec fn window_expired(height: u64, boundary: Boundary) -> bool {
    match end_height(boundary) {
        Some(id) => height > id,
        None => false,
    }
}

/// The height after which a `Once` or `Immediate` task is due: one below the
/// start of the window when the window has not opened yet, else the current height.
pub open spec fn limited_base(height: u64, boundary: Boundary) -> int {
    match start_height(boundary) {
        Some(id) => if height < id { id - 1 } else { height as int },
        None => height as int,
    }
}

/// The next block of a `Once` or `Immediate` task: 0 once the window has
/// closed, the end of the window when the base lies past it, else the block after the base.
pub open spec fn next_block_limited(height: u64, boundary: Boundary) -> int {
    let next = limited_base(height, boundary);
    match end_height(boundary) {
        Some(id) => if height > id {
            0
        } else if next > id {
            id as int
        } else {
            next + 1
        },
        None => next + 1,
    }
}

/// `x` rounded down to a multiple of `step`.
pub open spec fn round_down(x: int, step: int) -> int {
    x - x % step
}

/// `x` rounded up to a multiple of `step`.
pub open spec fn round_up(x: int, step: int) -> int {
    if x % step > 0 { x - x % step + step } else { x }
}

/// The first multiple of `step` above the current height, or, while the window
/// has not opened, the first multiple of `step` at or after its start.
pub open spec fn offset_base(height: u64, boundary: Boundary, step: u64) -> int {
    let modulo_block = round_down(height as int, step as int) + step;
    match start_height(boundary) {
        Some(id) => if height < id { round_up(id as int, step as int) } else { modulo_block },
        None => modulo_block,
    }
}

/// The next block of a `Block(step)` task: 0 once the window has closed, the
/// last multiple of `step` in the window when the base lies past it, else the base.
pub open spec fn next_block_by_offset(height: u64, boundary: Boundary, step: u64) -> int {
    let next = offset_base(height, boundary, step);
    match end_height(boundary) {
        Some(id) => {
            let end = round_down(id as int, step as int);
            if height > id {
                0
            } else if next > end {
                end
            } else {
                next
            }
        },
        None => next,
    }
}

/// Every intermediate value of the computation of `next_block_by_offset` fits in a `u64`.
pub open spec fn offset_fits(height: u64, boundary: Boundary, step: u64) -> bool {
    &&& round_down(height as int, step as int) + step <= u64::MAX
    &&& match start_height(boundary) {
        Some(id) => height < id ==> round_up(id as int, step as int) <= u64::MAX,
        None => true,
    }
}

/// The time from which a `Cron` task looks for its next firing: the start
/// of the window while it lies ahead, else the time of the current block.
pub open spec fn cron_base(env: Env, boundary: Boundary) -> u64 {
    match boundary.start {
        Some(BoundarySpec::Time(ts)) => if env.block.time_nanos < ts { ts } else { env.block.time_nanos },
        _ => env.block.time_nanos,
    }
}

impl Interval {
    /// The inputs on which `next` computes a slot: block schedules need a window
    /// that does not close on a time, a nonzero step, and results that fit in a
    /// `u64`; a cron schedule needs a valid expression that fires again.
    pub open spec fn next_defined(&self, env: Env, boundary: Boundary) -> bool {
        match self {
            Interval::Once | Interval::Immediate => {
                &&& end_is_height_or_open(boundary)
                &&& next_block_limited(env.block.height, boundary) <= u64::MAX
            },
            Interval::Block(step) => {
                &&& *step > 0
                &&& end_is_height_or_open(boundary)
                &&& offset_fits(env.block.height, boundary, *step)
            },
            Interval::Cron(crontab) => {
                &&& !has_zero_step(crontab@)
                &&& cron_expression_valid(crontab@)
                &&& !next_after_panics(crontab@, cron_base(env, boundary))
                &&& cron_next_after(crontab@, cron_base(env, boundary)) is Some
            },
        }
    }

    /// The slot that `next` computes.
    pub open spec fn next_slot(&self, env: Env, boundary: Boundary) -> (int, SlotType) {
        match self {
            Interval::Once | Interval::Immediate => (next_block_limited(env.block.height, boundary), SlotType::Block),
            Interval::Block(step) => (next_block_by_offset(env.block.height, boundary, *step), SlotType::Block),
            Interval::Cron(crontab) => (cron_next_after(crontab@, cron_base(env, boundary)).unwrap() as int, SlotType::Cron),
        }
    }

    /// Whether the interval can be scheduled: always, but for a cron
    /// expression that the parser rejects or that has a step of zero.
    pub open spec fn valid(&self) -> bool {
        match self {
            Interval::Cron(crontab) => !has_zero_step(crontab@) && cron_expression_valid(crontab@),
            _ => true,
        }
    }
}

/// The remainder of a natural number is below both the divisor and the number.
proof fn lemma_rem_bounds(x: int, m: int)
    requires
        0 <= x,
        0 < m,
    ensures
        0 <= x % m < m,
        x % m <= x,
{
    lemma_mod_bound(x, m);
    lemma_fundamental_div_mod(x, m);
    assert(x / m >= 0) by (nonlinear_arith)
        requires
            0 <= x,
            0 < m,
    {
    }
    assert(m * (x / m) >= 0) by (nonlinear_arith)
        requires
            x / m >= 0,
            0 < m,
    {
    }
}

/// Rounding down and up to a multiple of `step` lands on multiples of `step`
/// within `step` of `x`.
proof fn lemma_rounding(x: int, step: int)
    requires
        0 <= x,
        0 < step,
    ensures
        round_down(x, step) % step == 0,
        (round_down(x, step) + step) % step == 0,
        round_down(x, step) <= x < round_down(x, step) + step,
        round_up(x, step) % step == 0,
        x <= round_up(x, step) < x + step,
        round_up(x, step) == round_down(x, step) || round_up(x, step) == round_down(x, step) + step,
{
    lemma_rem_bounds(x, step);
    lemma_fundamental_div_mod(x, step);
    let q = x / step;
    assert(round_down(x, step) == q * step) by (nonlinear_arith)
        requires
            x == step * q + x % step,
            round_down(x, step) == x - x % step,
    {
    }
    lemma_mod_multiples_basic(q, step);
    assert(round_down(x, step) + step == (q + 1) * step) by (nonlinear_arith)
        requires
            round_down(x, step) == q * step,
    {
    }
    lemma_mod_multiples_basic(q + 1, step);
}

// ---------------------------------------------------------------------------
// Laws
// ---------------------------------------------------------------------------

/// `Once` and `Immediate` tasks are due at the same slot.
pub proof fn lemma_once_and_immediate_agree(env: Env, boundary: Boundary)
    ensures
        Interval::Once.next_defined(env, boundary) == Interval::Immediate.next_defined(env, boundary),
        Interval::Once.next_slot(env, boundary) == Interval::Immediate.next_slot(env, boundary),
{
}

/// An interval that has a next slot is valid; only a cron interval can be invalid.
pub proof fn lemma_scheduled_intervals_are_valid(interval: Interval, env: Env, boundary: Boundary)
    ensures
        interval.next_defined(env, boundary) ==> interval.valid(),
        !(interval is Cron) ==> interval.valid(),
{
}

/// Once the window has closed, a block schedule yields the height 0.
pub proof fn lemma_expired_window_yields_zero(height: u64, boundary: Boundary, step: u64)
    requires
        window_expired(height, boundary),
    ensures
        next_block_limited(height, boundary) == 0,
        next_block_by_offset(height, boundary, step) == 0,
{
}

/// A `Once` or `Immediate` task in an open-ended window is due at the block
/// after the current one, or at the start of the window if that lies further ahead.
pub proof fn lemma_limited_open_end(height: u64, boundary: Boundary)
    requires
        end_height(boundary) is None,
    ensures
        next_block_limited(height, boundary) == match start_height(boundary) {
            Some(id) => if id > height + 1 { id as int } else { height + 1 },
            None => height + 1,
        },
{
}

/// While the window is open, a `Once` or `Immediate` task is due no earlier
/// than the current block and no later than one block past the window's end.
pub proof fn lemma_limited_within_window(height: u64, boundary: Boundary)
    requires
        !window_expired(height, boundary),
    ensures
        next_block_limited(height, boundary) >= height,
        end_height(boundary) matches Some(id) ==> next_block_limited(height, boundary) <= id + 1,
{
}

/// A `Block(step)` task is always due at a multiple of `step`.
pub proof fn lemma_offset_is_multiple(height: u64, boundary: Boundary, step: u64)
    requires
        step > 0,
    ensures
        next_block_by_offset(height, boundary, step) % (step as int) == 0,
{
    lemma_rounding(height as int, step as int);
    if let Some(id) = start_height(boundary) {
        lemma_rounding(id as int, step as int);
    }
    if let Some(id) = end_height(boundary) {
        lemma_rounding(id as int, step as int);
    }
    assert(0int % (step as int) == 0);
}

/// In an open-ended window, a `Block(step)` task is due at the first multiple
/// of `step` that lies after the current block and not before the window's start.
pub proof fn lemma_offset_first_multiple(height: u64, boundary: Boundary, step: u64)
    requires
        step > 0,
        end_height(boundary) is None,
    ensures
        ({
            let next = next_block_by_offset(height, boundary, step);
            let earliest = match start_height(boundary) {
                Some(id) => if id > height { id as int } else { height + 1 },
                None => height + 1,
            };
            &&& next % (step as int) == 0
            &&& earliest <= next
            &&& next < earliest + step
        }),
{
    lemma_rounding(height as int, step as int);
    if let Some(id) = start_height(boundary) {
        lemma_rounding(id as int, step as int);
    }
}

/// In a window that closes at `e` and has not closed yet, a `Block(step)` task
/// is due at the first multiple of `step` after the current block (or at or
/// after the window's start, while that lies ahead) when that multiple lies
/// in the window, and else at the window's last multiple of `step`: the
/// result is a multiple of `step`, at most `e`, below `earliest + step`, and
/// either at least `earliest` or within `step` of `e`.
pub proof fn lemma_offset_closing_window(height: u64, boundary: Boundary, step: u64)
    requires
        step > 0,
        end_height(boundary) is Some,
        height <= end_height(boundary)->0,
    ensures
        ({
            let next = next_block_by_offset(height, boundary, step);
            let e = end_height(boundary)->0 as int;
            let earliest = match start_height(boundary) {
                Some(s) => if s > height { s as int } else { height + 1 },
                None => height + 1,
            };
            &&& next % (step as int) == 0
            &&& next <= e
            &&& next < earliest + step
            &&& (next >= earliest || next > e - step)
        }),
{
    let e = end_height(boundary)->0;
    lemma_rounding(height as int, step as int);
    lemma_rounding(e as int, step as int);
    if let Some(s) = start_height(boundary) {
        lemma_rounding(s as int, step as int);
    }
}

/// In a window that closes at `e` and has not closed yet, a `Once` or
/// `Immediate` task is due at the block after the current one, or at the
/// window's start while that lies ahead; only when that lies more than one
/// block past `e` is it due at `e`.
pub proof fn lemma_limited_closing_window(height: u64, boundary: Boundary)
    requires
        end_height(boundary) is Some,
        height <= end_height(boundary)->0,
    ensures
        ({
            let e = end_height(boundary)->0 as int;
            let earliest = match start_height(boundary) {
                Some(s) => if s > height { s as int } else { height + 1 },
                None => height + 1,
            };
            next_block_limited(height, boundary) == if earliest <= e + 1 { earliest } else { e }
        }),
{
}

/// A cron task looks for its next firing from the window's start while that
/// lies ahead of the current block time, and from the block time otherwise.
pub proof fn lemma_cron_searches_from_now_or_start(crontab: String, env: Env, boundary: Boundary)
    ensures
        Interval::Cron(crontab).next_slot(env, boundary).0 == cron_next_after(
            crontab@,
            match boundary.start {
                Some(BoundarySpec::Time(ts)) => if ts > env.block.time_nanos { ts } else { env.block.time_nanos },
                _ => env.block.time_nanos,
            },
        ).unwrap() as int,
{
}

/// While the window is open, a `Block(step)` task is due no later than the
/// window's end.
pub proof fn lemma_offset_within_window(height: u64, boundary: Boundary, step: u64)
    requires
        step > 0,
        !window_expired(height, boundary),
    ensures
        end_height(boundary) matches Some(id) ==> next_block_by_offset(height, boundary, step) <= id,
{
    if let Some(id) = end_height(boundary) {
        lemma_rounding(id as int, step as int);
    }
}

/// In an open-ended window, `Block(1)` is due at the same block as `Immediate`.
pub proof fn lemma_block_one_is_immediate(env: Env, boundary: Boundary)
    requires
        end_height(boundary) is None,
    ensures
        Interval::Block(1).next_slot(env, boundary) == Interval::Immediate.next_slot(env, boundary),
{
    let height = env.block.height;
    lemma_rounding(height as int, 1);
    if let Some(id) = start_height(boundary) {
        lemma_rounding(id as int, 1);
    }
    lemma_limited_open_end(height, boundary);
    lemma_offset_first_multiple(height, boundary, 1);
}

// ---------------------------------------------------------------------------
// The computation
// ---------------------------------------------------------------------------

fn get_next_block_limited(env: Env, boundary: Boundary) -> (res: (u64, SlotType))
    requires
        end_is_height_or_open(boundary),
        next_block_limited(env.block.height, boundary) <= u64::MAX,
    ensures
        res.0 == next_block_limited(env.block.height, boundary),
        res.1 == SlotType::Block,
{
    let current_block_height = env.block.height;

    let next_block_height = match boundary.start {
        Some(BoundarySpec::Height(id)) => {
            if current_block_height < id {
                id - 1
            } else {
                current_block_height
            }
        },
        _ => current_block_height,
    };

    match boundary.end {
        Some(BoundarySpec::Height(id)) => {
            if current_block_height > id {
                return (0, SlotType::Block);
            }
            if next_block_height > id {
                return (id, SlotType::Block);
            }
        },
        Some(BoundarySpec::Time(_)) => {
            proof {
                assert(false);
            }
        },
        None => {},
    }

    (next_block_height + 1, SlotType::Block)
}

fn get_next_block_by_offset(env: Env, boundary: Boundary, block: u64) -> (res: (u64, SlotType))
    requires
        block > 0,
        end_is_height_or_open(boundary),
        offset_fits(env.block.height, boundary, block),
    ensures
        res.0 == next_block_by_offset(env.block.height, boundary, block),
        res.1 == SlotType::Block,
{
    let current_block_height = env.block.height;
    proof {
        lemma_rem_bounds(current_block_height as int, block as int);
    }
    let modulo_block = current_block_height.saturating_sub(current_block_height % block) + block;

    let next_block_height = match boundary.start {
        Some(BoundarySpec::Height(id)) => {
            if current_block_height < id {
                proof {
                    lemma_rem_bounds(id as int, block as int);
                }
                let rem = id % block;
                if rem > 0 {
                    id.saturating_sub(rem) + block
                } else {
                    id
                }
            } else {
                modulo_block
            }
        },
        _ => modulo_block,
    };

    match boundary.end {
        Some(BoundarySpec::Height(id)) => {
            proof {
                lemma_rem_bounds(id as int, block as int);
            }
            let rem = id % block;
            let end_height = if rem > 0 {
                id.saturating_sub(rem)
            } else {
                id
            };

            if current_block_height > id {
                return (0, SlotType::Block);
            }
            if next_block_height > end_height {
                return (end_height, SlotType::Block);
            }
        },
        Some(BoundarySpec::Time(_)) => {
            proof {
                assert(false);
            }
        },
        None => {},
    }

    (next_block_height, SlotType::Block)
}

fn cron_start_time(env: Env, boundary: Boundary) -> (ts: u64)
    ensures
        ts == cron_base(env, boundary),
{
    let current_block_ts: u64 = env.block.time_nanos;
    match boundary.start {
        Some(BoundarySpec::Time(ts)) => {
            if current_block_ts < ts {
                ts
            } else {
                current_block_ts
            }
        },
        _ => current_block_ts,
    }
}

fn limited_fits(height: u64, boundary: Boundary) -> (res: bool)
    ensures
        res == (next_block_limited(height, boundary) <= u64::MAX),
{
    let base = match boundary.start {
        Some(BoundarySpec::Height(id)) => if height < id { id - 1 } else { height },
        _ => height,
    };
    match boundary.end {
        Some(BoundarySpec::Height(id)) => height > id || base > id || base < u64::MAX,
        _ => base < u64::MAX,
    }
}

fn offset_fits_exec(height: u64, boundary: Boundary, step: u64) -> (res: bool)
    requires
        step > 0,
    ensures
        res == offset_fits(height, boundary, step),
{
    proof {
        lemma_rem_bounds(height as int, step as int);
    }
    if (height - height % step).checked_add(step).is_none() {
        return false;
    }
    match boundary.start {
        Some(BoundarySpec::Height(id)) => {
            proof {
                lemma_rem_bounds(id as int, step as int);
            }
            if height < id && id % step > 0 {
                (id - id % step).checked_add(step).is_some()
            } else {
                true
            }
        },
        _ => true,
    }
}

impl Interval {
    /// The next slot, or `None` on the inputs on which `next` has none: a
    /// window that closes on a time, a zero step, a slot past `u64::MAX`, an
    /// invalid cron expression, or one that never fires again.
    pub fn try_next(&self, env: Env, boundary: Boundary) -> (res: Option<(u64, SlotType)>)
        ensures
            res is Some == self.next_defined(env, boundary),
            res matches Some(slot) ==> slot.0 == self.next_slot(env, boundary).0 && slot.1
                == self.next_slot(env, boundary).1,
    {
        let defined = match self {
            Interval::Once | Interval::Immediate => {
                !matches!(boundary.end, Some(BoundarySpec::Time(_)))
                    && limited_fits(env.block.height, boundary)
            },
            Interval::Block(step) => {
                *step > 0 && !matches!(boundary.end, Some(BoundarySpec::Time(_)))
                    && offset_fits_exec(env.block.height, boundary, *step)
            },
            Interval::Cron(crontab) => {
                let expression = crontab.as_str();
                if contains_zero_step(expression) || !cron_is_valid(expression) {
                    false
                } else {
                    let start = cron_start_time(env, boundary);
                    !next_after_would_panic(expression, start) && cron_next(expression, start).is_some()
                }
            },
        };
        if defined {
            Some(self.next(env, boundary))
        } else {
            None
        }
    }

    /// The next slot at which a task with this interval runs within the
    /// window `boundary`: a block height for block schedules, a time in
    /// nanoseconds for cron schedules.
    pub fn next(&self, env: Env, boundary: Boundary) -> (res: (u64, SlotType))
        requires
            self.next_defined(env, boundary),
        ensures
            res.0 == self.next_slot(env, boundary).0,
            res.1 == self.next_slot(env, boundary).1,
            // a cron task is due strictly after the current block time and the window's start
            self is Cron ==> res.0 > cron_base(env, boundary),
            self is Cron ==> res.0 > env.block.time_nanos,
    {
        match self {
            Interval::Once => get_next_block_limited(env, boundary),
            Interval::Immediate => get_next_block_limited(env, boundary),
            Interval::Cron(crontab) => {
                let current_ts = cron_start_time(env, boundary);
                match cron_next(crontab.as_str(), current_ts) {
                    Some(next_ts) => (next_ts, SlotType::Cron),
                    None => {
                        proof {
                            assert(false);
                        }
                        (0, SlotType::Cron)
                    },
                }
            },
            Interval::Block(block) => get_next_block_by_offset(env, boundary, *block),
        }
    }

    /// Whether the interval can be scheduled. A cron expression with a step
    /// of zero is not: the parser fails on it or panics when it reaches the step.
    pub fn is_valid(&self) -> (res: bool)
        ensures
            res == self.valid(),
    {
        match self {
            Interval::Once => true,
            Interval::Immediate => true,
            Interval::Block(_) => true,
            Interval::Cron(crontab) => cron_is_valid(crontab.as_str()),
        }
    }
}

} // verus!
