use cosmwasm_std::testing::mock_env;
use croncat::types::{BlockInfo, Boundary, BoundarySpec, Env, Interval, SlotType};

fn block_env() -> Env {
    let env = mock_env();
    Env {
        block: BlockInfo {
            height: env.block.height,
            time_nanos: env.block.time.nanos(),
        },
    }
}

#[test]
fn interval_get_next_block_limited() {
    // (input, input, outcome, outcome)
    let cases: Vec<(Interval, Boundary, u64, SlotType)> = vec![
        // Once cases
        (Interval::Once, Boundary { start: None, end: None }, 12346, SlotType::Block),
        (Interval::Once, Boundary { start: Some(BoundarySpec::Height(12348)), end: None }, 12348, SlotType::Block),
        (Interval::Once, Boundary { start: None, end: Some(BoundarySpec::Height(12346)) }, 12346, SlotType::Block),
        (Interval::Once, Boundary { start: None, end: Some(BoundarySpec::Height(12340)) }, 0, SlotType::Block),
        // Immediate cases
        (Interval::Immediate, Boundary { start: None, end: None }, 12346, SlotType::Block),
        (Interval::Immediate, Boundary { start: Some(BoundarySpec::Height(12348)), end: None }, 12348, SlotType::Block),
        (Interval::Immediate, Boundary { start: None, end: Some(BoundarySpec::Height(12346)) }, 12346, SlotType::Block),
        (Interval::Immediate, Boundary { start: None, end: Some(BoundarySpec::Height(12340)) }, 0, SlotType::Block),
    ];
    for (interval, boundary, outcome_block, outcome_slot_kind) in cases.iter() {
        let env = block_env();
        let (next_id, slot_kind) = interval.next(env, boundary.clone());
        println!("next_id {:?}, slot_kind {:?}", next_id, slot_kind);
        assert_eq!(outcome_block, &next_id);
        assert_eq!(outcome_slot_kind, &slot_kind);
    }
}

#[test]
fn interval_get_next_block_by_offset() {
    // (input, input, outcome, outcome)
    let cases: Vec<(Interval, Boundary, u64, SlotType)> = vec![
        // strictly modulo cases
        (Interval::Block(1), Boundary { start: None, end: None }, 12346, SlotType::Block),
        (Interval::Block(10), Boundary { start: None, end: None }, 12350, SlotType::Block),
        (Interval::Block(100), Boundary { start: None, end: None }, 12400, SlotType::Block),
        (Interval::Block(1000), Boundary { start: None, end: None }, 13000, SlotType::Block),
        (Interval::Block(10000), Boundary { start: None, end: None }, 20000, SlotType::Block),
        (Interval::Block(100000), Boundary { start: None, end: None }, 100000, SlotType::Block),
        // modulo + boundary start
        (Interval::Block(1), Boundary { start: Some(BoundarySpec::Height(12348)), end: None }, 12348, SlotType::Block),
        (Interval::Block(10), Boundary { start: Some(BoundarySpec::Height(12360)), end: None }, 12360, SlotType::Block),
        (Interval::Block(10), Boundary { start: Some(BoundarySpec::Height(12364)), end: None }, 12370, SlotType::Block),
        (Interval::Block(100), Boundary { start: Some(BoundarySpec::Height(12364)), end: None }, 12400, SlotType::Block),
        // modulo + boundary end
        (Interval::Block(1), Boundary { start: None, end: Some(BoundarySpec::Height(12345)) }, 12345, SlotType::Block),
        (Interval::Block(10), Boundary { start: None, end: Some(BoundarySpec::Height(12355)) }, 12350, SlotType::Block),
        (Interval::Block(100), Boundary { start: None, end: Some(BoundarySpec::Height(12355)) }, 12300, SlotType::Block),
        (Interval::Block(100), Boundary { start: None, end: Some(BoundarySpec::Height(12300)) }, 0, SlotType::Block),
    ];
    for (interval, boundary, outcome_block, outcome_slot_kind) in cases.iter() {
        let env = block_env();
        let (next_id, slot_kind) = interval.next(env, boundary.clone());
        assert_eq!(outcome_block, &next_id);
        assert_eq!(outcome_slot_kind, &slot_kind);
    }
}

fn env_at(height: u64, time_nanos: u64) -> Env {
    Env { block: BlockInfo { height, time_nanos } }
}

fn open() -> Boundary {
    Boundary { start: None, end: None }
}

#[test]
fn cron_next_is_the_following_hour() {
    let env = block_env();
    let interval = Interval::Cron("0 0 * * * *".to_string());
    assert!(interval.is_valid());
    let (next, kind) = interval.next(env, open());
    assert_eq!(next, 1_571_799_600_000_000_000);
    assert_eq!(kind, SlotType::Cron);
    assert!(next > env.block.time_nanos);
}

#[test]
fn cron_starts_from_a_future_window_start() {
    let env = block_env();
    let start = 1_600_000_000_000_000_000u64;
    let boundary = Boundary { start: Some(BoundarySpec::Time(start)), end: None };
    let (next, kind) = Interval::Cron("0 0 * * * *".to_string()).next(env, boundary);
    // 1_600_000_000 s is 12:26:40; the next full hour is 13:00:00
    assert_eq!(next, 1_600_002_000_000_000_000);
    assert_eq!(kind, SlotType::Cron);
}

#[test]
fn invalid_cron_expression() {
    let interval = Interval::Cron("not a cron".to_string());
    assert!(!interval.is_valid());
    assert_eq!(interval.try_next(block_env(), open()), None);
    assert!(Interval::Once.is_valid());
    assert!(Interval::Immediate.is_valid());
    assert!(Interval::Block(0).is_valid());
}

#[test]
fn cron_that_never_fires_again() {
    // only in 1999
    let interval = Interval::Cron("0 0 0 1 1 * 1999".to_string());
    assert!(interval.is_valid());
    assert_eq!(interval.try_next(block_env(), open()), None);
}

#[test]
fn try_next_refuses_what_next_cannot_compute() {
    let env = block_env();
    let time_end = Boundary { start: None, end: Some(BoundarySpec::Time(5)) };
    assert_eq!(Interval::Once.try_next(env, time_end), None);
    assert_eq!(Interval::Block(10).try_next(env, time_end), None);
    assert_eq!(Interval::Block(0).try_next(env, open()), None);
    assert_eq!(Interval::Immediate.try_next(env_at(u64::MAX, 0), open()), None);
    assert_eq!(Interval::Block(10).try_next(env_at(u64::MAX - 3, 0), open()), None);
    assert_eq!(Interval::Immediate.try_next(env, open()), Some((12346, SlotType::Block)));
    assert_eq!(Interval::Block(100).try_next(env, open()), Some((12400, SlotType::Block)));
}

#[test]
fn limited_window_edges() {
    // the window ends at the current block: due at the next one
    let b = Boundary { start: None, end: Some(BoundarySpec::Height(100)) };
    assert_eq!(Interval::Immediate.next(env_at(100, 0), b).0, 101);
    // the window starts beyond its end: due at its end
    let b = Boundary { start: Some(BoundarySpec::Height(20)), end: Some(BoundarySpec::Height(10)) };
    assert_eq!(Interval::Once.next(env_at(10, 0), b).0, 10);
    // a window that has passed
    assert_eq!(Interval::Once.next(env_at(11, 0), b).0, 0);
    // a start time is ignored by block schedules
    let b = Boundary { start: Some(BoundarySpec::Time(1 << 62)), end: None };
    assert_eq!(Interval::Once.next(env_at(7, 0), b).0, 8);
}

#[test]
fn offset_results_are_multiples() {
    for step in [1u64, 3, 7, 10, 64] {
        for height in [0u64, 1, 5, 63, 64, 65, 999] {
            let b = Boundary { start: Some(BoundarySpec::Height(height + 11)), end: None };
            let (next, _) = Interval::Block(step).next(env_at(height, 0), b);
            assert_eq!(next % step, 0);
            assert!(next >= height + 11 && next < height + 11 + step);
        }
    }
}

#[test]
fn once_and_immediate_agree_and_block_one_is_immediate() {
    let env = block_env();
    for start in [None, Some(BoundarySpec::Height(5)), Some(BoundarySpec::Height(20000))] {
        let b = Boundary { start, end: None };
        assert_eq!(Interval::Once.next(env, b), Interval::Immediate.next(env, b));
        assert_eq!(Interval::Block(1).next(env, b), Interval::Immediate.next(env, b));
    }
}

#[test]
fn a_zero_step_is_refused() {
    let env = block_env();
    for expression in ["*/0 * * * * *", "0 0/ 0 * * * *", "0 0 0 * * * 2020/00", "*/0", "0 0 0 * * * 1969/0"] {
        assert!(croncat::cron::contains_zero_step(expression));
        assert!(!Interval::Cron(expression.to_string()).is_valid());
        assert_eq!(Interval::Cron(expression.to_string()).try_next(env, open()), None);
    }
    for expression in ["*/10 * * * * *", "0 0/5 * * * *", "0 0 0 * * * 2020/01"] {
        assert!(!croncat::cron::contains_zero_step(expression));
        assert!(Interval::Cron(expression.to_string()).is_valid());
    }
}

#[test]
fn a_search_from_a_leap_day_into_a_year_without_one_is_refused() {
    // the search starts at 2024-02-29 00:00:00
    let env = env_at(0, 1_709_164_799_000_000_000);
    let panicking = Interval::Cron("0 0 0 * Feb * 2025".to_string());
    assert!(croncat::cron::next_after_would_panic("0 0 0 * Feb * 2025", 1_709_164_799_000_000_000));
    assert_eq!(panicking.try_next(env, open()), None);
    // a leap year next: the search runs, and lands on that year's leap day
    let leap = Interval::Cron("0 0 0 * Feb * 2028".to_string());
    assert_eq!(leap.try_next(env, open()), Some((1_835_395_200_000_000_000, SlotType::Cron)));
    // the start's own year included: no panic either
    let daily = Interval::Cron("0 0 0 * * *".to_string());
    assert_eq!(daily.try_next(env, open()), Some((1_709_164_800_000_000_000, SlotType::Cron)));
    // February excluded: the search moves on to March
    assert!(!croncat::cron::next_after_would_panic("0 0 0 * Mar * 2025", 1_709_164_799_000_000_000));
}
