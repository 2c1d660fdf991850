use worm_rs::action::Actions;
use worm_rs::environment::{Env, ObservationSpace, COOLDOWN};

#[test]
fn observation_space_bounds() {
    assert_eq!(ObservationSpace::low(), vec![0, 0, 0, 0, -10000, 0]);
    assert_eq!(ObservationSpace::high(), vec![100, 100, 10, 10, 10000, 1500000]);
    let space = ObservationSpace::new();
    assert_eq!(space.low, ObservationSpace::low());
    assert_eq!(space.high, ObservationSpace::high());
    for i in 0..space.low.len() {
        assert!(space.low[i] <= space.high[i]);
    }
}

#[test]
fn action_space_is_the_pair_of_bounds() {
    let (low, high) = Env::get_action_space();
    assert_eq!(low, vec![0, 0, 0, 0, -10000, 0]);
    assert_eq!(high, vec![100, 100, 10, 10, 10000, 1500000]);
}

#[test]
fn fresh_env_has_never_used_an_action() {
    let env = Env::new();
    assert_eq!(env.action_space(), 5);
    assert_eq!(env.observation_space().low, ObservationSpace::low());
    assert_eq!(env.observation_space().high, ObservationSpace::high());
    for a in Actions::iter() {
        assert_eq!(env.last_used(a), 0);
    }
}

#[test]
fn sample_is_an_action_index() {
    let env = Env::new();
    for _ in 0..200 {
        assert!(env.sample() < env.action_space());
    }
    assert_eq!(env.pick(12), 2);
    assert_eq!(env.pick(4), 4);
    assert_eq!(env.pick(5), 0);
}

#[test]
fn cooldown_window_is_one_hundred() {
    assert_eq!(COOLDOWN, 100);
}

#[test]
fn penalty_fades_over_the_window() {
    let mut env = Env::new();
    // never used, long after the epoch: no cooldown left
    assert_eq!(env.action_cooldown(4, 1000), 0);
    assert_eq!(env.last_used(Actions::FETCH_INFO), 1000);
    // at once again: the whole weight
    assert_eq!(env.action_cooldown(4, 1000), 4);
    // 4 * (100 - 50) / 100
    assert_eq!(env.action_cooldown(4, 1050), 2);
    // 4 * (100 - 25) / 100
    assert_eq!(env.action_cooldown(4, 1075), 3);
    // 4 * (100 - 99) / 100 truncates to 0
    assert_eq!(env.action_cooldown(4, 1174), 0);
    assert_eq!(env.action_cooldown(4, 1273), 0);
    // past the window
    assert_eq!(env.action_cooldown(4, 5000), 0);
    assert_eq!(env.last_used(Actions::FETCH_INFO), 5000);
}

#[test]
fn penalty_truncates_toward_zero() {
    let mut env = Env::new();
    assert_eq!(env.action_cooldown(3, 500), 0);
    // 3 * 67 / 100 = 2.01
    assert_eq!(env.action_cooldown(3, 533), 2);
    // 3 * 66 / 100 = 1.98
    assert_eq!(env.action_cooldown(3, 567), 1);
    let mut env = Env::new();
    assert_eq!(env.action_cooldown(1, 500), 0);
    // 1 * 99 / 100
    assert_eq!(env.action_cooldown(1, 501), 0);
    assert_eq!(env.action_cooldown(1, 501), 1);
}

#[test]
fn early_use_counts_from_the_epoch() {
    let mut env = Env::new();
    // last use at 0, now 40: 2 * 60 / 100
    assert_eq!(env.action_cooldown(2, 40), 1);
    let mut env = Env::new();
    assert_eq!(env.action_cooldown(4, 0), 4);
}

#[test]
fn cooldowns_are_per_action() {
    let mut env = Env::new();
    assert_eq!(env.action_cooldown(1, 1000), 0);
    assert_eq!(env.action_cooldown(2, 1000), 0);
    assert_eq!(env.action_cooldown(1, 1000), 1);
    assert_eq!(env.last_used(Actions::PING), 1000);
    assert_eq!(env.last_used(Actions::SCAN), 1000);
    assert_eq!(env.last_used(Actions::INFECT), 0);
}

#[test]
fn unknown_action_key_counts_as_none() {
    let mut env = Env::new();
    assert_eq!(env.action_cooldown(17, 1000), 0);
    assert_eq!(env.last_used(Actions::NONE), 1000);
    assert_eq!(env.action_cooldown(17, 1000), 0);
    assert_eq!(env.step_reward(usize::MAX, 1001), 0);
    assert_eq!(env.last_used(Actions::NONE), 1001);
}

#[test]
fn clock_running_backwards_lengthens_the_cooldown() {
    let mut env = Env::new();
    assert_eq!(env.action_cooldown(4, 1000), 0);
    // 4 * (100 + 100) / 100
    assert_eq!(env.action_cooldown(4, 900), 8);
    assert_eq!(env.last_used(Actions::FETCH_INFO), 900);
}

#[test]
fn step_reward_is_weight_less_penalty() {
    let mut env = Env::new();
    assert_eq!(env.step_reward(4, 1000), 4);
    assert_eq!(env.step_reward(4, 1000), 0);
    assert_eq!(env.step_reward(4, 1050), 2);
    assert_eq!(env.step_reward(3, 1050), 3);
    assert_eq!(env.step_reward(0, 1050), 0);
}

#[test]
fn repeated_action_within_window_earns_no_more() {
    for action in 0..5usize {
        for gap in 0..=100u64 {
            let mut env = Env::new();
            let first = env.step_reward(action, 1000);
            let second = env.step_reward(action, 1000 + gap);
            assert!(second <= first);
            assert!(second >= 0);
            if gap == 100 {
                assert_eq!(second, first);
            }
            let weight = Actions::from(action).get_reward() as u64;
            if weight * (100 - gap) >= 100 {
                assert!(second < first);
            }
        }
    }
}

#[test]
fn penalty_fits_unless_the_clock_ran_far_backwards() {
    let mut env = Env::new();
    assert!(env.penalty_fits(4, 0));
    assert!(env.penalty_fits(4, u64::MAX));
    assert_eq!(env.action_cooldown(4, u64::MAX), 0);
    // last use at u64::MAX, now 0: 4 * (100 + u64::MAX) / 100 is beyond i32
    assert!(!env.penalty_fits(4, 0));
    assert!(env.penalty_fits(4, u64::MAX - 1000));
    // the weight of NONE is 0, so its penalty is always 0
    assert_eq!(env.action_cooldown(0, u64::MAX), 0);
    assert!(env.penalty_fits(0, 0));
    assert_eq!(env.action_cooldown(0, 0), 0);
    // 1 * (100 + d) / 100 fits up to d = 100 * i32::MAX + 99 - 100
    let mut env = Env::new();
    let last = 1u64 << 40;
    assert_eq!(env.action_cooldown(1, last), 0);
    let d = 100 * (i32::MAX as u64) - 1;
    assert!(env.penalty_fits(1, last - d));
    assert!(!env.penalty_fits(1, last - d - 1));
    assert_eq!(env.action_cooldown(1, last - d), i32::MAX);
}
