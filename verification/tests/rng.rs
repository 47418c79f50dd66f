use kbism::rng::{RngSet, CUP_SALT, DAILY_SALT, ENV_SALT, EVENTS_SALT};
use rand::RngExt;
use rand_chacha::rand_core::SeedableRng;
use rand_chacha::ChaCha8Rng;

type Streams = (ChaCha8Rng, ChaCha8Rng, ChaCha8Rng, ChaCha8Rng, u64);

fn to_ron(r: &RngSet) -> String {
    let parts: Streams = (r.daily.clone(), r.events.clone(), r.env.clone(), r.cup.clone(), r.seed);
    ron::ser::to_string(&parts).unwrap()
}

fn from_ron(s: &str) -> RngSet {
    let (daily, events, env, cup, seed): Streams = ron::from_str(s).unwrap();
    RngSet { daily, events, env, cup, seed }
}

/// RON セーブは ChaCha8Rng の内部状態をそのまま持ち回る（save.rs）。
/// rand_chacha / ron のバージョンを上げたとき、往復で位置がずれないことを見る。
#[test]
fn rngset_survives_ron_roundtrip() {
    let mut a = RngSet::new(42);
    for _ in 0..7 {
        let _ = a.daily.random::<u64>();
    }
    let s = to_ron(&a);
    let mut b: RngSet = from_ron(&s);
    assert_eq!(a.seed, b.seed);
    assert_eq!(a.daily.random::<u64>(), b.daily.random::<u64>());
    assert_eq!(a.cup.random::<u64>(), b.cup.random::<u64>());
}

#[test]
fn streams_are_seeded_from_the_salted_seed() {
    let mut r = RngSet::new(7);
    assert_eq!(r.seed, 7);
    let mut daily = ChaCha8Rng::seed_from_u64(7 ^ DAILY_SALT);
    let mut events = ChaCha8Rng::seed_from_u64(7 ^ EVENTS_SALT);
    let mut env = ChaCha8Rng::seed_from_u64(7 ^ ENV_SALT);
    let mut cup = ChaCha8Rng::seed_from_u64(7 ^ CUP_SALT);
    assert_eq!(r.daily.random::<u64>(), daily.random::<u64>());
    assert_eq!(r.events.random::<u64>(), events.random::<u64>());
    assert_eq!(r.env.random::<u64>(), env.random::<u64>());
    assert_eq!(r.cup.random::<u64>(), cup.random::<u64>());
}

#[test]
fn same_seed_same_streams_and_the_streams_differ() {
    let mut a = RngSet::new(123);
    let mut b = RngSet::new(123);
    let xs: Vec<u64> = (0..5).map(|_| a.env.random::<u64>()).collect();
    let ys: Vec<u64> = (0..5).map(|_| b.env.random::<u64>()).collect();
    assert_eq!(xs, ys);
    let mut c = RngSet::new(123);
    assert_ne!(c.daily.random::<u64>(), c.events.random::<u64>());
}

#[test]
fn drawing_from_one_stream_leaves_the_others_alone() {
    let mut a = RngSet::new(9);
    let mut b = RngSet::new(9);
    for _ in 0..100 {
        let _ = a.events.random::<u64>();
    }
    assert_eq!(a.env.random::<u64>(), b.env.random::<u64>());
    assert_eq!(a.cup.random::<u64>(), b.cup.random::<u64>());
}

#[test]
fn a_cloned_rng_set_draws_the_same_numbers() {
    let mut a = RngSet::new(2024);
    let _ = a.events.random::<u64>();
    let mut b = a.clone();
    assert_eq!(a.seed, b.seed);
    assert_eq!(a.daily.random::<u64>(), b.daily.random::<u64>());
    assert_eq!(a.events.random::<u64>(), b.events.random::<u64>());
    assert_eq!(a.env.random::<u64>(), b.env.random::<u64>());
    assert_eq!(a.cup.random::<u64>(), b.cup.random::<u64>());
}
