use fixtures::rng::{rand_message, rand_time, Rng, RngError};

fn xorshift(mut x: u64) -> u64 {
    x ^= x << 13;
    x ^= x >> 7;
    x ^= x << 17;
    x
}

#[test]
fn zero_seed_is_refused() {
    assert_eq!(Rng::new(0).err(), Some(RngError::ZeroSeed));
    assert!(Rng::new(1).is_ok());
}

#[test]
fn usize_is_next_state_modulo_max() {
    let mut rng = Rng::new(42).unwrap();
    let s1 = xorshift(42);
    assert_eq!(rng.usize(1000), (s1 % 1000) as usize);
    let s2 = xorshift(s1);
    assert_eq!(rng.usize(7), (s2 % 7) as usize);
    assert_eq!(rng.usize(1), 0);
}

#[test]
fn same_seed_gives_same_sequence() {
    let mut a = Rng::new(20250714).unwrap();
    let mut b = Rng::new(20250714).unwrap();
    for _ in 0..100 {
        assert_eq!(a.usize(1 << 20), b.usize(1 << 20));
    }
}

#[test]
fn pick_uses_the_drawn_index() {
    let items = ["a", "b", "c", "d", "e"];
    let mut rng = Rng::new(7).unwrap();
    let expected = items[(xorshift(7) % 5) as usize];
    assert_eq!(rng.pick(&items), expected);
}

#[test]
fn message_has_conventional_shape() {
    let mut rng = Rng::new(42).unwrap();
    for _ in 0..200 {
        let m = rand_message(&mut rng, "core");
        let (head, body) = m.split_once(": ").unwrap();
        let kind = head.split('(').next().unwrap();
        assert!(["feat", "fix", "refactor", "perf", "chore", "docs", "ci", "test"].contains(&kind));
        assert!(head.ends_with("(core)") || head.ends_with("(core)!"), "{m}");
        assert_eq!(body.split(' ').count(), 2, "{m}");
    }
}

#[test]
fn message_is_exact_for_a_seed() {
    let mut rng = Rng::new(42).unwrap();
    let s1 = xorshift(42);
    let s2 = xorshift(s1);
    let s3 = xorshift(s2);
    let s4 = xorshift(s3);
    let types = ["feat", "fix", "refactor", "perf", "chore", "docs", "ci", "test"];
    let verbs = [
        "update", "add", "remove", "refactor", "improve", "fix", "handle", "support", "implement",
        "optimize",
    ];
    let objects = [
        "feature", "endpoint", "handler", "logic", "validation", "error", "check", "flow", "config",
        "output",
    ];
    let bang = if s2 % 20 == 0 { "!" } else { "" };
    let expected = format!(
        "{}(api){}: {} {}",
        types[(s1 % 8) as usize],
        bang,
        verbs[(s3 % 10) as usize],
        objects[(s4 % 10) as usize]
    );
    assert_eq!(rand_message(&mut rng, "api"), expected);
}

#[test]
fn time_is_within_a_year_before_now() {
    let mut rng = Rng::new(99).unwrap();
    let now = 1_700_000_000i64;
    for _ in 0..100 {
        let t = rand_time(&mut rng, now);
        assert!(t <= now && t >= now - (364 * 86400 + 23 * 3600 + 59 * 60));
    }
}

#[test]
fn time_is_exact_for_a_seed() {
    let mut rng = Rng::new(5).unwrap();
    let s1 = xorshift(5);
    let s2 = xorshift(s1);
    let s3 = xorshift(s2);
    let offset = (s1 % 365) as i64 * 86400 + (s2 % 24) as i64 * 3600 + (s3 % 60) as i64 * 60;
    assert_eq!(rand_time(&mut rng, 1_000_000_000), 1_000_000_000 - offset);
}
