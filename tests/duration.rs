use rand::Rng;
use time2::duration::Duration;
use time2::DurationExt;

fn std_of(d: Duration) -> std::time::Duration {
    std::time::Duration::new(d.as_secs(), d.subsec_nanos())
}

fn random_duration(rng: &mut rand::rngs::ThreadRng) -> Duration {
    let shift: u32 = rng.gen_range(0..64);
    let secs: u64 = rng.gen::<u64>() >> shift;
    let nanos: u32 = rng.gen_range(0..1_000_000_000);
    Duration::new(secs, nanos)
}

fn random_scalar(rng: &mut rand::rngs::ThreadRng) -> u64 {
    let shift: u32 = rng.gen_range(0..64);
    rng.gen::<u64>() >> shift
}

#[test]
fn as_millis() {
    let mut rng = rand::thread_rng();
    for _ in 0..10_000 {
        let millis: u64 = random_scalar(&mut rng);
        assert_eq!(Duration::from_millis(millis).as_millis(), Some(millis));
    }
    for _ in 0..10_000 {
        let dur = random_duration(&mut rng);
        let millis = match dur.as_millis() {
            Some(millis) => millis,
            None => continue,
        };
        let back = std_of(Duration::from_millis(millis));
        assert!(back <= std_of(dur));
        assert!(std_of(dur) - back < std::time::Duration::from_millis(1));
    }
}

#[test]
fn as_millis_values() {
    assert_eq!(Duration::new(1, 100_000_999).as_millis(), Some(1100));
    assert_eq!(Duration::new(1 << 60, 0).as_millis(), None);
    assert_eq!(Duration::new(0, 999_999).as_millis(), Some(0));
    assert_eq!(Duration::new(0, 0).as_millis(), Some(0));
    // The largest duration whose milliseconds fit, and the next millisecond.
    assert_eq!(
        Duration::new(u64::MAX / 1000, (u64::MAX % 1000) as u32 * 1_000_000 + 999_999).as_millis(),
        Some(u64::MAX)
    );
    assert_eq!(Duration::new(u64::MAX / 1000 + 1, 0).as_millis(), None);
}

#[test]
fn mul_u64() {
    assert_eq!(Duration::new(0, 1).mul_u64(2).unwrap(), Duration::new(0, 2));
    assert_eq!(Duration::new(1, 1).mul_u64(3).unwrap(), Duration::new(3, 3));
    assert_eq!(Duration::new(0, 500_000_001).mul_u64(4).unwrap(), Duration::new(2, 4));
    assert_eq!(Duration::new(0, 500_000_001).mul_u64(4000).unwrap(),
               Duration::new(2000, 4000));
    assert_eq!(Duration::new(0, 500_000_000).mul_u64(1 << 63).unwrap(),
               Duration::new(1 << 62, 0));
}

#[test]
fn mul_u64_edges() {
    assert_eq!(Duration::new(5, 7).mul_u64(0), Some(Duration::new(0, 0)));
    assert_eq!(Duration::new(u64::MAX, 999_999_999).mul_u64(1),
               Some(Duration::new(u64::MAX, 999_999_999)));
    assert_eq!(Duration::new(u64::MAX, 1).mul_u64(2), None);
    assert_eq!(Duration::new(1 << 32, 0).mul_u64(1 << 32), None);
    let total = 999_999_999u128 * u64::MAX as u128;
    assert_eq!(Duration::new(0, 999_999_999).mul_u64(u64::MAX),
               Some(Duration::new((total / 1_000_000_000) as u64,
                                  (total % 1_000_000_000) as u32)));
    // The carry from the nanoseconds alone takes the product past the last second.
    assert_eq!(Duration::new(u64::MAX / 3, 500_000_000).mul_u64(3), None);
    assert_eq!(Duration::new(u64::MAX / 3, 333_333_333).mul_u64(3),
               Some(Duration::new(u64::MAX, 999_999_999)));
    assert_eq!(Duration::new(0, 1).mul_u64(u64::MAX),
               Some(Duration::new(u64::MAX / 1_000_000_000,
                                  (u64::MAX % 1_000_000_000) as u32)));
}

#[test]
fn div_u64() {
    assert_eq!(Duration::new(0, 1).div_u64(2).unwrap(), Duration::new(0, 0));
    assert_eq!(Duration::new(1, 1).div_u64(3).unwrap(), Duration::new(0, 333_333_333));
    assert_eq!(Duration::new(99, 999_999_000).div_u64(100).unwrap(),
               Duration::new(0, 999_999_990));
    assert_eq!(Duration::new(1 << 62, 0).div_u64(1 << 63).unwrap(),
               Duration::new(0, 500_000_000));
}

#[test]
fn div_u64_rounds_down_exactly() {
    // Both partial quotients drop a remainder; together they make a nanosecond.
    assert_eq!(Duration::new(1, 2).div_u64(3), Some(Duration::new(0, 333_333_334)));
    assert_eq!(Duration::new(u64::MAX, 999_999_999).div_u64(u64::MAX),
               Some(Duration::new(1, 0)));
    assert_eq!(Duration::new(u64::MAX, 999_999_999).div_u64(1),
               Some(Duration::new(u64::MAX, 999_999_999)));
    assert_eq!(Duration::new(7, 0).div_u64(2), Some(Duration::new(3, 500_000_000)));
}

#[test]
fn mul_div() {
    let mut rng = rand::thread_rng();
    for _ in 0..20_000 {
        let dur = random_duration(&mut rng);
        let rhs = random_scalar(&mut rng);
        if rhs == 0 {
            continue;
        }
        let result = match dur.mul_u64(rhs) {
            Some(r) => r.div_u64(rhs).unwrap(),
            None => continue,
        };
        assert_eq!(result, dur);
    }
}

#[test]
fn mul_div_round_trip_values() {
    let d = Duration::new(0, 333_333_334);
    let p = d.mul_u64(3).unwrap();
    assert_eq!(p, Duration::new(1, 2));
    assert_eq!(p.div_u64(3), Some(d));
}

#[test]
fn div_u32() {
    let mut rng = rand::thread_rng();
    for _ in 0..20_000 {
        let dur = random_duration(&mut rng);
        let rhs: u32 = rng.gen::<u32>() >> rng.gen_range(0..32);
        if rhs == 0 {
            continue;
        }
        let r = dur.div_u64(rhs as u64).unwrap();
        assert_eq!(std_of(dur) / rhs, std_of(r));
    }
}

#[test]
fn mul_u32() {
    let mut rng = rand::thread_rng();
    for _ in 0..20_000 {
        let dur = random_duration(&mut rng);
        let rhs: u32 = rng.gen::<u32>() >> rng.gen_range(0..32);
        if rhs == 0 {
            continue;
        }
        match dur.mul_u64(rhs as u64) {
            Some(r) => assert_eq!(std_of(dur).checked_mul(rhs), Some(std_of(r))),
            None => assert_eq!(std_of(dur).checked_mul(rhs), None),
        }
    }
}

#[test]
fn constructors_and_getters() {
    let d = Duration::new(1, 2_500_000_000);
    assert_eq!(d.as_secs(), 3);
    assert_eq!(d.subsec_nanos(), 500_000_000);
    assert_eq!(Duration::from_secs(7), Duration::new(7, 0));
    assert_eq!(Duration::from_millis(1_234), Duration::new(1, 234_000_000));
}
