use raytracing::random::{splitmix64_next, Rng, MAX_DRAWS};

/// A plain transcription of the xoshiro256+ reference design, used to
/// cross-check the library's stream word for word.
struct RefRng {
    s: [u64; 4],
}

fn ref_splitmix64(x: &mut u64) -> u64 {
    *x = x.wrapping_add(0x9e3779b97f4a7c15);
    let z = *x;
    let z = (z ^ (z >> 30)).wrapping_mul(0xbf58476d1ce4e5b9);
    let z = (z ^ (z >> 27)).wrapping_mul(0x94d049bb133111eb);
    z ^ (z >> 31)
}

impl RefRng {
    fn new(mut seed: u64) -> Self {
        Self {
            s: [
                ref_splitmix64(&mut seed),
                ref_splitmix64(&mut seed),
                ref_splitmix64(&mut seed),
                ref_splitmix64(&mut seed),
            ],
        }
    }

    fn next(&mut self) -> u64 {
        let result = self.s[0].wrapping_add(self.s[3]);
        let t = self.s[1] << 17;
        self.s[2] ^= self.s[0];
        self.s[3] ^= self.s[1];
        self.s[1] ^= self.s[2];
        self.s[0] ^= self.s[3];
        self.s[2] ^= t;
        self.s[3] = self.s[3].rotate_left(45);
        result
    }

    fn bounded(&mut self, s: u64) -> u64 {
        let mut x = self.next();
        let mut m = x as u128 * s as u128;
        let mut l = (m & 0xffff_ffff_ffff_ffff) as u64;
        if l < s {
            let t = s.wrapping_neg() % s;
            let mut draws = 1u64;
            while l < t && draws < MAX_DRAWS {
                x = self.next();
                m = x as u128 * s as u128;
                l = (m & 0xffff_ffff_ffff_ffff) as u64;
                draws += 1;
            }
        }
        (m >> 64) as u64
    }
}

#[test]
fn splitmix_matches_reference() {
    let mut a: u64 = 0x1234_5678_9abc_def0;
    let mut b = a;
    for _ in 0..32 {
        assert_eq!(splitmix64_next(&mut a), ref_splitmix64(&mut b));
        assert_eq!(a, b);
    }
}

#[test]
fn raw_stream_matches_reference() {
    for seed in [0u64, 1, 42, u64::MAX] {
        let mut lib = Rng::new(seed);
        let mut reference = RefRng::new(seed);
        for _ in 0..256 {
            assert_eq!(lib.xoshiro256p_next(), reference.next());
        }
    }
}

#[test]
fn bounded_stream_matches_reference() {
    for s in [1u64, 2, 3, 7, 255, 1 << 33, u64::MAX - 1, u64::MAX] {
        let mut lib = Rng::new(99);
        let mut reference = RefRng::new(99);
        for _ in 0..512 {
            assert_eq!(lib.random_u64(s), reference.bounded(s));
        }
    }
}

#[test]
fn same_seed_gives_identical_sequences() {
    let mut a = Rng::new(0xfeed_f00d);
    let mut b = Rng::new(0xfeed_f00d);
    for _ in 0..64 {
        assert_eq!(a.random_u64(1_000_000), b.random_u64(1_000_000));
    }
}

#[test]
fn different_seeds_diverge() {
    let mut a = Rng::new(1);
    let mut b = Rng::new(2);
    assert_ne!(a.xoshiro256p_next(), b.xoshiro256p_next());

    let mut c = Rng::new(0);
    let mut d = Rng::new(u64::MAX);
    assert_ne!(c.xoshiro256p_next(), d.xoshiro256p_next());
}

#[test]
fn bounded_draws_stay_in_bounds() {
    let mut rng = Rng::new(7);
    for s in [1u64, 2, 6, 100, 255, u64::MAX] {
        for _ in 0..10_000 {
            assert!(rng.random_u64(s) < s);
        }
    }
}

#[test]
fn bound_of_one_always_yields_zero() {
    let mut rng = Rng::new(11);
    for _ in 0..1000 {
        assert_eq!(rng.random_u64(1), 0);
    }
}

#[test]
fn bound_of_zero_yields_zero() {
    let mut rng = Rng::new(13);
    for _ in 0..100 {
        assert_eq!(rng.random_u64(0), 0);
    }
}

#[test]
fn uniform_f64_stays_in_unit_interval() {
    let limit = (1u64 << 53) - 1;
    let mut rng = Rng::new(0x5eed);
    for _ in 0..1_000_000 {
        let bits = rng.random_f64_bits();
        assert!(bits < limit - 1);
        let x = bits as f64 / limit as f64;
        assert!(0.0 <= x);
        assert!(x < 1.0);
    }
}
