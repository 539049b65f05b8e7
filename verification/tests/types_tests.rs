use symbiont::capability::{Capability, CapabilityCategory};
use symbiont::constants;
use symbiont::scalar::{bump, Real, Score, SignedScore, Weight};
use symbiont::types::hex::{decimal, encode};
use symbiont::types::{CapabilityId, NodeId, Signature, StepId, TaskId, Timestamp, WorkflowId};

fn lift(x: f64) -> Real {
    Real::from_bits(x.to_bits())
}

fn plain(r: Real) -> f64 {
    f64::from_bits(r.to_bits())
}

#[test]
fn test_capability_creation() {
    let cap = Capability::from_name("test_cap", CapabilityCategory::Analysis);
    assert_eq!(cap.name, "test_cap");
    assert_eq!(cap.category, CapabilityCategory::Analysis);
}

#[test]
fn test_constants_validity() {
    let w_min = f64::from_bits(constants::W_MIN);
    let w_max = f64::from_bits(constants::W_MAX);
    let w_init = f64::from_bits(constants::W_INIT);
    let swift_trust_base = f64::from_bits(constants::SWIFT_TRUST_BASE);
    let probation_threshold = f64::from_bits(constants::PROBATION_THRESHOLD);

    // Bounds checks
    assert!(w_min > 0.0 && w_min < w_max);
    assert!(w_init >= w_min && w_init <= w_max);

    // Probability/score bounds
    assert!(swift_trust_base >= 0.0 && swift_trust_base <= 1.0);
    assert!(probation_threshold >= 0.0 && probation_threshold <= 1.0);

    // Weight sums (should approximately sum to 1)
    let quality_sum = f64::from_bits(constants::OMEGA_HELP)
        + f64::from_bits(constants::OMEGA_ACC)
        + f64::from_bits(constants::OMEGA_REL)
        + f64::from_bits(constants::OMEGA_TIME);
    assert!((quality_sum - 1.0).abs() < 0.001);

    let trust_sum = f64::from_bits(constants::TRUST_WEIGHT_QUALITY)
        + f64::from_bits(constants::TRUST_WEIGHT_RECIPROCITY)
        + f64::from_bits(constants::TRUST_WEIGHT_SOCIAL)
        + f64::from_bits(constants::TRUST_WEIGHT_DIVERSITY);
    assert!((trust_sum - 1.0).abs() < 0.001);

    let tone_sum = f64::from_bits(constants::TONE_WEIGHT_ENGAGEMENT)
        + f64::from_bits(constants::TONE_WEIGHT_FRIENDLINESS)
        + f64::from_bits(constants::TONE_WEIGHT_COLLABORATION);
    assert!((tone_sum - 1.0).abs() < 0.001);

    // Decay factors should be in (0, 1)
    let lambda = f64::from_bits(constants::LAMBDA);
    let priming_decay = f64::from_bits(constants::PRIMING_DECAY);
    let decay_per_hop = f64::from_bits(constants::DECAY_PER_HOP);
    let confidence_memory = f64::from_bits(constants::CONFIDENCE_MEMORY);
    assert!(lambda > 0.0 && lambda < 1.0);
    assert!(priming_decay > 0.0 && priming_decay < 1.0);
    assert!(decay_per_hop > 0.0 && decay_per_hop < 1.0);
    assert!(confidence_memory > 0.0 && confidence_memory < 1.0);

    // Epsilon should be small but positive
    let epsilon = f64::from_bits(constants::EPSILON);
    assert!(epsilon > 0.0 && epsilon < 0.01);
}

#[test]
fn constants_hold_the_values_of_the_protocol() {
    assert_eq!(f64::from_bits(constants::GAMMA), 0.1);
    assert_eq!(f64::from_bits(constants::MU), 0.5);
    assert_eq!(f64::from_bits(constants::ALPHA), 0.01);
    assert_eq!(f64::from_bits(constants::BETA), 2.0);
    assert_eq!(f64::from_bits(constants::LAMBDA), 0.9);
    assert_eq!(f64::from_bits(constants::THETA), 0.5);
    assert_eq!(f64::from_bits(constants::DELTA), 0.2);
    assert_eq!(f64::from_bits(constants::EPSILON), 0.001);
    assert_eq!(f64::from_bits(constants::W_MIN), 0.01);
    assert_eq!(f64::from_bits(constants::W_INIT), 0.3);
    assert_eq!(f64::from_bits(constants::W_MAX), 1.0);
    assert_eq!(f64::from_bits(constants::SWIFT_TRUST_BASE), 0.4);
    assert_eq!(constants::PROBATION_COUNT, 50);
    assert_eq!(f64::from_bits(constants::PROBATION_THRESHOLD), 0.6);
    assert_eq!(f64::from_bits(constants::PROMOTION_CEILING), 0.8);
    assert_eq!(f64::from_bits(constants::REUSE_BOOST), 1.2);
    assert_eq!(f64::from_bits(constants::REUSE_PENALTY), 0.8);
    assert_eq!(f64::from_bits(constants::PROPAGATE_THRESHOLD), 0.6);
    assert_eq!(f64::from_bits(constants::DECAY_PER_HOP), 0.8);
    assert_eq!(f64::from_bits(constants::MIN_SIGNAL), 0.1);
    assert_eq!(constants::MAX_HOPS, 5);
    assert_eq!(f64::from_bits(constants::PRIMING_SENSITIVITY), 0.1);
    assert_eq!(f64::from_bits(constants::PRIMING_DECAY), 0.99);
    assert_eq!(f64::from_bits(constants::PRIMED_ABOVE), 0.3);
    assert_eq!(f64::from_bits(constants::CALM_BELOW), 0.1);
    assert_eq!(f64::from_bits(constants::ACTION_THRESHOLD), 0.7);
    assert_eq!(f64::from_bits(constants::CONFIDENCE_MEMORY), 0.95);
    assert_eq!(f64::from_bits(constants::COLLUSION_THRESHOLD), 0.85);
    assert_eq!(f64::from_bits(constants::DIVERSITY_THRESHOLD), 0.3);
    assert_eq!(f64::from_bits(constants::ADVERSARY_DROP), 0.3);
    assert_eq!(f64::from_bits(constants::LOW_DIVERSITY_CAP), 0.7);
    assert_eq!(f64::from_bits(constants::LOAD_LIMIT), 0.95);
    assert_eq!(f64::from_bits(constants::LOAD_AVAILABLE), 0.9);
    assert_eq!(f64::from_bits(constants::NEAR_PERFECT), 0.95);
    assert_eq!(f64::from_bits(constants::STEADY_VARIANCE), 0.01);
    assert_eq!(f64::from_bits(constants::UNIFORM_VARIANCE), 0.001);
    assert_eq!(f64::from_bits(constants::STRONG_SUSPICION), 0.7);
    assert_eq!(f64::from_bits(constants::WEAK_SUSPICION), 0.3);
    assert_eq!(f64::from_bits(constants::FRAUD_CONFIDENCE), 0.6);
    assert_eq!(f64::from_bits(constants::DETECTION_CONFIDENCE), 0.5);
    assert_eq!(f64::from_bits(constants::MUTUAL_RATING_THRESHOLD), 0.9);
    assert_eq!(f64::from_bits(constants::HIGH_TRUST), 0.7);
    assert_eq!(f64::from_bits(constants::LOW_TRUST), 0.3);
    assert_eq!(f64::from_bits(constants::TRUST_LEVEL_LOW), 0.2);
    assert_eq!(f64::from_bits(constants::TRUST_LEVEL_MEDIUM), 0.4);
    assert_eq!(f64::from_bits(constants::TRUST_LEVEL_HIGH), 0.6);
    assert_eq!(f64::from_bits(constants::TRUST_LEVEL_VERY_HIGH), 0.8);
    assert_eq!(constants::IDLE_THRESHOLD, 100_000);
    assert_eq!(constants::ADVERSARY_INTERVAL, 100);
    assert_eq!(constants::DIVERSITY_PARTNERS, 30);
    assert_eq!(constants::DIVERSITY_WINDOW, 100);
}

#[test]
fn test_score_clamping() {
    assert_eq!(plain(Score::new(lift(-0.5)).value()), 0.0);
    assert_eq!(plain(Score::new(lift(0.5)).value()), 0.5);
    assert_eq!(plain(Score::new(lift(1.5)).value()), 1.0);
}

#[test]
fn test_signed_score_clamping() {
    assert_eq!(plain(SignedScore::new(lift(-1.5)).value()), -1.0);
    assert_eq!(plain(SignedScore::new(lift(0.5)).value()), 0.5);
    assert_eq!(plain(SignedScore::new(lift(1.5)).value()), 1.0);
}

#[test]
fn test_weight_clamping() {
    let w_min = f64::from_bits(constants::W_MIN);
    let w_max = f64::from_bits(constants::W_MAX);
    assert_eq!(plain(Weight::new(lift(0.0)).value()), w_min);
    assert_eq!(plain(Weight::new(lift(0.5)).value()), 0.5);
    assert_eq!(plain(Weight::new(lift(2.0)).value()), w_max);
}

#[test]
fn bounded_scalars_stay_in_their_intervals_for_every_kind_of_input() {
    let inputs = [
        0.0,
        -0.0,
        1.0,
        -1.0,
        0.01,
        0.009999,
        1.0000001,
        -1.0000001,
        1e-320,
        -1e-320,
        1e300,
        -1e300,
        f64::INFINITY,
        f64::NEG_INFINITY,
        f64::NAN,
        -f64::NAN,
        f64::MIN_POSITIVE,
        f64::EPSILON,
    ];
    for x in inputs {
        let s = plain(Score::new(lift(x)).value());
        assert!((0.0..=1.0).contains(&s), "score of {x} is {s}");
        let t = plain(SignedScore::new(lift(x)).value());
        assert!((-1.0..=1.0).contains(&t), "signed score of {x} is {t}");
        let w = plain(Weight::new(lift(x)).value());
        assert!((0.01..=1.0).contains(&w), "weight of {x} is {w}");
        if (0.0..=1.0).contains(&x) {
            assert_eq!(s, x);
        }
        if (-1.0..=1.0).contains(&x) {
            assert_eq!(t, x);
        }
        if (0.01..=1.0).contains(&x) {
            assert_eq!(w, x);
        }
    }
    assert_eq!(plain(Score::new(lift(-3.0)).value()), 0.0);
    assert_eq!(plain(Score::new(lift(7.0)).value()), 1.0);
    assert_eq!(plain(SignedScore::new(lift(-3.0)).value()), -1.0);
    assert_eq!(plain(Weight::new(lift(-3.0)).value()), 0.01);
}

#[test]
fn reals_are_ordered_as_their_values_are() {
    let values = [
        f64::NEG_INFINITY,
        -1e300,
        -2.5,
        -1.0,
        -0.3,
        -1e-320,
        0.0,
        1e-320,
        0.001,
        0.3,
        0.95,
        1.0,
        2.0,
        1e300,
        f64::INFINITY,
    ];
    for a in values {
        for b in values {
            assert_eq!(lift(a).lt(&lift(b)), a < b, "{a} < {b}");
            assert_eq!(lift(a).le(&lift(b)), a <= b, "{a} <= {b}");
            assert_eq!(lift(a).gt(&lift(b)), a > b, "{a} > {b}");
            assert_eq!(lift(a).ge(&lift(b)), a >= b, "{a} >= {b}");
        }
    }
    // Both zeros are the same number.
    assert!(!lift(-0.0).lt(&lift(0.0)));
    assert!(lift(-0.0).le(&lift(0.0)));
    assert!(lift(0.0).le(&lift(-0.0)));
}

#[test]
fn scores_are_compared_as_their_values_are() {
    let values = [0.0, 0.1, 0.3, 0.5, 0.6, 0.7, 0.95, 1.0];
    for a in values {
        for b in values {
            let (sa, sb) = (Score::new(lift(a)), Score::new(lift(b)));
            assert_eq!(sa.lt(&sb), a < b);
            assert_eq!(sa.le(&sb), a <= b);
            assert_eq!(sa.gt(&sb), a > b);
            assert_eq!(sa.ge(&sb), a >= b);
            assert_eq!(sa.below(b.to_bits()), a < b);
            assert_eq!(sa.above(b.to_bits()), a > b);
            assert_eq!(plain(sa.min(sb).value()), a.min(b));
            assert_eq!(plain(sa.max(sb).value()), a.max(b));
        }
        assert!(!Score::new(lift(a)).below((-0.5f64).to_bits()));
        assert!(Score::new(lift(a)).above((-0.5f64).to_bits()));
    }
    assert_eq!(plain(Score::zero().value()), 0.0);
    assert_eq!(plain(Score::half().value()), 0.5);
    assert_eq!(plain(Score::one().value()), 1.0);
    assert_eq!(plain(Score::default().value()), 0.5);
    assert_eq!(plain(SignedScore::neg_one().value()), -1.0);
    assert_eq!(plain(SignedScore::default().value()), 0.0);
    assert_eq!(plain(Weight::min().value()), 0.01);
    assert_eq!(plain(Weight::init().value()), 0.3);
    assert_eq!(plain(Weight::max().value()), 1.0);
    assert_eq!(plain(Weight::default().value()), 0.3);
    assert!(Weight::min().is_min());
    assert!(!Weight::init().is_min());
}

#[test]
fn counters_stay_at_their_largest_number() {
    assert_eq!(bump(0), 1);
    assert_eq!(bump(41), 42);
    assert_eq!(bump(u32::MAX - 1), u32::MAX);
    assert_eq!(bump(u32::MAX), u32::MAX);
}

#[test]
fn test_node_id_from_index() {
    let id1 = NodeId::from_index(1);
    let id2 = NodeId::from_index(2);
    assert_ne!(id1, id2);

    let id1_again = NodeId::from_index(1);
    assert_eq!(id1, id1_again);
}

#[test]
fn node_id_from_index_is_little_endian() {
    let id = NodeId::from_index(0x0102_0304_0506_0708);
    let bytes = id.as_bytes();
    assert_eq!(&bytes[..8], &[8, 7, 6, 5, 4, 3, 2, 1]);
    assert!(bytes[8..].iter().all(|b| *b == 0));
    assert_eq!(NodeId::new(*bytes), id);
    assert_eq!(id.to_string(), "0807060504030201");
    assert_eq!(id.short(), "08070605");
    assert!(id.same_as(&NodeId::from_index(0x0102_0304_0506_0708)));
    assert!(!id.same_as(&NodeId::from_index(1)));
}

#[test]
fn node_ids_are_ordered_by_their_bytes() {
    let a = NodeId::from_index(1);
    let b = NodeId::from_index(2);
    let c = NodeId::from_index(256);
    assert!(a.precedes(&b));
    assert!(!b.precedes(&a));
    assert!(!a.precedes(&a));
    // The first byte of 256 is zero, so 256 comes before 1.
    assert!(c.precedes(&a));
    assert_eq!(a.precedes(&b), a < b);
    assert_eq!(c.precedes(&a), c < a);
    assert_eq!(b.precedes(&c), b < c);
}

#[test]
fn random_ids_are_not_all_the_same() {
    let ids: Vec<NodeId> = (0..8).map(|_| NodeId::random()).collect();
    assert!(ids.iter().any(|id| *id != ids[0]));
    let tasks: Vec<TaskId> = (0..8).map(|_| TaskId::random()).collect();
    assert!(tasks.iter().any(|id| *id != tasks[0]));
    let workflows: Vec<WorkflowId> = (0..8).map(|_| WorkflowId::random()).collect();
    assert!(workflows.iter().any(|id| *id != workflows[0]));
}

#[test]
fn test_hash_computation() {
    let h1 = symbiont::types::Hash::compute(b"hello");
    let h2 = symbiont::types::Hash::compute(b"hello");
    let h3 = symbiont::types::Hash::compute(b"world");

    assert_eq!(h1, h2);
    assert_ne!(h1, h3);
}

#[test]
fn hash_is_the_blake3_digest() {
    let h = symbiont::types::Hash::compute(b"hello");
    assert_eq!(h.as_bytes(), blake3::hash(b"hello").as_bytes());
    // The digest of the empty input, as the BLAKE3 paper gives it.
    let empty = symbiont::types::Hash::compute(b"");
    assert_eq!(
        encode(empty.as_bytes()),
        "af1349b9f5f9a1a6a0404dea36dcc9499bcb25c9adc112b7cc9a93cae41f3262"
    );
}

#[test]
fn test_capability_id_from_name() {
    let cap1 = CapabilityId::from_name("analysis");
    let cap2 = CapabilityId::from_name("analysis");
    let cap3 = CapabilityId::from_name("generation");

    assert_eq!(cap1, cap2);
    assert_ne!(cap1, cap3);
}

#[test]
fn capability_id_is_the_head_of_the_digest() {
    let digest = blake3::hash("analysis".as_bytes());
    let mut head = [0u8; 8];
    head.copy_from_slice(&digest.as_bytes()[..8]);
    assert_eq!(CapabilityId::from_name("analysis"), CapabilityId::new(u64::from_le_bytes(head)));
    assert_eq!(CapabilityId::new(7).0, 7);
    assert_eq!(TaskId::new(8).0, 8);
    assert_eq!(WorkflowId::new(9).0, 9);
    assert_eq!(WorkflowId::default().0, 0);
    assert_eq!(StepId::new(10).0, 10);
}

#[test]
fn hex_and_decimal_writing() {
    assert_eq!(encode(&[]), "");
    assert_eq!(encode(&[0x00, 0x0f, 0xa5, 0xff]), "000fa5ff");
    assert_eq!(decimal(0), "0");
    assert_eq!(decimal(7), "7");
    assert_eq!(decimal(10), "10");
    assert_eq!(decimal(1_234_567_890), "1234567890");
    assert_eq!(decimal(u64::MAX), "18446744073709551615");
}

#[test]
fn signatures_hold_their_bytes() {
    let mut bytes = [0u8; 64];
    bytes[3] = 9;
    let sig = Signature::new(bytes);
    assert_eq!(sig.as_bytes(), &bytes);
    assert_ne!(sig, Signature::placeholder());
    assert_eq!(Signature::placeholder().as_bytes(), &[0u8; 64]);
}

#[test]
fn timestamps_tell_their_age() {
    let t = Timestamp::new(1_000);
    assert_eq!(t.millis(), 1_000);
    assert!(t.is_older_at(Timestamp::new(1_101), 100));
    assert!(!t.is_older_at(Timestamp::new(1_100), 100));
    assert!(!t.is_older_at(Timestamp::new(900), 0));
    assert!(!t.is_older_at(Timestamp::new(1_000), 0));
    assert!(Timestamp::new(0).is_older_at(Timestamp::new(u64::MAX), u64::MAX - 1));

    let now = Timestamp::now();
    // The clock stands after the year 2020.
    assert!(now.millis() > 1_577_836_800_000);
    assert!(Timestamp::new(0).is_older_than(1_000));
    assert!(!now.is_older_than(60_000));
    assert!(!Timestamp::new(u64::MAX).is_older_than(0));
    assert!(Timestamp::new(1) < Timestamp::new(2));
}

#[test]
fn a_signature_is_read_from_exactly_64_bytes() {
    let bytes: Vec<u8> = (0..64u8).collect();
    let sig = Signature::from_slice(&bytes).unwrap();
    assert_eq!(sig.as_bytes().to_vec(), bytes);
    assert_eq!(sig, Signature::new(*sig.as_bytes()));
    assert!(Signature::from_slice(&bytes[..63]).is_none());
    assert!(Signature::from_slice(&[]).is_none());
    let longer: Vec<u8> = (0..65u8).collect();
    assert!(Signature::from_slice(&longer).is_none());
}

#[test]
fn a_value_that_is_known_to_be_in_range_is_taken_as_it_is() {
    let lift = |x: f64| Real::from_bits(x.to_bits());
    assert_eq!(f64::from_bits(Score::from_raw(lift(0.25)).value().to_bits()), 0.25);
    assert_eq!(Score::from_raw(lift(1.0)), Score::one());
    assert_eq!(Score::from_raw(lift(-0.0)), Score::zero());
    assert_eq!(f64::from_bits(SignedScore::from_raw(lift(-0.75)).value().to_bits()), -0.75);
    assert_eq!(SignedScore::from_raw(lift(-1.0)), SignedScore::neg_one());
    assert_eq!(SignedScore::from_raw(lift(-0.0)), SignedScore::zero());
    assert_eq!(f64::from_bits(Weight::from_raw(lift(0.01)).value().to_bits()), 0.01);
    assert_eq!(Weight::from_raw(lift(1.0)), Weight::max());
}
