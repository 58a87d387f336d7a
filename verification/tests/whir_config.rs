//! The parameter analysis on concrete values.

use whir_lookup::arith::checked_product;
use whir_lookup::certificate::{
    capacity_certificate, closed_capacity_certificate, johnson_list_bound,
    validate_interpolation_support, JohnsonCertificateVariant,
};
use whir_lookup::code::reduced_rate;
use whir_lookup::config::{default_config, ProverConfig, VerifierConfig};
use whir_lookup::derivation::{config_or_fallback, feasible_config_for, test_config_for};
use whir_lookup::ladder::{derive_ladder, derive_ladder_shape, RateRule};
use whir_lookup::margin::{MARGIN_LEAST_LOG_N, MARGIN_MOST_LOG_N};
use whir_lookup::optimizer::{
    is_beyond_johnson, optimize_johnson_level, query_target_bits, LevelRequest,
};
use whir_lookup::params::{
    validate_log_inv_rate, LOG_INV_RATE_0, LOG_PACKING, MAX_LOG_INV_RATE, MIN_LOG_INV_RATE,
    QUERY_GRINDING_BITS,
};
use whir_lookup::query::exact_query_agreement;
use whir_lookup::ring_switch::RING_SWITCH_SOUNDNESS_DEGREE;
use whir_lookup::security::{prev_queries_at, ConfigError, FinalBlockConfig, WhirSecurityConfig};
use whir_lookup::soundness::{
    capacity_mca_exceptional_fraction, capacity_mca_fold_within_target,
    johnson_algebraic_within_target, ood_within_target, some_fold_is_tight, soundness_budget,
    WhirLevelConfig,
};
use whir_lookup::text::decimal_text;
use whir_lookup::udr::udr_queries;

const LOG_Q: f64 = 192.0;

fn fold_bits(level: &WhirLevelConfig) -> f64 {
    let (numerator, denominator) = capacity_mca_exceptional_fraction(level).unwrap();
    let fold = numerator + 2 * level.list_bound as u128 * denominator;
    LOG_Q - (fold as f64).log2() + (denominator as f64).log2()
}

fn query_bits(level: &WhirLevelConfig) -> f64 {
    let n = (1usize << (level.log_msg_cols + level.log_inv_rate)) as f64;
    level.queries as f64 * (n / (level.agreement - 1) as f64).log2()
}

fn algebraic_bits(level: &WhirLevelConfig, prev_queries: usize) -> f64 {
    let degree = RING_SWITCH_SOUNDNESS_DEGREE.max(prev_queries + level.ood_samples).max(2);
    LOG_Q - (degree as f64).log2() - (level.list_bound as f64).log2()
}

fn ood_bits(level: &WhirLevelConfig) -> f64 {
    let mu = ((level.log_msg_cols + level.log_num_interleaved) as f64).log2();
    if level.ood_samples == 0 {
        LOG_Q - (level.list_bound as f64).log2() - mu
    } else {
        let pairs = level.list_bound * (level.list_bound - 1) / 2;
        level.ood_samples as f64 * (LOG_Q - mu) - (pairs as f64).log2()
    }
}

fn message(r: Result<(), ConfigError>) -> String {
    match r {
        Err(ConfigError::Message(text)) => text,
        other => panic!("{other:?}"),
    }
}

#[test]
fn johnson_bound_uses_exact_threshold_and_reduced_rate() {
    let (degree, length) = reduced_rate(5, 4);
    assert_eq!(degree as f64 / length as f64, 15.0 / 512.0);

    assert_eq!(exact_query_agreement(131_072, 111, 111).unwrap(), 65_537);
    assert_eq!(exact_query_agreement(524_288, 37, 111).unwrap(), 65_537);

    let closed = capacity_certificate(2, 15, 65_537, 111).unwrap();
    assert_eq!(closed.variant, JohnsonCertificateVariant::Closed);
    assert_eq!(
        (closed.interpolation_m, closed.jet_degree, closed.interpolation_height),
        (16_384, 32_769, 357_946_710)
    );

    let finite = capacity_certificate(1, 16, 92_682, 222).unwrap();
    assert_eq!(finite.variant, JohnsonCertificateVariant::Finite);
    assert_eq!(
        (
            finite.interpolation_m,
            finite.jet_degree,
            finite.interpolation_height,
            finite.list_bound
        ),
        (24_954, 35_290, 606_738_001, 23_784)
    );
}

#[test]
fn production_profile_is_128_bit_johnson_with_query_grinding() {
    let expected = [
        [
            "222,55",
            "222,56,30",
            "222,56,31",
            "222,56,32",
            "222,56,32",
            "222,56,32,22",
            "222,56,32,22",
            "222,56,32,22",
            "223,56,32,23",
            "223,56,32,23,17",
            "223,56,32,23,17",
            "223,56,32,23,17",
            "223,56,32,23,18",
            "223,56,32,23,18,14",
        ],
        [
            "111,44",
            "111,45,27",
            "111,45,28",
            "111,45,28",
            "111,45,28",
            "111,45,28,20",
            "111,45,28,20",
            "112,45,28,21",
            "112,45,28,21",
            "112,45,28,21,16",
            "112,45,28,21,16",
            "112,45,28,21,16",
            "112,45,28,21,16",
            "112,45,28,21,16,13",
        ],
        [
            "74,37",
            "74,37,24",
            "74,37,25",
            "74,37,25",
            "74,37,25",
            "74,37,25,18",
            "75,37,25,19",
            "75,37,25,19",
            "75,37,25,19",
            "75,38,25,19,15",
            "75,38,25,19,15",
            "75,38,25,19,15",
            "75,38,25,19,15",
            "75,38,25,19,15,13",
        ],
        [
            "56,32",
            "56,32,22",
            "56,32,22",
            "56,32,22",
            "56,32,23",
            "56,32,23,17",
            "56,32,23,17",
            "56,32,23,17",
            "56,32,23,18",
            "56,32,23,18,14",
            "56,32,23,18,14",
            "56,32,23,18,14",
            "56,32,23,18,14",
            "56,32,23,18,14,12",
        ],
    ];
    let mut min_fold_bits = f64::INFINITY;
    for log_inv_rate in MIN_LOG_INV_RATE..=MAX_LOG_INV_RATE {
        for log_n in 15..=28 {
            let cfg = WhirSecurityConfig::derive_config_with_log_inv_rate(
                log_n + LOG_PACKING,
                log_inv_rate,
            )
            .unwrap();
            assert_eq!(cfg.target_security_bits, 128);
            assert_eq!(cfg.levels[0].log_inv_rate, log_inv_rate);
            assert_eq!(cfg.levels[0].ood_samples, 0);
            let queries = cfg
                .levels
                .iter()
                .map(|level| level.queries.to_string())
                .collect::<Vec<_>>()
                .join(",");
            assert_eq!(queries, expected[log_inv_rate - 1][log_n - 15]);
            for (i, level) in cfg.levels.iter().enumerate() {
                let (fold, query) = (fold_bits(level), query_bits(level));
                let ood = ood_bits(level);
                let algebraic = algebraic_bits(level, prev_queries_at(&cfg.levels, i));
                min_fold_bits = min_fold_bits.min(fold);
                assert_eq!(level.grinding_bits, QUERY_GRINDING_BITS);
                assert!(query + level.grinding_bits as f64 + 1e-10 >= 128.0);
                assert!(fold >= 128.0);
                assert!(ood >= 128.0);
                assert!(algebraic >= 128.0);
                if i > 0 {
                    assert_eq!(level.ood_samples, 1);
                }
            }
        }
    }
    assert!(
        (128.0..129.0).contains(&min_fold_bits),
        "query optimization should use the first bit of fold margin: {min_fold_bits}"
    );
}

/// The same margin in exact integers: every level clears 128 bits, and some level of some profile
/// does not clear 129.
#[test]
fn least_fold_margin_is_below_one_bit() {
    let mut tight = vec![];
    for log_inv_rate in MIN_LOG_INV_RATE..=MAX_LOG_INV_RATE {
        for log_n in MARGIN_LEAST_LOG_N..=MARGIN_MOST_LOG_N {
            let cfg = WhirSecurityConfig::derive_config_with_log_inv_rate(
                log_n + LOG_PACKING,
                log_inv_rate,
            )
            .unwrap();
            for level in &cfg.levels {
                assert!(capacity_mca_fold_within_target(level, 128).unwrap());
            }
            if some_fold_is_tight(&cfg.levels, 128) {
                tight.push((log_inv_rate, log_n));
            }
        }
    }
    assert_eq!(tight, vec![(1, 22), (3, 23)]);
    let cfg = WhirSecurityConfig::derive_config_with_log_inv_rate(29, 3).unwrap();
    let level = &cfg.levels[1];
    assert_eq!((level.queries, level.agreement), (37, 65_537));
    assert!(some_fold_is_tight(&cfg.levels[1..2], 128));
    assert!(!some_fold_is_tight(&cfg.levels[..1], 128));
    assert!(!some_fold_is_tight(&cfg.levels[1..2], 127));
    assert!(!some_fold_is_tight(&cfg.levels[1..2], 129));
    assert!(!some_fold_is_tight(&[], 128));
}

fn derived() -> WhirSecurityConfig {
    WhirSecurityConfig::derive_config_with_log_inv_rate(22 + LOG_PACKING, 1).unwrap()
}

#[test]
fn derived_configuration_is_valid_and_shared() {
    let cfg = derived();
    assert!(cfg.validate().is_ok());
    assert_eq!(cfg.analysis_version, "rs_capacity_mca_exact_threshold_width_free_rbr");
    let shared: VerifierConfig = cfg.to_config().unwrap();
    assert_eq!(shared.level_steps, cfg.levels.len() - 1);
    assert_eq!(shared.log_inv_rates, vec![1, 4, 7, 10]);
    assert_eq!(shared.queries, vec![222, 56, 32, 22]);
    assert_eq!(shared.grinding_bits, vec![17; 4]);
    assert_eq!(shared.ood_samples, vec![0, 1, 1, 1]);
    assert_eq!((shared.initial_k, shared.level_ks.clone()), (6, vec![4, 4, 4]));
    let shapes = shared.level_shapes(cfg.log_n);
    assert_eq!(shapes.levels, 4);
    assert_eq!(shapes.ks, vec![6, 4, 4, 4]);
    assert_eq!(shapes.log_msg_cols, vec![16, 12, 8, 4]);
    assert_eq!(shapes.block_len, vec![1 << 17, 1 << 16, 1 << 15, 1 << 14]);
    assert_eq!(shapes.yr_log_n, cfg.final_block.yr_log_n);
}

#[test]
fn rate_outside_the_selectable_range_is_refused() {
    assert_eq!(
        validate_log_inv_rate(5).unwrap_err(),
        "log_inv_rate must be in 1..=4, got 5"
    );
    assert!(validate_log_inv_rate(0).is_err());
    for rate in 1..=4 {
        assert!(validate_log_inv_rate(rate).is_ok());
    }
    assert_eq!(
        WhirSecurityConfig::derive_config_with_log_inv_rate(30, 0).unwrap_err(),
        "log_inv_rate must be in 1..=4, got 0"
    );
}

#[test]
fn derivation_refuses_small_witnesses() {
    let derive = |m| WhirSecurityConfig::derive_config_with_log_inv_rate(m, 1).unwrap_err();
    assert_eq!(derive(5), "m (5) < LOG_PACKING (6)");
    assert_eq!(derive(12), "log_n must be > initial_k");
    assert_eq!(derive(17), "log_n too small: needs at least 2 fold levels");
    assert_eq!(
        derive(18),
        "L0: no capacity MCA candidate satisfies 128-bit Johnson/OOD soundness at rate 1/2^1"
    );
}

#[test]
fn validation_reports_the_first_violation() {
    let mut cfg = derived();
    cfg.m += 1;
    assert_eq!(message(cfg.validate()), "log_n (22) + LOG_PACKING (6) != m (29)");
    assert!(cfg.to_config().is_err());

    let mut cfg = derived();
    cfg.final_block = FinalBlockConfig { yr_log_n: 5 };
    assert_eq!(
        message(cfg.validate()),
        "shape mismatch: initial_k (6) + Σ k (12) + yr_log_n (5) = 23 ≠ log_n (22)"
    );

    let mut cfg = derived();
    cfg.levels.clear();
    cfg.final_block.yr_log_n = 16;
    assert_eq!(message(cfg.validate()), "empty levels");

    let mut cfg = derived();
    cfg.levels[0].k = 5;
    assert_eq!(message(cfg.validate()), "L0.k (5) must equal initial_k (6)");

    let mut cfg = derived();
    cfg.levels[0].log_num_interleaved = 5;
    assert_eq!(
        message(cfg.validate()),
        "L0.log_num_interleaved (5) must equal initial_k (6)"
    );
}

#[test]
fn validation_checks_every_level() {
    let change = |f: fn(&mut WhirLevelConfig)| {
        let mut cfg = derived();
        f(&mut cfg.levels[1]);
        cfg.validate()
    };
    let mut first = derived();
    first.levels[0].log_inv_rate = 0;
    assert_eq!(message(first.validate()), "L0: log_inv_rate=0 gives a rate-one code");
    assert_eq!(
        message(change(|l| l.log_msg_cols = 0)),
        "L1: log_msg_cols must be positive"
    );
    assert_eq!(
        message(change(|l| l.log_msg_cols = 11)),
        "L1: log_msg_cols (11) + log_num_interleaved (4) ≠ input dim (16)"
    );
    assert_eq!(
        message(change(|l| l.log_inv_rate = 5)),
        "L1: log_inv_rate (5) does not reduce the preceding RS domain by 3 bit(s); expected 4"
    );
    let mut wide = derived();
    wide.levels[1].k = 5;
    wide.levels[2].k = 3;
    assert_eq!(message(wide.validate()), "L1: k (5) must equal log_num_interleaved (4)");
    let mut long = derived();
    for level in long.levels.iter_mut() {
        level.log_inv_rate += 100;
    }
    long.levels[0].queries = 0;
    assert_eq!(message(long.validate()), "L0: query count must be positive");
    assert_eq!(message(change(|l| l.queries = 0)), "L1: query count must be positive");
    assert_eq!(
        message(change(|l| l.queries = 1 << 40)),
        "query count does not fit u32"
    );
    assert!(message(change(|l| l.agreement += 1)).contains("is not the exact query threshold"));
    assert!(message(change(|l| l.list_bound += 1))
        .ends_with("certificate does not match its exact derived parameters"));
    assert_eq!(
        message(change(|l| l.ood_samples = 0)),
        "L1: ood_samples ≥ 1 required past L0 (the query counts assume single-codeword binding)"
    );
    let mut first = derived();
    first.levels[0].ood_samples = 2;
    assert_eq!(
        message(first.validate()),
        "L0: ood_samples=2 but L0 is bound by the opening's own evaluation claim (must be 0)"
    );
    let mut strict = derived();
    strict.target_security_bits = 129;
    assert_eq!(
        message(strict.validate()),
        "L0: target_security_bits (128) < global target (129)"
    );
}

/// A ladder whose second level folds one variable more than it has lanes.
#[test]
fn levels_fold_all_their_lanes() {
    let mut cfg = derived();
    cfg.m = 27;
    cfg.log_n = 21;
    cfg.final_block.yr_log_n = 4;
    cfg.levels.truncate(3);
    let shape = [(2, 15, 6, 6), (5, 9, 6, 7), (11, 4, 4, 4)];
    for (level, (rate, cols, lanes, k)) in cfg.levels.iter_mut().zip(shape) {
        level.log_inv_rate = rate;
        level.log_msg_cols = cols;
        level.log_num_interleaved = lanes;
        level.k = k;
        level.queries = 111;
        level.agreement = exact_query_agreement(1 << (cols + rate), 111, 111).unwrap();
        let certificate = capacity_certificate(rate, cols, level.agreement, 111).unwrap();
        level.interpolation_m = certificate.interpolation_m;
        level.jet_degree = certificate.jet_degree;
        level.interpolation_height = certificate.interpolation_height;
        level.list_bound = certificate.list_bound;
        level.certificate_variant = certificate.variant;
    }
    assert_eq!(message(cfg.validate()), "L1: k (7) must equal log_num_interleaved (6)");
    let cfg = derived();
    for i in 1..cfg.levels.len() {
        let (level, before) = (&cfg.levels[i], &cfg.levels[i - 1]);
        assert_eq!(level.log_msg_cols + level.log_num_interleaved, before.log_msg_cols);
    }
    assert_eq!(cfg.levels.last().unwrap().log_msg_cols, cfg.final_block.yr_log_n);
}

#[test]
fn an_agreement_within_the_degree_is_refused_first() {
    let mut level = derived().levels[0];
    level.agreement = 0;
    level.jet_degree = 0;
    let text = "capacity MCA agreement must exceed the degree";
    assert_eq!(capacity_mca_exceptional_fraction(&level).unwrap_err(), text);
    assert_eq!(capacity_mca_fold_within_target(&level, 128).unwrap_err(), text);
    level.log_msg_cols = 0;
    assert_eq!(capacity_mca_fold_within_target(&level, 128).unwrap_err(), text);
}

#[test]
fn validation_holds_every_row_against_the_target() {
    let stricter = |i: usize, target: usize| {
        let mut cfg = derived();
        cfg.levels[i].target_security_bits = target;
        cfg.levels[i].grinding_bits = target - 111;
        cfg.validate()
    };
    assert!(matches!(
        stricter(0, 135),
        Err(ConfigError::FoldSoundness { level: 0, target: 135 })
    ));
    assert!(matches!(
        stricter(3, 191),
        Err(ConfigError::OodBinding { level: 3, target: 191 })
    ));
    let mut few = derived();
    few.levels[1].queries = 10;
    few.levels[1].agreement =
        exact_query_agreement(1 << 16, 10, query_target_bits(128, 17)).unwrap();
    assert!(matches!(few.validate(), Err(ConfigError::JohnsonEta { level: 1 })));
}

#[test]
fn algebraic_row_is_reported_on_its_own() {
    let mut cfg = derived();
    cfg.levels[1].queries = usize::MAX;
    let mut level = cfg.levels[2];
    assert!(johnson_algebraic_within_target(&level, 56, 128).unwrap());
    level.list_bound = 1 << 50;
    assert!(!johnson_algebraic_within_target(&level, 56, 128).unwrap());
    assert_eq!(johnson_algebraic_within_target(&level, usize::MAX, 128), Ok(false));
    level.list_bound = usize::MAX;
    assert_eq!(
        johnson_algebraic_within_target(&level, usize::MAX, 193).unwrap_err(),
        "target 193 exceeds the analysis field size"
    );
}

#[test]
fn valid_levels_meet_every_row() {
    let cfg = derived();
    for (i, level) in cfg.levels.iter().enumerate() {
        assert!(capacity_mca_fold_within_target(level, 128).unwrap());
        assert!(ood_within_target(level, 128).unwrap());
        assert!(
            johnson_algebraic_within_target(level, prev_queries_at(&cfg.levels, i), 128).unwrap()
        );
    }
    assert_eq!(prev_queries_at(&cfg.levels, 0), 0);
    assert_eq!(prev_queries_at(&cfg.levels, 2), 56);
}

#[test]
fn budget_is_exact_between_65_and_192_bits() {
    assert_eq!(soundness_budget(128), Ok(1u128 << 64));
    assert_eq!(soundness_budget(192), Ok(1));
    assert_eq!(soundness_budget(65), Ok(1u128 << 127));
    assert_eq!(
        soundness_budget(64).unwrap_err(),
        "target 64 is too small for an exact u128 soundness budget"
    );
    assert_eq!(
        soundness_budget(193).unwrap_err(),
        "target 193 exceeds the analysis field size"
    );
}

#[test]
fn query_agreement_at_its_edges() {
    assert_eq!(exact_query_agreement(8, 1, 1), Ok(5));
    assert_eq!(exact_query_agreement(8, 3, 3), Ok(5));
    assert_eq!(exact_query_agreement(8, 1, 4), Ok(1));
    assert_eq!(exact_query_agreement(1, 5, 5), Ok(1));
    assert_eq!(exact_query_agreement(8, 1, 0), Ok(9));
    assert_eq!(exact_query_agreement(8, 4, 0), Ok(9));
    assert_eq!(exact_query_agreement(0, 3, 2), Ok(1));
    assert_eq!(exact_query_agreement(usize::MAX, 1, 1), Ok((usize::MAX >> 1) + 1));
    assert_eq!(
        exact_query_agreement(usize::MAX, 1, 0).unwrap_err(),
        "query agreement threshold overflow"
    );
    assert_eq!(
        exact_query_agreement(8, 1 << 32, 3).unwrap_err(),
        "query count does not fit u32"
    );
    let thresholds: Vec<usize> =
        (1..40).map(|q| exact_query_agreement(1 << 12, q, 20).unwrap()).collect();
    assert!(thresholds.windows(2).all(|w| w[0] <= w[1]));
}

#[test]
fn checked_products_name_their_context() {
    assert_eq!(checked_product(&[3, 5, 7], "x"), Ok(105));
    assert_eq!(checked_product(&[], "x"), Ok(1));
    assert_eq!(
        checked_product(&[u128::MAX, 2], "term").unwrap_err(),
        "term: integer overflow"
    );
}

#[test]
fn interpolation_support_is_held_to_its_conditions() {
    assert!(validate_interpolation_support(131_072, 65_535, 92_682, 24_954, 35_290, 606_738_001)
        .is_ok());
    assert!(validate_interpolation_support(131_072, 65_535, 92_682, 24_954, 35_290, 1)
        .unwrap_err()
        .starts_with("capacity MCA height 1 is below the certified minimum "));
    assert_eq!(
        validate_interpolation_support(8, 0, 4, 3, 3, 3).unwrap_err(),
        "invalid capacity MCA interpolation parameters"
    );
    assert_eq!(
        validate_interpolation_support(16, 3, 8, 3, 8, 8).unwrap_err(),
        "capacity MCA jet degree 8 exceeds interpolation limit 7"
    );
    assert_eq!(
        validate_interpolation_support(16, 3, 4, 3, 1, 8).unwrap_err(),
        "capacity MCA interpolation has no positive slope surplus"
    );
}

#[test]
fn johnson_list_bound_is_exact() {
    assert_eq!(johnson_list_bound(131_072, 65_535, 92_682, 35_290), Ok(23_784));
    assert_eq!(johnson_list_bound(131_072, 65_535, 92_682, 100), Ok(100));
    assert_eq!(
        johnson_list_bound(16, 4, 8, 10).unwrap_err(),
        "agreement threshold is not beyond the Johnson radius"
    );
    assert!(is_beyond_johnson(16, 4, 9));
    assert!(!is_beyond_johnson(16, 4, 8));
}

#[test]
fn closed_certificate_overflows_at_the_radius() {
    assert_eq!(
        closed_capacity_certificate(2, 4, 8).unwrap_err().as_str(),
        closed_capacity_certificate(2, 4, 30).unwrap_err().as_str()
    );
    assert!(closed_capacity_certificate(2, 15, 65_537).is_ok());
}

#[test]
fn closed_certificate_takes_the_extreme_parameters() {
    let certificate = closed_capacity_certificate(2, 6, 150).unwrap();
    let (n, degree, a) = (256u128, 63u128, 150u128);
    let enough = |m: u128| 4 * m * m * a * a >= (2 * m + 1) * (2 * m + 1) * degree * n;
    let m = certificate.interpolation_m as u128;
    assert!(m >= 3 && enough(m) && (3..m).all(|k| !enough(k)));
    let bound = (2 * m + 1) * (2 * m + 1) * n;
    let b = certificate.jet_degree as u128;
    assert!(4 * b * b * degree < bound && 4 * (b + 1) * (b + 1) * degree >= bound);
    assert_eq!(certificate.interpolation_height as u128, (bound - 1) / (12 * degree));
    assert_eq!(
        Ok(certificate.list_bound),
        johnson_list_bound(256, 63, 150, certificate.jet_degree)
    );
    for queries in [1, 222, 4_000] {
        let same = capacity_certificate(2, 6, 150, queries).unwrap();
        assert_eq!(same.variant, JohnsonCertificateVariant::Closed);
        assert_eq!(same.interpolation_m, certificate.interpolation_m);
        assert_eq!(same.list_bound, certificate.list_bound);
    }
}

#[test]
fn optimizer_finds_the_fewest_queries() {
    let request = LevelRequest {
        level: 0,
        log_inv_rate: 1,
        log_msg_cols: 16,
        log_num_interleaved: 6,
        target_bits: 128,
        query_grinding_bits: 17,
        prev_queries: 0,
    };
    let found = optimize_johnson_level(request).unwrap();
    assert_eq!((found.queries, found.ood_samples), (222, 0));
    assert_eq!(found.certificate.agreement, 92_682);
    let deeper = LevelRequest { level: 1, log_inv_rate: 4, log_msg_cols: 12, prev_queries: 222, ..request };
    let found = optimize_johnson_level(deeper).unwrap();
    assert_eq!((found.queries, found.ood_samples), (56, 1));
    assert_eq!(query_target_bits(128, 17), 111);
    assert_eq!(query_target_bits(10, 17), 1);
}

#[test]
fn unique_decoding_query_counts() {
    let counts: Vec<usize> = (1..=5).map(udr_queries).collect();
    assert_eq!(counts, vec![241, 148, 121, 110, 105]);
    assert_eq!(udr_queries(20), 101);
    for rate in 1..=12usize {
        let rho = (-(rate as f64)).exp2();
        let per_query = (1.0 / (1.0 - (1.0 - rho) / 2.0)).log2();
        assert_eq!(udr_queries(rate), (100.0 / per_query).ceil() as usize);
    }
}

fn codes_hold_queries(config: &ProverConfig, log_n: usize) {
    let shapes = config.level_shapes(log_n);
    for (length, queries) in shapes.block_len.iter().zip(&config.queries) {
        assert!(length >= queries);
    }
}

#[test]
fn unique_decoding_configuration() {
    let config = default_config(16, 5, 1).unwrap();
    assert_eq!(config.log_inv_rates, vec![1, 2, 4]);
    assert_eq!(config.level_ks, vec![4, 4]);
    assert_eq!(config.queries, vec![241, 148, 110]);
    assert_eq!(config.grinding_bits, vec![0, 0, 0]);
    assert_eq!(config.ood_samples, vec![0, 0, 0]);
    codes_hold_queries(&config, 16);
    assert_eq!(
        default_config(8, 5, 1).unwrap_err(),
        "L0 block_len < udr_queries: log_n too small for chosen rate"
    );
    assert_eq!(default_config(5, 5, 1).unwrap_err(), "log_n must be > initial_k");
    assert_eq!(
        default_config(10, 5, 4).unwrap_err(),
        "log_n too small: needs at least 2 fold levels"
    );
}

#[test]
fn configuration_falls_back_below_the_production_floor() {
    let production = test_config_for(22);
    assert_eq!(production.queries, vec![222, 56, 32, 22]);
    let small = test_config_for(12);
    assert_eq!(small.initial_k, 5);
    assert_eq!(small.log_inv_rates[0], 1);
    codes_hold_queries(&small, 12);
    assert_eq!(LOG_INV_RATE_0, 1);
    assert!(feasible_config_for(12).is_some());
    assert!(feasible_config_for(5).is_none());
}

#[test]
fn a_production_configuration_comes_before_every_fallback() {
    let given = default_config(14, 2, 3).unwrap();
    let taken = config_or_fallback(Some(given.clone()), 14).unwrap();
    assert_eq!(taken.log_inv_rates, given.log_inv_rates);
    assert_eq!(taken.initial_k, 2);
    let fallback = config_or_fallback(None, 14).unwrap();
    let first = (1..=5)
        .rev()
        .flat_map(|batch| (1..=4).map(move |rate| (batch, rate)))
        .find_map(|(batch, rate)| default_config(14, batch, rate).ok())
        .unwrap();
    assert_eq!(fallback.initial_k, first.initial_k);
    assert_eq!(fallback.log_inv_rates, first.log_inv_rates);
    assert!(config_or_fallback(None, 1).is_none());
}

#[test]
fn unique_decoding_rates_are_the_least_that_fit() {
    let config = default_config(18, 4, 1).unwrap();
    let shapes = config.level_shapes(18);
    for i in 1..=config.level_steps {
        let (before, rate) = (config.log_inv_rates[i - 1], config.log_inv_rates[i]);
        assert!(before < rate);
        for skipped in before + 1..rate {
            assert!(1 << (shapes.log_msg_cols[i] + skipped) < udr_queries(skipped));
        }
        assert!(shapes.block_len[i] >= config.queries[i]);
    }
    assert!(shapes.yr_log_n <= 5);
}

#[test]
fn ladders_fold_to_a_short_residual() {
    let shape = derive_ladder_shape(24, 6, 1).unwrap();
    assert_eq!(shape.log_inv_rates, vec![1, 4, 7, 10, 13]);
    assert_eq!(shape.log_msg_cols, vec![18, 14, 10, 6, 2]);
    assert_eq!(shape.k_levels, vec![6, 4, 4, 4, 4]);
    assert_eq!(shape.yr_log_n, 2);
    assert_eq!(
        derive_ladder_shape(24, 2, 1).err().unwrap(),
        "folding factor 2 is smaller than RS domain reduction 3"
    );
    let shape = derive_ladder(13, 3, 3, RateRule::UniqueDecoding).unwrap();
    assert_eq!(shape.log_inv_rates, vec![3, 4, 5]);
}

#[test]
fn decimal_texts() {
    assert_eq!(decimal_text(0), "0");
    assert_eq!(decimal_text(1_203), "1203");
    assert_eq!(decimal_text(u128::MAX), u128::MAX.to_string());
}
