//! How much of the fold challenge the production configurations leave unused: every level clears
//! the target, and the tightest one by less than one bit.

use vstd::prelude::*;
use vstd::arithmetic::power::*;
use vstd::arithmetic::power2::*;
use crate::certificate::{CapacityMcaCertificate, JohnsonCertificateVariant};
use crate::optimizer::LevelRequest;
use crate::params::{INITIAL_FOLDING_FACTOR, LOG_PACKING, SECURITY_BITS};
use crate::security::WhirSecurityConfig;
use crate::soundness::WhirLevelConfig;

verus! {

/// The least log of committed words over which the margin is taken.
pub const MARGIN_LEAST_LOG_N: usize = 15;

/// The largest log of committed words over which the margin is taken.
pub const MARGIN_MOST_LOG_N: usize = 28;

/// Whether a log of committed words and a first rate are among those that the margin is taken
/// over.
pub open spec fn in_margin(log_n: nat, log_inv_rate: nat) -> bool {
    &&& MARGIN_LEAST_LOG_N <= log_n <= MARGIN_MOST_LOG_N
    &&& crate::params::MIN_LOG_INV_RATE <= log_inv_rate <= crate::params::MAX_LOG_INV_RATE
}

/// Over a code whose length is a power of two, queries that each cover `s` bits give an agreement
/// of one in `2^s` positions.
proof fn lemma_whole_bits(k: nat, queries: nat, s: nat)
    requires
        queries >= 1,
        s <= k,
    ensures
        crate::query::query_agreement(pow2(k), queries, queries * s) == pow2((k - s) as nat) + 1,
{
    let (n, a) = (pow2(k), pow2((k - s) as nat));
    let t = pow2(queries * s) as int;
    // The row at `x` compares `x^queries` with `a^queries`.
    lemma_pow2_adds((k - s) as nat, s);
    lemma_pow_distributes(a as int, pow2(s) as int, queries);
    lemma_pow2(s);
    lemma_pow2(queries * s);
    lemma_pow_multiplies(2, s, queries);
    assert(s * queries == queries * s) by (nonlinear_arith);
    assert(pow(n as int, queries) == pow(a as int, queries) * t);
    lemma_pow2_pos(queries * s);
    lemma_pow2_pos((k - s) as nat);
    crate::query::law_query_agreement_exact(n, queries, queries * s, a);
    crate::query::law_query_agreement_exact(n, queries, queries * s, a + 1);
    let fewer = (queries - 1) as nat;
    reveal(pow);
    crate::query::lemma_pow_base_monotone(a, a + 1, fewer);
    lemma_pow_positive(a as int + 1, fewer);
    let (x, y) = (pow(a as int, fewer), pow(a as int + 1, fewer));
    assert(pow((a + 1) as int, queries) == (a + 1) * y);
    assert(pow(a as int, queries) == a * x);
    assert((a + 1) * y * t > (a * x) * t) by (nonlinear_arith)
        requires
            0 <= x <= y,
            y > 0,
            a >= 1,
            t > 0,
    {
        assert(a * x <= a * y);
        assert((a + 1) * y == a * y + y);
    }
}

/// 36 queries do not reach 111 bits at an agreement of 65000 in `2^19`.
proof fn lemma_one_query_less()
    ensures
        crate::query::query_agreement(524_288, 36, 111) <= 65_000,
{
    let a = 65_000int;
    let twelfth = 5688009063105712890625000000000000000000000000000000000000int;
    let half = 3138550867693340381917894711603833208051177722232017256448int;
    lemma2_to64();
    assert(pow(a, 12) == twelfth) by {
        reveal(pow);
        reveal_with_fuel(pow, 13);
    }
    assert(pow2(191) == half) by {
        lemma_pow2_unfold(64);
        lemma_pow2_adds(64, 64);
        lemma_pow2_adds(128, 63);
        let (x, y, z) = (pow2(63) as int, pow2(64) as int, pow2(128) as int);
        assert(x == 0x8000_0000_0000_0000);
        assert(y == 0x1_0000_0000_0000_0000);
        assert(z == 0x1_0000_0000_0000_0000_0000_0000_0000_0000) by (nonlinear_arith)
            requires
                z == y * y,
                y == 0x1_0000_0000_0000_0000,
        ;
        assert(z * x == half) by (nonlinear_arith)
            requires
                z == 0x1_0000_0000_0000_0000_0000_0000_0000_0000,
                x == 0x8000_0000_0000_0000,
                half == 3138550867693340381917894711603833208051177722232017256448,
        ;
    }
    lemma_pow_multiplies(a, 12, 3);
    lemma_pow2(191);
    lemma_pow_multiplies(2, 191, 3);
    lemma_pow2(573);
    lemma_pow2_adds(573, 111);
    lemma_pow2(19);
    lemma_pow_multiplies(2, 19, 36);
    lemma_pow2(684);
    assert(pow(twelfth, 3) > pow(half, 3)) by {
        reveal_with_fuel(pow, 4);
    }
    assert(pow(a, 36) > pow2(573));
    lemma_pow2_pos(111);
    assert(!crate::query::query_row_holds(524_288, 65_000, 36, 111)) by {
        let (x, y, t) = (pow(a, 36), pow2(573) as int, pow2(111) as int);
        assert(x * t > y * t) by (nonlinear_arith)
            requires
                x > y,
                t > 0,
        ;
    }
    crate::query::law_query_agreement_exact(524_288, 36, 111, 65_000);
}

/// The certificate of the level whose fold row is the tightest.
spec fn tight_certificate() -> CapacityMcaCertificate {
    CapacityMcaCertificate {
        agreement: 65_537,
        interpolation_m: 6_554,
        jet_degree: 52_439,
        interpolation_height: 916_623_257,
        list_bound: 45_876,
        variant: JohnsonCertificateVariant::Closed,
    }
}

proof fn lemma_quotient(x: int, d: int, q: int, r: int)
    requires
        x == q * d + r,
        0 <= r < d,
    ensures
        x / d == q,
{
    vstd::arithmetic::div_mod::lemma_fundamental_div_mod_converse(x, d, q, r);
}

proof fn lemma_tight_certificate()
    ensures
        crate::certificate::capacity_outcome(524_288, 8_191, 65_537, 37) == Ok::<
            CapacityMcaCertificate,
            Seq<char>,
        >(tight_certificate()),
{
    let (n, degree, a, m, b) = (524_288nat, 8_191nat, 65_537nat, 6_554nat, 52_439nat);
    assert(4 * m * m * a * a >= (2 * m + 1) * (2 * m + 1) * degree * n) by (nonlinear_arith)
        requires
            n == 524_288,
            degree == 8_191,
            a == 65_537,
            m == 6_554,
    ;
    let l = 6_553nat;
    assert(4 * l * l * a * a < (2 * l + 1) * (2 * l + 1) * degree * n) by (nonlinear_arith)
        requires
            n == 524_288,
            degree == 8_191,
            a == 65_537,
            l == 6_553,
    ;
    assert(crate::certificate::is_closed_multiplicity(n, degree, a, m));
    crate::certificate::law_closed_multiplicity_unique(n, degree, a, m);
    let bound = crate::certificate::jet_bound(n, m);
    assert(bound == 90096733257728) by (nonlinear_arith)
        requires
            bound == (2 * m + 1) * (2 * m + 1) * n,
            n == 524_288,
            m == 6_554,
    ;
    assert(4 * b * b * degree < bound <= 4 * (b + 1) * (b + 1) * degree) by (nonlinear_arith)
        requires
            bound == 90096733257728,
            degree == 8_191,
            b == 52_439,
    ;
    assert(crate::certificate::is_closed_jet_degree(n, degree, m, b));
    crate::certificate::law_closed_jet_degree_unique(n, degree, m, b);
    lemma_quotient(90_096_733_257_727, 98_292, 916_623_257, 80_683);
    assert(crate::certificate::closed_height(n, degree, m) == 916_623_257);
    assert(n * (a - degree) == 30_065_819_648 && a * a - n * degree == 655_361) by (nonlinear_arith)
        requires
            n == 524_288,
            degree == 8_191,
            a == 65_537,
    ;
    lemma_quotient(30_065_819_648, 655_361, 45_876, 478_412);
    assert(crate::certificate::list_bound(n, degree, a, b) == 45_876);
    let (tb, sb) = (crate::certificate::triangle(b), crate::certificate::square_sum(b));
    let (tc, sc) = (crate::certificate::triangle(l), crate::certificate::square_sum(l));
    assert(b * (b + 1) == 2_749_901_160) by (nonlinear_arith)
        requires
            b == 52_439,
    ;
    assert(b * (b + 1) * (2 * b + 1) == 288_406_883_759_640) by (nonlinear_arith)
        requires
            b * (b + 1) == 2_749_901_160,
            b == 52_439,
    ;
    assert(l * (l + 1) == 42_948_362) by (nonlinear_arith)
        requires
            l == 6_553,
    ;
    assert(l * (l + 1) * (2 * l + 1) == 562_924_180_734) by (nonlinear_arith)
        requires
            l * (l + 1) == 42_948_362,
            l == 6_553,
    ;
    assert(tb == 1_374_950_580 && sb == 48_067_813_959_940 && tc == 21_474_181 && sc == 93_820_696_789);
    assert(m * a == 429_529_498) by (nonlinear_arith)
        requires
            m == 6_554,
            a == 65_537,
    ;
    assert((b + 1) * m * a == 22_524_526_875_120) by (nonlinear_arith)
        requires
            b == 52_439,
            m == 6_554,
            a == 65_537,
    ;
    assert(m * a * tb == 590_581_832_402_208_840) by (nonlinear_arith)
        requires
            m * a == 429_529_498,
            tb == 1_374_950_580,
    ;
    assert(degree * tb == 11_262_220_200_780) by (nonlinear_arith)
        requires
            degree == 8_191,
            tb == 1_374_950_580,
    ;
    assert(degree * sb == 393_723_464_145_868_540) by (nonlinear_arith)
        requires
            degree == 8_191,
            sb == 48_067_813_959_940,
    ;
    assert((l + 1) * m == 42_954_916) by (nonlinear_arith)
        requires
            l == 6_553,
            m == 6_554,
    ;
    assert(m * tc == 140_741_782_274) by (nonlinear_arith)
        requires
            m == 6_554,
            tc == 21_474_181,
    ;
    let (es, em) = (
        crate::certificate::equations_slope(m, b),
        crate::certificate::equations_moment(m, b),
    );
    assert(es == 21_480_735 && em == 46_921_085_485);
    assert(n * es == 11_262_091_591_680) by (nonlinear_arith)
        requires
            n == 524_288,
            es == 21_480_735,
    ;
    assert(n * em == 24_600_162_066_759_680) by (nonlinear_arith)
        requires
            n == 524_288,
            em == 46_921_085_485,
    ;
    assert(crate::certificate::surplus_slope(n, degree, a, m, b) == 215_082_660);
    assert(crate::certificate::variables_moment(degree, a, m, b) == 196_858_368_256_340_300);
    lemma_quotient(172_258_206_189_580_620, 215_082_660, 800_893_043, 125_646_240);
    lemma_quotient(429_529_497, 8_191, 52_439, 1_648);
    assert(crate::certificate::required_height(n, degree, a, m, b) == 800_893_043);
    assert(crate::certificate::support_outcome(n, degree, a, m, b, 916_623_257) == Ok::<
        (),
        Seq<char>,
    >(()));
    assert(a * a > degree * n && 4 * m * m * a * a <= u128::MAX && 4 * (b + 1) * (b + 1) * degree
        <= u128::MAX) by (nonlinear_arith)
        requires
            n == 524_288,
            degree == 8_191,
            a == 65_537,
            m == 6_554,
            b == 52_439,
    ;
    assert(crate::certificate::closed_outcome(n, degree, a) == Ok::<
        CapacityMcaCertificate,
        Seq<char>,
    >(tight_certificate()));
}

/// The fold row of the tightest level clears 128 bits and not 129.
proof fn lemma_tight_fold(level: WhirLevelConfig)
    requires
        level.log_inv_rate == 6,
        level.log_msg_cols == 13,
        level.agreement == 65_537,
        level.jet_degree == 52_439,
        level.interpolation_height == 916_623_257,
        level.list_bound == 45_876,
    ensures
        crate::soundness::fold_is_tight(level, SECURITY_BITS as nat),
{
    let (n, degree, a, b, h) = (524_288nat, 8_191nat, 65_537nat, 52_439nat, 916_623_257nat);
    lemma2_to64();
    lemma2_to64_rest();
    assert(level.n() == n && level.degree() == degree);
    let psi = crate::soundness::psi(degree, b);
    assert((2 * degree - 1) * (2 * b - 1) == 1_717_990_137) by (nonlinear_arith)
        requires
            degree == 8_191,
            b == 52_439,
    ;
    assert(psi == 1_718_062_250);
    assert((2 * b - 1) * h == 96_132_697_324_389 && (n - degree - 1) * b == 27_063_558_144) by (nonlinear_arith)
        requires
            n == 524_288,
            degree == 8_191,
            b == 52_439,
            h == 916_623_257,
    ;
    let integral = crate::soundness::integral_term(n, degree, b, h);
    assert(integral == 96_159_760_882_533);
    assert(h * psi == 1_574_815_815_323_748_250) by (nonlinear_arith)
        requires
            h == 916_623_257,
            psi == 1_718_062_250,
    ;
    let inner = b + h * psi;
    assert((n - degree) * inner == 812_757_717_841_167_564_190_833) by (nonlinear_arith)
        requires
            n == 524_288,
            degree == 8_191,
            inner == 1_574_815_815_323_800_689,
    ;
    assert(integral * (a - degree) == 5_514_377_647_569_737_418) by (nonlinear_arith)
        requires
            integral == 96_159_760_882_533,
            a == 65_537,
            degree == 8_191,
    ;
    assert(crate::soundness::exceptional_outcome(level) == Ok::<(nat, nat), Seq<char>>(
        (812_763_232_218_815_133_928_251, 57_346),
    ));
}

/// The level whose fold row is the tightest: 37 queries of 3 bits each on a code of `2^19`
/// positions.
proof fn lemma_tight_candidate(request: LevelRequest)
    requires
        request.log_inv_rate == 6,
        request.log_msg_cols == 13,
        request.log_num_interleaved == 4,
        request.level == 1,
        request.target_bits == SECURITY_BITS,
        request.query_grinding_bits == crate::params::QUERY_GRINDING_BITS,
        request.prev_queries <= u32::MAX,
    ensures
        ({
            let certificate = tight_certificate();
            let level = request.level_with(37, certificate);
            &&& request.candidate(37) == Ok::<Option<CapacityMcaCertificate>, Seq<char>>(
                Some(certificate),
            )
            &&& crate::soundness::fold_is_tight(level, SECURITY_BITS as nat)
        }),
        !crate::optimizer::beyond_johnson(request.n(), request.degree(), request.agreement(36)),
{
    lemma2_to64();
    assert(request.n() == 524_288);
    assert(request.degree() == 8_191);
    assert(request.query_bits() == 111);
    lemma_whole_bits(19, 37, 3);
    assert(request.agreement(37) == 65_537);
    lemma_tight_certificate();
    let level = request.level_with(37, tight_certificate());
    lemma_tight_fold(level);
    let list = level.list_bound as nat;
    assert(list * crate::soundness::one_less(list) * level.variables() == 35_777_545_500)
        by (nonlinear_arith)
        requires
            list == 45_876,
            crate::soundness::one_less(list) == 45_875,
            level.variables() == 17,
    ;
    let degree = crate::soundness::algebraic_degree(request.prev_queries as nat, 1);
    assert(degree * list <= 0x1_0000_0000 * 45_876) by (nonlinear_arith)
        requires
            degree <= 0x1_0000_0000,
            list == 45_876,
    ;
    assert(65_537 * 65_537 > 524_288 * 8_191);
    assert(request.rows(level) == Ok::<bool, Seq<char>>(true));
    lemma_one_query_less();
    let few = request.agreement(36);
    assert(few * few <= 65_000 * 65_000) by (nonlinear_arith)
        requires
            few <= 65_000,
    ;
}

/// The level whose fold row is the tightest is the second one at a first rate of 1/8 over `2^23`
/// words.
proof fn lemma_tight_level(config: WhirSecurityConfig)
    requires
        crate::derivation::production_error(29, 3) is None,
        config.is_production(29, 3),
    ensures
        config.levels.len() > 1,
        crate::soundness::fold_is_tight(config.levels[1], SECURITY_BITS as nat),
{
    let dim = 17nat;
    let before = config.levels[0];
    let level = config.levels[1];
    assert(crate::ladder::ladder_depth(dim) == 3);
    assert(crate::derivation::production_level(dim, 3, 0) == Ok::<WhirLevelConfig, Seq<char>>(
        before,
    ));
    assert(crate::derivation::production_level(dim, 3, 1) == Ok::<WhirLevelConfig, Seq<char>>(
        level,
    ));
    crate::derivation::lemma_production_level(dim, 3, 0);
    crate::derivation::lemma_production_shape(dim, 3, 1);
    let request = crate::derivation::production_request(dim, 3, 1, before.queries);
    lemma_tight_candidate(request);
    crate::optimizer::law_fewest_queries(request);
    let (queries, certificate) = request.optimum()->Ok_0;
    if queries < 37 {
        crate::optimizer::lemma_beyond_monotone(request, queries, 36);
    }
    assert(queries == 37);
}

/// The fold margin of the production configurations: over every selectable first rate and all logs
/// of committed words from [`MARGIN_LEAST_LOG_N`] to [`MARGIN_MOST_LOG_N`], every level's fold row
/// clears the target, and some level's does not clear one bit more. The least margin lies below
/// one bit.
pub proof fn law_least_fold_margin(configs: spec_fn(nat, nat) -> WhirSecurityConfig)
    requires
        forall|log_n: nat, log_inv_rate: nat|
            #![trigger configs(log_n, log_inv_rate)]
            in_margin(log_n, log_inv_rate) ==> {
                let m = log_n + LOG_PACKING as nat;
                &&& crate::derivation::production_error(m, log_inv_rate) is None
                &&& configs(log_n, log_inv_rate).is_production(m, log_inv_rate)
            },
    ensures
        forall|log_n: nat, log_inv_rate: nat, i: int|
            #![trigger configs(log_n, log_inv_rate).levels[i]]
            in_margin(log_n, log_inv_rate) && 0 <= i < configs(log_n, log_inv_rate).levels.len()
                ==> crate::soundness::fold_outcome(
                configs(log_n, log_inv_rate).levels[i],
                SECURITY_BITS as nat,
            ) == Ok::<bool, Seq<char>>(true),
        exists|log_n: nat, log_inv_rate: nat, i: int|
            #![trigger configs(log_n, log_inv_rate).levels[i]]
            in_margin(log_n, log_inv_rate) && 0 <= i < configs(log_n, log_inv_rate).levels.len()
                && crate::soundness::fold_is_tight(
                configs(log_n, log_inv_rate).levels[i],
                SECURITY_BITS as nat,
            ),
{
    assert forall|log_n: nat, log_inv_rate: nat, i: int|
        #![trigger configs(log_n, log_inv_rate).levels[i]]
        in_margin(log_n, log_inv_rate) && 0 <= i < configs(
            log_n,
            log_inv_rate,
        ).levels.len() implies crate::soundness::fold_outcome(
        configs(log_n, log_inv_rate).levels[i],
        SECURITY_BITS as nat,
    ) == Ok::<bool, Seq<char>>(true) by {
        let config = configs(log_n, log_inv_rate);
        let dim = (log_n - INITIAL_FOLDING_FACTOR) as nat;
        assert(crate::derivation::production_level(dim, log_inv_rate, i as nat) == Ok::<
            WhirLevelConfig,
            Seq<char>,
        >(config.levels[i]));
        crate::derivation::lemma_production_level(dim, log_inv_rate, i as nat);
    }
    let config = configs(23, 3);
    assert(in_margin(23, 3));
    lemma_tight_level(config);
    assert(crate::soundness::fold_is_tight(configs(23, 3).levels[1], SECURITY_BITS as nat));
}

} // verus!
