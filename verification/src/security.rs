//! The security configuration of one opening: its validation, its derivation, and what a valid
//! one guarantees round by round.

use vstd::prelude::*;
use vstd::arithmetic::power2::*;
use crate::certificate::{capacity_certificate, CapacityMcaCertificate};
use crate::code::reduced_rate;
use crate::config::ProverConfig;
use crate::optimizer::{is_beyond_johnson, query_target_bits};
use crate::params::{
    LOG_PACKING, RS_DOMAIN_INITIAL_REDUCTION_FACTOR, RS_DOMAIN_SUBSEQUENT_REDUCTION_FACTOR,
};
use crate::query::exact_query_agreement;
use crate::soundness::{
    capacity_mca_fold_within_target, johnson_algebraic_within_target, ood_within_target,
    WhirLevelConfig,
};
use crate::text::with_number;

verus! {

/// The residual block that is sent in clear behind the last fold. It has no commitment and no
/// queries, so its dimension is all there is to it.
#[derive(Clone, Debug)]
pub struct FinalBlockConfig {
    /// Log of the number of extension-field values sent in clear.
    pub yr_log_n: usize,
}

/// The complete security parameters of one instance.
#[derive(Clone, Debug)]
pub struct WhirSecurityConfig {
    /// Log of the number of witness bits.
    pub m: usize,
    /// Log of the number of committed words.
    pub log_n: usize,
    /// Variables that the first fold takes.
    pub initial_k: usize,
    /// Round-by-round target: every error term of a verifier challenge clears at least this many
    /// bits. It is no claim on the sum of all failure probabilities.
    pub target_security_bits: usize,
    /// Name of the proximity-gap analysis that the parameters come from.
    pub analysis_version: String,
    /// Per-level parameters, in order.
    pub levels: Vec<WhirLevelConfig>,
    /// The residual block.
    pub final_block: FinalBlockConfig,
}

/// Why a configuration is not valid. Positions and targets are those of the offending level.
#[derive(Clone, Debug)]
pub enum ConfigError {
    /// A violation that its text says in full.
    Message(String),
    /// The agreement is not strictly between the Johnson radius and the whole code.
    JohnsonEta { level: usize },
    /// Out-of-domain binding falls short of the level's target.
    OodBinding { level: usize, target: usize },
    /// The fold challenge falls short of the level's target.
    FoldSoundness { level: usize, target: usize },
    /// The list-unioned algebraic challenge falls short of the level's target.
    AlgebraicSoundness { level: usize, target: usize },
}

/// What a [`ConfigError`] says.
pub enum Violation {
    Message(Seq<char>),
    JohnsonEta(nat),
    OodBinding(nat, nat),
    FoldSoundness(nat, nat),
    AlgebraicSoundness(nat, nat),
}

impl View for ConfigError {
    type V = Violation;

    open spec fn view(&self) -> Violation {
        match self {
            ConfigError::Message(text) => Violation::Message(text@),
            ConfigError::JohnsonEta { level } => Violation::JohnsonEta(*level as nat),
            ConfigError::OodBinding { level, target } => Violation::OodBinding(
                *level as nat,
                *target as nat,
            ),
            ConfigError::FoldSoundness { level, target } => Violation::FoldSoundness(
                *level as nat,
                *target as nat,
            ),
            ConfigError::AlgebraicSoundness { level, target } => Violation::AlgebraicSoundness(
                *level as nat,
                *target as nat,
            ),
        }
    }
}

/// The earlier of two violations.
pub open spec fn earlier(first: Option<Violation>, second: Option<Violation>) -> Option<Violation> {
    if first is Some {
        first
    } else {
        second
    }
}

/// What a check found.
pub open spec fn found(r: Result<(), ConfigError>) -> Option<Violation> {
    match r {
        Ok(_) => None,
        Err(e) => Some(e@),
    }
}

/// The text `L` with a level's position.
pub open spec fn level_name(i: nat) -> Seq<char> {
    "L"@ + crate::text::decimal(i)
}

/// The variables that the levels from `lo` up to, not including, `hi` fold.
pub open spec fn folds(levels: Seq<WhirLevelConfig>, lo: nat, hi: nat) -> nat
    decreases hi,
{
    if hi <= lo {
        0
    } else {
        folds(levels, lo, (hi - 1) as nat) + levels[hi - 1].k as nat
    }
}

/// The query count whose claims level `i` batches.
pub open spec fn queries_before(levels: Seq<WhirLevelConfig>, i: nat) -> nat {
    if i == 0 {
        0
    } else {
        levels[i - 1].queries as nat
    }
}

/// The query count whose claims the batch at `levels[i]` carries.
pub fn prev_queries_at(levels: &[WhirLevelConfig], i: usize) -> (queries: usize)
    requires
        i <= levels.len(),
    ensures
        queries == queries_before(levels@, i as nat),
{
    if i == 0 {
        0
    } else {
        levels[i - 1].queries
    }
}

impl WhirSecurityConfig {
    /// What is wrong with the shape as a whole.
    #[verifier::opaque]
    pub open spec fn header_violation(self) -> Option<Violation> {
        let levels = self.levels@;
        let later = folds(levels, 1, levels.len());
        let yr = self.final_block.yr_log_n as nat;
        let total = self.initial_k as nat + later + yr;
        if self.log_n + LOG_PACKING != self.m {
            Some(
                Violation::Message(
                    "log_n ("@ + crate::text::decimal(self.log_n as nat) + ") + LOG_PACKING ("@
                        + crate::text::decimal(LOG_PACKING as nat) + ") != m ("@
                        + crate::text::decimal(self.m as nat) + ")"@,
                ),
            )
        } else if total != self.log_n {
            Some(
                Violation::Message(
                    "shape mismatch: initial_k ("@ + crate::text::decimal(self.initial_k as nat)
                        + ") + Σ k ("@ + crate::text::decimal(later) + ") + yr_log_n ("@
                        + crate::text::decimal(yr) + ") = "@ + crate::text::decimal(total)
                        + " ≠ log_n ("@ + crate::text::decimal(self.log_n as nat) + ")"@,
                ),
            )
        } else if levels.len() == 0 {
            Some(Violation::Message("empty levels"@))
        } else if levels[0].k != self.initial_k {
            Some(
                Violation::Message(
                    "L0.k ("@ + crate::text::decimal(levels[0].k as nat)
                        + ") must equal initial_k ("@ + crate::text::decimal(self.initial_k as nat)
                        + ")"@,
                ),
            )
        } else if levels[0].log_num_interleaved != self.initial_k {
            Some(
                Violation::Message(
                    "L0.log_num_interleaved ("@ + crate::text::decimal(
                        levels[0].log_num_interleaved as nat,
                    ) + ") must equal initial_k ("@ + crate::text::decimal(self.initial_k as nat)
                        + ")"@,
                ),
            )
        } else {
            None
        }
    }

    /// The variables that enter level `i`.
    pub open spec fn dim_in(self, i: nat) -> int {
        self.log_n - folds(self.levels@, 0, i)
    }

    /// What is wrong with the shape of level `i` and with the rate behind it. Each level folds all
    /// its lanes, so the variables that enter a level are the columns of the level before it.
    #[verifier::opaque]
    pub open spec fn shape_violation(self, i: nat) -> Option<Violation> {
        let lv = self.levels@[i as int];
        if lv.log_inv_rate == 0 {
            Some(
                Violation::Message(level_name(i) + ": log_inv_rate=0 gives a rate-one code"@),
            )
        } else if lv.log_msg_cols == 0 {
            Some(Violation::Message(level_name(i) + ": log_msg_cols must be positive"@))
        } else if lv.log_msg_cols + lv.log_num_interleaved != self.dim_in(i) {
            Some(
                Violation::Message(
                    level_name(i) + ": log_msg_cols ("@ + crate::text::decimal(
                        lv.log_msg_cols as nat,
                    ) + ") + log_num_interleaved ("@ + crate::text::decimal(
                        lv.log_num_interleaved as nat,
                    ) + ") ≠ input dim ("@ + crate::text::decimal(self.dim_in(i) as nat) + ")"@,
                ),
            )
        } else if i > 0 && lv.k != lv.log_num_interleaved {
            Some(
                Violation::Message(
                    level_name(i) + ": k ("@ + crate::text::decimal(lv.k as nat)
                        + ") must equal log_num_interleaved ("@ + crate::text::decimal(
                        lv.log_num_interleaved as nat,
                    ) + ")"@,
                ),
            )
        } else if i + 1 < self.levels.len() {
            let next = self.levels@[i as int + 1];
            let reduction = crate::ladder::domain_reduction(i + 1);
            let expected = lv.log_inv_rate + lv.k - reduction;
            if lv.log_inv_rate + lv.k > usize::MAX || expected < 0 {
                Some(
                    Violation::Message(
                        level_name(i) + ": invalid RS domain reduction "@ + crate::text::decimal(
                            reduction,
                        ),
                    ),
                )
            } else if next.log_inv_rate != expected {
                Some(
                    Violation::Message(
                        level_name(i + 1) + ": log_inv_rate ("@ + crate::text::decimal(
                            next.log_inv_rate as nat,
                        ) + ") does not reduce the preceding RS domain by "@
                            + crate::text::decimal(reduction) + " bit(s); expected "@
                            + crate::text::decimal(expected as nat),
                    ),
                )
            } else {
                None
            }
        } else {
            None
        }
    }

    /// What is wrong with the queries and the certificate of level `i`.
    pub open spec fn certificate_violation(self, i: nat) -> Option<Violation> {
        let lv = self.levels@[i as int];
        let target = crate::optimizer::query_target(
            lv.target_security_bits as nat,
            lv.grinding_bits as nat,
        );
        let expected = crate::query::query_agreement(lv.n(), lv.queries as nat, target);
        if lv.queries == 0 {
            Some(Violation::Message(level_name(i) + ": query count must be positive"@))
        } else if lv.queries > u32::MAX {
            Some(Violation::Message("query count does not fit u32"@))
        } else if lv.agreement != expected {
            Some(
                Violation::Message(
                    level_name(i) + ": agreement threshold "@ + crate::text::decimal(
                        lv.agreement as nat,
                    ) + " is not the exact query threshold "@ + crate::text::decimal(expected),
                ),
            )
        } else if !crate::optimizer::beyond_johnson(lv.n(), lv.degree(), lv.agreement as nat)
            || lv.agreement >= lv.n() {
            Some(Violation::JohnsonEta(i))
        } else {
            match crate::certificate::capacity_outcome(
                lv.n(),
                lv.degree(),
                lv.agreement as nat,
                lv.queries as nat,
            ) {
                Err(e) => Some(Violation::Message(e)),
                Ok(certificate) => if !holds_certificate(lv, certificate) {
                    Some(
                        Violation::Message(
                            level_name(i)
                                + ": capacity MCA certificate does not match its exact derived parameters"@,
                        ),
                    )
                } else {
                    None
                },
            }
        }
    }

    /// What is wrong with the out-of-domain samples of level `i`.
    pub open spec fn ood_violation(self, i: nat) -> Option<Violation> {
        let lv = self.levels@[i as int];
        let target = lv.target_security_bits as nat;
        if i == 0 && lv.ood_samples != 0 {
            Some(
                Violation::Message(
                    "L0: ood_samples="@ + crate::text::decimal(lv.ood_samples as nat)
                        + " but L0 is bound by the opening's own evaluation claim (must be 0)"@,
                ),
            )
        } else if i > 0 && lv.ood_samples == 0 {
            Some(
                Violation::Message(
                    level_name(i)
                        + ": ood_samples ≥ 1 required past L0 (the query counts assume single-codeword binding)"@,
                ),
            )
        } else {
            match crate::soundness::ood_outcome(lv, target) {
                Err(e) => Some(Violation::Message(e)),
                Ok(false) => Some(Violation::OodBinding(i, target)),
                Ok(true) => None,
            }
        }
    }

    /// What is wrong with the fold and algebraic rows of level `i`, or with its target.
    pub open spec fn rows_violation(self, i: nat) -> Option<Violation> {
        let lv = self.levels@[i as int];
        let target = lv.target_security_bits as nat;
        match crate::soundness::fold_outcome(lv, target) {
            Err(e) => Some(Violation::Message(e)),
            Ok(false) => Some(Violation::FoldSoundness(i, target)),
            Ok(true) => match crate::soundness::algebraic_outcome(
                lv,
                queries_before(self.levels@, i),
                target,
            ) {
                Err(e) => Some(Violation::Message(e)),
                Ok(false) => Some(Violation::AlgebraicSoundness(i, target)),
                Ok(true) => if target < self.target_security_bits {
                    Some(
                        Violation::Message(
                            level_name(i) + ": target_security_bits ("@ + crate::text::decimal(
                                target,
                            ) + ") < global target ("@ + crate::text::decimal(
                                self.target_security_bits as nat,
                            ) + ")"@,
                        ),
                    )
                } else {
                    None
                },
            },
        }
    }

    /// The first thing wrong with level `i`.
    #[verifier::opaque]
    pub open spec fn level_violation(self, i: nat) -> Option<Violation> {
        earlier(
            self.shape_violation(i),
            earlier(
                self.certificate_violation(i),
                earlier(self.ood_violation(i), self.rows_violation(i)),
            ),
        )
    }

    /// The first thing wrong with the levels from `i` on.
    pub open spec fn levels_violation(self, i: nat) -> Option<Violation>
        decreases self.levels.len() - i,
    {
        if i >= self.levels.len() {
            None
        } else {
            earlier(self.level_violation(i), self.levels_violation(i + 1))
        }
    }

    /// The first thing wrong with the configuration.
    pub open spec fn violation(self) -> Option<Violation> {
        earlier(self.header_violation(), self.levels_violation(0))
    }

    /// Whether every code length that the validation comes to fits in `usize`.
    pub open spec fn lengths_fit(self) -> bool {
        forall|i: int|
            0 <= i < self.levels.len() && self.comes_to(i as nat) ==> (
            #[trigger] self.levels[i]).length_fits()
    }

    /// Whether the validation comes to the code of level `i`: nothing before it is wrong, and the
    /// level has queries.
    pub open spec fn comes_to(self, i: nat) -> bool {
        &&& self.header_violation() is None
        &&& forall|j: nat| j < i ==> (#[trigger] self.level_violation(j)) is None
        &&& self.shape_violation(i) is None
        &&& self.levels@[i as int].queries > 0
    }

    /// Whether the levels stand on one another: the variables that enter the first level are all
    /// there are, those that enter a deeper one are the columns of the level before it, and the
    /// columns of the last level are the residual.
    pub open spec fn levels_chain(self) -> bool {
        let levels = self.levels@;
        &&& levels.len() > 0
        &&& levels[0].log_msg_cols + levels[0].log_num_interleaved == self.log_n
        &&& forall|i: int, j: int|
            0 <= i && i + 1 == j && j < levels.len() ==> (#[trigger] levels[j]).log_msg_cols
                + levels[j].log_num_interleaved == (#[trigger] levels[i]).log_msg_cols
        &&& levels.last().log_msg_cols == self.final_block.yr_log_n
    }
}

/// Whether a level's certificate parameters are those of `certificate`.
pub open spec fn holds_certificate(
    level: WhirLevelConfig,
    certificate: CapacityMcaCertificate,
) -> bool {
    &&& level.interpolation_m == certificate.interpolation_m
    &&& level.jet_degree == certificate.jet_degree
    &&& level.interpolation_height == certificate.interpolation_height
    &&& level.list_bound == certificate.list_bound
    &&& level.certificate_variant == certificate.variant
}

/// Where nothing is wrong with any level, nothing is wrong with the levels.
pub(crate) proof fn lemma_no_violation(config: WhirSecurityConfig, i: nat)
    requires
        forall|j: nat|
            i <= j < config.levels.len() ==> (#[trigger] config.level_violation(j)) is None,
    ensures
        config.levels_violation(i) is None,
    decreases config.levels.len() - i,
{
    if i < config.levels.len() {
        lemma_no_violation(config, i + 1);
    }
}

/// `text` with a number and a text behind it.
fn numbered(text: String, n: u128, rest: &str) -> (s: String)
    ensures
        s@ == text@ + crate::text::decimal(n as nat) + rest@,
{
    with_number(text, n).concat(rest)
}

/// The text `L` with a level's position and a text behind it.
fn level_text(i: usize, rest: &str) -> (s: String)
    ensures
        s@ == level_name(i as nat) + rest@,
{
    numbered("L".to_owned(), i as u128, rest)
}

pub(crate) proof fn lemma_folds_split(levels: Seq<WhirLevelConfig>, hi: nat)
    requires
        1 <= hi <= levels.len(),
    ensures
        folds(levels, 0, hi) == levels[0].k as nat + folds(levels, 1, hi),
    decreases hi,
{
    if hi > 1 {
        lemma_folds_split(levels, (hi - 1) as nat);
    } else {
        assert(folds(levels, 0, 0) == 0);
    }
}

proof fn lemma_folds_monotone(levels: Seq<WhirLevelConfig>, lo: nat, i: nat, j: nat)
    requires
        i <= j,
    ensures
        folds(levels, lo, i) <= folds(levels, lo, j),
    decreases j,
{
    if i < j {
        lemma_folds_monotone(levels, lo, i, (j - 1) as nat);
    }
}

impl WhirSecurityConfig {
    /// A configuration whose sums are right never folds more variables than there are.
    proof fn lemma_dims(self, i: nat)
        requires
            self.header_violation() is None,
            i <= self.levels.len(),
        ensures
            0 <= self.final_block.yr_log_n <= self.dim_in(i) <= self.log_n,
            i == self.levels.len() ==> self.dim_in(i) == self.final_block.yr_log_n,
    {
        reveal(WhirSecurityConfig::header_violation);
        let levels = self.levels@;
        lemma_folds_split(levels, levels.len());
        lemma_folds_monotone(levels, 0, i, levels.len());
    }

    /// Checks the shape as a whole.
    fn check_header(&self) -> (r: Result<(), ConfigError>)
        ensures
            found(r) == self.header_violation(),
    {
        reveal(WhirSecurityConfig::header_violation);
        if self.log_n as u128 + LOG_PACKING as u128 != self.m as u128 {
            let text = numbered("log_n (".to_owned(), self.log_n as u128, ") + LOG_PACKING (");
            let text = numbered(text, LOG_PACKING as u128, ") != m (");
            return Err(ConfigError::Message(numbered(text, self.m as u128, ")")));
        }
        let mut later: u128 = 0;
        let mut i: usize = 1;
        while i < self.levels.len()
            invariant
                1 <= i,
                i <= self.levels.len() || (i == 1 && self.levels.len() == 0),
                later == folds(self.levels@, 1, i as nat),
                later <= (i - 1) * usize::MAX,
            decreases self.levels.len() - i,
        {
            proof {
                let (j, most) = (i - 1, usize::MAX as int);
                assert(j * most + most <= u128::MAX) by (nonlinear_arith)
                    requires
                        0 <= j < 0xffff_ffff_ffff_ffff,
                        0 <= most <= 0xffff_ffff_ffff_ffff,
                ;
                assert((j + 1) * most == j * most + most) by (nonlinear_arith);
            }
            later = later + self.levels[i].k as u128;
            i = i + 1;
        }
        proof {
            let (j, most) = (i - 1, usize::MAX as int);
            assert(j * most + 2 * most <= u128::MAX) by (nonlinear_arith)
                requires
                    0 <= j < 0xffff_ffff_ffff_ffff,
                    0 <= most <= 0xffff_ffff_ffff_ffff,
            ;
        }
        let yr_log_n: usize = self.final_block.yr_log_n;
        let total: u128 = self.initial_k as u128 + later + yr_log_n as u128;
        if total != self.log_n as u128 {
            let text = numbered(
                "shape mismatch: initial_k (".to_owned(),
                self.initial_k as u128,
                ") + Σ k (",
            );
            let text = numbered(text, later, ") + yr_log_n (");
            let text = numbered(text, yr_log_n as u128, ") = ");
            let text = numbered(text, total, " ≠ log_n (");
            return Err(ConfigError::Message(numbered(text, self.log_n as u128, ")")));
        }
        if self.levels.len() == 0 {
            return Err(ConfigError::Message("empty levels".to_owned()));
        }
        let l0 = self.levels[0];
        if l0.k != self.initial_k {
            let text = numbered("L0.k (".to_owned(), l0.k as u128, ") must equal initial_k (");
            return Err(ConfigError::Message(numbered(text, self.initial_k as u128, ")")));
        }
        if l0.log_num_interleaved != self.initial_k {
            let text = numbered(
                "L0.log_num_interleaved (".to_owned(),
                l0.log_num_interleaved as u128,
                ") must equal initial_k (",
            );
            return Err(ConfigError::Message(numbered(text, self.initial_k as u128, ")")));
        }
        Ok(())
    }

    /// Checks the shape of level `i`, which `dim_in` variables enter, and the rate behind it.
    fn check_shape(&self, i: usize, dim_in: usize) -> (r: Result<(), ConfigError>)
        requires
            i < self.levels.len(),
            dim_in == self.dim_in(i as nat),
        ensures
            found(r) == self.shape_violation(i as nat),
    {
        reveal(WhirSecurityConfig::shape_violation);
        let lv = self.levels[i];
        if lv.log_inv_rate == 0 {
            return Err(
                ConfigError::Message(level_text(i, ": log_inv_rate=0 gives a rate-one code")),
            );
        }
        if lv.log_msg_cols == 0 {
            return Err(ConfigError::Message(level_text(i, ": log_msg_cols must be positive")));
        }
        if lv.log_msg_cols as u128 + lv.log_num_interleaved as u128 != dim_in as u128 {
            let text = numbered(
                level_text(i, ": log_msg_cols ("),
                lv.log_msg_cols as u128,
                ") + log_num_interleaved (",
            );
            let text = numbered(text, lv.log_num_interleaved as u128, ") ≠ input dim (");
            return Err(ConfigError::Message(numbered(text, dim_in as u128, ")")));
        }
        if i > 0 && lv.k != lv.log_num_interleaved {
            let text = numbered(
                level_text(i, ": k ("),
                lv.k as u128,
                ") must equal log_num_interleaved (",
            );
            return Err(ConfigError::Message(numbered(text, lv.log_num_interleaved as u128, ")")));
        }
        if i + 1 < self.levels.len() {
            let next = self.levels[i + 1];
            let reduction: usize = if i == 0 {
                RS_DOMAIN_INITIAL_REDUCTION_FACTOR
            } else {
                RS_DOMAIN_SUBSEQUENT_REDUCTION_FACTOR
            };
            let raised: u128 = lv.log_inv_rate as u128 + lv.k as u128;
            if raised > usize::MAX as u128 || raised < reduction as u128 {
                return Err(
                    ConfigError::Message(
                        with_number(
                            level_text(i, ": invalid RS domain reduction "),
                            reduction as u128,
                        ),
                    ),
                );
            }
            let expected: u128 = raised - reduction as u128;
            if next.log_inv_rate as u128 != expected {
                let text = numbered(
                    level_text(i + 1, ": log_inv_rate ("),
                    next.log_inv_rate as u128,
                    ") does not reduce the preceding RS domain by ",
                );
                let text = numbered(text, reduction as u128, " bit(s); expected ");
                return Err(ConfigError::Message(with_number(text, expected)));
            }
        }
        Ok(())
    }

    /// Checks the queries and the certificate of level `i`.
    fn check_certificate(&self, i: usize) -> (r: Result<(), ConfigError>)
        requires
            i < self.levels.len(),
            self.levels[i as int].queries > 0 ==> self.levels[i as int].length_fits(),
        ensures
            found(r) == self.certificate_violation(i as nat),
    {
        let lv = self.levels[i];
        if lv.queries == 0 {
            return Err(ConfigError::Message(level_text(i, ": query count must be positive")));
        }
        let (degree, block_len) = reduced_rate(lv.log_inv_rate, lv.log_msg_cols);
        let target: usize = query_target_bits(lv.target_security_bits, lv.grinding_bits);
        proof {
            lemma_pow2_pos((lv.log_msg_cols + lv.log_inv_rate) as nat);
            crate::query::law_query_agreement_bounds(lv.n(), lv.queries as nat, target as nat);
        }
        let expected: usize = match exact_query_agreement(block_len, lv.queries, target) {
            Ok(expected) => expected,
            Err(e) => return Err(ConfigError::Message(e)),
        };
        if lv.agreement != expected {
            let text = numbered(
                level_text(i, ": agreement threshold "),
                lv.agreement as u128,
                " is not the exact query threshold ",
            );
            return Err(ConfigError::Message(with_number(text, expected as u128)));
        }
        if !is_beyond_johnson(block_len, degree, lv.agreement) || lv.agreement >= block_len {
            return Err(ConfigError::JohnsonEta { level: i });
        }
        match capacity_certificate(lv.log_inv_rate, lv.log_msg_cols, lv.agreement, lv.queries) {
            Err(e) => Err(ConfigError::Message(e)),
            Ok(certificate) => if lv.interpolation_m != certificate.interpolation_m
                || lv.jet_degree != certificate.jet_degree || lv.interpolation_height
                != certificate.interpolation_height || lv.list_bound != certificate.list_bound
                || lv.certificate_variant != certificate.variant {
                Err(
                    ConfigError::Message(
                        level_text(
                            i,
                            ": capacity MCA certificate does not match its exact derived parameters",
                        ),
                    ),
                )
            } else {
                Ok(())
            },
        }
    }

    /// Checks the out-of-domain samples of level `i`.
    fn check_ood(&self, i: usize) -> (r: Result<(), ConfigError>)
        requires
            i < self.levels.len(),
        ensures
            found(r) == self.ood_violation(i as nat),
    {
        let lv = self.levels[i];
        if i == 0 && lv.ood_samples != 0 {
            return Err(
                ConfigError::Message(
                    numbered(
                        "L0: ood_samples=".to_owned(),
                        lv.ood_samples as u128,
                        " but L0 is bound by the opening's own evaluation claim (must be 0)",
                    ),
                ),
            );
        }
        if i > 0 && lv.ood_samples == 0 {
            return Err(
                ConfigError::Message(
                    level_text(
                        i,
                        ": ood_samples ≥ 1 required past L0 (the query counts assume single-codeword binding)",
                    ),
                ),
            );
        }
        match ood_within_target(&lv, lv.target_security_bits) {
            Err(e) => Err(ConfigError::Message(e)),
            Ok(true) => Ok(()),
            Ok(false) => Err(
                ConfigError::OodBinding { level: i, target: lv.target_security_bits },
            ),
        }
    }

    /// Checks the fold and algebraic rows of level `i`, and its target.
    fn check_rows(&self, i: usize) -> (r: Result<(), ConfigError>)
        requires
            i < self.levels.len(),
            self.levels[i as int].length_fits(),
            self.levels[i as int].log_msg_cols > 0,
            self.levels[i as int].jet_degree > 0,
        ensures
            found(r) == self.rows_violation(i as nat),
    {
        let lv = self.levels[i];
        let target: usize = lv.target_security_bits;
        match capacity_mca_fold_within_target(&lv, target) {
            Err(e) => return Err(ConfigError::Message(e)),
            Ok(false) => return Err(ConfigError::FoldSoundness { level: i, target }),
            Ok(true) => {},
        }
        let prev_queries: usize = prev_queries_at(self.levels.as_slice(), i);
        match johnson_algebraic_within_target(&lv, prev_queries, target) {
            Err(e) => return Err(ConfigError::Message(e)),
            Ok(false) => return Err(ConfigError::AlgebraicSoundness { level: i, target }),
            Ok(true) => {},
        }
        if target < self.target_security_bits {
            let text = numbered(
                level_text(i, ": target_security_bits ("),
                target as u128,
                ") < global target (",
            );
            return Err(
                ConfigError::Message(numbered(text, self.target_security_bits as u128, ")")),
            );
        }
        Ok(())
    }

    /// Checks level `i`, which `dim_in` variables enter.
    fn check_level(&self, i: usize, dim_in: usize) -> (r: Result<(), ConfigError>)
        requires
            i < self.levels.len(),
            dim_in == self.dim_in(i as nat),
            self.shape_violation(i as nat) is None && self.levels[i as int].queries > 0
                ==> self.levels[i as int].length_fits(),
        ensures
            found(r) == self.level_violation(i as nat),
    {
        reveal(WhirSecurityConfig::level_violation);
        reveal(WhirSecurityConfig::shape_violation);
        self.check_shape(i, dim_in)?;
        self.check_certificate(i)?;
        proof {
            let lv = self.levels[i as int];
            crate::certificate::law_certificate_stands(
                lv.n(),
                lv.degree(),
                lv.agreement as nat,
                lv.queries as nat,
            );
        }
        self.check_ood(i)?;
        self.check_rows(i)
    }

    /// Validates that the configuration is consistent and meets its targets. Returns the first
    /// violation found, if any.
    ///
    /// The folds and the residual add up to `log_n`, so what is left behind the last level is the
    /// residual.
    pub fn validate(&self) -> (r: Result<(), ConfigError>)
        requires
            self.lengths_fit(),
        ensures
            found(r) == self.violation(),
            r is Ok ==> self.levels_chain(),
    {
        self.check_header()?;
        let mut dim_in: usize = self.log_n;
        let mut i: usize = 0;
        while i < self.levels.len()
            invariant
                i <= self.levels.len(),
                self.lengths_fit(),
                self.header_violation() is None,
                dim_in == self.dim_in(i as nat),
                forall|j: nat| j < i ==> (#[trigger] self.level_violation(j)) is None,
                self.levels_violation(0) == self.levels_violation(i as nat),
            decreases self.levels.len() - i,
        {
            assert(self.shape_violation(i as nat) is None && self.levels[i as int].queries > 0
                ==> self.comes_to(i as nat));
            self.check_level(i, dim_in)?;
            proof {
                self.lemma_dims((i + 1) as nat);
            }
            dim_in = dim_in - self.levels[i].k;
            i = i + 1;
        }
        proof {
            lemma_levels_chain(*self);
        }
        Ok(())
    }
}

impl WhirSecurityConfig {
    /// Whether `config` holds this configuration's shape, level by level.
    pub open spec fn is_shared_config(self, config: ProverConfig) -> bool {
        let n = self.levels.len();
        &&& config.level_steps == n - 1
        &&& config.initial_k == self.initial_k
        &&& config.log_inv_rates.len() == n
        &&& config.level_ks.len() == n - 1
        &&& config.queries.len() == n
        &&& config.grinding_bits.len() == n
        &&& config.ood_samples.len() == n
        &&& forall|i: int|
            0 <= i < n ==> #[trigger] config.log_inv_rates[i] == self.levels[i].log_inv_rate
        &&& forall|i: int|
            0 <= i < n - 1 ==> #[trigger] config.level_ks[i] == self.levels[i + 1].k
        &&& forall|i: int| 0 <= i < n ==> #[trigger] config.queries[i] == self.levels[i].queries
        &&& forall|i: int|
            0 <= i < n ==> #[trigger] config.grinding_bits[i] == self.levels[i].grinding_bits
        &&& forall|i: int|
            0 <= i < n ==> #[trigger] config.ood_samples[i] == self.levels[i].ood_samples
    }

    /// Builds the configuration that prover and verifier share: the level shapes, without the
    /// fields of the security analysis.
    pub fn to_config(&self) -> (r: Result<ProverConfig, ConfigError>)
        requires
            self.lengths_fit(),
        ensures
            match r {
                Ok(config) => self.violation() is None && self.is_shared_config(config),
                Err(e) => self.violation() == Some(e@),
            },
    {
        self.validate()?;
        proof {
            reveal(WhirSecurityConfig::header_violation);
        }
        let n: usize = self.levels.len();
        let mut log_inv_rates: Vec<usize> = Vec::new();
        let mut level_ks: Vec<usize> = Vec::new();
        let mut queries: Vec<usize> = Vec::new();
        let mut grinding_bits: Vec<usize> = Vec::new();
        let mut ood_samples: Vec<usize> = Vec::new();
        let mut i: usize = 0;
        while i < n
            invariant
                i <= n,
                n == self.levels.len(),
                log_inv_rates.len() == i,
                level_ks.len() == if i == 0 {
                    0
                } else {
                    i - 1
                },
                queries.len() == i,
                grinding_bits.len() == i,
                ood_samples.len() == i,
                forall|l: int|
                    0 <= l < i ==> #[trigger] log_inv_rates[l] == self.levels[l].log_inv_rate,
                forall|l: int| 0 <= l < i - 1 ==> #[trigger] level_ks[l] == self.levels[l + 1].k,
                forall|l: int| 0 <= l < i ==> #[trigger] queries[l] == self.levels[l].queries,
                forall|l: int|
                    0 <= l < i ==> #[trigger] grinding_bits[l] == self.levels[l].grinding_bits,
                forall|l: int|
                    0 <= l < i ==> #[trigger] ood_samples[l] == self.levels[l].ood_samples,
            decreases n - i,
        {
            let lv = self.levels[i];
            log_inv_rates.push(lv.log_inv_rate);
            if i > 0 {
                level_ks.push(lv.k);
            }
            queries.push(lv.queries);
            grinding_bits.push(lv.grinding_bits);
            ood_samples.push(lv.ood_samples);
            i = i + 1;
        }
        Ok(
            ProverConfig {
                log_inv_rates,
                level_steps: n - 1,
                initial_k: self.initial_k,
                level_ks,
                queries,
                grinding_bits,
                ood_samples,
            },
        )
    }
}

proof fn lemma_levels_valid(config: WhirSecurityConfig, from: nat, i: nat)
    requires
        config.levels_violation(from) is None,
        from <= i < config.levels.len(),
    ensures
        config.level_violation(i) is None,
    decreases config.levels.len() - from,
{
    if from < i {
        lemma_levels_valid(config, from + 1, i);
    }
}

/// Nothing is wrong with any level of a valid configuration.
pub(crate) proof fn lemma_valid_level(config: WhirSecurityConfig, i: nat)
    requires
        config.violation() is None,
        i < config.levels.len(),
    ensures
        config.header_violation() is None,
        config.shape_violation(i) is None,
        config.certificate_violation(i) is None,
        config.ood_violation(i) is None,
        config.rows_violation(i) is None,
{
    lemma_levels_valid(config, 0, i);
    reveal(WhirSecurityConfig::level_violation);
}

/// The columns of a level that nothing is wrong with are what enters the next one.
proof fn lemma_columns_enter(config: WhirSecurityConfig, i: nat)
    requires
        config.violation() is None,
        i < config.levels.len(),
    ensures
        config.levels[i as int].log_msg_cols + config.levels[i as int].log_num_interleaved
            == config.dim_in(i),
        config.levels[i as int].k == config.levels[i as int].log_num_interleaved,
        config.dim_in(i + 1) == config.levels[i as int].log_msg_cols,
{
    lemma_valid_level(config, i);
    reveal(WhirSecurityConfig::header_violation);
    reveal(WhirSecurityConfig::shape_violation);
}

/// The levels of a valid configuration stand on one another.
proof fn lemma_levels_chain(config: WhirSecurityConfig)
    requires
        config.violation() is None,
    ensures
        config.levels_chain(),
{
    let levels = config.levels@;
    assert(config.header_violation() is None && levels.len() > 0) by {
        reveal(WhirSecurityConfig::header_violation);
    }
    lemma_columns_enter(config, 0);
    assert(config.dim_in(0) == config.log_n);
    assert forall|i: int, j: int| 0 <= i && i + 1 == j && j < levels.len() implies (
    #[trigger] levels[j]).log_msg_cols + levels[j].log_num_interleaved == (
    #[trigger] levels[i]).log_msg_cols by {
        lemma_columns_enter(config, i as nat);
        lemma_columns_enter(config, j as nat);
    }
    lemma_columns_enter(config, (levels.len() - 1) as nat);
    config.lemma_dims(levels.len());
}

/// Round-by-round soundness: in a valid configuration every error term of every verifier challenge
/// clears the global target by itself.
///
/// - Queries: a word outside the list, with at most `A - 1` agreements, survives with probability
///   at most two to the power of what grinding leaves of the target.
/// - Fold: the exceptional bound plus twice the list, over the field.
/// - Out-of-domain binding: the pairs of the list, or at the first level the list, times the
///   number of variables, over the field.
/// - Algebraic batching: the degree times the list, over the field.
pub proof fn law_round_by_round(config: WhirSecurityConfig, i: nat)
    requires
        config.violation() is None,
        i < config.levels.len(),
    ensures
        ({
            let lv = config.levels[i as int];
            let target = lv.target_security_bits as nat;
            let bits = crate::optimizer::query_target(target, lv.grinding_bits as nat);
            let n = lv.n();
            let degree = lv.degree();
            let a = lv.agreement as nat;
            let list = lv.list_bound as nat;
            &&& config.target_security_bits <= target <= crate::soundness::ANALYSIS_LOG_Q
            &&& bits + lv.grinding_bits >= target
            &&& crate::query::query_row_holds(n, (a - 1) as nat, lv.queries as nat, bits)
            &&& !crate::query::query_row_holds(n, a, lv.queries as nat, bits)
            &&& degree < a < n
            &&& (crate::soundness::exceptional_numerator(
                n,
                degree,
                a,
                lv.jet_degree as nat,
                lv.interpolation_height as nat,
            ) + 2 * list * (a - degree)) * pow2(target) <= pow2(
                crate::soundness::ANALYSIS_LOG_Q as nat,
            ) * (a - degree)
            &&& crate::soundness::ood_numerator(list, lv.variables(), lv.ood_samples as nat) * pow2(
                target,
            ) <= pow2(crate::soundness::ANALYSIS_LOG_Q as nat)
            &&& crate::soundness::algebraic_degree(
                queries_before(config.levels@, i),
                lv.ood_samples as nat,
            ) * list * pow2(target) <= pow2(crate::soundness::ANALYSIS_LOG_Q as nat)
        }),
{
    lemma_valid_level(config, i);
    let lv = config.levels[i as int];
    let target = lv.target_security_bits as nat;
    let bits = crate::optimizer::query_target(target, lv.grinding_bits as nat);
    let n = lv.n();
    let degree = lv.degree();
    let a = lv.agreement as nat;
    let list = lv.list_bound as nat;
    crate::certificate::law_certificate_stands(n, degree, a, lv.queries as nat);
    crate::query::law_query_agreement_exact(n, lv.queries as nat, bits, (a - 1) as nat);
    crate::query::law_query_agreement_exact(n, lv.queries as nat, bits, a);
    let budget = pow2((crate::soundness::ANALYSIS_LOG_Q - target) as nat);
    let field = pow2(crate::soundness::ANALYSIS_LOG_Q as nat);
    let power = pow2(target);
    lemma_pow2_adds((crate::soundness::ANALYSIS_LOG_Q - target) as nat, target);
    lemma_pow2_pos(target);
    let fold = crate::soundness::exceptional_numerator(
        n,
        degree,
        a,
        lv.jet_degree as nat,
        lv.interpolation_height as nat,
    );
    assert(2 * lv.list_bound * ((a - degree) as nat) == 2 * list * (a - degree));
    lemma_scaled_row(
        fold + 2 * list * (a - degree),
        budget as int,
        power as int,
        field as int,
        a - degree,
    );
    lemma_scaled_row(
        crate::soundness::ood_numerator(list, lv.variables(), lv.ood_samples as nat) as int,
        budget as int,
        power as int,
        field as int,
        1,
    );
    let algebraic = crate::soundness::algebraic_degree(
        queries_before(config.levels@, i),
        lv.ood_samples as nat,
    );
    lemma_scaled_row(
        algebraic as int * list,
        budget as int,
        power as int,
        field as int,
        1,
    );
}

proof fn lemma_scaled_row(numerator: int, budget: int, power: int, field: int, scale: int)
    requires
        numerator <= budget * scale,
        power > 0,
        budget * power == field,
    ensures
        numerator * power <= field * scale,
{
    assert(numerator * power <= (budget * scale) * power) by (nonlinear_arith)
        requires
            numerator <= budget * scale,
            power > 0,
    ;
    assert((budget * scale) * power == (budget * power) * scale) by (nonlinear_arith);
}

/// The shape of a valid configuration: the folds and the residual use up the variables, each
/// level folds all its lanes, the variables that enter a level are the columns of the level before
/// it, the columns of the last level are the residual, the first level has no
/// out-of-domain sample and every deeper one has some, and each fold shrinks the total domain by
/// its reduction.
pub proof fn law_valid_shape(config: WhirSecurityConfig, i: nat)
    requires
        config.violation() is None,
        i < config.levels.len(),
    ensures
        ({
            let lv = config.levels[i as int];
            &&& config.log_n + LOG_PACKING == config.m
            &&& config.initial_k as nat + folds(config.levels@, 1, config.levels.len() as nat)
                + config.final_block.yr_log_n as nat == config.log_n
            &&& config.levels[0].k == config.initial_k
            &&& config.levels[0].log_num_interleaved == config.initial_k
            &&& lv.k == lv.log_num_interleaved
            &&& i == 0 ==> lv.log_msg_cols + lv.log_num_interleaved == config.log_n
            &&& i >= 1 ==> lv.log_msg_cols + lv.log_num_interleaved == config.levels[i
                - 1].log_msg_cols
            &&& i + 1 == config.levels.len() ==> lv.log_msg_cols == config.final_block.yr_log_n
            &&& lv.log_inv_rate > 0
            &&& lv.log_msg_cols > 0
            &&& lv.log_msg_cols + lv.log_num_interleaved == config.dim_in(i)
            &&& config.dim_in(config.levels.len() as nat) == config.final_block.yr_log_n
            &&& lv.ood_samples == 0 <==> i == 0
            &&& i + 1 < config.levels.len() ==> config.dim_in(i + 1) + config.levels[i as int
                + 1].log_inv_rate == config.dim_in(i) + lv.log_inv_rate
                - crate::ladder::domain_reduction(i + 1)
        }),
{
    lemma_valid_level(config, i);
    lemma_columns_enter(config, i);
    lemma_levels_chain(config);
    config.lemma_dims(config.levels.len() as nat);
    reveal(WhirSecurityConfig::header_violation);
    reveal(WhirSecurityConfig::shape_violation);
}

} // verus!
