//! The search for the fewest queries at which a level meets every soundness row.

use vstd::prelude::*;
use vstd::arithmetic::power2::*;
use crate::certificate::{capacity_certificate, CapacityMcaCertificate};
use crate::code::reduced_rate;
use crate::query::exact_query_agreement;
use crate::soundness::{
    capacity_mca_fold_within_target, johnson_algebraic_within_target, ood_within_target,
    WhirLevelConfig,
};
use crate::text::with_number;

verus! {

/// What is fixed of a level before its queries are searched.
#[derive(Clone, Copy, Debug)]
pub struct LevelRequest {
    /// Position of the level in the ladder.
    pub level: usize,
    /// Inverse-rate logarithm of the level's code.
    pub log_inv_rate: usize,
    /// Log message columns of the level's code.
    pub log_msg_cols: usize,
    /// Log of the lane width per Merkle leaf.
    pub log_num_interleaved: usize,
    /// Soundness target of every row.
    pub target_bits: usize,
    /// Proof-of-work bits that the queries need not cover.
    pub query_grinding_bits: usize,
    /// Query count of the preceding level, whose claims this level batches.
    pub prev_queries: usize,
}

/// What the search chose for a level.
#[derive(Clone, Copy, Debug)]
pub struct OptimizedJohnsonLevel {
    /// Query count.
    pub queries: usize,
    /// Out-of-domain samples.
    pub ood_samples: usize,
    /// Interpolation certificate at the agreement that the queries give.
    pub certificate: CapacityMcaCertificate,
}

/// The bits that the queries of a level must cover: what grinding leaves of the target, but at
/// least one.
pub open spec fn query_target(target_bits: nat, grinding_bits: nat) -> nat {
    if target_bits > grinding_bits {
        (target_bits - grinding_bits) as nat
    } else {
        1
    }
}

/// The bits that the queries of a level must cover.
pub fn query_target_bits(target_bits: usize, grinding_bits: usize) -> (bits: usize)
    ensures
        bits == query_target(target_bits as nat, grinding_bits as nat),
{
    if target_bits > grinding_bits {
        target_bits - grinding_bits
    } else {
        1
    }
}

/// Whether an agreement lies beyond the Johnson radius: `A/n > sqrt(D/n)`, without roots.
pub open spec fn beyond_johnson(n: nat, degree: nat, a: nat) -> bool {
    a * a > n * degree
}

/// The out-of-domain samples of a level: none at the first, one at each deeper level.
pub open spec fn samples_at(level: nat) -> usize {
    if level > 0 {
        1
    } else {
        0
    }
}

impl LevelRequest {
    /// Whether the code's length fits in `usize`.
    pub open spec fn length_fits(self) -> bool {
        self.log_msg_cols + self.log_inv_rate < usize::BITS
    }

    /// The code's length.
    pub open spec fn n(self) -> nat {
        crate::code::block_length(self.log_inv_rate as nat, self.log_msg_cols as nat)
    }

    /// The code's largest degree.
    pub open spec fn degree(self) -> nat {
        crate::code::max_degree(self.log_msg_cols as nat)
    }

    /// The bits that the queries must cover.
    pub open spec fn query_bits(self) -> nat {
        query_target(self.target_bits as nat, self.query_grinding_bits as nat)
    }

    /// The agreement that `queries` queries give.
    pub open spec fn agreement(self, queries: nat) -> nat {
        crate::query::query_agreement(self.n(), queries, self.query_bits())
    }

    /// The level with its query count and certificate filled in.
    pub open spec fn level_with(
        self,
        queries: usize,
        certificate: CapacityMcaCertificate,
    ) -> WhirLevelConfig {
        WhirLevelConfig {
            log_inv_rate: self.log_inv_rate,
            log_msg_cols: self.log_msg_cols,
            log_num_interleaved: self.log_num_interleaved,
            k: self.log_num_interleaved,
            agreement: certificate.agreement,
            interpolation_m: certificate.interpolation_m,
            jet_degree: certificate.jet_degree,
            interpolation_height: certificate.interpolation_height,
            list_bound: certificate.list_bound,
            certificate_variant: certificate.variant,
            queries,
            grinding_bits: self.query_grinding_bits,
            ood_samples: samples_at(self.level as nat),
            target_security_bits: self.target_bits,
        }
    }

    /// What comes of a query count: a certificate with which every row clears the target, nothing,
    /// or an error that ends the search.
    pub open spec fn candidate(self, queries: nat) -> Result<
        Option<CapacityMcaCertificate>,
        Seq<char>,
    > {
        let a = self.agreement(queries);
        if queries > u32::MAX {
            Err("query count does not fit u32"@)
        } else if !beyond_johnson(self.n(), self.degree(), a) || a >= self.n() {
            Ok(None)
        } else {
            match crate::certificate::capacity_outcome(self.n(), self.degree(), a, queries) {
                Err(_) => Ok(None),
                Ok(certificate) => match self.rows(self.level_with(queries as usize, certificate)) {
                    Err(e) => Err(e),
                    Ok(true) => Ok(Some(certificate)),
                    Ok(false) => Ok(None),
                },
            }
        }
    }

    /// Whether the fold, out-of-domain and algebraic rows of a level all clear the target, or what
    /// keeps that from being decided.
    pub open spec fn rows(self, level: WhirLevelConfig) -> Result<bool, Seq<char>> {
        let target = self.target_bits as nat;
        match crate::soundness::fold_outcome(level, target) {
            Err(e) => Err(e),
            Ok(false) => Ok(false),
            Ok(true) => match crate::soundness::ood_outcome(level, target) {
                Err(e) => Err(e),
                Ok(false) => Ok(false),
                Ok(true) => crate::soundness::algebraic_outcome(
                    level,
                    self.prev_queries as nat,
                    target,
                ),
            },
        }
    }

    /// The first query count from `queries` on that ends the search, with its certificate.
    pub open spec fn search(self, queries: nat) -> Result<
        Option<(nat, CapacityMcaCertificate)>,
        Seq<char>,
    >
        decreases self.n() + 1 - queries,
    {
        if queries > self.n() {
            Ok(None)
        } else {
            match self.candidate(queries) {
                Err(e) => Err(e),
                Ok(Some(certificate)) => Ok(Some((queries, certificate))),
                Ok(None) => self.search(queries + 1),
            }
        }
    }

    /// How the search for a level ends: the fewest queries, no more than the code has positions,
    /// at which every row clears the target, or why there are none.
    pub open spec fn optimum(self) -> Result<(nat, CapacityMcaCertificate), Seq<char>> {
        if !beyond_johnson(self.n(), self.degree(), self.agreement(u32::MAX as nat)) {
            Err("query count does not fit u32"@)
        } else {
            match self.search(1) {
                Err(e) => Err(e),
                Ok(Some(found)) => Ok(found),
                Ok(None) => Err(
                    "L"@ + crate::text::decimal(self.level as nat)
                        + ": no capacity MCA candidate satisfies "@ + crate::text::decimal(
                        self.target_bits as nat,
                    ) + "-bit Johnson/OOD soundness at rate 1/2^"@ + crate::text::decimal(
                        self.log_inv_rate as nat,
                    ),
                ),
            }
        }
    }
}

/// Whether an agreement lies beyond the Johnson radius.
pub fn is_beyond_johnson(n: usize, degree: usize, agreement: usize) -> (b: bool)
    ensures
        b == beyond_johnson(n as nat, degree as nat, agreement as nat),
{
    proof {
        crate::certificate::lemma_usize_products(n, degree);
        crate::certificate::lemma_usize_products(agreement, agreement);
    }
    agreement as u128 * agreement as u128 > n as u128 * degree as u128
}

pub(crate) proof fn lemma_beyond_monotone(request: LevelRequest, fewer: nat, more: nat)
    requires
        fewer <= more,
        beyond_johnson(request.n(), request.degree(), request.agreement(fewer)),
    ensures
        beyond_johnson(request.n(), request.degree(), request.agreement(more)),
{
    crate::query::law_query_agreement_monotone(request.n(), fewer, more, request.query_bits());
    let (a, b) = (request.agreement(fewer), request.agreement(more));
    assert(a * a <= b * b) by (nonlinear_arith)
        requires
            0 <= a <= b,
    ;
}

/// The agreement that a request's queries give is no longer than its code.
proof fn lemma_agreement_fits(request: LevelRequest, queries: nat)
    ensures
        1 <= request.agreement(queries) <= request.n(),
{
    lemma_pow2_pos((request.log_msg_cols + request.log_inv_rate) as nat);
    crate::query::law_query_agreement_bounds(request.n(), queries, request.query_bits());
}

/// The search may start at any count below which no agreement is beyond the Johnson radius.
proof fn lemma_search_start(request: LevelRequest, from: nat, floor: nat)
    requires
        1 <= from <= floor <= u32::MAX,
        floor > 1 ==> !beyond_johnson(
            request.n(),
            request.degree(),
            request.agreement((floor - 1) as nat),
        ),
    ensures
        request.search(from) == request.search(floor),
    decreases floor - from,
{
    if from < floor {
        if beyond_johnson(request.n(), request.degree(), request.agreement(from)) {
            lemma_beyond_monotone(request, from, (floor - 1) as nat);
        }
        lemma_search_start(request, from + 1, floor);
    }
}

pub(crate) proof fn lemma_length_fits(request: LevelRequest)
    requires
        request.length_fits(),
    ensures
        request.n() < usize::MAX,
{
    let k = (request.log_msg_cols + request.log_inv_rate) as nat;
    lemma2_to64();
    lemma_pow2_unfold(k + 1);
    if k + 1 < usize::BITS {
        lemma_pow2_strictly_increases(k + 1, usize::BITS as nat);
    }
}

/// The least query count, from 1 on, whose agreement is beyond the Johnson radius.
fn query_floor(request: &LevelRequest) -> (r: Result<usize, String>)
    requires
        request.length_fits(),
    ensures
        match r {
            Ok(floor) => {
                &&& 1 <= floor <= u32::MAX
                &&& beyond_johnson(
                    request.n(),
                    request.degree(),
                    request.agreement(floor as nat),
                )
                &&& floor > 1 ==> !beyond_johnson(
                    request.n(),
                    request.degree(),
                    request.agreement((floor - 1) as nat),
                )
            },
            Err(e) => {
                &&& e@ == "query count does not fit u32"@
                &&& !beyond_johnson(
                    request.n(),
                    request.degree(),
                    request.agreement(u32::MAX as nat),
                )
            },
        },
{
    let (degree, n) = reduced_rate(request.log_inv_rate, request.log_msg_cols);
    let bits: usize = query_target_bits(request.target_bits, request.query_grinding_bits);
    let limit: usize = u32::MAX as usize;
    let mut below: usize = 0;
    let mut floor: usize = 1;
    loop
        invariant_except_break
            below < floor <= limit,
        invariant
            n == request.n(),
            degree == request.degree(),
            bits == request.query_bits(),
            limit == u32::MAX,
            below > 0 ==> !beyond_johnson(
                request.n(),
                request.degree(),
                request.agreement(below as nat),
            ),
        ensures
            below < floor <= limit,
            beyond_johnson(request.n(), request.degree(), request.agreement(floor as nat)),
        decreases limit - below,
    {
        proof {
            lemma_agreement_fits(*request, floor as nat);
        }
        let agreement: usize = exact_query_agreement(n, floor, bits)?;
        if is_beyond_johnson(n, degree, agreement) {
            break;
        }
        if floor == limit {
            return Err("query count does not fit u32".to_owned());
        }
        below = floor;
        floor = if floor <= limit / 2 {
            2 * floor
        } else {
            limit
        };
    }
    while below + 1 < floor
        invariant
            n == request.n(),
            degree == request.degree(),
            bits == request.query_bits(),
            limit == u32::MAX,
            below < floor <= limit,
            below > 0 ==> !beyond_johnson(
                request.n(),
                request.degree(),
                request.agreement(below as nat),
            ),
            beyond_johnson(request.n(), request.degree(), request.agreement(floor as nat)),
        decreases floor - below,
    {
        let middle: usize = below + (floor - below) / 2;
        proof {
            lemma_agreement_fits(*request, middle as nat);
        }
        let agreement: usize = exact_query_agreement(n, middle, bits)?;
        if is_beyond_johnson(n, degree, agreement) {
            floor = middle;
        } else {
            below = middle;
        }
    }
    Ok(floor)
}

/// Fills in a level.
fn level_with(
    request: &LevelRequest,
    queries: usize,
    certificate: CapacityMcaCertificate,
) -> (level: WhirLevelConfig)
    ensures
        level == request.level_with(queries, certificate),
{
    WhirLevelConfig {
        log_inv_rate: request.log_inv_rate,
        log_msg_cols: request.log_msg_cols,
        log_num_interleaved: request.log_num_interleaved,
        k: request.log_num_interleaved,
        agreement: certificate.agreement,
        interpolation_m: certificate.interpolation_m,
        jet_degree: certificate.jet_degree,
        interpolation_height: certificate.interpolation_height,
        list_bound: certificate.list_bound,
        certificate_variant: certificate.variant,
        queries,
        grinding_bits: request.query_grinding_bits,
        ood_samples: if request.level > 0 {
            1
        } else {
            0
        },
        target_security_bits: request.target_bits,
    }
}

/// What comes of one query count.
fn try_candidate(request: &LevelRequest, queries: usize) -> (r: Result<
    Option<CapacityMcaCertificate>,
    String,
>)
    requires
        request.length_fits(),
    ensures
        crate::text::outcome(r) == request.candidate(queries as nat),
{
    let (degree, n) = reduced_rate(request.log_inv_rate, request.log_msg_cols);
    let bits: usize = query_target_bits(request.target_bits, request.query_grinding_bits);
    proof {
        lemma_agreement_fits(*request, queries as nat);
    }
    let agreement: usize = exact_query_agreement(n, queries, bits)?;
    if !is_beyond_johnson(n, degree, agreement) || agreement >= n {
        return Ok(None);
    }
    match capacity_certificate(request.log_inv_rate, request.log_msg_cols, agreement, queries) {
        Err(_) => Ok(None),
        Ok(certificate) => {
            let level = level_with(request, queries, certificate);
            proof {
                crate::certificate::law_certificate_stands(
                    request.n(),
                    request.degree(),
                    agreement as nat,
                    queries as nat,
                );
                lemma2_to64();
            }
            if !capacity_mca_fold_within_target(&level, request.target_bits)?
                || !ood_within_target(&level, request.target_bits)?
                || !johnson_algebraic_within_target(
                &level,
                request.prev_queries,
                request.target_bits,
            )? {
                return Ok(None);
            }
            Ok(Some(certificate))
        },
    }
}

/// Chooses the distance from the Johnson radius for one level: the fewest queries at which every
/// row clears the target, by exact integer decisions.
pub fn optimize_johnson_level(request: LevelRequest) -> (r: Result<OptimizedJohnsonLevel, String>)
    requires
        request.length_fits(),
    ensures
        match r {
            Ok(found) => {
                &&& request.optimum() == Ok::<(nat, CapacityMcaCertificate), Seq<char>>(
                    (found.queries as nat, found.certificate),
                )
                &&& found.ood_samples == samples_at(request.level as nat)
            },
            Err(e) => request.optimum() == Err::<(nat, CapacityMcaCertificate), Seq<char>>(e@),
        },
{
    let floor: usize = query_floor(&request)?;
    let (_, block_len) = reduced_rate(request.log_inv_rate, request.log_msg_cols);
    proof {
        lemma_beyond_monotone(request, floor as nat, u32::MAX as nat);
        lemma_search_start(request, 1, floor as nat);
        lemma_length_fits(request);
    }
    let mut queries: usize = floor;
    while queries <= block_len
        invariant
            request.length_fits(),
            block_len == request.n(),
            beyond_johnson(request.n(), request.degree(), request.agreement(u32::MAX as nat)),
            request.search(1) == request.search(queries as nat),
            block_len < usize::MAX,
        decreases block_len + 1 - queries,
    {
        if let Some(certificate) = try_candidate(&request, queries)? {
            return Ok(
                OptimizedJohnsonLevel {
                    queries,
                    ood_samples: if request.level > 0 {
                        1
                    } else {
                        0
                    },
                    certificate,
                },
            );
        }
        queries = queries + 1;
    }
    let named = with_number("L".to_owned(), request.level as u128);
    let targeted = with_number(
        named.concat(": no capacity MCA candidate satisfies "),
        request.target_bits as u128,
    );
    Err(
        with_number(
            targeted.concat("-bit Johnson/OOD soundness at rate 1/2^"),
            request.log_inv_rate as u128,
        ),
    )
}

proof fn lemma_search_first(request: LevelRequest, from: nat)
    ensures
        request.search(from) matches Ok(Some((found, certificate))) ==> {
            &&& from <= found <= request.n()
            &&& request.candidate(found) == Ok::<Option<CapacityMcaCertificate>, Seq<char>>(
                Some(certificate),
            )
            &&& forall|fewer: nat|
                from <= fewer < found ==> #[trigger] request.candidate(fewer) == Ok::<
                    Option<CapacityMcaCertificate>,
                    Seq<char>,
                >(None)
        },
    decreases request.n() + 1 - from,
{
    if from <= request.n() && request.candidate(from) == Ok::<
        Option<CapacityMcaCertificate>,
        Seq<char>,
    >(None) {
        lemma_search_first(request, from + 1);
    }
}

/// The search returns the fewest queries that will do: its count is accepted, with its
/// certificate, and every smaller one was passed over.
pub proof fn law_fewest_queries(request: LevelRequest)
    ensures
        request.optimum() matches Ok((found, certificate)) ==> {
            &&& 1 <= found <= request.n()
            &&& request.candidate(found) == Ok::<Option<CapacityMcaCertificate>, Seq<char>>(
                Some(certificate),
            )
            &&& forall|fewer: nat|
                1 <= fewer < found ==> #[trigger] request.candidate(fewer) == Ok::<
                    Option<CapacityMcaCertificate>,
                    Seq<char>,
                >(None)
        },
{
    lemma_search_first(request, 1);
}

proof fn lemma_search_ends(request: LevelRequest, from: nat)
    ensures
        request.search(from) == Ok::<Option<(nat, CapacityMcaCertificate)>, Seq<char>>(None)
            ==> forall|q: nat|
            from <= q <= request.n() ==> #[trigger] request.candidate(q) == Ok::<
                Option<CapacityMcaCertificate>,
                Seq<char>,
            >(None),
        request.search(from) matches Err(e) ==> exists|last: nat|
            {
                &&& from <= last <= request.n()
                &&& #[trigger] request.candidate(last) == Err::<
                    Option<CapacityMcaCertificate>,
                    Seq<char>,
                >(e)
                &&& forall|q: nat|
                    from <= q < last ==> #[trigger] request.candidate(q) == Ok::<
                        Option<CapacityMcaCertificate>,
                        Seq<char>,
                    >(None)
            },
    decreases request.n() + 1 - from,
{
    if from <= request.n() && request.candidate(from) == Ok::<
        Option<CapacityMcaCertificate>,
        Seq<char>,
    >(None) {
        lemma_search_ends(request, from + 1);
    }
}

/// The search gives up only where it must: where no query count reaches beyond the Johnson radius,
/// where the first count that is not passed over cannot be decided, with that count's error, or
/// where all counts up to the code's length were passed over.
pub proof fn law_no_queries(request: LevelRequest)
    ensures
        request.optimum() matches Err(e) ==> {
            let most = request.agreement(u32::MAX as nat);
            ||| most * most <= request.n() * request.degree() && e
                == "query count does not fit u32"@
            ||| exists|last: nat|
                {
                    &&& 1 <= last <= request.n()
                    &&& #[trigger] request.candidate(last) == Err::<
                        Option<CapacityMcaCertificate>,
                        Seq<char>,
                    >(e)
                    &&& forall|q: nat|
                        1 <= q < last ==> #[trigger] request.candidate(q) == Ok::<
                            Option<CapacityMcaCertificate>,
                            Seq<char>,
                        >(None)
                }
            ||| forall|q: nat|
                1 <= q <= request.n() ==> #[trigger] request.candidate(q) == Ok::<
                    Option<CapacityMcaCertificate>,
                    Seq<char>,
                >(None)
        },
{
    lemma_search_ends(request, 1);
}

proof fn lemma_search_finds(request: LevelRequest, from: nat, found: nat)
    requires
        from <= found <= request.n(),
        request.candidate(found) matches Ok(Some(_)),
        forall|q: nat|
            from <= q < found ==> #[trigger] request.candidate(q) == Ok::<
                Option<CapacityMcaCertificate>,
                Seq<char>,
            >(None),
    ensures
        request.search(from) == Ok::<Option<(nat, CapacityMcaCertificate)>, Seq<char>>(
            Some((found, request.candidate(found)->Ok_0->Some_0)),
        ),
    decreases found - from,
{
    if from < found {
        lemma_search_finds(request, from + 1, found);
    }
}

/// The search finds what there is: where some query count within the code's length will do, and no
/// smaller one, that count is the answer, with its certificate.
pub proof fn law_queries_found(
    request: LevelRequest,
    found: nat,
    certificate: CapacityMcaCertificate,
)
    requires
        1 <= found <= request.n(),
        request.candidate(found) == Ok::<Option<CapacityMcaCertificate>, Seq<char>>(
            Some(certificate),
        ),
        forall|q: nat|
            1 <= q < found ==> #[trigger] request.candidate(q) == Ok::<
                Option<CapacityMcaCertificate>,
                Seq<char>,
            >(None),
    ensures
        request.optimum() == Ok::<(nat, CapacityMcaCertificate), Seq<char>>((found, certificate)),
{
    lemma_beyond_monotone(request, found, u32::MAX as nat);
    lemma_search_finds(request, 1, found);
}

} // verus!
