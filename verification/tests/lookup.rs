//! Sums of fractions and indexed lookups, with a transcript that draws its own challenges and a
//! sumcheck that is honest.

use whir_lookup::field::{dot_product, first_powers, Field, PrimeField};
use whir_lookup::fractions::{all_nonzero, quotient_layers, split_chunks, sum_quotients_2_by_2};
use whir_lookup::koala_bear::{KoalaBear, ORDER};
use whir_lookup::logup_star::{
    big_endian_mle, compute_pushforward, prove_logup_star, prove_logup_star_step,
    verify_logup_star, verify_logup_star_step, LogupPhase, LogupProver, LogupProverPhase,
    LogupReply, LogupRequest, LogupStarStatements, LogupVerifier,
};
use whir_lookup::multilinear::{
    eq_poly_outside, eval_eq, evaluate, Evaluation, MultilinearPoint,
};
use whir_lookup::quintic::Quintic;
use whir_lookup::quotient_gkr::{
    combine, lines_at, prove_gkr_quotient, prove_gkr_quotient_step, sum_last_layer,
    verify_gkr_quotient, verify_gkr_quotient_step, GkrPhase, GkrProver, GkrProverPhase,
    GkrVerifier, ProofError, ProverReply, ProverRequest, VerifierReply, VerifierRequest,
};

type F = KoalaBear;
type EF = Quintic;

struct Source(u64);

impl Source {
    fn next(&mut self) -> u32 {
        self.0 = self.0.wrapping_mul(6364136223846793005).wrapping_add(1442695040888963407);
        (self.0 >> 33) as u32
    }

    fn base(&mut self) -> F {
        F::new(self.next())
    }

    fn element(&mut self) -> EF {
        Quintic {
            c0: self.base(),
            c1: self.base(),
            c2: self.base(),
            c3: self.base(),
            c4: self.base(),
        }
    }
}

fn ext(n: usize) -> EF {
    EF::from_usize(n)
}

fn divide(n: EF, d: EF) -> EF {
    n.field_mul(d.try_inverse().unwrap())
}

/// The sum of all fractions, with one inversion for all denominators.
fn sum_all_quotients(nums: &[EF], dens: &[EF]) -> EF {
    let mut prefix = vec![EF::one()];
    for &d in dens {
        prefix.push(prefix[prefix.len() - 1].field_mul(d));
    }
    let mut inverse = prefix[dens.len()].try_inverse().unwrap();
    let mut sum = EF::zero();
    for i in (0..dens.len()).rev() {
        sum = sum.field_add(nums[i].field_mul(inverse.field_mul(prefix[i])));
        inverse = inverse.field_mul(dens[i]);
    }
    sum
}

/// The Lagrange polynomials over 0, 1, ..., n - 1 at a point.
fn selectors(n: usize, x: EF) -> Vec<EF> {
    (0..n)
        .map(|i| {
            (0..n).filter(|&j| j != i).fold(EF::one(), |p, j| {
                let over = ext(i).field_sub(ext(j));
                p.field_mul(divide(x.field_sub(ext(j)), over))
            })
        })
        .collect()
}

fn skip_evaluate(values: &[EF], groups: usize, point: &[EF]) -> EF {
    let weights = selectors(groups, point[0]);
    let pieces: Vec<EF> =
        values.chunks(values.len() / groups).map(|c| evaluate(c, &point[1..])).collect();
    dot_product(&pieces, &weights)
}

/// What a prover sent and drew, in order, for a verifier to read.
#[derive(Default)]
struct Tape {
    messages: Vec<VerifierReply<EF>>,
    cursor: usize,
}

impl Tape {
    fn write(&mut self, message: VerifierReply<EF>) {
        self.messages.push(message);
    }

    fn read(&mut self) -> VerifierReply<EF> {
        let message = self.messages[self.cursor].clone();
        self.cursor += 1;
        message
    }
}

/// Does what a prover of a sum asks for.
fn serve(
    prover: &GkrProver<EF>,
    request: ProverRequest<EF>,
    tape: &mut Tape,
    source: &mut Source,
) -> ProverReply<EF> {
    match request {
        ProverRequest::SendThenChallenge(scalars) => {
            tape.write(VerifierReply::Scalars(scalars));
            let r = source.element();
            tape.write(VerifierReply::Challenge(r));
            ProverReply::Challenge(r)
        }
        ProverRequest::SendThenSkipChallenge(scalars, n) => {
            tape.write(VerifierReply::Scalars(scalars));
            let beta = source.element();
            let selectors = selectors(n, beta);
            tape.write(VerifierReply::SkipChallenge { beta, selectors: selectors.clone() });
            ProverReply::SkipChallenge { beta, selectors }
        }
        ProverRequest::Challenge => {
            let r = source.element();
            tape.write(VerifierReply::Challenge(r));
            ProverReply::Challenge(r)
        }
        ProverRequest::Sumcheck { n_vars, alpha_powers, point, sum } => {
            let at: Vec<EF> = (0..n_vars).map(|_| source.element()).collect();
            let columns = prover.sumcheck_columns(n_vars);
            let evals: Vec<EF> = columns.iter().map(|c| evaluate(c, &at)).collect();
            let weight = eq_poly_outside(&point, &at);
            let value = weight.field_mul(combine(&evals, alpha_powers[1]));
            tape.write(VerifierReply::Sumcheck { sum, point: at.clone(), value });
            ProverReply::Sumcheck { point: at, evals }
        }
        ProverRequest::Nothing => panic!("nothing is asked for"),
    }
}

fn run_prover(mut prover: GkrProver<EF>, tape: &mut Tape, source: &mut Source) -> GkrProver<EF> {
    loop {
        let request = prover.request();
        if let ProverRequest::Nothing = request {
            return prover;
        }
        let reply = serve(&prover, request, tape, source);
        prover = prove_gkr_quotient_step(prover, reply);
    }
}

fn run_verifier(mut verifier: GkrVerifier<EF>, tape: &mut Tape) -> GkrPhase<EF> {
    while verifier.request() != VerifierRequest::Nothing {
        let reply = tape.read();
        verifier = verify_gkr_quotient_step(verifier, reply);
    }
    verifier.phase
}

fn fractions(log_n: usize, source: &mut Source) -> (Vec<EF>, Vec<EF>) {
    let n = 1usize << log_n;
    let numerators: Vec<EF> = (0..n).map(|_| source.element()).collect();
    let c = source.element();
    let denominators =
        (0..n).map(|_| c.field_sub(ext(source.next() as usize % n))).collect();
    (numerators, denominators)
}

fn gkr_round_trip(log_n: usize, groups: usize) {
    let mut source = Source(log_n as u64);
    let (numerators, denominators) = fractions(log_n, &mut source);
    let real_quotient = sum_all_quotients(&numerators, &denominators);
    let mut tape = Tape::default();
    let prover = prove_gkr_quotient(&numerators, &denominators, groups);
    assert_eq!(prover.quotient, real_quotient);
    let prover = run_prover(prover, &mut tape, &mut source);
    let verified = run_verifier(verify_gkr_quotient(log_n, groups), &mut tape);
    let (GkrPhase::Accepted { quotient, point, numerator, denominator }, GkrProverPhase::Finished {
        point: prover_point,
        numerator: prover_numerator,
        denominator: prover_denominator,
    }) = (verified, prover.phase) else {
        panic!("not accepted");
    };
    assert_eq!(
        (&quotient, &point, &numerator, &denominator),
        (&prover.quotient, &prover_point, &prover_numerator, &prover_denominator)
    );
    assert_eq!(quotient, real_quotient);
    assert_eq!(skip_evaluate(&numerators, groups, &point), numerator);
    assert_eq!(skip_evaluate(&denominators, groups, &point), denominator);
}

#[test]
fn test_gkr_quotient() {
    gkr_round_trip(22, 8);
}

#[test]
fn sums_of_few_fractions() {
    for groups in [2, 4, 8] {
        for log_n in 4..9 {
            gkr_round_trip(log_n, groups);
        }
    }
    gkr_round_trip(2, 2);
}

#[test]
fn tampered_sums_are_rejected() {
    for tampered in [3, 4, 7] {
        let mut source = Source(7);
        let (numerators, denominators) = fractions(5, &mut source);
        let mut tape = Tape::default();
        run_prover(prove_gkr_quotient(&numerators, &denominators, 2), &mut tape, &mut source);
        match &mut tape.messages[tampered] {
            VerifierReply::Scalars(v) => v[0] = v[0].field_add(EF::one()),
            VerifierReply::Sumcheck { sum, .. } => *sum = sum.field_add(EF::one()),
            other => panic!("{other:?}"),
        }
        let phase = run_verifier(verify_gkr_quotient(5, 2), &mut tape);
        assert!(matches!(phase, GkrPhase::Rejected(ProofError::InvalidProof)));
    }
}

#[test]
fn missing_proof_data_is_reported() {
    let mut source = Source(3);
    let (numerators, denominators) = fractions(4, &mut source);
    let mut tape = Tape::default();
    run_prover(prove_gkr_quotient(&numerators, &denominators, 2), &mut tape, &mut source);
    tape.messages[4] = VerifierReply::Failed(ProofError::ExceededTranscript);
    let phase = run_verifier(verify_gkr_quotient(4, 2), &mut tape);
    assert!(matches!(phase, GkrPhase::Rejected(ProofError::ExceededTranscript)));
}

#[test]
fn layers_keep_the_sum_of_fractions() {
    let mut source = Source(11);
    let (numerators, denominators) = fractions(4, &mut source);
    let layers = quotient_layers(&numerators, &denominators, 4);
    assert_eq!(layers.len(), 3);
    let total = sum_all_quotients(&numerators, &denominators);
    for layer in &layers {
        let nums: Vec<EF> = layer[..2].concat();
        let dens: Vec<EF> = layer[2..].concat();
        assert_eq!(sum_all_quotients(&nums, &dens), total);
    }
    assert_eq!(sum_last_layer(&layers[2].concat()), total);
}

#[test]
fn halves_are_added_crosswise() {
    let v = |s: &[u32]| s.iter().map(|&x| F::new(x)).collect::<Vec<F>>();
    let (nums, dens) = sum_quotients_2_by_2(&v(&[1, 2, 3, 4]), &v(&[5, 6, 7, 8]));
    assert_eq!(nums, v(&[22, 40]));
    assert_eq!(dens, v(&[35, 48]));
    assert!(all_nonzero(&dens));
    assert!(!all_nonzero(&v(&[3, 0])));
}

#[test]
fn columns_are_cut_in_order() {
    let (a, b) = ([1, 2, 3, 4], [5, 6, 7, 8]);
    let cols: Vec<&[i32]> = vec![&a, &b];
    let pieces = split_chunks(&cols, 2);
    assert_eq!(pieces, vec![&[1, 2][..], &[3, 4], &[5, 6], &[7, 8]]);
    assert_eq!(split_chunks(&cols, 1), cols);
}

/// Does what a prover of a lookup asks for.
fn run_lookup_prover(
    mut prover: LogupProver<F, EF>,
    tape: &mut Tape,
    source: &mut Source,
) -> LogupStarStatements<EF> {
    loop {
        let reply = match prover.request() {
            LogupRequest::Product { n_vars, sum } => {
                let at: Vec<EF> = (0..n_vars).map(|_| source.element()).collect();
                let table_eval = evaluate(&prover.table, &at);
                let pushforward_eval = evaluate(&prover.pushforward, &at);
                let value = table_eval.field_mul(pushforward_eval);
                assert_eq!(sum, dot_product(&prover.table, &prover.pushforward));
                tape.write(VerifierReply::Sumcheck { sum, point: at.clone(), value });
                LogupReply::Product { point: at, value, table_eval, pushforward_eval }
            }
            LogupRequest::Sum(ProverRequest::Nothing) => match prover.phase {
                LogupProverPhase::Finished(statements) => return statements,
                other => panic!("{other:?}"),
            },
            LogupRequest::Sum(request) => LogupReply::Sum(match &prover.phase {
                LogupProverPhase::Left { sum, .. } => serve(sum, request, tape, source),
                LogupProverPhase::Right { sum, .. } => serve(sum, request, tape, source),
                _ => match request {
                    ProverRequest::SendThenChallenge(scalars) => {
                        tape.write(VerifierReply::Scalars(scalars));
                        let c = source.element();
                        tape.write(VerifierReply::Challenge(c));
                        ProverReply::Challenge(c)
                    }
                    other => panic!("{other:?}"),
                },
            }),
        };
        prover = prove_logup_star_step(prover, reply);
    }
}

fn run_lookup_verifier(mut verifier: LogupVerifier<EF>, tape: &mut Tape) -> LogupPhase<EF> {
    while verifier.request() != VerifierRequest::Nothing {
        let reply = tape.read();
        verifier = verify_logup_star_step(verifier, reply);
    }
    verifier.phase
}

struct Lookup {
    table: Vec<EF>,
    indexes: Vec<F>,
    claim: Evaluation<EF>,
    poly_eq_point: Vec<EF>,
    pushforward: Vec<EF>,
}

fn lookup(log_table_len: usize, log_indexes_len: usize, source: &mut Source) -> Lookup {
    let table_length = 1usize << log_table_len;
    let table: Vec<EF> = (0..table_length).map(|_| ext(source.next() as usize)).collect();
    let max_index = table_length * 3 / 4;
    let indexes: Vec<F> = (0..1usize << log_indexes_len)
        .map(|_| F::new(source.next() % max_index as u32))
        .collect();
    let values: Vec<EF> = indexes.iter().map(|i| table[i.to_usize()]).collect();
    let point: Vec<EF> = (0..log_indexes_len).map(|_| source.element()).collect();
    let poly_eq_point = eval_eq(&point);
    let pushforward = compute_pushforward(&indexes, table_length, &poly_eq_point);
    let value = evaluate(&values, &point);
    Lookup {
        table,
        indexes,
        claim: Evaluation::new(MultilinearPoint(point), value),
        poly_eq_point,
        pushforward,
    }
}

fn test_logup_star_helper(log_table_len: usize, log_indexes_len: usize) {
    let mut source = Source(0);
    let l = lookup(log_table_len, log_indexes_len, &mut source);
    let mut tape = Tape::default();
    let prover = prove_logup_star(
        l.table.clone(),
        l.indexes.clone(),
        l.claim.value,
        l.poly_eq_point.clone(),
        l.pushforward.clone(),
    );
    let prover_statements = run_lookup_prover(prover, &mut tape, &mut source);
    let verifier =
        verify_logup_star(log_table_len, log_indexes_len, vec![l.claim.clone()], EF::one());
    let LogupPhase::Accepted(statements) = run_lookup_verifier(verifier, &mut tape) else {
        panic!("not accepted");
    };
    assert_eq!(statements, prover_statements);
    assert_eq!(tape.cursor, tape.messages.len());

    let indexes: Vec<EF> = l.indexes.iter().map(|i| ext(i.to_usize())).collect();
    let at = |values: &[EF], claim: &Evaluation<EF>| evaluate(values, &claim.point.0);
    assert_eq!(at(&indexes, &statements.on_indexes), statements.on_indexes.value);
    assert_eq!(at(&l.table, &statements.on_table), statements.on_table.value);
    assert_eq!(statements.on_pushforward.len(), 2);
    for claim in &statements.on_pushforward {
        assert_eq!(at(&l.pushforward, claim), claim.value);
    }
}

#[test]
fn test_logup_star() {
    for log_table_len in [3, 10] {
        for log_indexes_len in 3..10 {
            test_logup_star_helper(log_table_len, log_indexes_len);
        }
    }
    test_logup_star_helper(12, 14);
}

#[test]
fn false_lookups_are_rejected() {
    let rejected = |claim: fn(&mut Lookup), tamper: fn(&mut Tape)| {
        let mut source = Source(5);
        let mut l = lookup(3, 4, &mut source);
        let mut tape = Tape::default();
        let prover = prove_logup_star(
            l.table.clone(),
            l.indexes.clone(),
            l.claim.value,
            l.poly_eq_point.clone(),
            l.pushforward.clone(),
        );
        run_lookup_prover(prover, &mut tape, &mut source);
        claim(&mut l);
        tamper(&mut tape);
        let verifier = verify_logup_star(3, 4, vec![l.claim], EF::one());
        run_lookup_verifier(verifier, &mut tape)
    };
    let keep_claim: fn(&mut Lookup) = |_| {};
    let keep_tape: fn(&mut Tape) = |_| {};
    assert!(matches!(rejected(keep_claim, keep_tape), LogupPhase::Accepted(_)));
    let outcomes = [
        rejected(|l| l.claim.value = EF::zero(), keep_tape),
        rejected(|l| l.claim.point.0[0] = EF::zero(), keep_tape),
        rejected(keep_claim, |t| {
            t.messages[0] = VerifierReply::Failed(ProofError::ExceededTranscript)
        }),
        rejected(keep_claim, |t| {
            t.messages[1] = VerifierReply::Scalars(vec![EF::one(), EF::one()])
        }),
        rejected(keep_claim, |t| t.messages[2] = VerifierReply::Challenge(ext(77))),
    ];
    for phase in outcomes {
        assert!(matches!(phase, LogupPhase::Rejected(ProofError::InvalidProof)));
    }
    let missing = rejected(keep_claim, |t| {
        t.messages[1] = VerifierReply::Failed(ProofError::ExceededTranscript)
    });
    assert!(matches!(missing, LogupPhase::Rejected(ProofError::ExceededTranscript)));
}

#[test]
fn batched_claims_are_looked_up_together() {
    let mut source = Source(21);
    let l = lookup(3, 4, &mut source);
    let alpha = source.element();
    let values: Vec<EF> = l.indexes.iter().map(|i| l.table[i.to_usize()]).collect();
    let second: Vec<EF> = (0..4).map(|_| source.element()).collect();
    let claims = vec![
        l.claim.clone(),
        Evaluation::new(MultilinearPoint(second.clone()), evaluate(&values, &second)),
    ];
    let weights: Vec<EF> = l
        .poly_eq_point
        .iter()
        .zip(eval_eq(&second))
        .map(|(a, b)| a.field_add(b.field_mul(alpha)))
        .collect();
    let pushforward = compute_pushforward(&l.indexes, 8, &weights);
    let value = claims[0].value.field_add(claims[1].value.field_mul(alpha));
    let mut tape = Tape::default();
    let prover = prove_logup_star(l.table, l.indexes, value, weights, pushforward);
    let statements = run_lookup_prover(prover, &mut tape, &mut source);
    let phase = run_lookup_verifier(verify_logup_star(3, 4, claims, alpha), &mut tape);
    let LogupPhase::Accepted(verified) = phase else { panic!("not accepted") };
    assert_eq!(verified, statements);
}

#[test]
fn pushforward_collects_weights() {
    let indexes: Vec<F> = [2, 0, 2, 3].iter().map(|&i| F::new(i)).collect();
    let weights: Vec<EF> = [10, 20, 30, 40].iter().map(|&w| ext(w)).collect();
    let push = compute_pushforward(&indexes, 5, &weights);
    assert_eq!(push, vec![ext(20), ext(0), ext(40), ext(40), ext(0)]);
}

#[test]
fn positions_are_spelled_big_endian() {
    let bits = |s: &[usize]| s.iter().map(|&b| ext(b)).collect::<Vec<EF>>();
    assert_eq!(big_endian_mle(&bits(&[1, 0, 1, 1])), ext(11));
    assert_eq!(big_endian_mle(&bits(&[])), ext(0));
    let mut source = Source(2);
    let point: Vec<EF> = (0..5).map(|_| source.element()).collect();
    let positions: Vec<EF> = (0..32).map(ext).collect();
    assert_eq!(evaluate(&positions, &point), big_endian_mle(&point));
}

#[test]
fn multilinear_values() {
    let v: Vec<EF> = [3, 5, 7, 11].iter().map(|&x| ext(x)).collect();
    assert_eq!(evaluate(&v, &[ext(0), ext(1)]), ext(5));
    assert_eq!(evaluate(&v, &[ext(1), ext(0)]), ext(7));
    assert_eq!(evaluate(&v, &[ext(2), ext(3)]), ext(29));
    assert_eq!(evaluate(&v[..1], &[]), ext(3));
    let mut source = Source(9);
    let (p, q): (Vec<EF>, Vec<EF>) = (0..4).map(|_| (source.element(), source.element())).unzip();
    assert_eq!(evaluate(&eval_eq(&p), &q), eq_poly_outside(&p, &q));
    assert_eq!(eq_poly_outside(&p, &q), eq_poly_outside(&q, &p));
    let constant = vec![ext(9); 16];
    assert_eq!(evaluate(&constant, &p), ext(9));
}

#[test]
fn lines_through_pairs() {
    let v: Vec<F> = [1, 4, 2, 8].iter().map(|&x| F::new(x)).collect();
    assert_eq!(lines_at(&v, F::new(3)), vec![F::new(10), F::new(20)]);
}

#[test]
fn prime_field_arithmetic() {
    let p = ORDER;
    assert_eq!(F::new(p), F::zero());
    assert_eq!(F::new(p - 1).field_add(F::new(5)), F::new(4));
    assert_eq!(F::new(3).field_sub(F::new(5)), F::new(p - 2));
    assert_eq!(F::new(p - 1).field_mul(F::new(p - 1)), F::one());
    assert_eq!(F::new(2).try_inverse(), Some(F::new((p + 1) / 2)));
    assert_eq!(F::zero().try_inverse(), None);
    assert_eq!(F::from_usize(p as usize + 7).to_usize(), 7);
    assert_eq!(first_powers(F::new(3), 4), [1, 3, 9, 27].map(F::new).to_vec());
}

#[test]
fn extension_field_arithmetic() {
    let x = Quintic { c1: F::one(), ..EF::zero() };
    let x2 = x.field_mul(x);
    let x4 = x2.field_mul(x2);
    assert_eq!(x4.field_mul(x), EF::one().field_sub(x2));
    let mut source = Source(4);
    for _ in 0..50 {
        let (a, b, c) = (source.element(), source.element(), source.element());
        assert_eq!(a.field_mul(b).field_mul(c), a.field_mul(b.field_mul(c)));
        assert_eq!(
            a.field_mul(b.field_add(c)),
            a.field_mul(b).field_add(a.field_mul(c))
        );
        assert_eq!(a.field_sub(b).field_add(b), a);
        assert_eq!(a.field_mul(a.try_inverse().unwrap()), EF::one());
    }
    assert_eq!(EF::zero().try_inverse(), None);
    assert_eq!(ext(6).try_inverse().unwrap().field_mul(ext(3)), divide(ext(1), ext(2)));
}
