//! Buses, the steps of an execution proof, its statements, and the permutation circuit's checks.

use whir_lookup::bus::{
    compute_bus_denominators, compute_bus_final_values, compute_bus_numerators,
    fingerprint_inputs, prove_bus_and_air, prove_bus_step, without_padding, Bus, BusDirection,
    BusPhase, BusTable,
};
use whir_lookup::execution::{
    base_scalars, buses_balance, bytecode_challenges, bytecode_lookup, bytecode_lookup_value,
    extension_lengths, memory_layout, pad_memory, pad_to_next_power_of_two, rows_per_lookup,
    step_after, ExecutionStep,
};
use p3_field::PrimeField32;
use p3_symmetric::Permutation;
use whir_lookup::field::{dot_product, Field, PrimeField};
use whir_lookup::koala_bear::KoalaBear;
use whir_lookup::multilinear::{evaluate, Evaluation, MultilinearPoint};
use whir_lookup::permutation::{
    compression_count, compression_selector, opening_statements, output_matches,
    output_statements_hold, packed_variables, selector_claim_holds, transpose, MultiEvaluation,
    COMPRESSION_OUTPUT_WIDTH,
};
use whir_lookup::quintic::Quintic;
use whir_lookup::quotient_gkr::{ProverReply, ProverRequest};
use whir_lookup::statements::{
    add_program_counter_claims, assemble_base_columns, assemble_base_statements,
    distribute_vector_claims, extension_statements, join_tables, memory_statements,
    vector_statements_of, VectorStatements,
};

type F = KoalaBear;
type EF = Quintic;

fn f(n: u32) -> F {
    F::new(n)
}

fn ext(n: usize) -> EF {
    EF::from_usize(n)
}

fn base(s: &[u32]) -> Vec<F> {
    s.iter().map(|&x| f(x)).collect()
}

fn divide(n: EF, d: EF) -> EF {
    n.field_mul(d.try_inverse().unwrap())
}

fn lagrange(n: usize, x: EF) -> Vec<EF> {
    (0..n)
        .map(|i| {
            (0..n).filter(|&j| j != i).fold(EF::one(), |p, j| {
                p.field_mul(divide(x.field_sub(ext(j)), ext(i).field_sub(ext(j))))
            })
        })
        .collect()
}

fn buses() -> Vec<Bus<F>> {
    vec![
        Bus {
            direction: BusDirection::Push,
            table: BusTable::Constant(f(9)),
            selector: 0,
            data: vec![1, 2],
        },
        Bus { direction: BusDirection::Pull, table: BusTable::Variable(2), selector: 1, data: vec![0] },
        Bus { direction: BusDirection::Pull, table: BusTable::Constant(f(4)), selector: 2, data: vec![] },
    ]
}

fn columns() -> Vec<Vec<F>> {
    (0..3u32).map(|c| (0..8u32).map(|r| f(10 * c + r + 1)).collect()).collect()
}

fn prints(n_buses: usize) -> Vec<Vec<EF>> {
    (0..n_buses).map(|b| (0..8).map(|r| ext(100 * b + 7 * r + 3)).collect()).collect()
}

#[test]
fn fingerprints_are_taken_of_table_and_data() {
    let (buses, columns) = (buses(), columns());
    assert_eq!(fingerprint_inputs(&buses[0], &columns, 3), (f(9), base(&[14, 24])));
    assert_eq!(fingerprint_inputs(&buses[1], &columns, 3), (f(24), base(&[4])));
    assert_eq!(fingerprint_inputs(&buses[2], &columns, 0), (f(4), vec![]));
}

#[test]
fn bus_fractions_are_padded() {
    let columns = columns();
    let numerators: Vec<EF> = compute_bus_numerators(&buses(), &columns, 8, 4);
    assert_eq!(numerators.len(), 32);
    assert_eq!(numerators[2], ext(3));
    assert_eq!(numerators[8 + 2].field_add(ext(13)), ext(0));
    assert!(numerators[24..].iter().all(|x| *x == EF::zero()));
    let denominators = compute_bus_denominators(ext(1000), &prints(3), 8, 4);
    assert_eq!(denominators[8 + 1], ext(1110));
    assert!(denominators[24..].iter().all(|x| *x == EF::one()));
}

fn reply(request: ProverRequest<EF>, bus: &BusPhase<EF>, seed: &mut usize) -> ProverReply<EF> {
    *seed += 13;
    match request {
        ProverRequest::SendThenSkipChallenge(_, n) => {
            let beta = ext(*seed);
            ProverReply::SkipChallenge { beta, selectors: lagrange(n, beta) }
        }
        ProverRequest::Sumcheck { n_vars, .. } => {
            let point: Vec<EF> = (0..n_vars).map(|i| ext(*seed + 5 * i)).collect();
            let BusPhase::Sum(sum) = bus else { panic!("no sum") };
            let evals = sum.sumcheck_columns(n_vars).iter().map(|c| evaluate(c, &point)).collect();
            ProverReply::Sumcheck { point, evals }
        }
        _ => ProverReply::Challenge(ext(*seed)),
    }
}

fn skip_evaluate(values: &[EF], groups: usize, point: &[EF]) -> EF {
    let pieces: Vec<EF> =
        values.chunks(values.len() / groups).map(|c| evaluate(c, &point[1..])).collect();
    dot_product(&pieces, &lagrange(groups, point[0]))
}

fn run_buses(buses: &[Bus<F>]) {
    let (columns, prints, challenge) = (columns(), prints(buses.len()), ext(50_000));
    let contributions = vec![ext(2); buses.len()];
    let mut prover = prove_bus_and_air(buses, &columns, 3, &prints, challenge, &contributions, 1);
    let mut own = EF::zero();
    for (b, bus) in buses.iter().enumerate() {
        for row in 0..8 {
            let selector = ext(10 * bus.selector + row + 1);
            let term = divide(selector, challenge.field_add(prints[b][row]));
            own = match bus.direction {
                BusDirection::Push => own.field_add(term),
                BusDirection::Pull => own.field_sub(term),
            };
        }
        own = own.field_sub(ext(2));
    }
    assert_eq!(prover.quotient, own);
    let mut seed = 1;
    let mut pieces = 0;
    loop {
        let request = prover.request();
        match request {
            ProverRequest::Nothing => break,
            ProverRequest::SendThenSkipChallenge(ref scalars, _) => {
                if let BusPhase::Pieces { point, numerators, denominators } = &prover.phase {
                    pieces = scalars.len();
                    let mut all = numerators.clone();
                    all.resize(8, EF::zero());
                    let whole = skip_evaluate(&prover.numerators, 2, point);
                    assert_eq!(skip_evaluate(&all, 2, &point[..3]), whole);
                    let mut all = denominators.clone();
                    all.resize(8, EF::one());
                    let whole = skip_evaluate(&prover.denominators, 2, point);
                    assert_eq!(skip_evaluate(&all, 2, &point[..3]), whole);
                }
            }
            _ => {}
        }
        let answer = reply(request, &prover.phase, &mut seed);
        assert!(prover.agrees(&answer));
        prover = prove_bus_step(prover, answer);
    }
    assert_eq!(pieces, if buses.len() == 1 { 0 } else { 2 * 2 * buses.len() });
    let BusPhase::Finished { point, values, beta } = &prover.phase else { panic!("unfinished") };
    assert_eq!(point.len(), 3);
    for (b, bus) in buses.iter().enumerate() {
        let chunk = |v: &[EF]| skip_evaluate(&v[8 * b..8 * b + 8], 2, point);
        let selector = match bus.direction {
            BusDirection::Push => chunk(&prover.numerators),
            BusDirection::Pull => EF::zero().field_sub(chunk(&prover.numerators)),
        };
        let data = chunk(&prover.denominators).field_sub(challenge);
        assert_eq!(values[b], selector.field_add(beta.field_mul(data)));
    }
}

#[test]
fn buses_are_proved_down_to_virtual_columns() {
    run_buses(&buses());
    run_buses(&buses()[..1]);
}

/// Evaluations that are not those of the columns end the sum with claims that the pieces of
/// several buses do not come to; one bus has no pieces to disagree with.
#[test]
fn pieces_are_held_against_the_claims_of_the_sum() {
    for n_buses in [1, 3] {
        let all = buses();
        let prints = prints(n_buses);
        let mut prover =
            prove_bus_and_air(&all[..n_buses], &columns(), 3, &prints, ext(50_000), &[], 1);
        let mut seed = 1;
        let mut wrong = 0;
        while let BusPhase::Sum(_) = &prover.phase {
            let request = prover.request();
            let ends = matches!(request, ProverRequest::SendThenSkipChallenge(..));
            let mut answer = reply(request, &prover.phase, &mut seed);
            if let ProverReply::Sumcheck { evals, .. } = &mut answer {
                evals[0] = evals[0].field_add(EF::one());
            }
            let agrees = prover.agrees(&answer);
            assert_eq!(agrees, !ends || n_buses == 1);
            wrong += usize::from(!agrees);
            if !agrees {
                break;
            }
            prover = prove_bus_step(prover, answer);
        }
        assert_eq!(wrong, usize::from(n_buses > 1));
    }
}

#[test]
fn final_values_carry_the_sign() {
    let values = compute_bus_final_values(
        &[BusDirection::Push, BusDirection::Pull],
        &base(&[5, 6]),
        &base(&[107, 108]),
        f(100),
        f(10),
    );
    assert_eq!(values, vec![f(75), f(74)]);
    assert_eq!(without_padding(f(20), &base(&[3, 4])), f(13));
}

#[test]
fn steps_come_once_and_in_order() {
    let mut step = ExecutionStep::Witness;
    let mut seen = vec![step];
    while step != ExecutionStep::Complete {
        step = step_after(step, 3);
        assert!(!seen.contains(&step));
        seen.push(step);
    }
    assert_eq!(seen.len(), 24);
    let at = |s| seen.iter().position(|&x| x == s).unwrap();
    assert!(at(ExecutionStep::CommitBase) < at(ExecutionStep::BusChallenges));
    assert!(at(ExecutionStep::BusAndAir(2)) < at(ExecutionStep::BusBalance));
    assert!(at(ExecutionStep::CommitExtension) < at(ExecutionStep::NormalLookupsSecond));
    assert!(at(ExecutionStep::CommittedStatements(2)) < at(ExecutionStep::OpenBase));
    assert_eq!(step_after(ExecutionStep::Complete, 3), ExecutionStep::Complete);
    assert_eq!(step_after(ExecutionStep::BusChallenges, 0), ExecutionStep::BusBalance);
}

#[test]
fn memory_is_padded_to_its_least_size() {
    let (memory, size) = pad_memory(base(&[1, 2, 3]), 3, 2);
    assert_eq!((memory, size), (base(&[1, 2, 3, 0]), 4));
    let (memory, size) = pad_memory(base(&[1, 2, 3, 4]), 3, 2);
    assert_eq!((memory, size), (base(&[1, 2, 3, 4]), 3));
    assert_eq!(memory_layout(8, 20), (3, 12));
    assert_eq!(base_scalars::<F>(12, &[5, 7]), base(&[12, 5, 7]));
}

#[test]
fn buses_balance_when_quotients_cancel() {
    assert!(buses_balance(&[f(3), f(0).field_sub(f(5)), f(2)]));
    assert!(!buses_balance(&[f(3)]));
    assert!(buses_balance::<F>(&[]));
}

#[test]
fn bytecode_claim_evaluates_padded_columns() {
    let evals = base(&[3, 5, 7]);
    assert_eq!(pad_to_next_power_of_two(&evals, f(1)), base(&[3, 5, 7, 1]));
    assert_eq!(pad_to_next_power_of_two(&evals[..1], f(1)), base(&[3]));
    assert_eq!(bytecode_lookup_value(&evals, &base(&[1, 0])), f(7));
    assert_eq!(bytecode_lookup_value(&evals, &base(&[1, 1])), f(0));
}

#[test]
fn bytecode_lookup_bundles_weights_pushforward_and_value() {
    for (columns, expected) in [(0, 0), (1, 0), (2, 1), (3, 2), (12, 4), (16, 4), (17, 5)] {
        assert_eq!(bytecode_challenges(columns), expected);
    }
    let point = [ext(2), ext(5)];
    let evals: Vec<EF> = [3, 5, 7].iter().map(|&x| ext(x)).collect();
    let challenges = [ext(1), ext(0)];
    let (weights, pushforward, value) =
        bytecode_lookup(&point, &base(&[1, 0, 1, 3]), 4, &evals, &challenges);
    let less = |x: EF| EF::one().field_sub(x);
    let expected = [
        less(point[0]).field_mul(less(point[1])),
        less(point[0]).field_mul(point[1]),
        point[0].field_mul(less(point[1])),
        point[0].field_mul(point[1]),
    ];
    assert_eq!(weights, expected);
    assert_eq!(pushforward[0], expected[1]);
    assert_eq!(pushforward[1], expected[0].field_add(expected[2]));
    assert_eq!(pushforward[2], EF::zero());
    assert_eq!(pushforward[3], expected[3]);
    assert_eq!(value, ext(7));
}

#[test]
fn lookup_statements_keep_their_order() {
    assert_eq!(memory_statements(&claim(1), &claim(2)), vec![claim(1), claim(2)]);
    let [normal, vector, bytecode] =
        extension_statements(vec![claim(1)], vec![claim(2), claim(3)], vec![claim(4)]);
    assert_eq!(normal, vec![claim(1)]);
    assert_eq!(vector, vec![claim(2), claim(3)]);
    assert_eq!(bytecode, vec![claim(4)]);
}

#[test]
fn lookup_sizes() {
    assert_eq!(rows_per_lookup(&[10, 20, 30], &[2, 0, 1]), vec![10, 10, 30]);
    assert_eq!(extension_lengths(17, 8, 5), [17, 3, 5]);
    assert_eq!(extension_lengths(16, 8, 5), [16, 2, 5]);
    assert_eq!(extension_lengths(0, 8, 5), [0, 0, 5]);
}

fn claim(n: u32) -> Evaluation<F> {
    Evaluation::new(MultilinearPoint(base(&[n])), f(n))
}

#[test]
fn vector_claims_go_to_their_columns() {
    let mut tables = vec![vec![vec![claim(1)], vec![]], vec![vec![], vec![claim(2)], vec![]]];
    let claims = vec![vec![claim(10)], vec![claim(11), claim(12)], vec![claim(13)], vec![claim(14)]];
    distribute_vector_claims(&mut tables, &claims, &[vec![1], vec![2, 1, 2]]);
    assert_eq!(
        tables,
        vec![
            vec![vec![claim(1)], vec![claim(10)]],
            vec![
                vec![],
                vec![claim(2), claim(13)],
                vec![claim(11), claim(12), claim(14)]
            ],
        ]
    );
    add_program_counter_claims(&mut tables, 1, 0, &claim(20), &claim(21), &claim(22));
    assert_eq!(tables[1][0], vec![claim(20), claim(21), claim(22)]);
    assert_eq!(tables[0][0], vec![claim(1)]);
}

#[test]
fn base_statements_follow_the_commitment() {
    let statements = assemble_base_statements(
        vec![claim(1), claim(2)],
        vec![claim(3), claim(4)],
        vec![claim(5)],
        vec![vec![vec![claim(6)], vec![]], vec![vec![claim(7)]]],
    );
    assert_eq!(
        statements,
        vec![
            vec![claim(1), claim(2)],
            vec![claim(3)],
            vec![claim(4)],
            vec![claim(5)],
            vec![claim(6)],
            vec![],
            vec![claim(7)],
        ]
    );
}

#[test]
fn base_columns_follow_the_same_order() {
    let columns = assemble_base_columns(
        vec![1],
        vec![vec![2], vec![3]],
        vec![vec![4]],
        vec![vec![vec![5], vec![6]], vec![], vec![vec![7]]],
    );
    assert_eq!(columns, (1..8).map(|i| vec![i]).collect::<Vec<_>>());
    assert_eq!(join_tables(vec![vec!['a'], vec![], vec!['b', 'c']]), vec!['a', 'b', 'c']);
}

#[test]
fn permutation_tables_give_their_own_statements() {
    assert_eq!(vector_statements_of(2, 2, 3), VectorStatements::NarrowPermutation);
    assert_eq!(vector_statements_of(3, 2, 3), VectorStatements::WidePermutation);
    assert_eq!(vector_statements_of(0, 2, 3), VectorStatements::Columns);
}

#[test]
fn compressions_are_the_last_third() {
    assert_eq!(compression_count(4096, true), 1365);
    assert_eq!(compression_count(4096, false), 0);
    assert_eq!(compression_selector::<F>(4, 1), base(&[0, 0, 0, 1]));
    assert_eq!(packed_variables(12, 16, 0), 16);
    assert_eq!(packed_variables(12, 16, 16), 17);
    assert_eq!(packed_variables(12, 16, 17), 18);
    let point = base(&[5, 9]);
    let value = evaluate(&base(&[0, 0, 0, 1]), &point);
    let claim = Evaluation::new(MultilinearPoint(point.clone()), value);
    assert!(selector_claim_holds(&claim, 2, 1));
    assert!(!selector_claim_holds(&claim, 2, 2));
}

/// The checks around the circuit's proof, with Poseidon2 as the permutation and an honest circuit.
fn run_poseidon_benchmark(n_committed_cubes: usize, log_n: usize, compress: bool) {
    const WIDTH: usize = 16;
    let n = 1usize << log_n;
    let n_compressions = compression_count(n, compress);
    assert_eq!(n_compressions, if compress { n / 3 } else { 0 });
    assert_eq!(
        packed_variables(log_n, WIDTH, n_committed_cubes),
        log_n + if n_committed_cubes == 0 { 4 } else { 5 }
    );
    let mut state = 1u32;
    let mut rows: Vec<Vec<F>> = Vec::new();
    for _ in 0..n {
        rows.push(
            (0..WIDTH)
                .map(|_| {
                    state = state.wrapping_mul(747796405).wrapping_add(2891336453);
                    f(state)
                })
                .collect(),
        );
    }
    let input = transpose(&rows, WIDTH);
    assert_eq!(input[5][7], rows[7][5]);
    let poseidon = p3_koala_bear::default_koalabear_poseidon2_16();
    let permuted: Vec<Vec<F>> = rows
        .iter()
        .map(|row| {
            let mut words: [p3_koala_bear::KoalaBear; WIDTH] = std::array::from_fn(|j| {
                p3_koala_bear::KoalaBear::new(row[j].to_usize() as u32)
            });
            poseidon.permute_mut(&mut words);
            words.iter().map(|w| f(w.as_canonical_u32())).collect()
        })
        .collect();
    let permuted = transpose(&permuted, WIDTH);
    let selector = compression_selector::<F>(n, n_compressions);
    let mut output = permuted.clone();
    if compress {
        for column in output.iter_mut().skip(COMPRESSION_OUTPUT_WIDTH) {
            for (value, on) in column.iter_mut().zip(&selector) {
                if *on == F::one() {
                    *value = F::zero();
                }
            }
        }
    }
    assert!(output_matches(&output, &permuted, compress, n_compressions));
    assert!(!output_matches(&input, &permuted, compress, n_compressions));

    let point: Vec<EF> = (0..log_n).map(|i| ext(1000 + 77 * i)).collect();
    let lift = |column: &Vec<F>| -> Vec<EF> {
        column.iter().map(|x| Quintic { c0: *x, ..EF::zero() }).collect()
    };
    if compress {
        let claim = Evaluation::new(
            MultilinearPoint(point.clone()),
            evaluate(&lift(&selector), &point),
        );
        assert!(selector_claim_holds(&claim, log_n, n_compressions));
    }
    let at = |columns: &[Vec<F>]| MultiEvaluation {
        point: MultilinearPoint(point.clone()),
        values: columns.iter().map(|c| evaluate(&lift(c), &point)).collect(),
    };
    let (inputs, cubes) = (at(&input), at(&input[..n_committed_cubes]));
    let statements = opening_statements(&inputs, &cubes);
    assert_eq!(statements.len(), WIDTH + n_committed_cubes);
    assert!(statements.iter().all(|list| list.len() == 1));
    assert!(output_statements_hold(&at(&output), &output));
}

#[test]
fn test_poseidon_benchmark() {
    run_poseidon_benchmark(0, 12, false);
    run_poseidon_benchmark(0, 12, true);
    run_poseidon_benchmark(16, 12, false);
    run_poseidon_benchmark(16, 12, true);
}

#[test]
fn opened_columns_are_stated_alone() {
    let inputs = MultiEvaluation { point: MultilinearPoint(base(&[1])), values: base(&[7, 8]) };
    let cubes = MultiEvaluation { point: MultilinearPoint(base(&[2])), values: base(&[9]) };
    let at = |p: u32, v: u32| vec![Evaluation::new(MultilinearPoint(base(&[p])), f(v))];
    assert_eq!(opening_statements(&inputs, &cubes), vec![at(1, 7), at(1, 8), at(2, 9)]);
}

#[test]
fn output_is_held_against_plain_permutations() {
    let rows: Vec<Vec<F>> = (0..4u32).map(|r| (0..10u32).map(|c| f(100 * r + c + 1)).collect()).collect();
    let plain = transpose(&rows, 10);
    assert_eq!(plain[3], base(&[4, 104, 204, 304]));
    assert!(output_matches(&plain, &plain, false, 0));
    let mut compressed = plain.clone();
    for column in compressed.iter_mut().skip(COMPRESSION_OUTPUT_WIDTH) {
        column[3] = f(0);
    }
    assert!(output_matches(&compressed, &plain, true, 1));
    assert!(!output_matches(&compressed, &plain, false, 0));
    assert!(!output_matches(&plain, &plain, true, 1));
    let mut wrong = compressed.clone();
    wrong[0][3] = f(0);
    assert!(!output_matches(&wrong, &plain, true, 1));

    let point = vec![ext(5), ext(6)];
    let values: Vec<EF> = plain
        .iter()
        .map(|c| {
            let lifted: Vec<EF> =
                c.iter().map(|x| Quintic { c0: *x, ..EF::zero() }).collect();
            evaluate(&lifted, &point)
        })
        .collect();
    let statements = MultiEvaluation { point: MultilinearPoint(point), values };
    assert!(output_statements_hold(&statements, &plain));
    assert!(!output_statements_hold(&statements, &compressed));
    assert!(!output_statements_hold(&statements, &plain[1..]));
}
