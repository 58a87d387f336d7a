//! How the statements of an execution proof are brought to the polynomials they are about.

use vstd::prelude::*;
use crate::field::Field;
use crate::multilinear::{copy_of, Claim, Evaluation, MultilinearPoint};

verus! {

/// The claims on one polynomial.
pub open spec fn claims_on<F>(list: Seq<Evaluation<F>>) -> Seq<Claim<F>> {
    crate::logup_star::claims_of(list)
}

/// The claims on each of several polynomials.
pub open spec fn claims_on_each<F>(lists: Seq<Vec<Evaluation<F>>>) -> Seq<Seq<Claim<F>>> {
    Seq::new(lists.len(), |i: int| claims_on(lists[i]@))
}

/// The claims on the polynomials of each table.
pub open spec fn claims_on_tables<F>(tables: Seq<Vec<Vec<Evaluation<F>>>>) -> Seq<
    Seq<Seq<Claim<F>>>,
> {
    Seq::new(tables.len(), |t: int| claims_on_each(tables[t]@))
}

/// A copy of a claim.
pub fn copy_evaluation<F: Field>(e: &Evaluation<F>) -> (r: Evaluation<F>)
    ensures
        r@ == e@,
{
    Evaluation { point: MultilinearPoint(copy_of(e.point.0.as_slice())), value: e.value }
}

/// Appends copies of claims to a list.
fn extend_claims<F: Field>(list: &mut Vec<Evaluation<F>>, more: &[Evaluation<F>])
    ensures
        claims_on(final(list)@) == claims_on(old(list)@) + claims_on(more@),
{
    let ghost before = claims_on(list@);
    let mut i: usize = 0;
    while i < more.len()
        invariant
            i <= more.len(),
            claims_on(list@) == before + claims_on(more@).take(i as int),
        decreases more.len() - i,
    {
        let ghost current = list@;
        list.push(copy_evaluation(&more[i]));
        proof {
            assert(claims_on(list@) =~= claims_on(current).push(more[i as int]@));
            assert(claims_on(more@).take(i + 1) =~= claims_on(more@).take(i as int).push(
                more[i as int]@,
            ));
            assert(claims_on(list@) =~= before + claims_on(more@).take(i + 1));
        }
        i = i + 1;
    }
    assert(claims_on(more@).take(i as int) =~= claims_on(more@));
}

/// The statements on memory: that of the single-word lookups, then that of the vector lookups.
pub fn memory_statements<F: Field>(normal: &Evaluation<F>, vector: &Evaluation<F>) -> (v: Vec<
    Evaluation<F>,
>)
    ensures
        claims_on(v@) == seq![normal@, vector@],
{
    let mut v: Vec<Evaluation<F>> = Vec::new();
    v.push(copy_evaluation(normal));
    v.push(copy_evaluation(vector));
    assert(claims_on(v@) =~= seq![normal@, vector@]);
    v
}

/// The statements on the extension polynomials, in the order in which they are committed: the
/// pushforward of the single-word lookups, that of the vector lookups, and that of the bytecode.
pub fn extension_statements<F: Field>(
    normal: Vec<Evaluation<F>>,
    vector: Vec<Evaluation<F>>,
    bytecode: Vec<Evaluation<F>>,
) -> (r: [Vec<Evaluation<F>>; 3])
    ensures
        r[0] == normal,
        r[1] == vector,
        r[2] == bytecode,
{
    [normal, vector, bytecode]
}

/// The claims, among those of the first `n` lookups, that are about column `c`, in order.
pub open spec fn gathered<F>(
    claims: Seq<Seq<Claim<F>>>,
    columns: Seq<usize>,
    n: nat,
    c: nat,
) -> Seq<Claim<F>>
    decreases n,
{
    if n == 0 {
        Seq::empty()
    } else {
        let before = gathered(claims, columns, (n - 1) as nat, c);
        if columns[n - 1] == c {
            before + claims[n - 1]
        } else {
            before
        }
    }
}

/// The lists of a table's columns with the claims of its lookups behind them.
pub open spec fn placed<F>(
    lists: Seq<Seq<Claim<F>>>,
    claims: Seq<Seq<Claim<F>>>,
    columns: Seq<usize>,
) -> Seq<Seq<Claim<F>>> {
    Seq::new(
        lists.len(),
        |c: int| lists[c] + gathered(claims, columns, columns.len(), c as nat),
    )
}

/// Places the claims of a table's lookups, from position `cursor` on, at the columns that the
/// lookups read their indexes from.
fn place_claims<F: Field>(
    lists: &mut Vec<Vec<Evaluation<F>>>,
    claims: &[Vec<Evaluation<F>>],
    cursor: usize,
    columns: &[usize],
)
    requires
        cursor + columns.len() <= claims.len(),
        forall|j: int| 0 <= j < columns.len() ==> #[trigger] columns[j] < old(lists).len(),
    ensures
        claims_on_each(final(lists)@) == placed(
            claims_on_each(old(lists)@),
            claims_on_each(claims@).skip(cursor as int),
            columns@,
        ),
{
    let ghost start = claims_on_each(lists@);
    let ghost own = claims_on_each(claims@).skip(cursor as int);
    let mut j: usize = 0;
    while j < columns.len()
        invariant
            j <= columns.len(),
            cursor + columns.len() <= claims.len(),
            own == claims_on_each(claims@).skip(cursor as int),
            lists.len() == start.len(),
            forall|j: int| 0 <= j < columns.len() ==> #[trigger] columns[j] < start.len(),
            forall|c: int|
                0 <= c < start.len() ==> claims_on((#[trigger] lists[c])@) == start[c] + gathered(
                    own,
                    columns@,
                    j as nat,
                    c as nat,
                ),
        decreases columns.len() - j,
    {
        let c: usize = columns[j];
        let ghost before = lists@;
        assert(own[j as int] == claims_on(claims[cursor + j]@));
        extend_claims(&mut lists[c], claims[cursor + j].as_slice());
        proof {
            assert forall|d: int| 0 <= d < start.len() implies claims_on((#[trigger] lists[d])@)
                == start[d] + gathered(own, columns@, (j + 1) as nat, d as nat) by {
                if d == c {
                    assert(claims_on(before[d]@) == start[d] + gathered(
                        own,
                        columns@,
                        j as nat,
                        d as nat,
                    ));
                    assert(claims_on(lists[d]@) =~= start[d] + gathered(
                        own,
                        columns@,
                        (j + 1) as nat,
                        d as nat,
                    ));
                } else {
                    assert(lists[d] == before[d]);
                }
            }
        }
        j = j + 1;
    }
    assert(claims_on_each(lists@) =~= placed(start, own, columns@));
}

/// The number of lookups of the first `t` tables.
pub open spec fn lookups_before(columns: Seq<Vec<usize>>, t: nat) -> nat
    decreases t,
{
    if t == 0 {
        0
    } else {
        lookups_before(columns, (t - 1) as nat) + columns[t - 1].len() as nat
    }
}

proof fn lemma_lookups_monotone(columns: Seq<Vec<usize>>, s: nat, t: nat)
    requires
        s <= t,
    ensures
        lookups_before(columns, s) <= lookups_before(columns, t),
    decreases t,
{
    if s < t {
        lemma_lookups_monotone(columns, s, (t - 1) as nat);
    }
}

/// What is gathered for a column is the claims of the lookups that read their indexes from it, each
/// lookup's claims whole and in order, one lookup behind another, and nothing else.
pub proof fn law_gathered<F>(claims: Seq<Seq<Claim<F>>>, columns: Seq<usize>, n: nat, c: nat, j: nat)
    requires
        j < n <= columns.len(),
    ensures
        gathered(claims, columns, 0, c).len() == 0,
        gathered(claims, columns, j + 1, c).len() == gathered(claims, columns, j, c).len() + (
        if columns[j as int] == c {
            claims[j as int].len()
        } else {
            0
        }),
        gathered(claims, columns, j + 1, c).len() <= gathered(claims, columns, n, c).len(),
        columns[j as int] == c ==> forall|x: int|
            0 <= x < claims[j as int].len() ==> gathered(claims, columns, n, c)[gathered(
                claims,
                columns,
                j,
                c,
            ).len() + x] == #[trigger] claims[j as int][x],
    decreases n,
{
    if j + 1 < n {
        law_gathered(claims, columns, (n - 1) as nat, c, j);
    }
}

/// Placing keeps what a column had in front, and puts behind it exactly the claims of the lookups
/// that read their indexes from the column: those of lookup `j` stand behind those of the lookups
/// before it.
pub proof fn law_placed<F>(
    lists: Seq<Seq<Claim<F>>>,
    claims: Seq<Seq<Claim<F>>>,
    columns: Seq<usize>,
    c: int,
    j: nat,
)
    requires
        0 <= c < lists.len(),
        j < columns.len(),
    ensures
        placed(lists, claims, columns).len() == lists.len(),
        placed(lists, claims, columns)[c].take(lists[c].len() as int) == lists[c],
        columns[j as int] == c ==> forall|x: int|
            0 <= x < claims[j as int].len() ==> placed(lists, claims, columns)[c][lists[c].len()
                + gathered(claims, columns, j, c as nat).len() + x]
                == #[trigger] claims[j as int][x],
        placed(lists, claims, columns)[c].len() == lists[c].len() + gathered(
            claims,
            columns,
            columns.len(),
            c as nat,
        ).len(),
        (forall|i: int| 0 <= i < columns.len() ==> #[trigger] columns[i] != c) ==> placed(
            lists,
            claims,
            columns,
        )[c] == lists[c],
{
    law_gathered(claims, columns, columns.len(), c as nat, j);
    let whole = placed(lists, claims, columns)[c];
    assert(whole.take(lists[c].len() as int) =~= lists[c]);
    if forall|i: int| 0 <= i < columns.len() ==> #[trigger] columns[i] != c {
        lemma_none_gathered(claims, columns, columns.len(), c as nat);
        assert(whole =~= lists[c]);
    }
}

proof fn lemma_none_gathered<F>(claims: Seq<Seq<Claim<F>>>, columns: Seq<usize>, n: nat, c: nat)
    requires
        n <= columns.len(),
        forall|i: int| 0 <= i < columns.len() ==> #[trigger] columns[i] != c,
    ensures
        gathered(claims, columns, n, c).len() == 0,
    decreases n,
{
    if n > 0 {
        assert(columns[n - 1] != c);
        lemma_none_gathered(claims, columns, (n - 1) as nat, c);
    }
}

/// The lookups of a table stand behind those of the tables before it.
pub proof fn law_lookups_before(columns: Seq<Vec<usize>>, t: nat)
    ensures
        lookups_before(columns, 0) == 0,
        lookups_before(columns, t + 1) == lookups_before(columns, t) + columns[t as int].len(),
{
}

/// Distributes the claims on the indexes of vector lookups, which come table by table, to the
/// committed columns that hold those indexes.
pub fn distribute_vector_claims<F: Field>(
    tables: &mut Vec<Vec<Vec<Evaluation<F>>>>,
    claims: &[Vec<Evaluation<F>>],
    columns: &[Vec<usize>],
)
    requires
        columns.len() == old(tables).len(),
        lookups_before(columns@, columns.len() as nat) <= claims.len(),
        forall|t: int, j: int|
            0 <= t < columns.len() && 0 <= j < columns[t].len() ==> #[trigger] columns[t][j]
                < old(tables)[t].len(),
    ensures
        final(tables).len() == old(tables).len(),
        forall|t: int|
            0 <= t < columns.len() ==> #[trigger] claims_on_tables(final(tables)@)[t] == placed(
                claims_on_tables(old(tables)@)[t],
                claims_on_each(claims@).skip(lookups_before(columns@, t as nat) as int),
                columns[t]@,
            ),
        forall|t: int|
            0 <= t < columns.len() ==> (#[trigger] final(tables)[t]).len() == old(tables)[t].len(),
        forall|t: int, c: int|
            0 <= t < columns.len() && 0 <= c < old(tables)[t].len() && !columns[t]@.contains(
                c as usize,
            ) ==> claims_on((#[trigger] final(tables)[t][c])@) == claims_on(old(tables)[t][c]@),
        forall|t: int, c: int|
            0 <= t < columns.len() && 0 <= c < old(tables)[t].len() ==> claims_on(
                old(tables)[t][c]@,
            ).is_prefix_of(claims_on((#[trigger] final(tables)[t][c])@)),
{
    let ghost start = tables@;
    let mut cursor: usize = 0;
    let mut t: usize = 0;
    while t < columns.len()
        invariant
            t <= columns.len() == start.len(),
            tables.len() == start.len(),
            cursor == lookups_before(columns@, t as nat),
            lookups_before(columns@, columns.len() as nat) <= claims.len(),
            forall|t: int, j: int|
                0 <= t < columns.len() && 0 <= j < columns[t].len() ==> #[trigger] columns[t][j]
                    < start[t].len(),
            forall|s: int| t <= s < start.len() ==> #[trigger] tables[s] == start[s],
            forall|s: int|
                0 <= s < t ==> claims_on_each((#[trigger] tables[s])@) == placed(
                    claims_on_each(start[s]@),
                    claims_on_each(claims@).skip(lookups_before(columns@, s as nat) as int),
                    columns[s]@,
                ),
        decreases columns.len() - t,
    {
        proof {
            lemma_lookups_monotone(columns@, (t + 1) as nat, columns.len() as nat);
            assert forall|j: int| 0 <= j < columns[t as int].len() implies (
            #[trigger] columns[t as int][j]) < tables[t as int].len() by {
                assert(tables[t as int] == start[t as int]);
            }
        }
        place_claims(&mut tables[t], claims, cursor, columns[t].as_slice());
        cursor = cursor + columns[t].len();
        t = t + 1;
    }
    proof {
        assert forall|t: int, c: int|
            0 <= t < columns.len() && 0 <= c < start[t].len() implies claims_on(
            start[t][c]@,
        ).is_prefix_of(claims_on((#[trigger] tables[t][c])@)) && (!columns[t]@.contains(c as usize)
            ==> claims_on(tables[t][c]@) == claims_on(start[t][c]@)) by {
            let lists = claims_on_each(start[t]@);
            let own = claims_on_each(claims@).skip(lookups_before(columns@, t as nat) as int);
            assert(claims_on_each(tables[t]@) == placed(lists, own, columns[t]@));
            assert(claims_on_each(tables[t]@)[c] == claims_on(tables[t][c]@));
            assert(lists[c] == claims_on(start[t][c]@));
            if !columns[t]@.contains(c as usize) {
                assert forall|i: int| 0 <= i < columns[t]@.len() implies (
                #[trigger] columns[t]@[i]) != c by {
                    assert(columns[t]@.contains(columns[t]@[i]));
                }
                lemma_none_gathered(own, columns[t]@, columns[t]@.len(), c as nat);
                assert(claims_on(tables[t][c]@) =~= claims_on(start[t][c]@));
            }
        }
    }
}

/// Claims, each alone on its polynomial.
pub open spec fn alone<F>(claims: Seq<Claim<F>>) -> Seq<Seq<Claim<F>>> {
    Seq::new(claims.len(), |i: int| seq![claims[i]])
}

/// The lists of all tables one after another.
pub open spec fn chained<F>(tables: Seq<Seq<Seq<Claim<F>>>>) -> Seq<Seq<Claim<F>>>
    decreases tables.len(),
{
    if tables.len() == 0 {
        Seq::empty()
    } else {
        chained(tables.drop_last()) + tables.last()
    }
}

/// Puts each claim alone on its polynomial.
fn each_alone<F: Field>(claims: Vec<Evaluation<F>>) -> (v: Vec<Vec<Evaluation<F>>>)
    ensures
        claims_on_each(v@) == alone(claims_on(claims@)),
{
    let mut v: Vec<Vec<Evaluation<F>>> = Vec::new();
    let mut i: usize = 0;
    while i < claims.len()
        invariant
            i <= claims.len(),
            v.len() == i,
            forall|j: int|
                0 <= j < i ==> claims_on((#[trigger] v[j])@) == seq![claims[j]@],
        decreases claims.len() - i,
    {
        let mut list: Vec<Evaluation<F>> = Vec::new();
        list.push(copy_evaluation(&claims[i]));
        assert(claims_on(list@) =~= seq![claims[i as int]@]);
        v.push(list);
        i = i + 1;
    }
    assert(claims_on_each(v@) =~= alone(claims_on(claims@)));
    v
}

/// The statements on all base polynomials, in the order of their commitment: those on memory, each
/// cube of the narrow and of the wide permutation circuit alone, then the committed columns table
/// by table.
pub fn assemble_base_statements<F: Field>(
    memory: Vec<Evaluation<F>>,
    narrow_cubes: Vec<Evaluation<F>>,
    wide_cubes: Vec<Evaluation<F>>,
    tables: Vec<Vec<Vec<Evaluation<F>>>>,
) -> (v: Vec<Vec<Evaluation<F>>>)
    ensures
        claims_on_each(v@) == seq![claims_on(memory@)] + alone(claims_on(narrow_cubes@)) + alone(
            claims_on(wide_cubes@),
        ) + chained(claims_on_tables(tables@)),
        v.len() == 1 + narrow_cubes.len() + wide_cubes.len() + lists_before(
            tables@,
            tables.len() as nat,
        ),
        claims_on(v[0]@) == claims_on(memory@),
        forall|i: int|
            0 <= i < narrow_cubes.len() ==> claims_on(v[1 + i]@) == seq![
                (#[trigger] narrow_cubes[i])@,
            ],
        forall|i: int|
            0 <= i < wide_cubes.len() ==> claims_on(v[1 + narrow_cubes.len() + i]@) == seq![
                (#[trigger] wide_cubes[i])@,
            ],
        forall|t: int, j: int|
            0 <= t < tables.len() && 0 <= j < tables[t].len() ==> claims_on(
                v[1 + narrow_cubes.len() + wide_cubes.len() + lists_before(tables@, t as nat)
                    + j]@,
            ) == claims_on((#[trigger] tables[t][j])@),
{
    let ghost all_tables = claims_on_tables(tables@);
    let mut v: Vec<Vec<Evaluation<F>>> = Vec::new();
    v.push(memory);
    assert(claims_on_each(v@) =~= seq![claims_on(memory@)]);
    let mut narrow = each_alone(narrow_cubes);
    let ghost (v0, n0) = (v@, narrow@);
    v.append(&mut narrow);
    assert(claims_on_each(v@) =~= claims_on_each(v0) + claims_on_each(n0));
    let mut wide = each_alone(wide_cubes);
    let ghost (v1, w0) = (v@, wide@);
    v.append(&mut wide);
    assert(claims_on_each(v@) =~= claims_on_each(v1) + claims_on_each(w0));
    let ghost head = claims_on_each(v@);
    assert(chained(all_tables.take(0)) =~= Seq::<Seq<Claim<F>>>::empty());
    assert(head + chained(all_tables.take(0)) =~= head);
    let mut rest = tables;
    let mut t: usize = 0;
    while t < rest.len()
        invariant
            t <= rest.len() == all_tables.len(),
            forall|s: int|
                t <= s < rest.len() ==> claims_on_each((#[trigger] rest[s])@) == all_tables[s],
            claims_on_each(v@) == head + chained(all_tables.take(t as int)),
        decreases rest.len() - t,
    {
        let mut list: Vec<Vec<Evaluation<F>>> = Vec::new();
        std::mem::swap(&mut list, &mut rest[t]);
        let ghost (before, own) = (v@, list@);
        v.append(&mut list);
        proof {
            assert(claims_on_each(own) == all_tables[t as int]);
            assert(claims_on_each(v@) =~= claims_on_each(before) + claims_on_each(own));
            assert(all_tables.take(t + 1).drop_last() =~= all_tables.take(t as int));
            assert(claims_on_each(v@) =~= head + chained(all_tables.take(t + 1)));
        }
        t = t + 1;
    }
    assert(all_tables.take(t as int) =~= all_tables);
    proof {
        let whole = claims_on_each(v@);
        let base = 1 + narrow_cubes.len() + wide_cubes.len();
        lemma_chained_length(tables@, tables.len() as nat);
        assert(head.len() == base);
        assert(whole[0] == claims_on(v[0]@));
        assert forall|i: int| 0 <= i < narrow_cubes.len() implies claims_on(v[1 + i]@) == seq![
            (#[trigger] narrow_cubes[i])@,
        ] by {
            assert(whole[1 + i] == claims_on(v[1 + i]@));
        }
        assert forall|i: int| 0 <= i < wide_cubes.len() implies claims_on(
            v[1 + narrow_cubes.len() + i]@,
        ) == seq![(#[trigger] wide_cubes[i])@] by {
            assert(whole[1 + narrow_cubes.len() + i] == claims_on(v[1 + narrow_cubes.len() + i]@));
        }
        assert forall|t: int, j: int|
            0 <= t < tables.len() && 0 <= j < tables[t].len() implies claims_on(
            v[base + lists_before(tables@, t as nat) + j]@,
        ) == claims_on((#[trigger] tables[t][j])@) by {
            lemma_chained_at(tables@, tables.len() as nat, t, j);
            let k = lists_before(tables@, t as nat) + j;
            assert(whole[base + k] == claims_on(v[base + k]@));
        }
    }
    v
}

/// The number of lists of the first `t` tables.
pub open spec fn lists_before<T>(tables: Seq<Vec<T>>, t: nat) -> nat
    decreases t,
{
    if t == 0 {
        0
    } else {
        lists_before(tables, (t - 1) as nat) + tables[t - 1].len() as nat
    }
}

proof fn lemma_chained_at<F>(tables: Seq<Vec<Vec<Evaluation<F>>>>, n: nat, t: int, j: int)
    requires
        0 <= t < n <= tables.len(),
        0 <= j < tables[t].len(),
    ensures
        chained(claims_on_tables(tables).take(n as int)).len() == lists_before(tables, n),
        lists_before(tables, t as nat) + j < lists_before(tables, n),
        chained(claims_on_tables(tables).take(n as int))[lists_before(tables, t as nat) + j]
            == claims_on(tables[t][j]@),
    decreases n,
{
    let all = claims_on_tables(tables);
    assert(all.take(n as int).drop_last() =~= all.take(n - 1));
    lemma_chained_length(tables, (n - 1) as nat);
    assert(all[n - 1].len() == tables[n - 1].len());
    if t < n - 1 {
        lemma_chained_at(tables, (n - 1) as nat, t, j);
    }
}

proof fn lemma_chained_length<F>(tables: Seq<Vec<Vec<Evaluation<F>>>>, n: nat)
    requires
        n <= tables.len(),
    ensures
        chained(claims_on_tables(tables).take(n as int)).len() == lists_before(tables, n),
    decreases n,
{
    let all = claims_on_tables(tables);
    if n > 0 {
        assert(all.take(n as int).drop_last() =~= all.take(n - 1));
        lemma_chained_length(tables, (n - 1) as nat);
        assert(all[n - 1].len() == tables[n - 1].len());
    }
}

/// The lists of all tables one after another: what a table gives stands behind what the tables
/// before it give, in its own order, and nothing else stands there.
pub proof fn law_chained_at<F>(tables: Seq<Seq<Seq<Claim<F>>>>, t: int, j: int)
    requires
        0 <= t < tables.len(),
        0 <= j < tables[t].len(),
    ensures
        chained(Seq::<Seq<Seq<Claim<F>>>>::empty()).len() == 0,
        chained(tables.take(t + 1)).len() == chained(tables.take(t)).len() + tables[t].len(),
        chained(tables.take(t)).len() + j < chained(tables).len(),
        chained(tables)[chained(tables.take(t)).len() + j] == tables[t][j],
    decreases tables.len(),
{
    let front = tables.drop_last();
    assert(tables.take(t + 1).drop_last() =~= tables.take(t));
    if t < tables.len() - 1 {
        law_chained_at(front, t, j);
        assert(front.take(t) =~= tables.take(t));
    } else {
        assert(tables.take(t) =~= front);
    }
}

/// What every table gives stands behind what the tables before it give, in its own order.
pub proof fn law_joined_at<T>(lists: Seq<Vec<T>>, t: int, j: int)
    requires
        0 <= t < lists.len(),
        0 <= j < lists[t].len(),
    ensures
        joined(lists).len() == lists_before(lists, lists.len()),
        lists_before(lists, t as nat) + j < lists_before(lists, lists.len()),
        joined(lists)[lists_before(lists, t as nat) + j] == lists[t][j],
    decreases lists.len(),
{
    let before = lists.drop_last();
    lemma_joined_length(lists);
    lemma_joined_length(before);
    lemma_lists_before_prefix(lists, before.len());
    if t < before.len() {
        law_joined_at(before, t, j);
        lemma_lists_before_prefix(lists, t as nat);
    }
}

proof fn lemma_lists_before_prefix<T>(lists: Seq<Vec<T>>, t: nat)
    requires
        t < lists.len(),
    ensures
        lists_before(lists, t) == lists_before(lists.drop_last(), t),
    decreases t,
{
    if t > 0 {
        lemma_lists_before_prefix(lists, (t - 1) as nat);
    }
}

proof fn lemma_joined_length<T>(lists: Seq<Vec<T>>)
    ensures
        joined(lists).len() == lists_before(lists, lists.len()),
    decreases lists.len(),
{
    if lists.len() > 0 {
        lemma_joined_length(lists.drop_last());
        lemma_lists_before_prefix(lists, (lists.len() - 1) as nat);
    }
}

/// Lists one after another.
pub open spec fn joined<T>(lists: Seq<Vec<T>>) -> Seq<T>
    decreases lists.len(),
{
    if lists.len() == 0 {
        Seq::empty()
    } else {
        joined(lists.drop_last()) + lists.last()@
    }
}

/// Joins what every table gives, table by table.
pub fn join_tables<T>(lists: Vec<Vec<T>>) -> (v: Vec<T>)
    ensures
        v@ == joined(lists@),
        v.len() == lists_before(lists@, lists.len() as nat),
        forall|t: int, j: int|
            0 <= t < lists.len() && 0 <= j < lists[t].len() ==> v[lists_before(lists@, t as nat)
                + j] == #[trigger] lists[t][j],
{
    let ghost all = lists@;
    let mut rest = lists;
    let mut v: Vec<T> = Vec::new();
    let mut t: usize = 0;
    assert(all.take(0) =~= Seq::<Vec<T>>::empty());
    while t < rest.len()
        invariant
            t <= rest.len() == all.len(),
            forall|s: int| t <= s < rest.len() ==> #[trigger] rest[s] == all[s],
            v@ == joined(all.take(t as int)),
        decreases rest.len() - t,
    {
        let mut list: Vec<T> = Vec::new();
        std::mem::swap(&mut list, &mut rest[t]);
        v.append(&mut list);
        proof {
            assert(all.take(t + 1).drop_last() =~= all.take(t as int));
        }
        t = t + 1;
    }
    assert(all.take(t as int) =~= all);
    proof {
        lemma_joined_length(all);
        assert forall|t: int, j: int|
            0 <= t < all.len() && 0 <= j < all[t].len() implies v[lists_before(all, t as nat) + j]
            == #[trigger] all[t][j] by {
            law_joined_at(all, t, j);
        }
    }
    v
}

/// The base polynomials in the order of their commitment: memory, the cubes of the narrow and of
/// the wide permutation circuit, then the committed columns table by table.
pub fn assemble_base_columns<P>(
    memory: Vec<P>,
    narrow_cubes: Vec<Vec<P>>,
    wide_cubes: Vec<Vec<P>>,
    tables: Vec<Vec<Vec<P>>>,
) -> (v: Vec<Vec<P>>)
    ensures
        v@ == seq![memory] + narrow_cubes@ + wide_cubes@ + joined(tables@),
        v.len() == 1 + narrow_cubes.len() + wide_cubes.len() + lists_before(
            tables@,
            tables.len() as nat,
        ),
        v[0] == memory,
        forall|i: int| 0 <= i < narrow_cubes.len() ==> v[1 + i] == #[trigger] narrow_cubes[i],
        forall|i: int|
            0 <= i < wide_cubes.len() ==> v[1 + narrow_cubes.len() + i]
                == #[trigger] wide_cubes[i],
        forall|t: int, j: int|
            0 <= t < tables.len() && 0 <= j < tables[t].len() ==> v[1 + narrow_cubes.len()
                + wide_cubes.len() + lists_before(tables@, t as nat) + j]
                == #[trigger] tables[t][j],
{
    let mut v: Vec<Vec<P>> = Vec::new();
    v.push(memory);
    let (mut narrow, mut wide, mut columns) = (narrow_cubes, wide_cubes, join_tables(tables));
    v.append(&mut narrow);
    v.append(&mut wide);
    v.append(&mut columns);
    assert(v@ =~= seq![memory] + narrow_cubes@ + wide_cubes@ + joined(tables@));
    proof {
        lemma_joined_length(tables@);
        assert forall|t: int, j: int|
            0 <= t < tables.len() && 0 <= j < tables[t].len() implies v[1 + narrow_cubes.len()
            + wide_cubes.len() + lists_before(tables@, t as nat) + j]
            == #[trigger] tables[t][j] by {
            law_joined_at(tables@, t, j);
        }
    }
    v
}

proof fn lemma_same_lists_before<S, T>(a: Seq<Vec<S>>, b: Seq<Vec<T>>, t: nat)
    requires
        a.len() == b.len(),
        t <= a.len(),
        forall|t: int| 0 <= t < a.len() ==> (#[trigger] a[t]).len() == b[t].len(),
    ensures
        lists_before(a, t) == lists_before(b, t),
    decreases t,
{
    if t > 0 {
        assert(a[t - 1].len() == b[t - 1].len());
        lemma_same_lists_before(a, b, (t - 1) as nat);
    }
}

/// Tables with one list per column give as many lists as columns.
proof fn lemma_joined_lengths<F, P>(tables: Seq<Vec<Vec<Evaluation<F>>>>, columns: Seq<Vec<Vec<P>>>)
    requires
        tables.len() == columns.len(),
        forall|t: int| 0 <= t < tables.len() ==> (#[trigger] tables[t]).len() == columns[t].len(),
    ensures
        chained(claims_on_tables(tables)).len() == joined(columns).len(),
    decreases tables.len(),
{
    if tables.len() > 0 {
        let last = tables.len() - 1;
        assert(tables[last].len() == columns[last].len());
        assert forall|t: int| 0 <= t < last implies (#[trigger] tables.drop_last()[t]).len()
            == columns.drop_last()[t].len() by {
            assert(tables[t].len() == columns[t].len());
        }
        assert(claims_on_tables(tables).drop_last() =~= claims_on_tables(tables.drop_last()));
        lemma_joined_lengths(tables.drop_last(), columns.drop_last());
    }
}

/// Statements are assembled in the order of the polynomials they are about: with one statement per
/// cube and one list per committed column, there is one list per base polynomial, and the list and
/// the polynomial of the same thing stand at the same index: memory first, then each narrow cube,
/// each wide cube, and column `j` of table `t` behind all columns of the tables before it.
#[verifier::spinoff_prover]
pub proof fn law_statements_align<F, P>(
    memory: Seq<Claim<F>>,
    narrow: Seq<Claim<F>>,
    wide: Seq<Claim<F>>,
    tables: Seq<Vec<Vec<Evaluation<F>>>>,
    memory_column: Vec<P>,
    narrow_columns: Seq<Vec<P>>,
    wide_columns: Seq<Vec<P>>,
    table_columns: Seq<Vec<Vec<P>>>,
)
    requires
        narrow.len() == narrow_columns.len(),
        wide.len() == wide_columns.len(),
        tables.len() == table_columns.len(),
        forall|t: int|
            0 <= t < tables.len() ==> (#[trigger] tables[t]).len() == table_columns[t].len(),
    ensures
        ({
            let lists = seq![memory] + alone(narrow) + alone(wide) + chained(
                claims_on_tables(tables),
            );
            let polynomials = seq![memory_column] + narrow_columns + wide_columns + joined(
                table_columns,
            );
            let base = 1 + narrow.len() + wide.len();
            &&& lists.len() == polynomials.len() == base + lists_before(tables, tables.len())
            &&& lists[0] == memory && polynomials[0] == memory_column
        }),
        ({
            let lists = seq![memory] + alone(narrow) + alone(wide) + chained(
                claims_on_tables(tables),
            );
            let polynomials = seq![memory_column] + narrow_columns + wide_columns + joined(
                table_columns,
            );
            forall|i: int|
                0 <= i < narrow.len() ==> lists[1 + i] == seq![#[trigger] narrow[i]]
                    && polynomials[1 + i] == narrow_columns[i]
        }),
        ({
            let lists = seq![memory] + alone(narrow) + alone(wide) + chained(
                claims_on_tables(tables),
            );
            let polynomials = seq![memory_column] + narrow_columns + wide_columns + joined(
                table_columns,
            );
            forall|i: int|
                0 <= i < wide.len() ==> lists[1 + narrow.len() + i] == seq![#[trigger] wide[i]]
                    && polynomials[1 + narrow.len() + i] == wide_columns[i]
        }),
        ({
            let lists = seq![memory] + alone(narrow) + alone(wide) + chained(
                claims_on_tables(tables),
            );
            let polynomials = seq![memory_column] + narrow_columns + wide_columns + joined(
                table_columns,
            );
            let base = 1 + narrow.len() + wide.len();
            forall|t: int, j: int|
                0 <= t < tables.len() && 0 <= j < tables[t].len() ==> {
                    let at = base + lists_before(tables, t as nat) + j;
                    &&& lists[at] == claims_on((#[trigger] tables[t][j])@)
                    &&& polynomials[at] == table_columns[t][j]
                }
        }),
{
    let whole = tables.len();
    lemma_chained_length(tables, whole);
    lemma_joined_lengths(tables, table_columns);
    lemma_same_lists_before(tables, table_columns, whole);
    assert(claims_on_tables(tables).take(whole as int) =~= claims_on_tables(tables));
    let lists = seq![memory] + alone(narrow) + alone(wide) + chained(claims_on_tables(tables));
    let polynomials = seq![memory_column] + narrow_columns + wide_columns + joined(table_columns);
    let base = 1 + narrow.len() + wide.len();
    assert(lists.len() == polynomials.len() == base + lists_before(tables, whole));
    assert forall|i: int| 0 <= i < narrow.len() implies lists[1 + i] == seq![#[trigger] narrow[i]]
        && polynomials[1 + i] == narrow_columns[i] by {
        assert(lists[1 + i] == alone(narrow)[i]);
    }
    assert forall|i: int| 0 <= i < wide.len() implies lists[1 + narrow.len() + i] == seq![
        #[trigger] wide[i],
    ] && polynomials[1 + narrow.len() + i] == wide_columns[i] by {
        assert(lists[1 + narrow.len() + i] == alone(wide)[i]);
    }
    assert forall|t: int, j: int| 0 <= t < tables.len() && 0 <= j < tables[t].len() implies {
        let at = base + lists_before(tables, t as nat) + j;
        &&& lists[at] == claims_on((#[trigger] tables[t][j])@)
        &&& polynomials[at] == table_columns[t][j]
    } by {
        lemma_chained_at(tables, whole, t, j);
        lemma_same_lists_before(tables, table_columns, t as nat);
        assert(tables[t].len() == table_columns[t].len());
        law_joined_at(table_columns, t, j);
        let k = lists_before(tables, t as nat) + j;
        assert(lists[base + k] == chained(claims_on_tables(tables))[k]);
        assert(polynomials[base + k] == joined(table_columns)[k]);
    }
}

/// The lists of a table start where those of the tables before it end.
pub proof fn law_lists_before<T>(tables: Seq<Vec<T>>, t: nat)
    ensures
        lists_before(tables, 0) == 0,
        lists_before(tables, t + 1) == lists_before(tables, t) + tables[t as int].len(),
{
}

/// Which statements on vector lookups a table gives.
#[derive(Clone, Copy, Debug, Eq, PartialEq, Structural)]
pub enum VectorStatements {
    /// Those of the narrow permutation circuit.
    NarrowPermutation,
    /// Those of the wide permutation circuit.
    WidePermutation,
    /// Those of the table's own columns.
    Columns,
}

/// Which statements on vector lookups a table gives, by the indexes of the two permutation tables.
pub fn vector_statements_of(table: usize, narrow: usize, wide: usize) -> (r: VectorStatements)
    ensures
        table == narrow ==> r == VectorStatements::NarrowPermutation,
        table != narrow && table == wide ==> r == VectorStatements::WidePermutation,
        table != narrow && table != wide ==> r == VectorStatements::Columns,
{
    if table == narrow {
        VectorStatements::NarrowPermutation
    } else if table == wide {
        VectorStatements::WidePermutation
    } else {
        VectorStatements::Columns
    }
}

/// Adds the claims on the program counter to its column: what the bytecode lookup left, then its
/// first and last value.
pub fn add_program_counter_claims<F: Field>(
    tables: &mut Vec<Vec<Vec<Evaluation<F>>>>,
    table: usize,
    column: usize,
    lookup: &Evaluation<F>,
    initial: &Evaluation<F>,
    last: &Evaluation<F>,
)
    requires
        table < old(tables).len(),
        column < old(tables)[table as int].len(),
    ensures
        claims_on_tables(final(tables)@) == claims_on_tables(old(tables)@).update(
            table as int,
            claims_on_tables(old(tables)@)[table as int].update(
                column as int,
                claims_on_tables(old(tables)@)[table as int][column as int] + seq![
                    lookup@,
                    initial@,
                    last@,
                ],
            ),
        ),
{
    let ghost start = tables@;
    let mut more: Vec<Evaluation<F>> = Vec::new();
    more.push(copy_evaluation(lookup));
    more.push(copy_evaluation(initial));
    more.push(copy_evaluation(last));
    assert(claims_on(more@) =~= seq![lookup@, initial@, last@]);
    extend_claims(&mut tables[table][column], more.as_slice());
    proof {
        let (old_lists, new_lists) = (start[table as int]@, tables@[table as int]@);
        assert(claims_on_each(new_lists) =~= claims_on_each(old_lists).update(
            column as int,
            claims_on_each(old_lists)[column as int] + seq![lookup@, initial@, last@],
        ));
        assert(claims_on_tables(tables@) =~= claims_on_tables(start).update(
            table as int,
            claims_on_each(new_lists),
        ));
    }
}

} // verus!
