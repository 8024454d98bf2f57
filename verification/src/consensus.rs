//! How far the answers agree. Answers that share a record belong together, so
//! that resolvers which each hold a part of one pool count as consistent.

use vstd::prelude::*;

use crate::model::{QueryResult, RowState, Summary, SummaryView};
use crate::rows::row_values;
use crate::state::App;
use crate::text::texts;

verus! {

/// The resolver returned records.
pub open spec fn has_records(row: RowState) -> bool {
    row matches RowState::Done { result: QueryResult::Records { .. }, .. }
}

/// The resolver answered, with records or without.
pub open spec fn responded(row: RowState) -> bool {
    has_records(row) || row matches RowState::Done { result: QueryResult::NoRecords(_), .. }
}

/// The resolver refused or could not be reached.
pub open spec fn failed(row: RowState) -> bool {
    row matches RowState::Done { result: QueryResult::Error(_), .. }
}

/// Two answers have a record in common.
pub open spec fn share(a: RowState, b: RowState) -> bool {
    &&& has_records(a)
    &&& has_records(b)
    &&& exists|v: Seq<char>| #[trigger] row_values(a).contains(v) && row_values(b).contains(v)
}

/// Neighbours `k` and `k + 1` of a path share a record.
pub open spec fn step(rows: Seq<RowState>, path: Seq<int>, k: int) -> bool {
    share(rows[path[k]], rows[path[k + 1]])
}

/// A row number whose resolver returned records.
pub open spec fn answered(rows: Seq<RowState>, i: int) -> bool {
    0 <= i < rows.len() && has_records(rows[i])
}

/// A chain of answers in which neighbours share a record.
pub open spec fn is_path(rows: Seq<RowState>, path: Seq<int>) -> bool {
    &&& path.len() > 0
    &&& forall|k: int| 0 <= k < path.len() ==> answered(rows, #[trigger] path[k])
    &&& forall|k: int| 0 <= k < path.len() - 1 ==> #[trigger] step(rows, path, k)
}

/// Two rows belong together: a chain of shared records leads from one to the
/// other.
pub open spec fn linked(rows: Seq<RowState>, i: int, j: int) -> bool {
    exists|path: Seq<int>| #[trigger]
        is_path(rows, path) && path[0] == i && path[path.len() - 1] == j
}

/// Row `i` belongs to the group of no row before `h`.
pub open spec fn apart(rows: Seq<RowState>, h: int, i: int) -> bool {
    forall|l: int| 0 <= l < h ==> !#[trigger] linked(rows, l, i)
}

/// The first row of a group.
pub open spec fn is_head(rows: Seq<RowState>, h: int) -> bool {
    answered(rows, h) && apart(rows, h, h)
}

/// How many numbers below `n` satisfy `p`.
pub open spec fn count(p: spec_fn(int) -> bool, n: int) -> nat
    decreases n,
{
    if n <= 0 {
        0
    } else {
        count(p, n - 1) + if p(n - 1) {
            1nat
        } else {
            0nat
        }
    }
}

/// How many rows belong to the group of row `h`.
pub open spec fn group_size(rows: Seq<RowState>, h: int) -> nat {
    count(|j: int| linked(rows, h, j), rows.len() as int)
}

/// `h` heads the largest group, and of equally large ones the first.
pub open spec fn is_majority(rows: Seq<RowState>, h: int) -> bool {
    &&& is_head(rows, h)
    &&& forall|g: int| #[trigger]
        is_head(rows, g) ==> group_size(rows, g) < group_size(rows, h) || (group_size(rows, g)
            == group_size(rows, h) && h <= g)
}

/// The head of the largest group; none when no resolver returned records.
pub open spec fn majority(rows: Seq<RowState>) -> Option<int> {
    if exists|h: int| is_majority(rows, h) {
        Some(choose|h: int| is_majority(rows, h))
    } else {
        None
    }
}

/// Row `i` is in the largest group.
pub open spec fn in_majority(rows: Seq<RowState>, i: int) -> bool {
    match majority(rows) {
        Some(h) => linked(rows, h, i),
        None => false,
    }
}

/// `acc`, and behind it each of `values` that is not there yet.
pub open spec fn merged(acc: Seq<Seq<char>>, values: Seq<Seq<char>>) -> Seq<Seq<char>>
    decreases values.len(),
{
    if values.len() == 0 {
        acc
    } else {
        let m = merged(acc, values.drop_last());
        if m.contains(values.last()) {
            m
        } else {
            m.push(values.last())
        }
    }
}

/// The records of the largest group among the first `n` rows, each once, as
/// they first occur.
pub open spec fn majority_records(rows: Seq<RowState>, n: int) -> Seq<Seq<char>>
    decreases n,
{
    if n <= 0 {
        seq![]
    } else if in_majority(rows, n - 1) {
        merged(majority_records(rows, n - 1), row_values(rows[n - 1]))
    } else {
        majority_records(rows, n - 1)
    }
}

/// The tallies of a table.
pub open spec fn summary_of(rows: Seq<RowState>) -> SummaryView {
    let n = rows.len() as int;
    SummaryView {
        ok: count(|i: int| has_records(rows[i]), n),
        responding: count(|i: int| responded(rows[i]), n),
        errors: count(|i: int| failed(rows[i]), n),
        groups: count(|i: int| is_head(rows, i), n),
        agree: match majority(rows) {
            Some(h) => group_size(rows, h),
            None => 0,
        },
        majority_rows: Seq::new(rows.len(), |i: int| in_majority(rows, i)),
        majority_values: majority_records(rows, n),
    }
}

/// A row with records belongs to its own group.
pub proof fn lemma_linked_to_itself(rows: Seq<RowState>, i: int)
    requires
        answered(rows, i),
    ensures
        linked(rows, i, i),
{
    assert(is_path(rows, seq![i]));
}

/// Only rows with records belong to a group.
pub proof fn lemma_linked_answered(rows: Seq<RowState>, i: int, j: int)
    requires
        linked(rows, i, j),
    ensures
        answered(rows, i),
        answered(rows, j),
{
    let path = choose|path: Seq<int>| #[trigger]
        is_path(rows, path) && path[0] == i && path[path.len() - 1] == j;
    assert(answered(rows, path[0]));
    assert(answered(rows, path[path.len() - 1]));
}

/// Sharing a record with a member of a group makes a row a member.
pub proof fn lemma_linked_extends(rows: Seq<RowState>, i: int, j: int, k: int)
    requires
        linked(rows, i, j),
        0 <= k < rows.len(),
        share(rows[j], rows[k]),
    ensures
        linked(rows, i, k),
{
    let path = choose|path: Seq<int>| #[trigger]
        is_path(rows, path) && path[0] == i && path[path.len() - 1] == j;
    let longer = path.push(k);
    assert forall|x: int| 0 <= x < longer.len() - 1 implies #[trigger] step(rows, longer, x) by {
        if x < path.len() - 1 {
            assert(step(rows, path, x));
        }
    }
    assert(is_path(rows, longer));
}

/// Belonging together goes both ways.
pub proof fn lemma_linked_symmetric(rows: Seq<RowState>, i: int, j: int)
    requires
        linked(rows, i, j),
    ensures
        linked(rows, j, i),
{
    let path = choose|path: Seq<int>| #[trigger]
        is_path(rows, path) && path[0] == i && path[path.len() - 1] == j;
    let back = path.reverse();
    assert forall|x: int| 0 <= x < back.len() - 1 implies #[trigger] step(rows, back, x) by {
        assert(step(rows, path, path.len() - 2 - x));
        lemma_share_symmetric(rows[back[x + 1]], rows[back[x]]);
    }
    assert(is_path(rows, back));
}

proof fn lemma_share_symmetric(a: RowState, b: RowState)
    requires
        share(a, b),
    ensures
        share(b, a),
{
    let v = choose|v: Seq<char>| #[trigger]
        row_values(a).contains(v) && row_values(b).contains(v);
    assert(row_values(b).contains(v));
}

/// What belongs to a member belongs to the group.
pub proof fn lemma_linked_transitive(rows: Seq<RowState>, i: int, j: int, k: int)
    requires
        linked(rows, i, j),
        linked(rows, j, k),
    ensures
        linked(rows, i, k),
{
    let path = choose|path: Seq<int>| #[trigger]
        is_path(rows, path) && path[0] == j && path[path.len() - 1] == k;
    lemma_linked_along(rows, i, path, path.len() - 1);
}

proof fn lemma_linked_along(rows: Seq<RowState>, i: int, path: Seq<int>, n: int)
    requires
        is_path(rows, path),
        linked(rows, i, path[0]),
        0 <= n < path.len(),
    ensures
        linked(rows, i, path[n]),
    decreases n,
{
    if n > 0 {
        lemma_linked_along(rows, i, path, n - 1);
        assert(step(rows, path, n - 1));
        assert(answered(rows, path[n]));
        lemma_linked_extends(rows, i, path[n - 1], path[n]);
    }
}

/// A set of rows that holds `i`, and with a row all that share a record with
/// it, holds the whole group of `i`.
proof fn lemma_closed_set(rows: Seq<RowState>, set: spec_fn(int) -> bool, i: int, j: int)
    requires
        linked(rows, i, j),
        set(i),
        forall|a: int, b: int|
            #![trigger share(rows[a], rows[b])]
            set(a) && 0 <= b < rows.len() && share(rows[a], rows[b]) ==> set(b),
    ensures
        set(j),
{
    let path = choose|path: Seq<int>| #[trigger]
        is_path(rows, path) && path[0] == i && path[path.len() - 1] == j;
    lemma_closed_along(rows, set, path, path.len() - 1);
}

proof fn lemma_closed_along(rows: Seq<RowState>, set: spec_fn(int) -> bool, path: Seq<int>, n: int)
    requires
        is_path(rows, path),
        set(path[0]),
        forall|a: int, b: int|
            #![trigger share(rows[a], rows[b])]
            set(a) && 0 <= b < rows.len() && share(rows[a], rows[b]) ==> set(b),
        0 <= n < path.len(),
    ensures
        set(path[n]),
    decreases n,
{
    if n > 0 {
        lemma_closed_along(rows, set, path, n - 1);
        assert(step(rows, path, n - 1));
        assert(answered(rows, path[n]));
        assert(share(rows[path[n - 1]], rows[path[n]]));
    }
}

/// Counting what implies something counts no more.
proof fn lemma_count_le(p: spec_fn(int) -> bool, q: spec_fn(int) -> bool, n: int)
    requires
        forall|i: int| 0 <= i < n && #[trigger] p(i) ==> q(i),
    ensures
        count(p, n) <= count(q, n),
    decreases n,
{
    if n > 0 {
        lemma_count_le(p, q, n - 1);
    }
}

/// Counting fewer when one number is left out.
proof fn lemma_count_lt(p: spec_fn(int) -> bool, q: spec_fn(int) -> bool, n: int, k: int)
    requires
        forall|i: int| 0 <= i < n && #[trigger] p(i) ==> q(i),
        0 <= k < n,
        !p(k),
        q(k),
    ensures
        count(p, n) < count(q, n),
    decreases n,
{
    if k == n - 1 {
        lemma_count_le(p, q, n - 1);
    } else {
        lemma_count_lt(p, q, n - 1, k);
    }
}

/// Equal predicates count the same.
proof fn lemma_count_eq(p: spec_fn(int) -> bool, q: spec_fn(int) -> bool, n: int)
    requires
        forall|i: int| 0 <= i < n ==> #[trigger] p(i) == q(i),
    ensures
        count(p, n) == count(q, n),
    decreases n,
{
    if n > 0 {
        lemma_count_eq(p, q, n - 1);
    }
}

/// Whether two answers have a record in common.
fn shares(a: &RowState, b: &RowState) -> (r: bool)
    ensures
        r == share(*a, *b),
{
    match (a, b) {
        (
            RowState::Done { result: QueryResult::Records { values: va, .. }, .. },
            RowState::Done { result: QueryResult::Records { values: vb, .. }, .. },
        ) => {
            for i in 0..va.len()
                invariant
                    row_values(*a) == texts(va@),
                    row_values(*b) == texts(vb@),
                    has_records(*a),
                    has_records(*b),
                    forall|x: int, y: int|
                        0 <= x < i && 0 <= y < vb@.len() ==> (#[trigger] va@[x])@ != (
                        #[trigger] vb@[y])@,
            {
                for j in 0..vb.len()
                    invariant
                        i < va@.len(),
                        forall|x: int, y: int|
                            0 <= x < i && 0 <= y < vb@.len() ==> (#[trigger] va@[x])@ != (
                            #[trigger] vb@[y])@,
                        forall|y: int| 0 <= y < j ==> va@[i as int]@ != (#[trigger] vb@[y])@,
                        row_values(*a) == texts(va@),
                        row_values(*b) == texts(vb@),
                        has_records(*a),
                        has_records(*b),
                {
                    if va[i] == vb[j] {
                        proof {
                            let v = va@[i as int]@;
                            assert(texts(va@)[i as int] == v);
                            assert(texts(vb@)[j as int] == v);
                            assert(row_values(*a).contains(v));
                        }
                        return true;
                    }
                }
            }
            proof {
                if share(*a, *b) {
                    let v = choose|v: Seq<char>| #[trigger]
                        row_values(*a).contains(v) && row_values(*b).contains(v);
                    let x = choose|x: int|
                        0 <= x < texts(va@).len() && texts(va@)[x] == v;
                    let y = choose|y: int|
                        0 <= y < texts(vb@).len() && texts(vb@)[y] == v;
                    assert(va@[x]@ == vb@[y]@);
                }
            }
            false
        },
        _ => false,
    }
}

/// A row outside every group that shares a record with the group of `h`.
fn find_member(rows: &[RowState], labels: &Vec<Option<usize>>, h: usize) -> (r: Option<usize>)
    requires
        labels@.len() == rows@.len(),
    ensures
        match r {
            Some(j) => {
                &&& j < rows@.len()
                &&& labels@[j as int] is None
                &&& exists|i: int|
                    0 <= i < rows@.len() && labels@[i] == Some(h) && #[trigger] share(
                        rows@[i],
                        rows@[j as int],
                    )
            },
            None => forall|i: int, j: int|
                0 <= i < rows@.len() && 0 <= j < rows@.len() && labels@[i] == Some(h)
                    && labels@[j] is None ==> !#[trigger] share(rows@[i], rows@[j]),
        },
{
    for i in 0..rows.len()
        invariant
            labels@.len() == rows@.len(),
            forall|x: int, y: int|
                0 <= x < i && 0 <= y < rows@.len() && labels@[x] == Some(h) && labels@[y] is None
                    ==> !#[trigger] share(rows@[x], rows@[y]),
    {
        let member = match labels[i] {
            Some(l) => l == h,
            None => false,
        };
        if member {
            for j in 0..rows.len()
                invariant
                    i < rows@.len(),
                    labels@.len() == rows@.len(),
                    labels@[i as int] == Some(h),
                    forall|x: int, y: int|
                        0 <= x < i && 0 <= y < rows@.len() && labels@[x] == Some(h)
                            && labels@[y] is None ==> !#[trigger] share(rows@[x], rows@[y]),
                    forall|y: int|
                        0 <= y < j && labels@[y] is None ==> !#[trigger] share(
                            rows@[i as int],
                            rows@[y],
                        ),
            {
                if labels[j].is_none() && shares(&rows[i], &rows[j]) {
                    return Some(j);
                }
            }
        }
    }
    None
}

/// Labels the group of `h` with `h`.
fn label_group(rows: &[RowState], labels: &mut Vec<Option<usize>>, h: usize)
    requires
        old(labels)@.len() == rows@.len(),
        answered(rows@, h as int),
        forall|j: int| #[trigger] linked(rows@, h as int, j) ==> old(labels)@[j] is None,
        forall|j: int| 0 <= j < rows@.len() ==> #[trigger] old(labels)@[j] != Some(h),
    ensures
        final(labels)@ == Seq::new(
            rows@.len(),
            |j: int|
                if linked(rows@, h as int, j) {
                    Some(h)
                } else {
                    old(labels)@[j]
                },
        ),
{
    let ghost before = labels@;
    proof {
        lemma_linked_to_itself(rows@, h as int);
    }
    labels.set(h, Some(h));
    let mut next = find_member(rows, labels, h);
    while next.is_some()
        invariant
            labels@.len() == rows@.len() == before.len(),
            h < rows@.len(),
            labels@[h as int] == Some(h),
            forall|j: int| 0 <= j < rows@.len() ==> (#[trigger] labels@[j] == before[j] || (linked(
                rows@,
                h as int,
                j,
            ) && labels@[j] == Some(h))),
            forall|j: int| 0 <= j < rows@.len() ==> #[trigger] before[j] != Some(h),
            match next {
                Some(j) => {
                    &&& j < rows@.len()
                    &&& labels@[j as int] is None
                    &&& exists|i: int|
                        0 <= i < rows@.len() && labels@[i] == Some(h) && #[trigger] share(
                            rows@[i],
                            rows@[j as int],
                        )
                },
                None => forall|i: int, j: int|
                    0 <= i < rows@.len() && 0 <= j < rows@.len() && labels@[i] == Some(h)
                        && labels@[j] is None ==> !#[trigger] share(rows@[i], rows@[j]),
            },
        decreases count(|j: int| labels@[j] is None, rows@.len() as int),
    {
        let j: usize = next.unwrap();
        let ghost old_labels = labels@;
        proof {
            let i = choose|i: int|
                0 <= i < rows@.len() && labels@[i] == Some(h) && #[trigger] share(
                    rows@[i],
                    rows@[j as int],
                );
            assert(linked(rows@, h as int, i));
            lemma_linked_extends(rows@, h as int, i, j as int);
        }
        labels.set(j, Some(h));
        proof {
            lemma_count_lt(
                |x: int| labels@[x] is None,
                |x: int| old_labels[x] is None,
                rows@.len() as int,
                j as int,
            );
        }
        next = find_member(rows, labels, h);
    }
    proof {
        let set = |j: int| 0 <= j < rows@.len() && labels@[j] == Some(h);
        assert forall|a: int, b: int|
            #![trigger share(rows@[a], rows@[b])]
            set(a) && 0 <= b < rows@.len() && share(rows@[a], rows@[b]) implies set(b) by {
            lemma_linked_extends(rows@, h as int, a, b);
        }
        assert forall|j: int| #[trigger] linked(rows@, h as int, j) implies set(j) by {
            lemma_linked_answered(rows@, h as int, j);
            lemma_closed_set(rows@, set, h as int, j);
        }
    }
}

/// Every row with records carries the head of its group.
pub open spec fn labelled(rows: Seq<RowState>, labels: Seq<Option<usize>>) -> bool {
    &&& labels.len() == rows.len()
    &&& forall|i: int|
        #![trigger labels[i]]
        0 <= i < rows.len() ==> match labels[i] {
            Some(h) => is_head(rows, h as int) && linked(rows, h as int, i),
            None => !has_records(rows[i]),
        }
}

/// Whether the resolver returned records.
pub(crate) fn row_has_records(row: &RowState) -> (r: bool)
    ensures
        r == has_records(*row),
{
    match row {
        RowState::Done { result: QueryResult::Records { .. }, .. } => true,
        _ => false,
    }
}

/// Finds the group of every row.
fn label_rows(rows: &[RowState]) -> (labels: Vec<Option<usize>>)
    ensures
        labelled(rows@, labels@),
{
    let n: usize = rows.len();
    let mut labels: Vec<Option<usize>> = Vec::new();
    for i in 0..n
        invariant
            labels@ == Seq::new(i as nat, |j: int| None::<usize>),
    {
        labels.push(None);
        assert(labels@ =~= Seq::new((i + 1) as nat, |j: int| None::<usize>));
    }
    for h in 0..n
        invariant
            n == rows@.len() == labels@.len(),
            forall|i: int|
                #![trigger labels@[i]]
                0 <= i < n ==> match labels@[i] {
                    Some(l) => l < h && is_head(rows@, l as int) && linked(rows@, l as int, i),
                    None => apart(rows@, h as int, i),
                },
    {
        let ghost before = labels@;
        if row_has_records(&rows[h]) && labels[h].is_none() {
            proof {
                assert(is_head(rows@, h as int));
                assert forall|j: int| #[trigger] linked(rows@, h as int, j) implies labels@[j]
                    is None by {
                    lemma_linked_answered(rows@, h as int, j);
                    if labels@[j] is Some {
                        let l = labels@[j]->0 as int;
                        lemma_linked_symmetric(rows@, h as int, j);
                        lemma_linked_transitive(rows@, l, j, h as int);
                    }
                }
            }
            label_group(rows, &mut labels, h);
        } else {
            proof {
                assert forall|i: int| 0 <= i < n && labels@[i] is None implies !#[trigger] linked(
                    rows@,
                    h as int,
                    i,
                ) by {
                    if linked(rows@, h as int, i) {
                        lemma_linked_answered(rows@, h as int, i);
                        let l = labels@[h as int]->0 as int;
                        lemma_linked_transitive(rows@, l, h as int, i);
                    }
                }
            }
        }
    }
    proof {
        assert forall|i: int| 0 <= i < n && labels@[i] is None implies !has_records(rows@[i]) by {
            if has_records(rows@[i]) {
                lemma_linked_to_itself(rows@, i);
            }
        }
    }
    labels
}

/// Heads of one group are one.
proof fn lemma_head_unique(rows: Seq<RowState>, g: int, h: int, i: int)
    requires
        is_head(rows, g),
        is_head(rows, h),
        linked(rows, g, i),
        linked(rows, h, i),
    ensures
        g == h,
{
    lemma_linked_symmetric(rows, g, i);
    lemma_linked_transitive(rows, h, i, g);
    lemma_linked_symmetric(rows, h, i);
    lemma_linked_transitive(rows, g, i, h);
}

/// A row carries the head of its group, and no other row's label is that head.
proof fn lemma_label_is_head(rows: Seq<RowState>, labels: Seq<Option<usize>>, h: int, i: int)
    requires
        labelled(rows, labels),
        is_head(rows, h),
        0 <= i < rows.len(),
    ensures
        linked(rows, h, i) <==> (labels[i] matches Some(l) && l == h),
{
    if linked(rows, h, i) {
        lemma_linked_answered(rows, h, i);
        assert(labels[i] is Some);
        lemma_head_unique(rows, labels[i]->0 as int, h, i);
    }
}

/// Whether a label is `h`.
fn has_label(label: Option<usize>, h: usize) -> (r: bool)
    ensures
        r == (label == Some(h)),
{
    match label {
        Some(l) => l == h,
        None => false,
    }
}

/// How many rows belong to the group of `h`.
fn size_of_group(rows: &[RowState], labels: &Vec<Option<usize>>, h: usize) -> (r: usize)
    requires
        labelled(rows@, labels@),
        is_head(rows@, h as int),
    ensures
        r == group_size(rows@, h as int),
        r <= rows@.len(),
{
    let mut size: usize = 0;
    for i in 0..rows.len()
        invariant
            labelled(rows@, labels@),
            is_head(rows@, h as int),
            size == count(|j: int| linked(rows@, h as int, j), i as int),
            size <= i,
    {
        proof {
            lemma_label_is_head(rows@, labels@, h as int, i as int);
        }
        if has_label(labels[i], h) {
            size += 1;
        }
    }
    size
}

/// The head of the largest group and its size.
fn find_majority(rows: &[RowState], labels: &Vec<Option<usize>>) -> (r: Option<(usize, usize)>)
    requires
        labelled(rows@, labels@),
    ensures
        match r {
            Some((h, size)) => {
                &&& is_majority(rows@, h as int)
                &&& size == group_size(rows@, h as int)
            },
            None => forall|h: int| !#[trigger] is_head(rows@, h),
        },
{
    let mut best: Option<(usize, usize)> = None;
    for i in 0..rows.len()
        invariant
            labelled(rows@, labels@),
            match best {
                Some((h, size)) => {
                    &&& h < i
                    &&& is_head(rows@, h as int)
                    &&& size == group_size(rows@, h as int)
                    &&& forall|g: int|
                        g < i && #[trigger] is_head(rows@, g) ==> group_size(rows@, g) < size || (
                        group_size(rows@, g) == size && h <= g)
                },
                None => forall|g: int| g < i ==> !#[trigger] is_head(rows@, g),
            },
    {
        if has_label(labels[i], i) {
            let size: usize = size_of_group(rows, labels, i);
            let better = match best {
                Some((_, other)) => size > other,
                None => true,
            };
            if better {
                best = Some((i, size));
            }
        } else {
            proof {
                if is_head(rows@, i as int) {
                    lemma_linked_to_itself(rows@, i as int);
                    lemma_label_is_head(rows@, labels@, i as int, i as int);
                }
            }
        }
    }
    best
}

/// There is one largest group at most.
proof fn lemma_majority_is(rows: Seq<RowState>, h: int)
    requires
        is_majority(rows, h),
    ensures
        majority(rows) == Some(h),
{
    let g = choose|g: int| is_majority(rows, g);
    assert(is_head(rows, g));
    assert(is_head(rows, h));
}

/// Appends a value unless it is there already.
fn push_new(values: &mut Vec<String>, value: &String)
    ensures
        texts(final(values)@) == if texts(old(values)@).contains(value@) {
            texts(old(values)@)
        } else {
            texts(old(values)@).push(value@)
        },
{
    for i in 0..values.len()
        invariant
            forall|j: int| 0 <= j < i ==> (#[trigger] values@[j])@ != value@,
            values@ == old(values)@,
    {
        if values[i] == *value {
            assert(texts(values@)[i as int] == value@);
            return ;
        }
    }
    proof {
        if texts(values@).contains(value@) {
            let j = choose|j: int| 0 <= j < texts(values@).len() && texts(values@)[j] == value@;
            assert(values@[j]@ == value@);
        }
    }
    values.push(value.clone());
    assert(texts(values@) =~= texts(old(values)@).push(value@));
}

/// Appends each value that is not there already.
fn push_all_new(acc: &mut Vec<String>, values: &Vec<String>)
    ensures
        texts(final(acc)@) == merged(texts(old(acc)@), texts(values@)),
{
    let ghost start = texts(acc@);
    let ghost all = texts(values@);
    for i in 0..values.len()
        invariant
            all == texts(values@),
            texts(acc@) == merged(start, all.take(i as int)),
    {
        push_new(acc, &values[i]);
        assert(all.take(i + 1).drop_last() =~= all.take(i as int));
        assert(all.take(i + 1).last() == values@[i as int]@);
    }
    assert(all.take(all.len() as int) =~= all);
}

/// Tallies a table.
pub fn summarize(rows: &[RowState]) -> (r: Summary)
    ensures
        r@ == summary_of(rows@),
        r.majority_rows@.len() == rows@.len(),
        forall|i: int, j: int, x: int, y: int|
            0 <= i < rows@.len() && 0 <= j < rows@.len() && #[trigger] same_value(
                rows@[i],
                rows@[j],
                x,
                y,
            ) ==> r.majority_rows@[i] == r.majority_rows@[j],
{
    proof {
        assert forall|i: int, j: int, x: int, y: int|
            0 <= i < rows@.len() && 0 <= j < rows@.len() && #[trigger] same_value(
                rows@[i],
                rows@[j],
                x,
                y,
            ) implies in_majority(rows@, i) == in_majority(rows@, j) by {
            lemma_share_is_meet(rows@[i], rows@[j]);
            law_sharing_answers_are_grouped(rows@, i, j);
        }
    }
    let labels = label_rows(rows);
    let best = find_majority(rows, &labels);
    proof {
        match best {
            Some((h, _)) => lemma_majority_is(rows@, h as int),
            None => {
                assert(majority(rows@) is None);
            },
        }
    }
    let mut ok: usize = 0;
    let mut responding: usize = 0;
    let mut errors: usize = 0;
    let mut groups: usize = 0;
    let mut majority_rows: Vec<bool> = Vec::new();
    let mut majority_values: Vec<String> = Vec::new();
    assert(texts(majority_values@) =~= seq![]);
    for i in 0..rows.len()
        invariant
            labelled(rows@, labels@),
            match best {
                Some((h, _)) => is_head(rows@, h as int) && majority(rows@) == Some(h as int),
                None => majority(rows@) is None,
            },
            ok <= i,
            responding <= i,
            errors <= i,
            groups <= i,
            ok == count(|j: int| has_records(rows@[j]), i as int),
            responding == count(|j: int| responded(rows@[j]), i as int),
            errors == count(|j: int| failed(rows@[j]), i as int),
            groups == count(|j: int| is_head(rows@, j), i as int),
            majority_rows@ == Seq::new(i as nat, |j: int| in_majority(rows@, j)),
            texts(majority_values@) == majority_records(rows@, i as int),
    {
        let inside = match best {
            Some((h, _)) => {
                proof {
                    lemma_label_is_head(rows@, labels@, h as int, i as int);
                }
                has_label(labels[i], h)
            },
            None => false,
        };
        proof {
            if is_head(rows@, i as int) {
                lemma_linked_to_itself(rows@, i as int);
                lemma_label_is_head(rows@, labels@, i as int, i as int);
            }
            if inside {
                let h = majority(rows@)->0;
                lemma_linked_answered(rows@, h, i as int);
            }
        }
        if has_label(labels[i], i) {
            groups += 1;
        }
        if let RowState::Done { result, .. } = &rows[i] {
            match result {
                QueryResult::Records { values, .. } => {
                    ok += 1;
                    responding += 1;
                    if inside {
                        push_all_new(&mut majority_values, values);
                    }
                },
                QueryResult::NoRecords(_) => {
                    responding += 1;
                },
                QueryResult::Error(_) => {
                    errors += 1;
                },
            }
        }
        majority_rows.push(inside);
        assert(majority_rows@ =~= Seq::new((i + 1) as nat, |j: int| in_majority(rows@, j)));
    }
    let agree: usize = match best {
        Some((_, size)) => size,
        None => 0,
    };
    Summary { ok, responding, errors, groups, agree, majority_rows, majority_values }
}

impl App {
    /// Tallies the table.
    pub fn summary(&self) -> (r: Summary)
        ensures
            r@ == summary_of(self@.rows),
    {
        summarize(self.rows.as_slice())
    }
}

/// Every row with records belongs to the group of some head.
proof fn lemma_head_exists(rows: Seq<RowState>, i: int) -> (h: int)
    requires
        answered(rows, i),
    ensures
        is_head(rows, h),
        linked(rows, h, i),
    decreases i,
{
    lemma_linked_to_itself(rows, i);
    if is_head(rows, i) {
        i
    } else {
        let l = choose|l: int| 0 <= l < i && #[trigger] linked(rows, l, i);
        lemma_linked_answered(rows, l, i);
        let h = lemma_head_exists(rows, l);
        lemma_linked_transitive(rows, h, l, i);
        h
    }
}

/// Among heads below `n` one heads the largest group.
proof fn lemma_best_below(rows: Seq<RowState>, n: int, head: int) -> (best: int)
    requires
        0 <= head < n,
        is_head(rows, head),
    ensures
        best < n,
        is_head(rows, best),
        forall|g: int|
            g < n && #[trigger] is_head(rows, g) ==> group_size(rows, g) < group_size(rows, best)
                || (group_size(rows, g) == group_size(rows, best) && best <= g),
    decreases n,
{
    if exists|g: int| 0 <= g < n - 1 && #[trigger] is_head(rows, g) {
        let g = choose|g: int| 0 <= g < n - 1 && #[trigger] is_head(rows, g);
        let b = lemma_best_below(rows, n - 1, g);
        if is_head(rows, n - 1) && group_size(rows, n - 1) > group_size(rows, b) {
            n - 1
        } else {
            b
        }
    } else {
        head
    }
}

/// As soon as one resolver returns records there is a largest group.
proof fn lemma_majority_exists(rows: Seq<RowState>, i: int) -> (h: int)
    requires
        answered(rows, i),
    ensures
        majority(rows) == Some(h),
        is_majority(rows, h),
{
    let g = lemma_head_exists(rows, i);
    let h = lemma_best_below(rows, rows.len() as int, g);
    assert(is_majority(rows, h));
    lemma_majority_is(rows, h);
    h
}

/// The largest group is headed by a row with records.
proof fn lemma_majority_answered(rows: Seq<RowState>)
    requires
        majority(rows) is Some,
    ensures
        is_majority(rows, majority(rows)->0),
        answered(rows, majority(rows)->0),
{
}

/// Answers that share any record are grouped together: they are in one group,
/// and both in the largest or neither.
pub proof fn law_sharing_answers_are_grouped(rows: Seq<RowState>, i: int, j: int)
    requires
        0 <= i < rows.len(),
        0 <= j < rows.len(),
        share(rows[i], rows[j]),
    ensures
        linked(rows, i, j),
        in_majority(rows, i) == in_majority(rows, j),
{
    lemma_linked_to_itself(rows, i);
    lemma_linked_extends(rows, i, i, j);
    lemma_linked_symmetric(rows, i, j);
    if majority(rows) is Some {
        let h = majority(rows)->0;
        if linked(rows, h, i) {
            lemma_linked_transitive(rows, h, i, j);
        }
        if linked(rows, h, j) {
            lemma_linked_transitive(rows, h, j, i);
        }
    }
}

/// Belonging together is an equivalence of the rows with records, so that the
/// groups part them.
pub proof fn law_groups_part_the_answers(rows: Seq<RowState>, i: int, j: int, k: int)
    requires
        answered(rows, i),
    ensures
        linked(rows, i, i),
        linked(rows, i, j) ==> linked(rows, j, i),
        linked(rows, i, j) && linked(rows, j, k) ==> linked(rows, i, k),
        exists|h: int|
            #![trigger is_head(rows, h)]
            is_head(rows, h) && linked(rows, h, i) && forall|g: int|
                #![trigger is_head(rows, g)]
                is_head(rows, g) && linked(rows, g, i) ==> g == h,
{
    lemma_linked_to_itself(rows, i);
    if linked(rows, i, j) {
        lemma_linked_symmetric(rows, i, j);
        if linked(rows, j, k) {
            lemma_linked_transitive(rows, i, j, k);
        }
    }
    let h = lemma_head_exists(rows, i);
    assert forall|g: int|
        #![trigger is_head(rows, g)]
        is_head(rows, g) && linked(rows, g, i) implies g == h by {
        lemma_head_unique(rows, g, h, i);
    }
}

/// Members of one group see groups of one size.
proof fn lemma_group_size_same(rows: Seq<RowState>, i: int, j: int)
    requires
        linked(rows, i, j),
    ensures
        group_size(rows, i) == group_size(rows, j),
{
    lemma_linked_symmetric(rows, i, j);
    assert forall|k: int| 0 <= k < rows.len() implies linked(rows, i, k) == linked(rows, j, k) by {
        if linked(rows, i, k) {
            lemma_linked_transitive(rows, j, i, k);
        }
        if linked(rows, j, k) {
            lemma_linked_transitive(rows, i, j, k);
        }
    }
    lemma_count_eq(
        |k: int| linked(rows, i, k),
        |k: int| linked(rows, j, k),
        rows.len() as int,
    );
}

/// No group is larger than the one that the summary calls the majority.
pub proof fn law_majority_is_largest(rows: Seq<RowState>, i: int)
    requires
        answered(rows, i),
    ensures
        group_size(rows, i) <= summary_of(rows).agree,
{
    let h = lemma_majority_exists(rows, i);
    let g = lemma_head_exists(rows, i);
    lemma_group_size_same(rows, g, i);
}

/// The tallies fit together: those who agree returned records, those who
/// returned records responded, no row both responded and failed, and there is
/// a group, and a largest one, exactly when some resolver returned records.
pub proof fn law_tallies_fit(rows: Seq<RowState>)
    ensures
        summary_of(rows).agree <= summary_of(rows).ok <= summary_of(rows).responding,
        summary_of(rows).responding + summary_of(rows).errors <= rows.len(),
        summary_of(rows).groups <= summary_of(rows).ok,
        summary_of(rows).ok > 0 <==> summary_of(rows).agree > 0,
        summary_of(rows).ok > 0 <==> summary_of(rows).groups > 0,
{
    let n = rows.len() as int;
    let ok = |i: int| has_records(rows[i]);
    lemma_count_le(ok, |i: int| responded(rows[i]), n);
    lemma_count_le(|i: int| is_head(rows, i), ok, n);
    lemma_count_disjoint(|i: int| responded(rows[i]), |i: int| failed(rows[i]), n);
    if majority(rows) is Some {
        let h = majority(rows)->0;
        lemma_majority_answered(rows);
        assert forall|j: int| 0 <= j < n && #[trigger] linked(rows, h, j) implies has_records(
            rows[j],
        ) by {
            lemma_linked_answered(rows, h, j);
        }
        lemma_count_le(|j: int| linked(rows, h, j), ok, n);
        lemma_linked_to_itself(rows, h);
        lemma_count_positive(|j: int| linked(rows, h, j), n, h);
    }
    if count(ok, n) > 0 {
        let i = lemma_count_witness(ok, n);
        let h = lemma_majority_exists(rows, i);
        lemma_count_positive(|i: int| is_head(rows, i), n, h);
    }
}

/// The watch ends exactly when some resolver returned records and every one
/// that responds is in the largest group.
pub proof fn law_unanimous_means_all_agree(rows: Seq<RowState>)
    ensures
        summary_of(rows).responding > 0 && summary_of(rows).agree == summary_of(rows).responding
            <==> (exists|i: int| #[trigger] answered(rows, i)) && (forall|i: int|
            0 <= i < rows.len() && responded(#[trigger] rows[i]) ==> in_majority(rows, i)),
{
    let n = rows.len() as int;
    let responding = |i: int| responded(rows[i]);
    law_tallies_fit(rows);
    if exists|i: int| #[trigger] answered(rows, i) {
        let i = choose|i: int| #[trigger] answered(rows, i);
        let h = lemma_majority_exists(rows, i);
        let group = |j: int| linked(rows, h, j);
        assert forall|j: int| 0 <= j < n && #[trigger] group(j) implies responding(j) by {
            lemma_linked_answered(rows, h, j);
        }
        lemma_count_positive(responding, n, i);
        if summary_of(rows).agree == summary_of(rows).responding {
            assert forall|j: int| 0 <= j < n && responded(#[trigger] rows[j]) implies in_majority(
                rows,
                j,
            ) by {
                if !group(j) {
                    lemma_count_lt(group, responding, n, j);
                }
            }
        }
        if forall|j: int|
            0 <= j < n && responded(#[trigger] rows[j]) ==> in_majority(rows, j) {
            lemma_count_eq(group, responding, n);
        }
    } else {
        if summary_of(rows).ok > 0 {
            let i = lemma_count_witness(|i: int| has_records(rows[i]), n);
            assert(answered(rows, i));
        }
    }
}

/// Resolvers that each hold a part of one pool count as one consistent answer:
/// where chains of shared records connect all answers, there is one group and
/// every answer is in it.
pub proof fn law_connected_answers_are_one_group(rows: Seq<RowState>)
    requires
        exists|i: int| #[trigger] answered(rows, i),
        forall|i: int, j: int| answered(rows, i) && answered(rows, j) ==> #[trigger] linked(rows, i, j),
    ensures
        summary_of(rows).groups == 1,
        summary_of(rows).agree == summary_of(rows).ok,
        forall|i: int| 0 <= i < rows.len() ==> in_majority(rows, i) == has_records(#[trigger] rows[i]),
{
    let n = rows.len() as int;
    let i = choose|i: int| #[trigger] answered(rows, i);
    let h = lemma_majority_exists(rows, i);
    assert forall|j: int| 0 <= j < n implies linked(rows, h, j) == has_records(#[trigger] rows[j]) by {
        if linked(rows, h, j) {
            lemma_linked_answered(rows, h, j);
        }
        if has_records(rows[j]) {
            assert(answered(rows, j));
        }
    }
    lemma_count_eq(|j: int| linked(rows, h, j), |j: int| has_records(rows[j]), n);
    assert forall|j: int| 0 <= j < n && #[trigger] is_head(rows, j) implies j == h by {
        lemma_linked_to_itself(rows, j);
        lemma_head_unique(rows, j, h, j);
    }
    lemma_count_one(|j: int| is_head(rows, j), n, h);
}

/// The records of the largest group: each once, and exactly those that some
/// resolver of the group returned.
pub proof fn law_majority_values(rows: Seq<RowState>, v: Seq<char>)
    ensures
        summary_of(rows).majority_values.no_duplicates(),
        summary_of(rows).majority_values.contains(v) <==> exists|i: int|
            0 <= i < rows.len() && in_majority(rows, i) && row_values(#[trigger] rows[i]).contains(v),
{
    lemma_majority_records(rows, rows.len() as int, v);
}

proof fn lemma_majority_records(rows: Seq<RowState>, n: int, v: Seq<char>)
    requires
        n <= rows.len(),
    ensures
        majority_records(rows, n).no_duplicates(),
        majority_records(rows, n).contains(v) <==> exists|i: int|
            0 <= i < n && in_majority(rows, i) && row_values(#[trigger] rows[i]).contains(v),
    decreases n,
{
    if n > 0 {
        lemma_majority_records(rows, n - 1, v);
        let before = majority_records(rows, n - 1);
        lemma_merged(before, row_values(rows[n - 1]), v);
        if exists|i: int|
            0 <= i < n && in_majority(rows, i) && row_values(#[trigger] rows[i]).contains(v) {
            let i = choose|i: int|
                0 <= i < n && in_majority(rows, i) && row_values(#[trigger] rows[i]).contains(v);
            if i < n - 1 {
                assert(before.contains(v));
            }
        }
    }
}

proof fn lemma_merged(acc: Seq<Seq<char>>, values: Seq<Seq<char>>, v: Seq<char>)
    requires
        acc.no_duplicates(),
    ensures
        merged(acc, values).no_duplicates(),
        merged(acc, values).contains(v) <==> acc.contains(v) || values.contains(v),
    decreases values.len(),
{
    if values.len() > 0 {
        let last = values.last();
        let front = values.drop_last();
        lemma_merged(acc, front, v);
        let m = merged(acc, front);
        assert(values =~= front.push(last));
        if values.contains(v) && v != last {
            let i = choose|i: int| 0 <= i < values.len() && values[i] == v;
            assert(front[i] == v);
        }
        if front.contains(v) {
            let i = choose|i: int| 0 <= i < front.len() && front[i] == v;
            assert(values[i] == v);
        }
        assert(values[values.len() - 1] == last);
        if !m.contains(last) {
            let p = m.push(last);
            assert(p[m.len() as int] == last);
            if m.contains(v) {
                let i = choose|i: int| 0 <= i < m.len() && m[i] == v;
                assert(p[i] == v);
            }
            if p.contains(v) && v != last {
                let i = choose|i: int| 0 <= i < p.len() && p[i] == v;
                assert(m[i] == v);
            }
        }
    }
}

proof fn lemma_count_disjoint(p: spec_fn(int) -> bool, q: spec_fn(int) -> bool, n: int)
    requires
        forall|i: int| 0 <= i < n ==> !(#[trigger] p(i) && q(i)),
    ensures
        count(p, n) + count(q, n) <= if n < 0 {
            0
        } else {
            n
        },
    decreases n,
{
    if n > 0 {
        lemma_count_disjoint(p, q, n - 1);
        assert(!(p(n - 1) && q(n - 1)));
    }
}

proof fn lemma_count_positive(p: spec_fn(int) -> bool, n: int, k: int)
    requires
        0 <= k < n,
        p(k),
    ensures
        count(p, n) > 0,
    decreases n,
{
    if k < n - 1 {
        lemma_count_positive(p, n - 1, k);
    }
}

proof fn lemma_count_witness(p: spec_fn(int) -> bool, n: int) -> (k: int)
    requires
        count(p, n) > 0,
    ensures
        0 <= k < n,
        p(k),
    decreases n,
{
    if p(n - 1) {
        n - 1
    } else {
        lemma_count_witness(p, n - 1)
    }
}

proof fn lemma_count_one(p: spec_fn(int) -> bool, n: int, k: int)
    requires
        0 <= k < n,
        p(k),
        forall|i: int| 0 <= i < n && #[trigger] p(i) ==> i == k,
    ensures
        count(p, n) == 1,
    decreases n,
{
    if k == n - 1 {
        lemma_count_none(p, n - 1);
    } else {
        assert(!p(n - 1));
        lemma_count_one(p, n - 1, k);
    }
}

proof fn lemma_count_none(p: spec_fn(int) -> bool, n: int)
    requires
        forall|i: int| 0 <= i < n ==> !#[trigger] p(i),
    ensures
        count(p, n) == 0,
    decreases n,
{
    if n > 0 {
        assert(!p(n - 1));
        lemma_count_none(p, n - 1);
    }
}

/// Value `x` of answer `a` is value `y` of answer `b`.
pub open spec fn same_value(a: RowState, b: RowState, x: int, y: int) -> bool {
    match (a, b) {
        (
            RowState::Done { result: QueryResult::Records { values: va, .. }, .. },
            RowState::Done { result: QueryResult::Records { values: vb, .. }, .. },
        ) => 0 <= x < va@.len() && 0 <= y < vb@.len() && va@[x]@ == vb@[y]@,
        _ => false,
    }
}

/// Two answers have a value in common.
pub open spec fn meet(a: RowState, b: RowState) -> bool {
    exists|x: int, y: int| same_value(a, b, x, y)
}

/// A list of answered rows, each of which has a value in common with the next.
pub open spec fn is_chain(rows: Seq<RowState>, chain: Seq<int>) -> bool {
    &&& chain.len() > 0
    &&& forall|k: int|
        0 <= k < chain.len() ==> 0 <= #[trigger] chain[k] < rows.len() && (rows[chain[k]] matches RowState::Done {
            result: QueryResult::Records { .. },
            ..
        })
    &&& forall|k: int, l: int|
        0 <= k < chain.len() && l == k + 1 && l < chain.len() ==> meet(
            rows[#[trigger] chain[k]],
            rows[#[trigger] chain[l]],
        )
}

proof fn lemma_share_is_meet(a: RowState, b: RowState)
    ensures
        share(a, b) <==> meet(a, b),
{
    if share(a, b) {
        let v = choose|v: Seq<char>| #[trigger]
            row_values(a).contains(v) && row_values(b).contains(v);
        let x = choose|x: int| 0 <= x < row_values(a).len() && row_values(a)[x] == v;
        let y = choose|y: int| 0 <= y < row_values(b).len() && row_values(b)[y] == v;
        assert(same_value(a, b, x, y));
    }
    if meet(a, b) {
        let (x, y) = choose|x: int, y: int| same_value(a, b, x, y);
        let v = row_values(a)[x];
        assert(row_values(b)[y] == v);
        assert(row_values(a).contains(v));
    }
}

/// Two resolvers that return one value in common agree or differ together,
/// whatever else they return, however long it may be kept and however long it
/// took.
pub proof fn law_common_value_means_common_fate(
    rows: Seq<RowState>,
    i: int,
    j: int,
    x: int,
    y: int,
)
    requires
        0 <= i < rows.len(),
        0 <= j < rows.len(),
        match (rows[i], rows[j]) {
            (
                RowState::Done { result: QueryResult::Records { values: a, .. }, .. },
                RowState::Done { result: QueryResult::Records { values: b, .. }, .. },
            ) => 0 <= x < a@.len() && 0 <= y < b@.len() && a@[x]@ == b@[y]@,
            _ => false,
        },
    ensures
        summary_of(rows).majority_rows[i] == summary_of(rows).majority_rows[j],
{
    assert(same_value(rows[i], rows[j], x, y));
    lemma_share_is_meet(rows[i], rows[j]);
    law_sharing_answers_are_grouped(rows, i, j);
}

/// There is one flag per row, and only resolvers that returned records can be
/// in the majority.
pub proof fn law_only_answers_are_in_the_majority(rows: Seq<RowState>, i: int)
    requires
        0 <= i < rows.len(),
    ensures
        summary_of(rows).majority_rows.len() == rows.len(),
        summary_of(rows).majority_rows[i] ==> (rows[i] matches RowState::Done {
            result: QueryResult::Records { .. },
            ..
        }),
{
    if in_majority(rows, i) {
        lemma_linked_answered(rows, majority(rows)->0, i);
    }
}

/// Only common values hold the majority together: a set of rows that holds
/// with a row all that have a value in common with it, and holds one row of
/// the majority, holds all of it.
pub proof fn law_majority_hangs_together(
    rows: Seq<RowState>,
    set: spec_fn(int) -> bool,
    i: int,
    j: int,
)
    requires
        forall|a: int, b: int, x: int, y: int|
            0 <= a < rows.len() && 0 <= b < rows.len() && set(a) && #[trigger] same_value(
                rows[a],
                rows[b],
                x,
                y,
            ) ==> set(b),
        0 <= i < rows.len(),
        0 <= j < rows.len(),
        summary_of(rows).majority_rows[i],
        summary_of(rows).majority_rows[j],
        set(i),
    ensures
        set(j),
{
    let h = majority(rows)->0;
    let inside = |a: int| 0 <= a < rows.len() && set(a);
    lemma_linked_symmetric(rows, h, i);
    lemma_linked_transitive(rows, i, h, j);
    assert forall|a: int, b: int|
        #![trigger share(rows[a], rows[b])]
        inside(a) && 0 <= b < rows.len() && share(rows[a], rows[b]) implies inside(b) by {
        lemma_share_is_meet(rows[a], rows[b]);
        let (x, y) = choose|x: int, y: int| same_value(rows[a], rows[b], x, y);
        assert(same_value(rows[a], rows[b], x, y));
    }
    lemma_closed_set(rows, inside, i, j);
}

/// A chain leads from its first row to every other.
proof fn lemma_chain_links(rows: Seq<RowState>, chain: Seq<int>, n: int)
    requires
        is_chain(rows, chain),
        0 <= n < chain.len(),
    ensures
        linked(rows, chain[0], chain[n]),
    decreases n,
{
    assert(answered(rows, chain[n]));
    if n == 0 {
        lemma_linked_to_itself(rows, chain[0]);
    } else {
        lemma_chain_links(rows, chain, n - 1);
        lemma_share_is_meet(rows[chain[n - 1]], rows[chain[n]]);
        lemma_linked_extends(rows, chain[0], chain[n - 1], chain[n]);
    }
}

/// A chain of common values leads from each row of the majority to each other.
pub proof fn law_majority_is_chained(rows: Seq<RowState>, i: int, j: int) -> (chain: Seq<int>)
    requires
        0 <= i < rows.len(),
        0 <= j < rows.len(),
        summary_of(rows).majority_rows[i],
        summary_of(rows).majority_rows[j],
    ensures
        is_chain(rows, chain),
        chain[0] == i,
        chain.last() == j,
{
    let h = majority(rows)->0;
    lemma_linked_symmetric(rows, h, i);
    lemma_linked_transitive(rows, i, h, j);
    let path = choose|path: Seq<int>| #[trigger]
        is_path(rows, path) && path[0] == i && path[path.len() - 1] == j;
    assert forall|k: int| 0 <= k < path.len() implies 0 <= #[trigger] path[k] < rows.len()
        && has_records(rows[path[k]]) by {
        assert(answered(rows, path[k]));
    }
    assert forall|k: int, l: int|
        0 <= k < path.len() && l == k + 1 && l < path.len() implies meet(
        rows[#[trigger] path[k]],
        rows[#[trigger] path[l]],
    ) by {
        assert(step(rows, path, k));
        lemma_share_is_meet(rows[path[k]], rows[path[l]]);
    }
    path
}

/// Numbers below `n` that satisfy `p` are no more than are counted.
proof fn lemma_set_counted(s: Set<int>, p: spec_fn(int) -> bool, n: int)
    requires
        forall|i: int| #[trigger] s.contains(i) ==> 0 <= i < n && p(i),
    ensures
        s.finite(),
        s.len() <= count(p, n),
    decreases n,
{
    if n <= 0 {
        assert(s =~= Set::<int>::empty());
    } else {
        let t = s.remove(n - 1);
        lemma_set_counted(t, p, n - 1);
        if s.contains(n - 1) {
            assert(s =~= t.insert(n - 1));
        } else {
            assert(s =~= t);
        }
    }
}

/// The majority is the largest group: no chain of common values runs through
/// more rows than agree, and one that starts before the majority does runs
/// through fewer.
pub proof fn law_no_chain_outgrows_the_majority(rows: Seq<RowState>, chain: Seq<int>)
    requires
        is_chain(rows, chain),
    ensures
        chain.to_set().len() <= summary_of(rows).agree,
        (forall|m: int|
            0 <= m < rows.len() && #[trigger] summary_of(rows).majority_rows[m] ==> chain[0] < m)
            ==> chain.to_set().len() < summary_of(rows).agree,
{
    let i = chain[0];
    let n = rows.len() as int;
    assert(answered(rows, i));
    assert forall|j: int| #[trigger] chain.to_set().contains(j) implies 0 <= j < n && linked(
        rows,
        i,
        j,
    ) by {
        let k = choose|k: int| 0 <= k < chain.len() && chain[k] == j;
        lemma_chain_links(rows, chain, k);
    }
    lemma_set_counted(chain.to_set(), |j: int| linked(rows, i, j), n);
    law_majority_is_largest(rows, i);
    let h = lemma_majority_exists(rows, i);
    let g = lemma_head_exists(rows, i);
    lemma_group_size_same(rows, g, i);
    lemma_linked_to_itself(rows, h);
    assert(summary_of(rows).majority_rows[h]);
    assert(is_head(rows, g));
    lemma_linked_to_itself(rows, i);
    assert(g <= i) by {
        if i < g {
            lemma_linked_symmetric(rows, g, i);
        }
    }
}

/// Rows that some labelling tells apart, which gives rows with a value in
/// common one label, are in different groups.
pub proof fn law_rows_told_apart_are_different_groups(
    rows: Seq<RowState>,
    label: spec_fn(int) -> int,
    picks: Seq<int>,
)
    requires
        forall|a: int, b: int, x: int, y: int|
            0 <= a < rows.len() && 0 <= b < rows.len() && #[trigger] same_value(
                rows[a],
                rows[b],
                x,
                y,
            ) ==> label(a) == label(b),
        forall|k: int|
            0 <= k < picks.len() ==> 0 <= #[trigger] picks[k] < rows.len() && (rows[picks[k]] matches RowState::Done {
                result: QueryResult::Records { .. },
                ..
            }),
        forall|k: int, l: int|
            0 <= k < l < picks.len() ==> label(#[trigger] picks[k]) != label(#[trigger] picks[l]),
    ensures
        picks.len() <= summary_of(rows).groups,
{
    let heads = Seq::new(
        picks.len(),
        |k: int| choose|h: int| is_head(rows, h) && #[trigger] linked(rows, h, picks[k]),
    );
    assert forall|k: int| 0 <= k < picks.len() implies is_head(rows, #[trigger] heads[k])
        && linked(rows, heads[k], picks[k]) by {
        assert(answered(rows, picks[k]));
        let h = lemma_head_exists(rows, picks[k]);
        assert(linked(rows, h, picks[k]));
    }
    assert forall|k: int, l: int| 0 <= k < l < picks.len() implies heads[k] != heads[l] by {
        if heads[k] == heads[l] {
            lemma_linked_symmetric(rows, heads[k], picks[k]);
            lemma_linked_transitive(rows, picks[k], heads[k], picks[l]);
            let same = |a: int| 0 <= a < rows.len() && label(a) == label(picks[k]);
            assert forall|a: int, b: int|
                #![trigger share(rows[a], rows[b])]
                same(a) && 0 <= b < rows.len() && share(rows[a], rows[b]) implies same(b) by {
                lemma_share_is_meet(rows[a], rows[b]);
                let (x, y) = choose|x: int, y: int| same_value(rows[a], rows[b], x, y);
                assert(same_value(rows[a], rows[b], x, y));
            }
            lemma_closed_set(rows, same, picks[k], picks[l]);
        }
    }
    assert(heads.no_duplicates());
    heads.unique_seq_to_set();
    lemma_set_counted(heads.to_set(), |h: int| is_head(rows, h), rows.len() as int);
}

/// The heads below `n`.
proof fn lemma_heads_below(rows: Seq<RowState>, n: int) -> (heads: Seq<int>)
    requires
        0 <= n <= rows.len(),
    ensures
        heads.len() == count(|h: int| is_head(rows, h), n),
        heads.no_duplicates(),
        forall|k: int| 0 <= k < heads.len() ==> is_head(rows, #[trigger] heads[k]) && heads[k] < n,
    decreases n,
{
    if n == 0 {
        seq![]
    } else {
        let before = lemma_heads_below(rows, n - 1);
        if is_head(rows, n - 1) {
            before.push(n - 1)
        } else {
            before
        }
    }
}

/// Where a chain of common values leads from one of `picks` to every row with
/// records, there are no more groups than `picks`.
pub proof fn law_chains_bound_the_groups(rows: Seq<RowState>, picks: Seq<int>)
    requires
        forall|i: int|
            0 <= i < rows.len() && (#[trigger] rows[i] matches RowState::Done {
                result: QueryResult::Records { .. },
                ..
            }) ==> exists|chain: Seq<int>| #[trigger]
                is_chain(rows, chain) && picks.contains(chain[0]) && chain.last() == i,
    ensures
        summary_of(rows).groups <= picks.len(),
{
    let heads = lemma_heads_below(rows, rows.len() as int);
    let places = Seq::new(
        heads.len(),
        |k: int|
            choose|p: int| 0 <= p < picks.len() && #[trigger] linked(rows, picks[p], heads[k]),
    );
    assert forall|k: int| 0 <= k < heads.len() implies 0 <= #[trigger] places[k] < picks.len()
        && linked(rows, picks[places[k]], heads[k]) by {
        let i = heads[k];
        assert(is_head(rows, i));
        assert(has_records(rows[i]));
        let chain = choose|chain: Seq<int>| #[trigger]
            is_chain(rows, chain) && picks.contains(chain[0]) && chain.last() == i;
        lemma_chain_links(rows, chain, chain.len() - 1);
        let p = choose|p: int| 0 <= p < picks.len() && picks[p] == chain[0];
        assert(linked(rows, picks[p], heads[k]));
    }
    assert forall|k: int, l: int| 0 <= k < l < heads.len() implies places[k] != places[l] by {
        if places[k] == places[l] {
            let p = picks[places[k]];
            lemma_linked_symmetric(rows, p, heads[k]);
            lemma_linked_symmetric(rows, p, heads[l]);
            assert(is_head(rows, heads[k]) && is_head(rows, heads[l]));
            lemma_head_unique(rows, heads[k], heads[l], p);
        }
    }
    assert(places.no_duplicates());
    places.unique_seq_to_set();
    lemma_set_counted(places.to_set(), |p: int| true, picks.len() as int);
    lemma_count_disjoint(|p: int| true, |p: int| false, picks.len() as int);
}

/// Resolvers that all return one value in common are one group, and all of
/// them agree.
pub proof fn law_one_common_value_is_one_group(rows: Seq<RowState>, v: Seq<char>)
    requires
        exists|i: int|
            0 <= i < rows.len() && (#[trigger] rows[i] matches RowState::Done {
                result: QueryResult::Records { .. },
                ..
            }),
        forall|i: int|
            0 <= i < rows.len() ==> match #[trigger] rows[i] {
                RowState::Done { result: QueryResult::Records { values, .. }, .. } => exists|x: int|
                    0 <= x < values@.len() && (#[trigger] values@[x])@ == v,
                _ => true,
            },
    ensures
        summary_of(rows).groups == 1,
        summary_of(rows).agree == summary_of(rows).ok,
        forall|i: int|
            0 <= i < rows.len() ==> #[trigger] summary_of(rows).majority_rows[i] == (
            rows[i] matches RowState::Done { result: QueryResult::Records { .. }, .. }),
{
    let one = choose|i: int|
        0 <= i < rows.len() && (#[trigger] rows[i] matches RowState::Done {
            result: QueryResult::Records { .. },
            ..
        });
    assert(answered(rows, one));
    assert forall|i: int| answered(rows, i) implies #[trigger] row_values(rows[i]).contains(v) by {
        if let RowState::Done { result: QueryResult::Records { values, .. }, .. } = rows[i] {
            let x = choose|x: int| 0 <= x < values@.len() && (#[trigger] values@[x])@ == v;
            assert(row_values(rows[i])[x] == v);
        }
    }
    assert forall|i: int, j: int| answered(rows, i) && answered(rows, j) implies #[trigger] linked(
        rows,
        i,
        j,
    ) by {
        assert(row_values(rows[i]).contains(v) && row_values(rows[j]).contains(v));
        lemma_linked_to_itself(rows, i);
        lemma_linked_extends(rows, i, i, j);
    }
    law_connected_answers_are_one_group(rows);
    assert forall|i: int| 0 <= i < rows.len() implies #[trigger] summary_of(rows).majority_rows[i]
        == has_records(rows[i]) by {
        assert(in_majority(rows, i) == has_records(rows[i]));
    }
}

/// Resolvers of which no two return a value in common are as many groups, and
/// the first of them is the majority.
pub proof fn law_answers_without_common_values_stand_alone(rows: Seq<RowState>, first: int)
    requires
        forall|i: int, j: int, x: int, y: int|
            0 <= i < rows.len() && 0 <= j < rows.len() && i != j ==> !#[trigger] same_value(
                rows[i],
                rows[j],
                x,
                y,
            ),
        0 <= first < rows.len(),
        rows[first] matches RowState::Done { result: QueryResult::Records { .. }, .. },
        forall|i: int|
            0 <= i < first ==> !(#[trigger] rows[i] matches RowState::Done {
                result: QueryResult::Records { .. },
                ..
            }),
    ensures
        summary_of(rows).groups == summary_of(rows).ok,
        summary_of(rows).agree == 1,
        forall|i: int|
            0 <= i < rows.len() ==> #[trigger] summary_of(rows).majority_rows[i] == (i == first),
{
    let n = rows.len() as int;
    assert forall|i: int, j: int| #[trigger] linked(rows, i, j) implies i == j by {
        let only = |a: int| a == i;
        lemma_linked_answered(rows, i, j);
        assert forall|a: int, b: int|
            #![trigger share(rows[a], rows[b])]
            only(a) && 0 <= b < rows.len() && share(rows[a], rows[b]) implies only(b) by {
            lemma_share_is_meet(rows[a], rows[b]);
            if a != b {
                let (x, y) = choose|x: int, y: int| same_value(rows[a], rows[b], x, y);
                assert(!same_value(rows[a], rows[b], x, y));
            }
        }
        lemma_closed_set(rows, only, i, j);
    }
    assert forall|i: int| 0 <= i < n implies is_head(rows, i) == has_records(#[trigger] rows[i]) by {
        if has_records(rows[i]) {
            assert(answered(rows, i));
        }
    }
    lemma_count_eq(|i: int| is_head(rows, i), |i: int| has_records(rows[i]), n);
    assert(answered(rows, first));
    assert forall|i: int| answered(rows, i) implies group_size(rows, i) == 1 by {
        lemma_linked_to_itself(rows, i);
        lemma_count_one(|j: int| linked(rows, i, j), n, i);
    }
    let h = lemma_majority_exists(rows, first);
    lemma_linked_to_itself(rows, first);
    assert(is_head(rows, first)) by {
        assert(has_records(rows[first]));
    }
    assert(is_head(rows, h));
    assert(answered(rows, h) && has_records(rows[h]));
    assert(h == first);
}

/// Counting rows by a test is counting the rows that pass it.
proof fn lemma_count_is_filter(rows: Seq<RowState>, test: spec_fn(RowState) -> bool, n: int)
    requires
        0 <= n <= rows.len(),
    ensures
        count(|i: int| test(rows[i]), n) == rows.take(n).filter(test).len(),
    decreases n,
{
    reveal(Seq::filter);
    if n > 0 {
        lemma_count_is_filter(rows, test, n - 1);
        assert(rows.take(n).drop_last() =~= rows.take(n - 1));
        assert(rows.take(n).last() == rows[n - 1]);
    }
}

/// The tallies count the rows: those with records, those that responded, and
/// those that failed.
pub proof fn law_tallies_count_the_rows(rows: Seq<RowState>)
    ensures
        summary_of(rows).ok == rows.filter(
            |row: RowState|
                (row matches RowState::Done { result: QueryResult::Records { .. }, .. }),
        ).len(),
        summary_of(rows).responding == rows.filter(
            |row: RowState|
                (row matches RowState::Done { result: QueryResult::Records { .. }, .. }) || (
                row matches RowState::Done { result: QueryResult::NoRecords(_), .. }),
        ).len(),
        summary_of(rows).errors == rows.filter(
            |row: RowState| (row matches RowState::Done { result: QueryResult::Error(_), .. }),
        ).len(),
{
    let n = rows.len() as int;
    let ok = |row: RowState|
        (row matches RowState::Done { result: QueryResult::Records { .. }, .. });
    let responding = |row: RowState|
        (row matches RowState::Done { result: QueryResult::Records { .. }, .. }) || (
        row matches RowState::Done { result: QueryResult::NoRecords(_), .. });
    let errors = |row: RowState| (row matches RowState::Done { result: QueryResult::Error(_), .. });
    assert(rows.take(n) =~= rows);
    lemma_count_is_filter(rows, ok, n);
    lemma_count_eq(|i: int| has_records(rows[i]), |i: int| ok(rows[i]), n);
    lemma_count_is_filter(rows, responding, n);
    lemma_count_eq(|i: int| responded(rows[i]), |i: int| responding(rows[i]), n);
    lemma_count_is_filter(rows, errors, n);
    lemma_count_eq(|i: int| failed(rows[i]), |i: int| errors(rows[i]), n);
}

proof fn lemma_count_is_flags(flags: Seq<bool>, n: int)
    requires
        0 <= n <= flags.len(),
    ensures
        count(|i: int| flags[i], n) == flags.take(n).filter(|flag: bool| flag).len(),
    decreases n,
{
    reveal(Seq::filter);
    if n > 0 {
        lemma_count_is_flags(flags, n - 1);
        assert(flags.take(n).drop_last() =~= flags.take(n - 1));
        assert(flags.take(n).last() == flags[n - 1]);
    }
}

/// As many agree as are flagged, and as soon as one resolver returns records
/// some do.
pub proof fn law_agreeing_rows_are_flagged(rows: Seq<RowState>)
    ensures
        summary_of(rows).agree == summary_of(rows).majority_rows.filter(|flag: bool| flag).len(),
        summary_of(rows).agree > 0 <==> exists|i: int|
            0 <= i < rows.len() && (#[trigger] rows[i] matches RowState::Done {
                result: QueryResult::Records { .. },
                ..
            }),
{
    let n = rows.len() as int;
    let flags = summary_of(rows).majority_rows;
    assert(flags.take(n) =~= flags);
    lemma_count_is_flags(flags, n);
    if majority(rows) is Some {
        lemma_count_eq(
            |i: int| flags[i],
            |i: int| linked(rows, majority(rows)->0, i),
            n,
        );
    } else {
        lemma_count_none(|i: int| flags[i], n);
    }
    law_tallies_fit(rows);
    let ok = |i: int| has_records(rows[i]);
    if count(ok, n) > 0 {
        let i = lemma_count_witness(ok, n);
        assert(has_records(rows[i]));
    }
    if exists|i: int| 0 <= i < rows.len() && has_records(#[trigger] rows[i]) {
        let i = choose|i: int| 0 <= i < rows.len() && has_records(#[trigger] rows[i]);
        lemma_count_positive(ok, n, i);
    }
}

/// Two rows say the same: both hold records with the same values, or neither
/// holds records and both responded or failed alike.
pub open spec fn says_the_same(a: RowState, b: RowState) -> bool {
    match (a, b) {
        (
            RowState::Done { result: QueryResult::Records { values: va, .. }, .. },
            RowState::Done { result: QueryResult::Records { values: vb, .. }, .. },
        ) => va@.len() == vb@.len() && forall|x: int|
            0 <= x < va@.len() ==> (#[trigger] va@[x])@ == vb@[x]@,
        (
            RowState::Done { result: QueryResult::NoRecords(_), .. },
            RowState::Done { result: QueryResult::NoRecords(_), .. },
        ) => true,
        (
            RowState::Done { result: QueryResult::Error(_), .. },
            RowState::Done { result: QueryResult::Error(_), .. },
        ) => true,
        (RowState::Idle, RowState::Idle) => true,
        (RowState::Pending, RowState::Pending) => true,
        _ => false,
    }
}

proof fn lemma_linked_alike(a: Seq<RowState>, b: Seq<RowState>, i: int, j: int)
    requires
        a.len() == b.len(),
        forall|k: int|
            0 <= k < a.len() ==> has_records(#[trigger] a[k]) == has_records(b[k]) && row_values(a[k])
                == row_values(b[k]),
        linked(a, i, j),
    ensures
        linked(b, i, j),
{
    let path = choose|path: Seq<int>| #[trigger]
        is_path(a, path) && path[0] == i && path[path.len() - 1] == j;
    assert forall|k: int| 0 <= k < path.len() implies answered(b, #[trigger] path[k]) by {
        assert(answered(a, path[k]));
        assert(has_records(a[path[k]]));
    }
    assert forall|k: int| 0 <= k < path.len() - 1 implies #[trigger] step(b, path, k) by {
        assert(step(a, path, k));
        assert(answered(a, path[k]) && answered(a, path[k + 1]));
        let v = choose|v: Seq<char>| #[trigger]
            row_values(a[path[k]]).contains(v) && row_values(a[path[k + 1]]).contains(v);
        assert(has_records(a[path[k]]) && has_records(a[path[k + 1]]));
        assert(row_values(b[path[k]]).contains(v) && row_values(b[path[k + 1]]).contains(v));
    }
    assert(is_path(b, path));
}

/// The tallies rest on what was returned alone: times to live, waiting times,
/// response codes and error messages change none of them.
pub proof fn law_tallies_rest_on_values_alone(a: Seq<RowState>, b: Seq<RowState>)
    requires
        a.len() == b.len(),
        forall|i: int| 0 <= i < a.len() ==> says_the_same(#[trigger] a[i], b[i]),
    ensures
        summary_of(a) == summary_of(b),
{
    let n = a.len() as int;
    assert forall|k: int| 0 <= k < n implies has_records(#[trigger] a[k]) == has_records(b[k])
        && row_values(a[k]) == row_values(b[k]) && responded(a[k]) == responded(b[k]) && failed(a[k])
        == failed(b[k]) by {
        assert(says_the_same(a[k], b[k]));
        assert(row_values(a[k]) =~= row_values(b[k]));
    }
    assert forall|k: int| 0 <= k < n implies has_records(#[trigger] b[k]) == has_records(a[k])
        && row_values(b[k]) == row_values(a[k]) by {
        assert(has_records(a[k]) == has_records(b[k]));
    }
    assert forall|i: int, j: int| #[trigger] linked(a, i, j) == linked(b, i, j) by {
        if linked(a, i, j) {
            lemma_linked_alike(a, b, i, j);
        }
        if linked(b, i, j) {
            lemma_linked_alike(b, a, i, j);
        }
    }
    assert forall|h: int| #[trigger] is_head(a, h) == is_head(b, h) by {
        if is_head(a, h) {
            assert(has_records(a[h]));
            assert forall|l: int| 0 <= l < h implies !#[trigger] linked(b, l, h) by {
                assert(!linked(a, l, h));
            }
        }
        if is_head(b, h) {
            assert(has_records(b[h]));
            assert forall|l: int| 0 <= l < h implies !#[trigger] linked(a, l, h) by {
                assert(!linked(b, l, h));
            }
        }
    }
    assert forall|h: int| #[trigger] group_size(a, h) == group_size(b, h) by {
        lemma_count_eq(|j: int| linked(a, h, j), |j: int| linked(b, h, j), n);
    }
    assert(majority(a) == majority(b)) by {
        assert forall|h: int| is_majority(a, h) implies majority(b) == Some(h) by {
            assert(is_head(b, h));
            assert forall|g: int| #[trigger] is_head(b, g) implies group_size(b, g) < group_size(
                b,
                h,
            ) || (group_size(b, g) == group_size(b, h) && h <= g) by {
                assert(is_head(a, g));
                assert(group_size(a, g) == group_size(b, g));
                assert(group_size(a, h) == group_size(b, h));
            }
            lemma_majority_is(b, h);
        }
        assert forall|h: int| is_majority(b, h) implies majority(a) == Some(h) by {
            assert(is_head(a, h));
            assert forall|g: int| #[trigger] is_head(a, g) implies group_size(a, g) < group_size(
                a,
                h,
            ) || (group_size(a, g) == group_size(a, h) && h <= g) by {
                assert(is_head(b, g));
                assert(group_size(a, g) == group_size(b, g));
                assert(group_size(a, h) == group_size(b, h));
            }
            lemma_majority_is(a, h);
        }
        if majority(a) is Some {
            assert(is_majority(a, majority(a)->0));
        } else if majority(b) is Some {
            assert(is_majority(b, majority(b)->0));
        }
    }
    lemma_count_eq(|i: int| has_records(a[i]), |i: int| has_records(b[i]), n);
    lemma_count_eq(|i: int| responded(a[i]), |i: int| responded(b[i]), n);
    lemma_count_eq(|i: int| failed(a[i]), |i: int| failed(b[i]), n);
    lemma_count_eq(|i: int| is_head(a, i), |i: int| is_head(b, i), n);
    assert forall|i: int| #[trigger] in_majority(a, i) == in_majority(b, i) by {
        if majority(a) is Some {
            assert(linked(a, majority(a)->0, i) == linked(b, majority(a)->0, i));
        }
    }
    lemma_majority_records_alike(a, b, n);
    if majority(a) is Some {
        assert(group_size(a, majority(a)->0) == group_size(b, majority(a)->0));
    }
    assert(summary_of(a).majority_rows =~= summary_of(b).majority_rows);
}

proof fn lemma_majority_records_alike(a: Seq<RowState>, b: Seq<RowState>, n: int)
    requires
        n <= a.len(),
        a.len() == b.len(),
        forall|k: int| 0 <= k < a.len() ==> row_values(#[trigger] a[k]) == row_values(b[k]),
        forall|k: int| #[trigger] in_majority(a, k) == in_majority(b, k),
    ensures
        majority_records(a, n) == majority_records(b, n),
    decreases n,
{
    if n > 0 {
        lemma_majority_records_alike(a, b, n - 1);
        assert(in_majority(a, n - 1) == in_majority(b, n - 1));
        assert(row_values(a[n - 1]) == row_values(b[n - 1]));
    }
}

/// Value `x` of an answer is `v`.
pub open spec fn holds(row: RowState, x: int, v: Seq<char>) -> bool {
    row matches RowState::Done { result: QueryResult::Records { values, .. }, .. } && 0 <= x
        < values@.len() && values@[x]@ == v
}

proof fn lemma_holds(row: RowState, v: Seq<char>)
    ensures
        row_values(row).contains(v) <==> exists|x: int| holds(row, x, v),
        forall|x: int| #[trigger]
            holds(row, x, v) <==> 0 <= x < row_values(row).len() && row_values(row)[x] == v,
{
    if row_values(row).contains(v) {
        let x = choose|x: int| 0 <= x < row_values(row).len() && row_values(row)[x] == v;
        assert(holds(row, x, v));
    }
    if exists|x: int| holds(row, x, v) {
        let x = choose|x: int| holds(row, x, v);
        assert(row_values(row)[x] == v);
    }
}

/// The values of the majority are those that its resolvers returned, each once.
pub proof fn law_majority_values_were_returned(rows: Seq<RowState>, v: Seq<char>)
    ensures
        forall|p: int, q: int|
            0 <= p < q < summary_of(rows).majority_values.len()
                ==> #[trigger] summary_of(rows).majority_values[p]
                != #[trigger] summary_of(rows).majority_values[q],
        summary_of(rows).majority_values.contains(v) <==> exists|i: int, x: int|
            0 <= i < rows.len() && summary_of(rows).majority_rows[i] && #[trigger] holds(
                rows[i],
                x,
                v,
            ),
{
    law_majority_values(rows, v);
    if summary_of(rows).majority_values.contains(v) {
        let i = choose|i: int|
            0 <= i < rows.len() && in_majority(rows, i) && row_values(#[trigger] rows[i]).contains(
                v,
            );
        lemma_holds(rows[i], v);
        let x = choose|x: int| holds(rows[i], x, v);
        assert(summary_of(rows).majority_rows[i] && holds(rows[i], x, v));
    }
    if exists|i: int, x: int|
        0 <= i < rows.len() && summary_of(rows).majority_rows[i] && #[trigger] holds(
            rows[i],
            x,
            v,
        ) {
        let (i, x) = choose|i: int, x: int|
            0 <= i < rows.len() && summary_of(rows).majority_rows[i] && #[trigger] holds(
                rows[i],
                x,
                v,
            );
        lemma_holds(rows[i], v);
        assert(in_majority(rows, i) && row_values(rows[i]).contains(v));
    }
}

proof fn lemma_merged_keeps(acc: Seq<Seq<char>>, values: Seq<Seq<char>>)
    ensures
        acc.len() <= merged(acc, values).len(),
        merged(acc, values).take(acc.len() as int) == acc,
    decreases values.len(),
{
    if values.len() == 0 {
        assert(acc.take(acc.len() as int) =~= acc);
    } else {
        lemma_merged_keeps(acc, values.drop_last());
        let m = merged(acc, values.drop_last());
        assert(m.push(values.last()).take(acc.len() as int) =~= m.take(acc.len() as int));
    }
}

proof fn lemma_merged_order(
    acc: Seq<Seq<char>>,
    values: Seq<Seq<char>>,
    p: int,
    q: int,
    y: int,
) -> (x: int)
    requires
        acc.no_duplicates(),
        acc.len() <= p < q < merged(acc, values).len(),
        0 <= y < values.len(),
        values[y] == merged(acc, values)[q],
    ensures
        0 <= x < y,
        values[x] == merged(acc, values)[p],
    decreases values.len(),
{
    let front = values.drop_last();
    let last = values.last();
    let m = merged(acc, front);
    lemma_merged(acc, front, last);
    lemma_merged_keeps(acc, front);
    if m.contains(last) {
        if y < front.len() {
            lemma_merged_order(acc, front, p, q, y)
        } else {
            lemma_merged(acc, front, m[q]);
            assert(m.contains(m[q]));
            if acc.contains(m[q]) {
                let k = choose|k: int| 0 <= k < acc.len() && acc[k] == m[q];
                assert(m.take(acc.len() as int)[k] == m[k]);
                assert(false);
            }
            let z = choose|z: int| 0 <= z < front.len() && front[z] == m[q];
            lemma_merged_order(acc, front, p, q, z)
        }
    } else if q < m.len() {
        assert(m.contains(m[q]));
        assert(y < front.len());
        lemma_merged_order(acc, front, p, q, y)
    } else {
        if y < front.len() {
            assert(front[y] == last);
            assert(front.contains(last));
        }
        lemma_merged(acc, front, m[p]);
        assert(m.contains(m[p]));
        if acc.contains(m[p]) {
            let k = choose|k: int| 0 <= k < acc.len() && acc[k] == m[p];
            assert(m.take(acc.len() as int)[k] == m[k]);
            assert(false);
        }
        choose|z: int| 0 <= z < front.len() && front[z] == m[p]
    }
}

proof fn lemma_records_order(rows: Seq<RowState>, n: int, p: int, q: int, j: int, y: int) -> (r: (
    int,
    int,
))
    requires
        n <= rows.len(),
        0 <= p < q < majority_records(rows, n).len(),
        0 <= j < n,
        in_majority(rows, j),
        0 <= y < row_values(rows[j]).len(),
        row_values(rows[j])[y] == majority_records(rows, n)[q],
    ensures
        0 <= r.0 < n,
        in_majority(rows, r.0),
        0 <= r.1 < row_values(rows[r.0]).len(),
        row_values(rows[r.0])[r.1] == majority_records(rows, n)[p],
        r.0 < j || (r.0 == j && r.1 < y),
    decreases n,
{
    let all = majority_records(rows, n);
    let before = majority_records(rows, n - 1);
    if !in_majority(rows, n - 1) {
        lemma_records_order(rows, n - 1, p, q, j, y)
    } else {
        let values = row_values(rows[n - 1]);
        lemma_majority_records(rows, n - 1, all[p]);
        lemma_majority_records(rows, n - 1, all[q]);
        lemma_merged_keeps(before, values);
        lemma_merged(before, values, all[q]);
        if q < before.len() && j < n - 1 {
            assert(all.take(before.len() as int)[q] == all[q]);
            assert(all.take(before.len() as int)[p] == all[p]);
            lemma_records_order(rows, n - 1, p, q, j, y)
        } else if p < before.len() {
            assert(all.take(before.len() as int)[p] == all[p]);
            assert(before.contains(all[p]));
            if j < n - 1 {
                assert(row_values(rows[j]).contains(all[q]));
                assert(before.contains(all[q]));
                let k = choose|k: int| 0 <= k < before.len() && before[k] == all[q];
                assert(all.take(before.len() as int)[k] == all[k]);
                assert(false);
            }
            let i = choose|i: int|
                0 <= i < n - 1 && in_majority(rows, i) && row_values(#[trigger] rows[i]).contains(
                    all[p],
                );
            let x = choose|x: int|
                0 <= x < row_values(rows[i]).len() && row_values(rows[i])[x] == all[p];
            (i, x)
        } else {
            if j < n - 1 {
                assert(row_values(rows[j]).contains(all[q]));
                assert(before.contains(all[q]));
                let k = choose|k: int| 0 <= k < before.len() && before[k] == all[q];
                assert(all.take(before.len() as int)[k] == all[k]);
                assert(false);
            }
            let x = lemma_merged_order(before, values, p, q, y);
            (j, x)
        }
    }
}

/// The values of the majority stand in the order in which they first occur:
/// wherever a later one occurs, an earlier one has occurred before.
pub proof fn law_majority_values_stand_in_order(
    rows: Seq<RowState>,
    p: int,
    q: int,
    j: int,
    y: int,
)
    requires
        0 <= p < q < summary_of(rows).majority_values.len(),
        0 <= j < rows.len(),
        summary_of(rows).majority_rows[j],
        holds(rows[j], y, summary_of(rows).majority_values[q]),
    ensures
        exists|i: int, x: int|
            0 <= i < rows.len() && summary_of(rows).majority_rows[i] && #[trigger] holds(
                rows[i],
                x,
                summary_of(rows).majority_values[p],
            ) && (i < j || (i == j && x < y)),
{
    let values = summary_of(rows).majority_values;
    lemma_holds(rows[j], values[q]);
    let (i, x) = lemma_records_order(rows, rows.len() as int, p, q, j, y);
    lemma_holds(rows[i], values[p]);
    assert(summary_of(rows).majority_rows[i] && holds(rows[i], x, values[p]));
}

} // verus!
