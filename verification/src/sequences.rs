use crate::error::DomainErrorView;
use vstd::prelude::*;

verus! {

/// The index of the first row that is wanted, or the length where none is.
pub open spec fn position<T>(rows: Seq<T>, wanted: spec_fn(T) -> bool) -> int
    decreases rows.len(),
{
    if rows.len() == 0 {
        0
    } else if wanted(rows[0]) {
        0
    } else {
        1 + position(rows.drop_first(), wanted)
    }
}

/// The first row that is wanted, if there is one.
pub open spec fn first<T>(rows: Seq<T>, wanted: spec_fn(T) -> bool) -> Option<T> {
    if position(rows, wanted) < rows.len() {
        Some(rows[position(rows, wanted)])
    } else {
        None
    }
}

/// [`position`] lies within the rows or at their end; the row it points at
/// is wanted and none before it is.
pub proof fn lemma_position<T>(rows: Seq<T>, wanted: spec_fn(T) -> bool)
    ensures
        0 <= position(rows, wanted) <= rows.len(),
        position(rows, wanted) < rows.len() ==> wanted(rows[position(rows, wanted)]),
        forall|j: int| 0 <= j < position(rows, wanted) ==> !wanted(#[trigger] rows[j]),
    decreases rows.len(),
{
    if rows.len() > 0 && !wanted(rows[0]) {
        let rest = rows.drop_first();
        lemma_position(rest, wanted);
        assert forall|j: int| 0 <= j < position(rows, wanted) implies !wanted(#[trigger] rows[j]) by {
            if j > 0 {
                assert(rows[j] == rest[j - 1]);
            }
        }
    }
}

/// An index with no wanted row before it, that holds a wanted row or is the
/// length, is the [`position`].
pub proof fn lemma_position_is<T>(rows: Seq<T>, wanted: spec_fn(T) -> bool, i: int)
    requires
        0 <= i <= rows.len(),
        i < rows.len() ==> wanted(rows[i]),
        forall|j: int| 0 <= j < i ==> !wanted(#[trigger] rows[j]),
    ensures
        position(rows, wanted) == i,
{
    lemma_position(rows, wanted);
    let p = position(rows, wanted);
    if p < i {
        assert(!wanted(rows[p]));
    }
}

/// The values of the outcomes in their order, or the first error among them.
pub open spec fn collect<T>(outcomes: Seq<Result<T, DomainErrorView>>) -> Result<
    Seq<T>,
    DomainErrorView,
>
    decreases outcomes.len(),
{
    if outcomes.len() == 0 {
        Ok(Seq::empty())
    } else {
        match collect(outcomes.drop_last()) {
            Err(error) => Err(error),
            Ok(values) => match outcomes.last() {
                Err(error) => Err(error),
                Ok(value) => Ok(values.push(value)),
            },
        }
    }
}

/// Where [`collect`] succeeds, every outcome is a value, and the values
/// stand in the result one for one.
pub proof fn lemma_collect_ok<T>(outcomes: Seq<Result<T, DomainErrorView>>)
    requires
        collect(outcomes) is Ok,
    ensures
        collect(outcomes)->Ok_0.len() == outcomes.len(),
        forall|i: int|
            0 <= i < outcomes.len() ==> (#[trigger] outcomes[i]) == Ok::<T, DomainErrorView>(
                collect(outcomes)->Ok_0[i],
            ),
    decreases outcomes.len(),
{
    if outcomes.len() > 0 {
        let front = outcomes.drop_last();
        lemma_collect_ok(front);
        assert forall|i: int| 0 <= i < outcomes.len() implies (#[trigger] outcomes[i]) == Ok::<
            T,
            DomainErrorView,
        >(collect(outcomes)->Ok_0[i]) by {
            if i < front.len() {
                assert(outcomes[i] == front[i]);
            }
        }
    }
}

/// Where every outcome is a value, [`collect`] succeeds.
pub proof fn lemma_collect_all_ok<T>(outcomes: Seq<Result<T, DomainErrorView>>)
    requires
        forall|i: int| 0 <= i < outcomes.len() ==> (#[trigger] outcomes[i]) is Ok,
    ensures
        collect(outcomes) is Ok,
    decreases outcomes.len(),
{
    if outcomes.len() > 0 {
        let front = outcomes.drop_last();
        assert forall|i: int| 0 <= i < front.len() implies (#[trigger] front[i]) is Ok by {
            assert(front[i] == outcomes[i]);
        }
        lemma_collect_all_ok(front);
    }
}

/// An error among the first `n` outcomes is the error of them all.
pub proof fn lemma_collect_prefix_err<T>(outcomes: Seq<Result<T, DomainErrorView>>, n: int)
    requires
        0 <= n <= outcomes.len(),
        collect(outcomes.take(n)) is Err,
    ensures
        collect(outcomes) == collect(outcomes.take(n)),
    decreases outcomes.len() - n,
{
    if n < outcomes.len() {
        assert(outcomes.take(n + 1).drop_last() =~= outcomes.take(n));
        lemma_collect_prefix_err(outcomes, n + 1);
    } else {
        assert(outcomes.take(n) =~= outcomes);
    }
}

/// One more outcome after the first `n`: [`collect`] goes on from what it
/// made of those.
pub proof fn lemma_collect_step<T>(outcomes: Seq<Result<T, DomainErrorView>>, n: int)
    requires
        0 <= n < outcomes.len(),
    ensures
        collect(outcomes.take(n + 1)) == match collect(outcomes.take(n)) {
            Err(error) => Err::<Seq<T>, DomainErrorView>(error),
            Ok(values) => match outcomes[n] {
                Err(error) => Err(error),
                Ok(value) => Ok(values.push(value)),
            },
        },
{
    assert(outcomes.take(n + 1).drop_last() =~= outcomes.take(n));
}

} // verus!
