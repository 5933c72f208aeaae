//! Checks that run over a list and stop at the first failure.

use vstd::prelude::*;

verus! {

/// The outcome of `check` over `0, 1, .. n - 1` in this order: the first
/// failure, if there is one.
pub open spec fn first_error<E>(n: int, check: spec_fn(int) -> Result<(), E>) -> Result<(), E>
    decreases n,
{
    if n <= 0 {
        Ok(())
    } else if first_error(n - 1, check) is Err {
        first_error(n - 1, check)
    } else {
        check(n - 1)
    }
}

/// Once a check has failed, later ones do not matter.
pub proof fn lemma_first_error_stays<E>(k: int, n: int, check: spec_fn(int) -> Result<(), E>)
    requires
        k <= n,
        first_error(k, check) is Err,
    ensures
        first_error(n, check) == first_error(k, check),
    decreases n - k,
{
    if k < n {
        lemma_first_error_stays(k, n - 1, check);
    }
}

/// Nothing fails exactly when no single check fails.
pub proof fn lemma_first_error_ok<E>(n: int, check: spec_fn(int) -> Result<(), E>)
    ensures
        first_error(n, check) is Ok <==> forall|i: int| 0 <= i < n ==> #[trigger] check(i) is Ok,
    decreases n,
{
    if n > 0 {
        lemma_first_error_ok(n - 1, check);
        if first_error(n, check) is Ok {
            assert forall|i: int| 0 <= i < n implies #[trigger] check(i) is Ok by {
                if i < n - 1 {
                    assert(check(i) is Ok);
                }
            }
        } else if first_error(n - 1, check) is Ok {
            assert(check(n - 1) is Err);
        }
    }
}

/// How many checks pass before the first that fails.
pub open spec fn passed<E>(n: int, check: spec_fn(int) -> Result<(), E>) -> int
    decreases n,
{
    if n <= 0 {
        0
    } else if first_error(n, check) is Ok {
        n
    } else {
        passed(n - 1, check)
    }
}

/// The checks before a failure are those that passed.
pub proof fn lemma_passed<E>(k: int, n: int, check: spec_fn(int) -> Result<(), E>)
    requires
        0 <= k <= n,
        first_error(k, check) is Ok,
        k < n ==> check(k) is Err,
    ensures
        passed(n, check) == k,
        k < n ==> first_error(n, check) == check(k),
    decreases n - k,
{
    if k < n {
        assert(first_error(k + 1, check) == check(k));
        lemma_first_error_stays(k + 1, n, check);
        if k < n - 1 {
            lemma_passed(k, n - 1, check);
        }
    }
}

/// A check that passes, put anywhere among others, changes nothing.
pub proof fn lemma_passing_check_changes_nothing<E>(
    n: int,
    at: int,
    without: spec_fn(int) -> Result<(), E>,
    with: spec_fn(int) -> Result<(), E>,
)
    requires
        0 <= at <= n,
        with(at) is Ok,
        forall|i: int| 0 <= i < at ==> #[trigger] with(i) == without(i),
        forall|i: int| at < i <= n ==> #[trigger] with(i) == without(i - 1),
    ensures
        first_error(n + 1, with) == first_error(n, without),
    decreases n,
{
    if at == n {
        lemma_same_checks(n, without, with);
        assert(with(n)->Ok_0 == ());
        assert(first_error(n, without)->Ok_0 == ());
    } else {
        lemma_passing_check_changes_nothing(n - 1, at, without, with);
        assert(with(n) == without(n - 1));
        assert(first_error(n, with) == first_error(n - 1, without));
    }
}

/// Checks that say the same have the same outcome.
pub proof fn lemma_same_checks<E>(
    n: int,
    a: spec_fn(int) -> Result<(), E>,
    b: spec_fn(int) -> Result<(), E>,
)
    requires
        forall|i: int| 0 <= i < n ==> #[trigger] b(i) == a(i),
    ensures
        first_error(n, b) == first_error(n, a),
    decreases n,
{
    if n > 0 {
        lemma_same_checks(n - 1, a, b);
        assert(b(n - 1) == a(n - 1));
    }
}

} // verus!
