//! How many indices below a bound satisfy a predicate.

use vstd::prelude::*;

verus! {

/// The number of `i` with `0 <= i < n` for which `f(i)` holds.
pub open spec fn count(n: nat, f: spec_fn(int) -> bool) -> nat
    decreases n,
{
    if n == 0 {
        0
    } else {
        count((n - 1) as nat, f) + if f(n - 1) {
            1nat
        } else {
            0nat
        }
    }
}

/// A count is at most its bound; it meets it when every index satisfies the
/// predicate, and is zero when none does.
pub(crate) proof fn lemma_count_bound(n: nat, f: spec_fn(int) -> bool)
    ensures
        count(n, f) <= n,
        (forall|i: int| 0 <= i < n ==> #[trigger] f(i)) ==> count(n, f) == n,
        (forall|i: int| 0 <= i < n ==> !#[trigger] f(i)) ==> count(n, f) == 0,
    decreases n,
{
    if n > 0 {
        lemma_count_bound((n - 1) as nat, f);
    }
}

/// A larger bound counts no less.
pub(crate) proof fn lemma_count_grows(m: nat, n: nat, f: spec_fn(int) -> bool)
    requires
        m <= n,
    ensures
        count(m, f) <= count(n, f),
    decreases n,
{
    if m < n {
        lemma_count_grows(m, (n - 1) as nat, f);
    }
}

/// Predicates that agree below the bound have the same count.
pub(crate) proof fn lemma_count_agree(n: nat, f: spec_fn(int) -> bool, g: spec_fn(int) -> bool)
    requires
        forall|i: int| 0 <= i < n ==> #[trigger] f(i) == g(i),
    ensures
        count(n, f) == count(n, g),
    decreases n,
{
    if n > 0 {
        lemma_count_agree((n - 1) as nat, f, g);
        assert(f(n - 1) == g(n - 1));
    }
}

/// Letting one more index in raises the count by one.
pub(crate) proof fn lemma_count_one_more(
    n: nat,
    f: spec_fn(int) -> bool,
    g: spec_fn(int) -> bool,
    k: int,
)
    requires
        0 <= k < n,
        !f(k),
        g(k),
        forall|i: int| 0 <= i < n && i != k ==> #[trigger] f(i) == g(i),
    ensures
        count(n, g) == count(n, f) + 1,
    decreases n,
{
    if k == n - 1 {
        lemma_count_agree((n - 1) as nat, f, g);
    } else {
        lemma_count_one_more((n - 1) as nat, f, g, k);
        assert(f(n - 1) == g(n - 1));
    }
}

/// A weaker predicate counts no less, and strictly more where some index tells
/// the two apart.
pub(crate) proof fn lemma_count_weaken(n: nat, f: spec_fn(int) -> bool, g: spec_fn(int) -> bool)
    requires
        forall|i: int| 0 <= i < n && #[trigger] f(i) ==> g(i),
    ensures
        count(n, f) <= count(n, g),
        (exists|k: int| 0 <= k < n && g(k) && !#[trigger] f(k)) ==> count(n, f) < count(n, g),
    decreases n,
{
    if n > 0 {
        lemma_count_weaken((n - 1) as nat, f, g);
        assert(f(n - 1) ==> g(n - 1));
    }
}

/// Counting over a bound in two parts.
pub(crate) proof fn lemma_count_split(
    m: nat,
    n: nat,
    f: spec_fn(int) -> bool,
    head: spec_fn(int) -> bool,
    tail: spec_fn(int) -> bool,
)
    requires
        forall|i: int| 0 <= i < m ==> #[trigger] f(i) == head(i),
        forall|i: int| 0 <= i < n ==> f(m + i) == #[trigger] tail(i),
    ensures
        count(m + n, f) == count(m, head) + count(n, tail),
    decreases n,
{
    if n == 0 {
        lemma_count_agree(m, f, head);
    } else {
        lemma_count_split(m, (n - 1) as nat, f, head, tail);
        assert(f(m + (n - 1)) == tail(n - 1));
    }
}

} // verus!
