//! The count of the escape-time test.
//!
//! The test follows the orbit of a point `c` under `z -> z * z + c`, from
//! zero, for at most `limit` steps, and asks after each step whether the
//! iterate has left the disc of radius two. The escape count of the point is
//! the number of steps before the first iterate that has, or `limit` where
//! none of the first `limit` iterates has.
//!
//! The arithmetic of the orbit is the caller's. What this module holds is
//! the count: an orbit is seen as the sequence of the answers, one `bool`
//! per step, and an `EscapeWatch` is fed these answers one by one.

use vstd::prelude::*;

verus! {

/// Step `k` is among the first `limit`, its iterate has escaped, and none
/// before it has.
pub open spec fn first_escape(escaped: Seq<bool>, limit: nat, k: int) -> bool {
    &&& 0 <= k < limit
    &&& k < escaped.len()
    &&& escaped[k]
    &&& forall|i: int| 0 <= i < k ==> !escaped[i]
}

/// The escape count of an orbit under the iteration limit `limit`: the
/// index of the first step whose iterate has escaped, or `limit` where none
/// of the first `limit` steps has one.
pub open spec fn escape_count(escaped: Seq<bool>, limit: nat) -> nat {
    if exists|k: int| first_escape(escaped, limit, k) {
        (choose|k: int| first_escape(escaped, limit, k)) as nat
    } else {
        limit
    }
}

/// The answers seen so far settle the escape count: one of them reports an
/// escape within the limit, or the limit is used up.
pub open spec fn decided(escaped: Seq<bool>, limit: nat) -> bool {
    escaped.len() >= limit || exists|k: int| first_escape(escaped, limit, k)
}

/// Counts the steps of one escape-time test.
///
/// Its view is the sequence of the answers recorded so far.
pub struct EscapeWatch {
    limit: usize,
    steps: usize,
    escaped: bool,
    history: Ghost<Seq<bool>>,
}

impl View for EscapeWatch {
    type V = Seq<bool>;

    closed spec fn view(&self) -> Seq<bool> {
        self.history@
    }
}

impl EscapeWatch {
    /// The iteration limit of the test.
    pub closed spec fn spec_limit(&self) -> usize {
        self.limit
    }

    /// `steps` answers without an escape lead the history; `escaped` tells
    /// whether the answer after them reported one. Until the count is
    /// settled the history holds nothing else.
    #[verifier::type_invariant]
    closed spec fn inv(&self) -> bool {
        &&& self.steps <= self.limit
        &&& self.steps <= self.history@.len()
        &&& forall|i: int| 0 <= i < self.steps ==> !self.history@[i]
        &&& self.escaped ==> first_escape(self.history@, self.limit as nat, self.steps as int)
        &&& !self.escaped && self.steps < self.limit ==> self.history@.len() == self.steps
    }

    /// Starts a test of at most `limit` steps, with no answer recorded.
    pub fn new(limit: usize) -> (watch: Self)
        ensures
            watch.limit() == limit,
            watch@ == Seq::<bool>::empty(),
    {
        EscapeWatch { limit, steps: 0, escaped: false, history: Ghost(Seq::empty()) }
    }

    /// The iteration limit of the test.
    #[verifier::when_used_as_spec(spec_limit)]
    pub fn limit(&self) -> (limit: usize)
        ensures
            limit == self.spec_limit(),
    {
        self.limit
    }

    /// Whether the orbit has to be followed one step further: no escape has
    /// been reported and the limit is not used up.
    pub fn pending(&self) -> (pending: bool)
        ensures
            pending == !decided(self@, self.limit() as nat),
    {
        proof {
            use_type_invariant(self);
        }
        !self.escaped && self.steps < self.limit
    }

    /// Records whether the iterate of the next step has escaped.
    pub fn record(&mut self, escaped: bool)
        ensures
            final(self).limit() == old(self).limit(),
            final(self)@ == old(self)@.push(escaped),
    {
        proof {
            use_type_invariant(&*self);
        }
        let open: bool = !self.escaped && self.steps < self.limit;
        let steps: usize = if open && !escaped {
            self.steps + 1
        } else {
            self.steps
        };
        *self = EscapeWatch {
            limit: self.limit,
            steps,
            escaped: self.escaped || (open && escaped),
            history: Ghost(self.history@.push(escaped)),
        };
    }

    /// The escape count of the orbit as far as it has been recorded. It is
    /// the iteration limit as long as no escape has been reported.
    pub fn count(&self) -> (count: usize)
        ensures
            count == escape_count(self@, self.limit() as nat),
            count <= self.limit(),
    {
        proof {
            use_type_invariant(self);
            if self.escaped {
                lemma_escape_count_at(self@, self.limit as nat, self.steps as int);
            }
        }
        if self.escaped {
            self.steps
        } else {
            self.limit
        }
    }
}

/// An orbit has at most one first escape.
pub proof fn lemma_first_escape_unique(escaped: Seq<bool>, limit: nat, j: int, k: int)
    requires
        first_escape(escaped, limit, j),
        first_escape(escaped, limit, k),
    ensures
        j == k,
{
}

/// Where step `k` is the first escape, the escape count is `k`.
pub proof fn lemma_escape_count_at(escaped: Seq<bool>, limit: nat, k: int)
    requires
        first_escape(escaped, limit, k),
    ensures
        escape_count(escaped, limit) == k,
{
    let chosen = choose|k: int| first_escape(escaped, limit, k);
    lemma_first_escape_unique(escaped, limit, chosen, k);
}

/// An escape count never exceeds the iteration limit.
pub proof fn lemma_escape_count_bound(escaped: Seq<bool>, limit: nat)
    ensures
        escape_count(escaped, limit) <= limit,
{
}

/// An orbit that stays inside the disc for the first `limit` steps has the
/// escape count `limit`.
pub proof fn lemma_never_escapes(escaped: Seq<bool>, limit: nat)
    requires
        forall|i: int| 0 <= i < limit && i < escaped.len() ==> !escaped[i],
    ensures
        escape_count(escaped, limit) == limit,
{
}

/// An orbit whose first iterate has escaped has the escape count zero,
/// whatever the limit.
pub proof fn lemma_escapes_at_once(escaped: Seq<bool>, limit: nat)
    requires
        escaped.len() > 0,
        escaped[0],
    ensures
        escape_count(escaped, limit) == 0,
{
    if limit > 0 {
        lemma_escape_count_at(escaped, limit, 0);
    }
}

/// A larger iteration limit never lowers the escape count of an orbit: the
/// shorter test agrees with the longer one up to the escape, and gives its
/// own limit only where the orbit has not escaped by then.
pub proof fn lemma_escape_count_monotonic(escaped: Seq<bool>, shorter: nat, longer: nat)
    requires
        shorter <= longer,
    ensures
        escape_count(escaped, shorter) <= escape_count(escaped, longer),
        escape_count(escaped, longer) < shorter ==> escape_count(escaped, shorter) == escape_count(
            escaped,
            longer,
        ),
        escape_count(escaped, longer) >= shorter ==> escape_count(escaped, shorter) == shorter,
{
    if exists|k: int| first_escape(escaped, longer, k) {
        let k = choose|k: int| first_escape(escaped, longer, k);
        if k < shorter {
            assert(first_escape(escaped, shorter, k));
            lemma_escape_count_at(escaped, shorter, k);
        } else {
            assert forall|j: int| !first_escape(escaped, shorter, j) by {
                if first_escape(escaped, shorter, j) {
                    assert(first_escape(escaped, longer, j));
                    lemma_first_escape_unique(escaped, longer, j, k);
                }
            }
        }
    } else {
        assert forall|j: int| !first_escape(escaped, shorter, j) by {
            if first_escape(escaped, shorter, j) {
                assert(first_escape(escaped, longer, j));
            }
        }
    }
}

/// Once the answers settle the escape count, no later answer changes it.
pub proof fn lemma_decided_is_final(escaped: Seq<bool>, limit: nat, later: Seq<bool>)
    requires
        decided(escaped, limit),
    ensures
        escape_count(escaped + later, limit) == escape_count(escaped, limit),
{
    let longer = escaped + later;
    if exists|k: int| first_escape(escaped, limit, k) {
        let k = choose|k: int| first_escape(escaped, limit, k);
        assert(first_escape(longer, limit, k));
        lemma_escape_count_at(longer, limit, k);
    } else {
        assert(escaped.len() >= limit);
        assert forall|j: int| !first_escape(longer, limit, j) by {
            if first_escape(longer, limit, j) {
                assert(longer[j] == escaped[j]);
                assert forall|i: int| 0 <= i < j implies !escaped[i] by {
                    assert(longer[i] == escaped[i]);
                }
                assert(first_escape(escaped, limit, j));
            }
        }
    }
}

} // verus!
