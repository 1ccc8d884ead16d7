//! The alphabetical order of names: character by character, by code point,
//! a proper prefix before what it is a prefix of.

use vstd::prelude::*;
use vstd::string::*;

verus! {

/// `a` comes before `b`, judged from index `i` on.
pub open spec fn precedes_from(a: Seq<char>, b: Seq<char>, i: int) -> bool
    decreases a.len() - i,
{
    if i < 0 || i >= b.len() {
        false
    } else if i >= a.len() {
        true
    } else if a[i] != b[i] {
        a[i] < b[i]
    } else {
        precedes_from(a, b, i + 1)
    }
}

/// `a` comes strictly before `b` in alphabetical order.
pub open spec fn precedes(a: Seq<char>, b: Seq<char>) -> bool {
    precedes_from(a, b, 0)
}

/// How one name stands to another.
#[derive(Clone, Copy, Debug, PartialEq, Eq, Structural)]
pub enum Placement {
    Before,
    Same,
    After,
}

/// How `a` stands to `b` in alphabetical order.
pub open spec fn placement(a: Seq<char>, b: Seq<char>) -> Placement {
    if a == b {
        Placement::Same
    } else if precedes(a, b) {
        Placement::Before
    } else {
        Placement::After
    }
}

proof fn lemma_irreflexive_from(a: Seq<char>, i: int)
    requires
        0 <= i,
    ensures
        !precedes_from(a, a, i),
    decreases a.len() - i,
{
    if i < a.len() {
        lemma_irreflexive_from(a, i + 1);
    }
}

/// No name comes before itself.
pub proof fn lemma_precedes_irreflexive(a: Seq<char>)
    ensures
        !precedes(a, a),
{
    lemma_irreflexive_from(a, 0);
}

proof fn lemma_transitive_from(a: Seq<char>, b: Seq<char>, c: Seq<char>, i: int)
    requires
        0 <= i,
        precedes_from(a, b, i),
        precedes_from(b, c, i),
    ensures
        precedes_from(a, c, i),
    decreases a.len() - i,
{
    if i < a.len() && a[i] == b[i] && b[i] == c[i] {
        lemma_transitive_from(a, b, c, i + 1);
    }
}

/// What comes before a name comes before all that the name comes before.
pub proof fn lemma_precedes_transitive(a: Seq<char>, b: Seq<char>, c: Seq<char>)
    requires
        precedes(a, b),
        precedes(b, c),
    ensures
        precedes(a, c),
{
    lemma_transitive_from(a, b, c, 0);
}

proof fn lemma_total_from(a: Seq<char>, b: Seq<char>, i: int)
    requires
        0 <= i <= a.len(),
        i <= b.len(),
        forall|j: int| 0 <= j < i ==> a[j] == b[j],
        a != b,
    ensures
        precedes_from(a, b, i) || precedes_from(b, a, i),
        precedes_from(a, b, 0) == precedes_from(a, b, i),
        precedes_from(b, a, 0) == precedes_from(b, a, i),
    decreases a.len() - i,
{
    lemma_prefix_skipped(a, b, i, 0);
    lemma_prefix_skipped(b, a, i, 0);
    if i < a.len() && i < b.len() && a[i] == b[i] {
        lemma_total_from(a, b, i + 1);
    } else if i == a.len() && i == b.len() {
        assert(a =~= b);
    }
}

/// Where two names agree from index `from` up to index `i`, judging from
/// `from` is judging from `i`.
pub proof fn lemma_prefix_skipped(a: Seq<char>, b: Seq<char>, i: int, from: int)
    requires
        0 <= from <= i,
        i <= a.len(),
        i <= b.len(),
        forall|j: int| from <= j < i ==> a[j] == b[j],
    ensures
        precedes_from(a, b, from) == precedes_from(a, b, i),
    decreases i - from,
{
    if from < i {
        lemma_prefix_skipped(a, b, i, from + 1);
    }
}

/// Of two different names one comes before the other.
pub proof fn lemma_precedes_total(a: Seq<char>, b: Seq<char>)
    requires
        a != b,
    ensures
        precedes(a, b) || precedes(b, a),
{
    lemma_total_from(a, b, 0);
}

/// Of two names at most one comes before the other.
pub proof fn lemma_precedes_asymmetric(a: Seq<char>, b: Seq<char>)
    requires
        precedes(a, b),
    ensures
        !precedes(b, a),
        a != b,
{
    lemma_precedes_irreflexive(a);
    if precedes(b, a) {
        lemma_precedes_transitive(a, b, a);
    }
}

/// Places `a` against `b` in alphabetical order.
pub fn place(a: &str, b: &str) -> (r: Placement)
    ensures
        r == placement(a@, b@),
        r == Placement::Before <==> precedes(a@, b@),
        r == Placement::Same <==> a@ == b@,
        r == Placement::After <==> precedes(b@, a@),
{
    let n = a.unicode_len();
    let m = b.unicode_len();
    let mut i: usize = 0;
    while i < n && i < m
        invariant
            n == a@.len(),
            m == b@.len(),
            i <= n,
            i <= m,
            forall|j: int| 0 <= j < i ==> a@[j] == b@[j],
        decreases n - i,
    {
        let x = a.get_char(i);
        let y = b.get_char(i);
        if x != y {
            proof {
                lemma_prefix_skipped(a@, b@, i as int, 0);
                lemma_prefix_skipped(b@, a@, i as int, 0);
                if x < y {
                    lemma_precedes_asymmetric(a@, b@);
                } else {
                    lemma_precedes_asymmetric(b@, a@);
                }
            }
            return if x < y {
                Placement::Before
            } else {
                Placement::After
            };
        }
        i += 1;
    }
    proof {
        lemma_prefix_skipped(a@, b@, i as int, 0);
        lemma_prefix_skipped(b@, a@, i as int, 0);
        lemma_precedes_irreflexive(a@);
        if n == m {
            assert(a@ =~= b@);
        } else if n < m {
            lemma_precedes_asymmetric(a@, b@);
        } else {
            lemma_precedes_asymmetric(b@, a@);
        }
    }
    if n == m {
        Placement::Same
    } else if n < m {
        Placement::Before
    } else {
        Placement::After
    }
}

} // verus!
