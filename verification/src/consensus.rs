//! Ternary consensus: agents vote in {-1, 0, +1} and each round replaces
//! the votes by the product of a mixing matrix with them.

use vstd::prelude::*;
use crate::ternary::{self, Ternary};
use crate::matrix::{self, TernaryMatrix};

verus! {

/// All votes are equal (an empty vote is unanimous).
pub open spec fn unanimous(v: Seq<Ternary>) -> bool {
    forall|i: int| 0 <= i < v.len() ==> #[trigger] v[i] == v[0]
}

/// The number of votes equal to `t`.
pub open spec fn count(v: Seq<Ternary>, t: Ternary) -> nat
    decreases v.len(),
{
    if v.len() == 0 {
        0
    } else {
        count(v.drop_last(), t) + if v.last() == t {
            1nat
        } else {
            0nat
        }
    }
}

/// The vote with strictly the most supporters; Zero when no vote has.
pub open spec fn majority_of(neg: nat, zero: nat, pos: nat) -> Ternary {
    if neg > zero && neg > pos {
        Ternary::Neg
    } else if pos > zero && pos > neg {
        Ternary::Pos
    } else {
        Ternary::Zero
    }
}

/// `t` has strictly more supporters in `v` than each other vote value.
pub open spec fn strictly_most(v: Seq<Ternary>, t: Ternary) -> bool {
    forall|u: Ternary| u != t ==> count(v, t) > #[trigger] count(v, u)
}

/// A vote sequence as a column: entry (k, c) is vote k.
pub open spec fn column(v: Seq<Ternary>) -> spec_fn(int, int) -> Ternary {
    |k: int, c: int| v[k]
}

/// One round of mixing: the product W · v of the mixing matrix with the votes.
pub open spec fn mix(w: TernaryMatrix, v: Seq<Ternary>) -> Seq<Ternary> {
    Seq::new(v.len(), |i: int| matrix::mat_sum(matrix::entries(w), column(v), i, 0, v.len()))
}

/// The votes after `k` rounds of mixing.
pub open spec fn iterate(w: TernaryMatrix, v: Seq<Ternary>, k: nat) -> Seq<Ternary>
    decreases k,
{
    if k == 0 {
        v
    } else {
        mix(w, iterate(w, v, (k - 1) as nat))
    }
}

/// Σ_{c < k} e(r, c) in Z/3Z.
pub open spec fn row_sum(e: spec_fn(int, int) -> Ternary, r: int, k: nat) -> Ternary
    decreases k,
{
    if k == 0 {
        Ternary::Zero
    } else {
        ternary::tadd(row_sum(e, r, (k - 1) as nat), e(r, k - 1))
    }
}

/// Every row of the `n × n` matrix `w` sums to 1 in Z/3Z.
pub open spec fn row_stochastic(w: TernaryMatrix, n: nat) -> bool {
    forall|r: int| 0 <= r < n ==> #[trigger] row_sum(matrix::entries(w), r, n) == Ternary::Pos
}

/// No round from 1 up to (but not including) `t` reached unanimity.
pub open spec fn undecided_before(w: TernaryMatrix, v: Seq<Ternary>, t: nat) -> bool {
    forall|s: nat| 1 <= s < t ==> !#[trigger] unanimous(iterate(w, v, s))
}

/// The round counter does not overflow in any round that runs: round `t`
/// runs only while no earlier round reached unanimity.
pub open spec fn rounds_fit(w: TernaryMatrix, v: Seq<Ternary>, round: nat, max_rounds: nat) -> bool {
    forall|t: nat| 1 <= t <= max_rounds && #[trigger] undecided_before(w, v, t) ==> round + t <= usize::MAX
}

/// Mixing keeps the number of votes.
pub proof fn lemma_iterate_len(w: TernaryMatrix, v: Seq<Ternary>, k: nat)
    ensures
        iterate(w, v, k).len() == v.len(),
    decreases k,
{
    if k > 0 {
        lemma_iterate_len(w, v, (k - 1) as nat);
    }
}

/// `count` is the number of votes equal to `t`: the length of the votes
/// filtered by equality with `t`.
pub proof fn lemma_count_is_filter(v: Seq<Ternary>, t: Ternary)
    ensures
        count(v, t) == v.filter(|x: Ternary| x == t).len(),
    decreases v.len(),
{
    reveal(Seq::filter);
    if v.len() > 0 {
        lemma_count_is_filter(v.drop_last(), t);
    }
}

/// The majority is the vote value with strictly the most supporters when
/// one exists, and Zero when no value has strictly the most.
pub proof fn lemma_majority_law(v: Seq<Ternary>)
    ensures
        forall|t: Ternary| #[trigger] strictly_most(v, t) ==> majority_of(
            count(v, Ternary::Neg),
            count(v, Ternary::Zero),
            count(v, Ternary::Pos),
        ) == t,
        (forall|t: Ternary| !#[trigger] strictly_most(v, t)) ==> majority_of(
            count(v, Ternary::Neg),
            count(v, Ternary::Zero),
            count(v, Ternary::Pos),
        ) == Ternary::Zero,
{
    let (n, z, p) = (count(v, Ternary::Neg), count(v, Ternary::Zero), count(v, Ternary::Pos));
    assert forall|t: Ternary| #[trigger] strictly_most(v, t) implies majority_of(n, z, p) == t by {
        match t {
            Ternary::Neg => {
                assert(count(v, Ternary::Zero) < n);
                assert(count(v, Ternary::Pos) < n);
            },
            Ternary::Zero => {
                assert(count(v, Ternary::Neg) < z);
                assert(count(v, Ternary::Pos) < z);
            },
            Ternary::Pos => {
                assert(count(v, Ternary::Neg) < p);
                assert(count(v, Ternary::Zero) < p);
            },
        }
    }
    if n > z && n > p {
        assert forall|u: Ternary| u != Ternary::Neg implies n > #[trigger] count(v, u) by {
        }
        assert(strictly_most(v, Ternary::Neg));
    } else if p > z && p > n {
        assert forall|u: Ternary| u != Ternary::Pos implies p > #[trigger] count(v, u) by {
        }
        assert(strictly_most(v, Ternary::Pos));
    }
}

/// The counts of the three votes add up to the number of votes.
pub proof fn lemma_tally_total(v: Seq<Ternary>)
    ensures
        count(v, Ternary::Neg) + count(v, Ternary::Zero) + count(v, Ternary::Pos) == v.len(),
    decreases v.len(),
{
    if v.len() > 0 {
        lemma_tally_total(v.drop_last());
    }
}

/// The state of a consensus round.
#[derive(Debug, Clone, PartialEq, Eq)]
pub struct ConsensusState {
    /// Each agent's current vote.
    pub votes: Vec<Ternary>,
    /// Current round number.
    pub round: usize,
    /// Whether consensus has been reached.
    pub converged: bool,
}

impl ConsensusState {
    /// Create a new consensus state with initial votes.
    pub fn new(votes: Vec<Ternary>) -> (s: Self)
        ensures
            s.votes@ == votes@,
            s.round == 0,
            !s.converged,
    {
        ConsensusState { votes, round: 0, converged: false }
    }

    /// Check if all agents agree (all votes identical).
    pub fn is_unanimous(&self) -> (r: bool)
        ensures
            r == unanimous(self.votes@),
    {
        if self.votes.len() == 0 {
            return true;
        }
        let first = self.votes[0];
        let mut i: usize = 0;
        while i < self.votes.len()
            invariant
                self.votes@.len() > 0,
                first == self.votes@[0],
                i <= self.votes@.len(),
                forall|k: int| 0 <= k < i ==> #[trigger] self.votes@[k] == first,
            decreases self.votes@.len() - i,
        {
            if self.votes[i] != first {
                return false;
            }
            i += 1;
        }
        true
    }

    /// Count votes: returns (negatives, zeros, positives).
    pub fn tally(&self) -> (r: (usize, usize, usize))
        ensures
            r.0 == count(self.votes@, Ternary::Neg),
            r.1 == count(self.votes@, Ternary::Zero),
            r.2 == count(self.votes@, Ternary::Pos),
    {
        let mut neg: usize = 0;
        let mut zero: usize = 0;
        let mut pos: usize = 0;
        let mut i: usize = 0;
        proof {
            assert(self.votes@.take(0) =~= Seq::<Ternary>::empty());
        }
        while i < self.votes.len()
            invariant
                i <= self.votes@.len(),
                neg == count(self.votes@.take(i as int), Ternary::Neg),
                zero == count(self.votes@.take(i as int), Ternary::Zero),
                pos == count(self.votes@.take(i as int), Ternary::Pos),
            decreases self.votes@.len() - i,
        {
            proof {
                let t = self.votes@.take(i + 1);
                assert(t.drop_last() =~= self.votes@.take(i as int));
                lemma_tally_total(self.votes@.take(i as int));
            }
            match self.votes[i] {
                Ternary::Neg => {
                    neg += 1;
                },
                Ternary::Zero => {
                    zero += 1;
                },
                Ternary::Pos => {
                    pos += 1;
                },
            }
            i += 1;
        }
        proof {
            assert(self.votes@.take(self.votes@.len() as int) =~= self.votes@);
        }
        (neg, zero, pos)
    }

    /// Majority vote: the value with the most votes (ties give Zero).
    pub fn majority(&self) -> (r: Ternary)
        ensures
            r == majority_of(
                count(self.votes@, Ternary::Neg),
                count(self.votes@, Ternary::Zero),
                count(self.votes@, Ternary::Pos),
            ),
            forall|t: Ternary| #[trigger] strictly_most(self.votes@, t) ==> r == t,
            (forall|t: Ternary| !#[trigger] strictly_most(self.votes@, t)) ==> r == Ternary::Zero,
    {
        proof {
            lemma_majority_law(self.votes@);
        }
        let (neg, zero, pos) = self.tally();
        if neg > zero && neg > pos {
            Ternary::Neg
        } else if pos > zero && pos > neg {
            Ternary::Pos
        } else if zero > neg && zero > pos {
            Ternary::Zero
        } else {
            Ternary::Zero
        }
    }
    /// Run one consensus round: the new votes are the mixing matrix times
    /// the votes. Returns false, changing nothing, when the matrix is not
    /// n × n for n agents.
    pub fn step(&mut self, mixing_matrix: &TernaryMatrix) -> (r: bool)
        requires
            mixing_matrix.rows == old(self).votes@.len() && mixing_matrix.cols == old(self).votes@.len()
                ==> mixing_matrix.fits() && old(self).round < usize::MAX,
        ensures
            r == (mixing_matrix.rows == old(self).votes@.len() && mixing_matrix.cols
                == old(self).votes@.len()),
            !r ==> *final(self) == *old(self),
            r ==> final(self).votes@ == mix(*mixing_matrix, old(self).votes@),
            r ==> final(self).round == old(self).round + 1,
            r ==> final(self).converged == unanimous(final(self).votes@),
    {
        let n = self.votes.len();
        if mixing_matrix.rows != n || mixing_matrix.cols != n {
            return false;
        }
        let ghost v = self.votes@;
        let vote_col = match TernaryMatrix::from_vec(n, 1, self.votes.clone()) {
            Some(m) => m,
            None => return false,
        };
        proof {
            assert(vote_col.data@ =~= v);
        }
        let new_votes = match mixing_matrix.mul(&vote_col) {
            Some(m) => m,
            None => return false,
        };
        proof {
            assert forall|k: int| 0 <= k < n implies #[trigger] matrix::entries(vote_col)(k, 0) == column(v)(k, 0) by {
                assert(vote_col.entry(k, 0) == vote_col.data@[k * 1 + 0]);
            }
            assert forall|i: int| 0 <= i < n implies #[trigger] new_votes.data@[i] == mix(*mixing_matrix, v)[i] by {
                assert(new_votes.entry(i, 0) == new_votes.data@[i * 1 + 0]);
                matrix::lemma_sum_same_right(matrix::entries(*mixing_matrix), matrix::entries(vote_col), column(v), i, 0, n as nat);
            }
            assert(new_votes.data@ =~= mix(*mixing_matrix, v));
        }
        self.votes = new_votes.data;
        self.round += 1;
        self.converged = self.is_unanimous();
        true
    }

    /// Run consensus rounds until the votes are unanimous, at most
    /// `max_rounds` of them. Returns the number of rounds taken (0 when
    /// consensus held from the start), or None when it was not reached or
    /// the matrix does not fit the agents.
    pub fn run_to_convergence(&mut self, mixing_matrix: &TernaryMatrix, max_rounds: usize) -> (r: Option<usize>)
        requires
            mixing_matrix.rows == old(self).votes@.len() && mixing_matrix.cols == old(self).votes@.len()
                ==> mixing_matrix.fits(),
            mixing_matrix.rows == old(self).votes@.len() && mixing_matrix.cols == old(self).votes@.len()
                ==> rounds_fit(*mixing_matrix, old(self).votes@, old(self).round as nat, max_rounds as nat),
        ensures
            ({
                let v = old(self).votes@;
                let w = *mixing_matrix;
                let fits = w.rows == v.len() && w.cols == v.len();
                if old(self).converged || unanimous(v) {
                    &&& r == Some(0usize)
                    &&& final(self).votes@ == v
                    &&& final(self).round == old(self).round
                    &&& final(self).converged
                } else if !fits || max_rounds == 0 {
                    &&& r is None
                    &&& *final(self) == *old(self)
                } else {
                    match r {
                        Some(k) => {
                            &&& 1 <= k <= max_rounds
                            &&& unanimous(iterate(w, v, k as nat))
                            &&& forall|s: nat| 1 <= s < k ==> !#[trigger] unanimous(iterate(w, v, s))
                            &&& final(self).votes@ == iterate(w, v, k as nat)
                            &&& final(self).round == old(self).round + k
                            &&& final(self).converged
                        },
                        None => {
                            &&& forall|s: nat| 1 <= s <= max_rounds ==> !#[trigger] unanimous(iterate(w, v, s))
                            &&& final(self).votes@ == iterate(w, v, max_rounds as nat)
                            &&& final(self).round == old(self).round + max_rounds
                            &&& !final(self).converged
                        },
                    }
                }
            }),
    {
        if self.converged || self.is_unanimous() {
            self.converged = true;
            return Some(0);
        }
        let ghost v = self.votes@;
        let ghost r0 = self.round;
        let mut i: usize = 0;
        while i < max_rounds
            invariant
                v == old(self).votes@,
                r0 == old(self).round,
                !old(self).converged,
                !unanimous(v),
                mixing_matrix.rows == v.len() && mixing_matrix.cols == v.len() ==> mixing_matrix.fits(),
                mixing_matrix.rows == v.len() && mixing_matrix.cols == v.len() ==> rounds_fit(
                    *mixing_matrix,
                    v,
                    r0 as nat,
                    max_rounds as nat,
                ),
                i <= max_rounds,
                i > 0 ==> mixing_matrix.rows == v.len() && mixing_matrix.cols == v.len(),
                self.votes@ == iterate(*mixing_matrix, v, i as nat),
                self.round == r0 + i,
                !self.converged,
                i == 0 ==> *self == *old(self),
                forall|s: nat| 1 <= s <= i ==> !#[trigger] unanimous(iterate(*mixing_matrix, v, s)),
            decreases max_rounds - i,
        {
            proof {
                lemma_iterate_len(*mixing_matrix, v, i as nat);
                assert(undecided_before(*mixing_matrix, v, (i + 1) as nat));
            }
            if !self.step(mixing_matrix) {
                return None;
            }
            i += 1;
            if self.converged {
                return Some(i);
            }
        }
        None
    }
}

/// The weight of each agent's next neighbour (cyclically) in the fully
/// connected mixing matrix: chosen so that every row sums to 1, the other
/// n - 1 weights being 1.
pub open spec fn neighbour_weight(n: nat) -> Ternary {
    if n % 3 == 1 {
        Ternary::Pos
    } else if n % 3 == 2 {
        Ternary::Zero
    } else {
        Ternary::Neg
    }
}

/// The weight that `fully_connected_mixing_matrix(n)` puts at (r, c): one
/// everywhere except at the next neighbour (r + 1) mod n.
pub open spec fn fully_connected_weight(n: nat, r: int, c: int) -> Ternary {
    if c == (r + 1) % (n as int) {
        neighbour_weight(n)
    } else {
        Ternary::Pos
    }
}

/// Build a mixing matrix for n fully connected agents whose rows each sum to
/// 1 in Z/3Z: every weight is one, except the weight of the next neighbour,
/// which is adjusted to bring the row sum n to 1 (zero when n = 2 mod 3,
/// -1 when n = 0 mod 3).
pub fn fully_connected_mixing_matrix(n: usize) -> (m: TernaryMatrix)
    requires
        n * n <= usize::MAX,
    ensures
        m.rows == n,
        m.cols == n,
        m.wf(),
        forall|r: int, c: int|
            0 <= r < n && 0 <= c < n ==> #[trigger] m.entry(r, c) == fully_connected_weight(n as nat, r, c),
        row_stochastic(m, n as nat),
{
    let mut data = vec![Ternary::Pos; n * n];
    proof {
        assert forall|r: int, c: int| 0 <= r < n && 0 <= c < n implies #[trigger] data@[r * n + c] == Ternary::Pos by {
            matrix::lemma_index_bounds(r, c, n as int, n as int);
        }
    }
    if n % 3 != 1 {
        let w = if n % 3 == 2 {
            Ternary::Zero
        } else {
            Ternary::Neg
        };
        let mut r: usize = 0;
        while r < n
            invariant
                n * n <= usize::MAX,
                n % 3 != 1,
                w == neighbour_weight(n as nat),
                data@.len() == n * n,
                r <= n,
                forall|i: int, c: int|
                    0 <= i < n && 0 <= c < n ==> #[trigger] data@[i * n + c] == if i < r && c == (i + 1) % (
                    n as int) {
                        w
                    } else {
                        Ternary::Pos
                    },
            decreases n - r,
        {
            let c = (r + 1) % n;
            proof {
                matrix::lemma_index_bounds(r as int, c as int, n as int, n as int);
            }
            let ghost prev = data@;
            data[r * n + c] = w;
            proof {
                assert forall|i: int, j: int| 0 <= i < n && 0 <= j < n implies #[trigger] data@[i * n + j]
                    == if i < r + 1 && j == (i + 1) % (n as int) {
                    w
                } else {
                    Ternary::Pos
                } by {
                    matrix::lemma_index_bounds(i, j, n as int, n as int);
                    if i * n + j == r * n + c {
                        matrix::lemma_index_injective(i, j, r as int, c as int, n as int);
                    } else {
                        assert(data@[i * n + j] == prev[i * n + j]);
                        if i == r && j == (i + 1) % (n as int) {
                            assert(j == c);
                        }
                    }
                }
            }
            r += 1;
        }
    }
    let m = TernaryMatrix { rows: n, cols: n, data };
    assert forall|r: int, c: int| 0 <= r < n && 0 <= c < n implies #[trigger] m.entry(r, c)
        == fully_connected_weight(n as nat, r, c) by {
        assert(m.entry(r, c) == data@[r * n + c]);
    }
    proof {
        lemma_fully_connected_row_stochastic(m, n as nat);
    }
    m
}

/// Build a mixing matrix for two isolated components: agents before
/// `split` are connected to each other, agents from `split` on are
/// connected to each other, and no edge joins the two groups.
pub fn disconnected_mixing_matrix(n: usize, split: usize) -> (m: TernaryMatrix)
    requires
        n * n <= usize::MAX,
        split <= n,
    ensures
        m.rows == n,
        m.cols == n,
        m.wf(),
        forall|r: int, c: int|
            0 <= r < n && 0 <= c < n ==> #[trigger] m.entry(r, c) == if (r < split) == (c < split) {
                Ternary::Pos
            } else {
                Ternary::Zero
            },
{
    let mut data = vec![Ternary::Zero; n * n];
    proof {
        assert forall|r: int, c: int| 0 <= r < n && 0 <= c < n implies #[trigger] data@[r * n + c] == Ternary::Zero by {
            matrix::lemma_index_bounds(r, c, n as int, n as int);
        }
    }
    // First component: 0..split
    let mut r: usize = 0;
    while r < split
        invariant
            n * n <= usize::MAX,
            split <= n,
            data@.len() == n * n,
            r <= split,
            forall|i: int, j: int|
                0 <= i < n && 0 <= j < n ==> #[trigger] data@[i * n + j] == if i < r && j < split {
                    Ternary::Pos
                } else {
                    Ternary::Zero
                },
        decreases split - r,
    {
        let mut c: usize = 0;
        while c < split
            invariant
                n * n <= usize::MAX,
                split <= n,
                data@.len() == n * n,
                r < split,
                c <= split,
                forall|i: int, j: int|
                    0 <= i < n && 0 <= j < n ==> #[trigger] data@[i * n + j] == if (i < r && j < split) || (i
                        == r && j < c) {
                        Ternary::Pos
                    } else {
                        Ternary::Zero
                    },
            decreases split - c,
        {
            proof {
                matrix::lemma_index_bounds(r as int, c as int, n as int, n as int);
            }
            let ghost prev = data@;
            data[r * n + c] = Ternary::Pos;
            proof {
                assert forall|i: int, j: int| 0 <= i < n && 0 <= j < n implies #[trigger] data@[i * n + j]
                    == if (i < r && j < split) || (i == r && j < c + 1) {
                    Ternary::Pos
                } else {
                    Ternary::Zero
                } by {
                    matrix::lemma_index_bounds(i, j, n as int, n as int);
                    if i * n + j == r * n + c {
                        matrix::lemma_index_injective(i, j, r as int, c as int, n as int);
                    } else {
                        assert(data@[i * n + j] == prev[i * n + j]);
                    }
                }
            }
            c += 1;
        }
        r += 1;
    }
    // Second component: split..n
    let mut r: usize = split;
    while r < n
        invariant
            n * n <= usize::MAX,
            split <= n,
            data@.len() == n * n,
            split <= r <= n,
            forall|i: int, j: int|
                0 <= i < n && 0 <= j < n ==> #[trigger] data@[i * n + j] == if (i < split && j < split) || (
                split <= i < r && split <= j) {
                    Ternary::Pos
                } else {
                    Ternary::Zero
                },
        decreases n - r,
    {
        let mut c: usize = split;
        while c < n
            invariant
                n * n <= usize::MAX,
                split <= n,
                data@.len() == n * n,
                split <= r < n,
                split <= c <= n,
                forall|i: int, j: int|
                    0 <= i < n && 0 <= j < n ==> #[trigger] data@[i * n + j] == if (i < split && j < split) || (
                    split <= i < r && split <= j) || (i == r && split <= j < c) {
                        Ternary::Pos
                    } else {
                        Ternary::Zero
                    },
            decreases n - c,
        {
            proof {
                matrix::lemma_index_bounds(r as int, c as int, n as int, n as int);
            }
            let ghost prev = data@;
            data[r * n + c] = Ternary::Pos;
            proof {
                assert forall|i: int, j: int| 0 <= i < n && 0 <= j < n implies #[trigger] data@[i * n + j]
                    == if (i < split && j < split) || (split <= i < r && split <= j) || (i == r && split <= j
                    < c + 1) {
                    Ternary::Pos
                } else {
                    Ternary::Zero
                } by {
                    matrix::lemma_index_bounds(i, j, n as int, n as int);
                    if i * n + j == r * n + c {
                        matrix::lemma_index_injective(i, j, r as int, c as int, n as int);
                    } else {
                        assert(data@[i * n + j] == prev[i * n + j]);
                    }
                }
            }
            c += 1;
        }
        r += 1;
    }
    let m = TernaryMatrix { rows: n, cols: n, data };
    assert forall|r: int, c: int| 0 <= r < n && 0 <= c < n implies #[trigger] m.entry(r, c) == if (r
        < split) == (c < split) {
        Ternary::Pos
    } else {
        Ternary::Zero
    } by {
        assert(m.entry(r, c) == data@[r * n + c]);
    }
    m
}

/// The first `k` weights of a row of the fully connected matrix sum to k,
/// corrected by the neighbour's weight once column (r + 1) mod n is among them.
proof fn lemma_fully_connected_row_prefix(m: TernaryMatrix, n: nat, r: int, k: nat)
    requires
        n > 0,
        0 <= r < n,
        k <= n,
        forall|i: int, c: int| 0 <= i < n && 0 <= c < n ==> #[trigger] m.entry(i, c) == fully_connected_weight(n, i, c),
    ensures
        row_sum(matrix::entries(m), r, k) == ternary::tfrom(
            k - if (r + 1) % (n as int) < k { 1 - ternary::tval(neighbour_weight(n)) } else { 0int },
        ),
    decreases k,
{
    if k > 0 {
        lemma_fully_connected_row_prefix(m, n, r, (k - 1) as nat);
        let z = if (r + 1) % (n as int) < k - 1 { 1 - ternary::tval(neighbour_weight(n)) } else { 0int };
        let prev = (k - 1) - z;
        let w = m.entry(r, k - 1);
        assert(matrix::entries(m)(r, k - 1) == w);
        ternary::lemma_tfrom_homomorphism(prev, ternary::tval(w));
        ternary::lemma_from_val(w);
    }
}

/// The fully connected mixing matrix is row-stochastic: every row sums to
/// one in Z/3Z.
pub proof fn lemma_fully_connected_row_stochastic(m: TernaryMatrix, n: nat)
    requires
        forall|i: int, c: int| 0 <= i < n && 0 <= c < n ==> #[trigger] m.entry(i, c) == fully_connected_weight(n, i, c),
    ensures
        row_stochastic(m, n),
{
    assert forall|r: int| 0 <= r < n implies #[trigger] row_sum(matrix::entries(m), r, n) == Ternary::Pos by {
        lemma_fully_connected_row_prefix(m, n, r, n);
        assert((r + 1) % (n as int) < n);
    }
}

/// When every vote in the column is `t`, the product row is the row sum times `t`.
proof fn lemma_sum_constant_column(
    x: spec_fn(int, int) -> Ternary,
    v: Seq<Ternary>,
    r: int,
    k: nat,
    t: Ternary,
)
    requires
        k <= v.len(),
        forall|q: int| 0 <= q < k ==> #[trigger] v[q] == t,
    ensures
        matrix::mat_sum(x, column(v), r, 0, k) == ternary::tmul(row_sum(x, r, k), t),
    decreases k,
{
    if k > 0 {
        lemma_sum_constant_column(x, v, r, (k - 1) as nat, t);
        let s = row_sum(x, r, (k - 1) as nat);
        let a = x(r, k - 1);
        assert(column(v)(k - 1, 0) == t);
        ternary::lemma_commutative(ternary::tadd(s, a), t);
        ternary::lemma_distributive(t, s, a);
        ternary::lemma_commutative(s, t);
        ternary::lemma_commutative(a, t);
    }
}

/// Consensus is kept: a round with a row-stochastic mixing matrix leaves
/// unanimous votes unchanged.
pub proof fn lemma_unanimous_is_fixed(w: TernaryMatrix, v: Seq<Ternary>)
    requires
        row_stochastic(w, v.len()),
        unanimous(v),
    ensures
        mix(w, v) == v,
{
    if v.len() > 0 {
        let t = v[0];
        assert forall|i: int| 0 <= i < v.len() implies #[trigger] mix(w, v)[i] == v[i] by {
            lemma_sum_constant_column(matrix::entries(w), v, i, v.len(), t);
            assert(row_sum(matrix::entries(w), i, v.len()) == Ternary::Pos);
            ternary::lemma_mul_identity(t);
        }
    }
    assert(mix(w, v) =~= v);
}

/// Once reached, consensus persists through every later round with a
/// row-stochastic mixing matrix.
pub proof fn lemma_unanimous_persists(w: TernaryMatrix, v: Seq<Ternary>, k: nat)
    requires
        row_stochastic(w, v.len()),
        unanimous(v),
    ensures
        iterate(w, v, k) == v,
    decreases k,
{
    if k > 0 {
        lemma_unanimous_persists(w, v, (k - 1) as nat);
        lemma_unanimous_is_fixed(w, v);
    }
}

} // verus!
