use crate::chance::random_below;
use vstd::prelude::*;

verus! {

/// `k` is the first position of a smallest score.
pub open spec fn is_first_min(s: Seq<u32>, k: int) -> bool {
    &&& 0 <= k < s.len()
    &&& forall|j: int| 0 <= j < s.len() ==> s[k] <= s[j]
    &&& forall|j: int| 0 <= j < k ==> s[k] < s[j]
}

/// The member of a tournament group with the lowest final score (the first
/// such member on a tie): the one the group hands on to selection.
pub fn group_best(scores: &Vec<u32>) -> (k: usize)
    requires
        scores@.len() > 0,
    ensures
        is_first_min(scores@, k as int),
{
    let mut best: usize = 0;
    let mut i: usize = 1;
    while i < scores.len()
        invariant
            1 <= i <= scores@.len(),
            best < i,
            forall|j: int| 0 <= j < i ==> scores@[best as int] <= scores@[j],
            forall|j: int| 0 <= j < best ==> scores@[best as int] < scores@[j],
        decreases scores@.len() - i,
    {
        if scores[i] < scores[best] {
            best = i;
        }
        i = i + 1;
    }
    best
}

/// `order` lists each index of `scores` once, from the lowest score up.
pub open spec fn is_ranking(order: Seq<usize>, scores: Seq<u32>) -> bool {
    &&& order.len() == scores.len()
    &&& order.no_duplicates()
    &&& forall|a: int| 0 <= a < order.len() ==> #[trigger] order[a] < scores.len()
    &&& forall|a: int, b: int|
        0 <= a < b < order.len() ==> scores[#[trigger] order[a] as int] <= scores[#[trigger] order[b] as int]
}

/// Members with equal scores stand in population order.
pub open spec fn is_stable(order: Seq<usize>, scores: Seq<u32>) -> bool {
    forall|a: int, b: int|
        0 <= a < b < order.len() && scores[#[trigger] order[a] as int] == scores[#[trigger] order[b] as int]
            ==> order[a] < order[b]
}

/// Ranks a scored population ascending by score (lower is fitter); members
/// with equal scores keep their population order.
pub fn rank_population(scores: &Vec<u32>) -> (order: Vec<usize>)
    ensures
        is_ranking(order@, scores@),
        is_stable(order@, scores@),
{
    let n = scores.len();
    let mut order: Vec<usize> = Vec::new();
    let mut i: usize = 0;
    while i < n
        invariant
            n == scores@.len(),
            i <= n,
            order@ == Seq::new(i as nat, |k: int| k as usize),
        decreases n - i,
    {
        order.push(i);
        proof {
            assert(order@ =~= Seq::new((i + 1) as nat, |k: int| k as usize));
        }
        i = i + 1;
    }
    if n == 0 {
        return order;
    }
    let mut i: usize = 1;
    while i < n
        invariant
            n == scores@.len(),
            1 <= i <= n,
            order@.len() == n,
            order@.no_duplicates(),
            forall|a: int| 0 <= a < n ==> #[trigger] order@[a] < n,
            forall|a: int, b: int|
                0 <= a < b < i ==> scores@[#[trigger] order@[a] as int] <= scores@[#[trigger] order@[b] as int],
            forall|a: int, b: int|
                0 <= a < b < i && scores@[#[trigger] order@[a] as int] == scores@[#[trigger] order@[b] as int]
                    ==> order@[a] < order@[b],
            forall|k: int| i <= k < n ==> #[trigger] order@[k] == k,
            forall|a: int| 0 <= a < i ==> #[trigger] order@[a] < i,
        decreases n - i,
    {
        let mut j: usize = i;
        while j > 0 && scores[order[j - 1]] > scores[order[j]]
            invariant
                n == scores@.len(),
                1 <= i < n,
                j <= i,
                order@.len() == n,
                order@.no_duplicates(),
                forall|a: int| 0 <= a < n ==> #[trigger] order@[a] < n,
                forall|a: int, b: int|
                    0 <= a < b <= i && a != j && b != j ==> scores@[#[trigger] order@[a] as int]
                        <= scores@[#[trigger] order@[b] as int],
                forall|a: int, b: int|
                    0 <= a < j < b <= i ==> scores@[#[trigger] order@[a] as int] <= scores@[#[trigger] order@[b] as int],
                forall|b: int| j < b <= i ==> scores@[order@[j as int] as int] < scores@[#[trigger] order@[b] as int],
                forall|a: int, b: int|
                    0 <= a < b <= i && a != j && b != j && scores@[#[trigger] order@[a] as int]
                        == scores@[#[trigger] order@[b] as int] ==> order@[a] < order@[b],
                forall|k: int| i < k < n ==> #[trigger] order@[k] == k,
                order@[j as int] == i,
                forall|a: int| 0 <= a <= i && a != j ==> #[trigger] order@[a] < i,
            decreases j,
        {
            let x = order[j - 1];
            let y = order[j];
            order.set(j - 1, y);
            order.set(j, x);
            j = j - 1;
        }
        i = i + 1;
    }
    order
}

/// Selection monotonicity: once a population is ranked, every score kept in
/// the leading `keep` places is at most every score left after them.
pub proof fn lemma_elite_dominates(order: Seq<usize>, scores: Seq<u32>, keep: int)
    requires
        is_ranking(order, scores),
        0 <= keep <= order.len(),
    ensures
        forall|a: int, b: int|
            0 <= a < keep <= b < order.len() ==> scores[#[trigger] order[a] as int] <= scores[#[trigger] order[b] as int],
{
}

/// Picks `units` parents, each uniformly at random among the `n_elite` kept
/// members; with one kept member every pick is that member.
pub fn pick_parents(n_elite: usize, units: usize) -> (parents: Vec<usize>)
    requires
        n_elite > 0,
    ensures
        parents@.len() == units,
        forall|k: int| 0 <= k < units ==> #[trigger] parents@[k] < n_elite,
{
    let mut parents: Vec<usize> = Vec::new();
    let mut k: usize = 0;
    while k < units
        invariant
            n_elite > 0,
            k <= units,
            parents@.len() == k,
            forall|m: int| 0 <= m < k ==> #[trigger] parents@[m] < n_elite,
        decreases units - k,
    {
        let pick = random_below(n_elite);
        parents.push(pick);
        k = k + 1;
    }
    parents
}

/// Sum of the scores.
pub open spec fn sum_of(s: Seq<u32>) -> int
    decreases s.len(),
{
    if s.len() == 0 {
        0
    } else {
        sum_of(s.drop_last()) + s.last()
    }
}

proof fn lemma_sum_bound(s: Seq<u32>)
    ensures
        0 <= sum_of(s) <= s.len() * 0xFFFF_FFFF,
    decreases s.len(),
{
    if s.len() > 0 {
        lemma_sum_bound(s.drop_last());
    }
}

proof fn lemma_product_fits(a: u64, b: u64)
    ensures
        a * b <= u128::MAX,
{
    assert(a * b <= 0xFFFF_FFFF_FFFF_FFFF * 0xFFFF_FFFF_FFFF_FFFF) by (nonlinear_arith)
        requires
            a <= 0xFFFF_FFFF_FFFF_FFFF,
            b <= 0xFFFF_FFFF_FFFF_FFFF,
    ;
}

/// A generation's mean score, kept as an exact fraction `total / count`.
#[derive(Debug, Copy, Clone, PartialEq, Eq, Structural)]
pub struct MeanScore {
    pub total: u64,
    pub count: u64,
}

impl MeanScore {
    pub open spec fn wf(&self) -> bool {
        self.count > 0
    }

    /// The mean of `scores`.
    pub fn of_scores(scores: &Vec<u32>) -> (m: MeanScore)
        requires
            0 < scores@.len() <= 0xFFFF_FFFF,
        ensures
            m.wf(),
            m.total == sum_of(scores@),
            m.count == scores@.len(),
    {
        let mut total: u64 = 0;
        let mut i: usize = 0;
        while i < scores.len()
            invariant
                scores@.len() <= 0xFFFF_FFFF,
                i <= scores@.len(),
                total == sum_of(scores@.take(i as int)),
            decreases scores@.len() - i,
        {
            proof {
                assert(scores@.take(i + 1).drop_last() =~= scores@.take(i as int));
                lemma_sum_bound(scores@.take(i + 1));
                assert((i + 1) * 0xFFFF_FFFF <= 0xFFFF_FFFF * 0xFFFF_FFFF) by (nonlinear_arith)
                    requires
                        i + 1 <= 0xFFFF_FFFF,
                ;
            }
            total = total + scores[i] as u64;
            i = i + 1;
        }
        assert(scores@.take(i as int) =~= scores@);
        MeanScore { total, count: scores.len() as u64 }
    }

    /// `self` is a strictly lower mean than `other`.
    pub open spec fn lower_than(&self, other: MeanScore) -> bool {
        self.total * other.count < other.total * self.count
    }

    /// `self` is a mean no higher than `other`.
    pub open spec fn at_most(&self, other: MeanScore) -> bool {
        self.total * other.count <= other.total * self.count
    }

    pub fn is_lower_than(&self, other: &MeanScore) -> (r: bool)
        ensures
            r == self.lower_than(*other),
    {
        proof {
            lemma_product_fits(self.total, other.count);
            lemma_product_fits(other.total, self.count);
        }
        let lhs: u128 = self.total as u128 * other.count as u128;
        let rhs: u128 = other.total as u128 * self.count as u128;
        lhs < rhs
    }
}

/// Records a generation's mean: it becomes the best-ever mean when there was
/// none yet or when it is strictly lower. Returns whether it did.
pub fn record_generation(best: &mut Option<MeanScore>, mean: MeanScore) -> (improved: bool)
    requires
        mean.wf(),
    ensures
        improved == match *old(best) {
            None => true,
            Some(b) => mean.lower_than(b),
        },
        *final(best) == if improved { Some(mean) } else { *old(best) },
{
    let improved = match best {
        None => true,
        Some(b) => mean.is_lower_than(b),
    };
    if improved {
        *best = Some(mean);
    }
    improved
}

/// What selection decides for one generation: the ranking of the scored
/// pool, the mean score of the pool, whether that mean became the best ever,
/// and for each slot of the next population the place in the ranking of the
/// parent to clone and mutate.
pub struct GenerationPlan {
    pub order: Vec<usize>,
    pub mean: MeanScore,
    pub improved: bool,
    pub parents: Vec<usize>,
}

/// Number of ranked members kept as parents: the pool size divided by the
/// retention divisor.
pub open spec fn elite_size(pool: int, keep_top_frac: int) -> int {
    pool / keep_top_frac
}

/// Ranks the scored pool, records its mean against the best ever, keeps the
/// leading `len / keep_top_frac` ranked members and picks, for each of `units`
/// slots, one of them uniformly at random as the parent.
pub fn plan_generation(scores: &Vec<u32>, keep_top_frac: usize, units: usize, best: &mut Option<MeanScore>) -> (plan: GenerationPlan)
    requires
        0 < keep_top_frac <= scores@.len(),
        scores@.len() <= 0xFFFF_FFFF,
    ensures
        is_ranking(plan.order@, scores@),
        plan.mean.wf(),
        plan.mean.total == sum_of(scores@),
        plan.mean.count == scores@.len(),
        plan.improved == match *old(best) {
            None => true,
            Some(b) => plan.mean.lower_than(b),
        },
        *final(best) == if plan.improved { Some(plan.mean) } else { *old(best) },
        elite_size(scores@.len() as int, keep_top_frac as int) >= 1,
        plan.parents@.len() == units,
        forall|k: int|
            0 <= k < units ==> #[trigger] plan.parents@[k] < elite_size(scores@.len() as int, keep_top_frac as int),
{
    let order = rank_population(scores);
    let mean = MeanScore::of_scores(scores);
    let improved = record_generation(best, mean);
    let n_elite = scores.len() / keep_top_frac;
    assert(n_elite >= 1) by (nonlinear_arith)
        requires
            n_elite == (scores@.len() as int) / (keep_top_frac as int),
            0 < keep_top_frac <= scores@.len(),
    ;
    let parents = pick_parents(n_elite, units);
    GenerationPlan { order, mean, improved, parents }
}

/// The best-ever mean never gets worse: after a generation is recorded it is
/// at most what it was before.
pub proof fn lemma_best_never_worse(before: MeanScore, mean: MeanScore, after: Option<MeanScore>, improved: bool)
    requires
        improved == mean.lower_than(before),
        after == if improved { Some(mean) } else { Some(before) },
    ensures
        after.unwrap().at_most(before),
{
}

} // verus!
