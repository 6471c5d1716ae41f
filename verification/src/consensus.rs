//! Consensus over the answers of the adapters: answers whose embeddings are
//! close are put into one group, greedily and in the order of arrival.

use vstd::prelude::*;
use crate::embedding::{close, embed, embedding, is_embedding, similar};
use crate::text::texts;

verus! {

/// The first position from `from` on at which `reps` names an answer close to
/// answer `i`; the length of `reps` if there is none.
pub open spec fn first_close_from(emb: Seq<Seq<u64>>, reps: Seq<int>, i: int, from: int) -> int
    decreases reps.len() - from,
{
    if from >= reps.len() {
        reps.len() as int
    } else if close(emb[i], emb[reps[from]]) {
        from
    } else {
        first_close_from(emb, reps, i, from + 1)
    }
}

/// The representatives chosen among the first `k` answers: an answer becomes
/// one when no representative chosen before it is close to it.
pub open spec fn reps_upto(emb: Seq<Seq<u64>>, k: int) -> Seq<int>
    decreases k,
{
    if k <= 0 {
        Seq::empty()
    } else {
        let before = reps_upto(emb, k - 1);
        if first_close_from(emb, before, k - 1, 0) < before.len() {
            before
        } else {
            before.push(k - 1)
        }
    }
}

/// The group of answer `i`: that of the first representative close to it
/// among those chosen before it, else a new group, of which it is the
/// representative.
pub open spec fn group_of(emb: Seq<Seq<u64>>, i: int) -> int {
    first_close_from(emb, reps_upto(emb, i), i, 0)
}

/// The members of group `g` among the first `k` answers, in their order.
pub open spec fn members_upto(emb: Seq<Seq<u64>>, g: int, k: int) -> Seq<int>
    decreases k,
{
    if k <= 0 {
        Seq::empty()
    } else if group_of(emb, k - 1) == g {
        members_upto(emb, g, k - 1).push(k - 1)
    } else {
        members_upto(emb, g, k - 1)
    }
}

/// The representatives of all answers.
pub open spec fn representatives(emb: Seq<Seq<u64>>) -> Seq<int> {
    reps_upto(emb, emb.len() as int)
}

/// The groups of all answers.
pub open spec fn groups(emb: Seq<Seq<u64>>) -> Seq<Seq<int>> {
    Seq::new(representatives(emb).len(), |g: int| members_upto(emb, g, emb.len() as int))
}

/// The sizes of the first `n` groups, added up.
pub open spec fn population(groups: Seq<Seq<int>>, n: int) -> int
    decreases n,
{
    if n <= 0 {
        0
    } else {
        population(groups, n - 1) + groups[n - 1].len()
    }
}

/// The share of a group: so many of so many answers.
#[derive(Debug, Clone, Copy, PartialEq, Eq, Structural)]
pub struct Score {
    pub members: usize,
    pub total: usize,
}

/// The outcome of a consensus: the answers, the representative of each group
/// with its index, the groups as lists of indices, and the share of each
/// group.
#[derive(Debug)]
pub struct ConsensusResult {
    pub finals: Vec<String>,
    pub representatives: Vec<(usize, String)>,
    pub groups: Vec<Vec<usize>>,
    pub scores: Vec<Score>,
}

/// The embeddings of a list of texts.
pub open spec fn embeddings(finals: Seq<Seq<char>>) -> Seq<Seq<u64>> {
    Seq::new(finals.len(), |i: int| embedding(finals[i]))
}

/// The views of a list of embeddings.
pub open spec fn rows(v: Seq<Vec<u64>>) -> Seq<Seq<u64>> {
    Seq::new(v.len(), |i: int| v[i]@)
}

/// A list of indices as numbers.
pub open spec fn indices(v: Seq<usize>) -> Seq<int> {
    Seq::new(v.len(), |i: int| v[i] as int)
}

/// Lists of indices as numbers.
pub open spec fn index_lists(v: Seq<Vec<usize>>) -> Seq<Seq<int>> {
    Seq::new(v.len(), |i: int| indices(v[i]@))
}

/// Whether `r` is the consensus over `finals`.
pub open spec fn is_consensus(r: ConsensusResult, finals: Seq<Seq<char>>) -> bool {
    is_consensus_over(r, finals, embeddings(finals))
}

/// Whether `r` is the consensus over `finals`, given their embeddings.
pub open spec fn is_consensus_over(
    r: ConsensusResult,
    finals: Seq<Seq<char>>,
    emb: Seq<Seq<u64>>,
) -> bool {
    &&& texts(r.finals@) == finals
    &&& index_lists(r.groups@) == groups(emb)
    &&& r.representatives@.len() == representatives(emb).len()
    &&& forall|g: int|
        0 <= g < r.representatives@.len() ==> {
            &&& (#[trigger] r.representatives@[g]).0 == representatives(emb)[g]
            &&& r.representatives@[g].1@ == finals[representatives(emb)[g]]
        }
    &&& r.scores@.len() == representatives(emb).len()
    &&& forall|g: int|
        0 <= g < r.scores@.len() ==> {
            &&& (#[trigger] r.scores@[g]).members == groups(emb)[g].len()
            &&& r.scores@[g].total == if finals.len() == 0 {
                1
            } else {
                finals.len()
            }
        }
}

proof fn lemma_first_close_range(emb: Seq<Seq<u64>>, reps: Seq<int>, i: int, from: int)
    requires
        0 <= from <= reps.len(),
    ensures
        from <= first_close_from(emb, reps, i, from) <= reps.len(),
        first_close_from(emb, reps, i, from) < reps.len() ==> close(
            emb[i],
            emb[reps[first_close_from(emb, reps, i, from)]],
        ),
        forall|j: int|
            from <= j < first_close_from(emb, reps, i, from) ==> !close(emb[i], emb[#[trigger] reps[j]]),
    decreases reps.len() - from,
{
    if from < reps.len() && !close(emb[i], emb[reps[from]]) {
        lemma_first_close_range(emb, reps, i, from + 1);
    }
}

/// The representatives are answers from among those seen, in rising order,
/// and there are no more of them than answers.
pub proof fn lemma_reps(emb: Seq<Seq<u64>>, k: int)
    requires
        0 <= k,
    ensures
        reps_upto(emb, k).len() <= k,
        forall|j: int| 0 <= j < reps_upto(emb, k).len() ==> 0 <= #[trigger] reps_upto(emb, k)[j] < k,
        forall|a: int, b: int|
            0 <= a < b < reps_upto(emb, k).len() ==> reps_upto(emb, k)[a] < reps_upto(emb, k)[b],
    decreases k,
{
    if k > 0 {
        lemma_reps(emb, k - 1);
    }
}

/// The representatives chosen earlier stay, and every answer seen belongs to
/// one of the groups that exist.
pub proof fn lemma_reps_grow(emb: Seq<Seq<u64>>, i: int, k: int)
    requires
        0 <= i <= k,
    ensures
        reps_upto(emb, i).len() <= reps_upto(emb, k).len(),
        forall|j: int| 0 <= j < reps_upto(emb, i).len() ==> reps_upto(emb, k)[j] == reps_upto(emb, i)[j],
        i < k ==> 0 <= group_of(emb, i) < reps_upto(emb, k).len(),
    decreases k - i,
{
    if i < k {
        lemma_reps_grow(emb, i, k - 1);
        if i == k - 1 {
            lemma_first_close_range(emb, reps_upto(emb, i), i, 0);
        }
    }
}

/// The members of a group are the answers seen whose group it is, in rising
/// order.
pub proof fn lemma_members(emb: Seq<Seq<u64>>, g: int, k: int)
    requires
        0 <= k,
    ensures
        members_upto(emb, g, k).len() <= k,
        forall|p: int|
            0 <= p < members_upto(emb, g, k).len() ==> {
                &&& 0 <= #[trigger] members_upto(emb, g, k)[p] < k
                &&& group_of(emb, members_upto(emb, g, k)[p]) == g
            },
        forall|p: int, q: int|
            0 <= p < q < members_upto(emb, g, k).len() ==> members_upto(emb, g, k)[p]
                < members_upto(emb, g, k)[q],
        forall|i: int|
            0 <= i < k && group_of(emb, i) == g ==> members_upto(emb, g, k).contains(i),
    decreases k,
{
    if k > 0 {
        lemma_members(emb, g, k - 1);
        let before = members_upto(emb, g, k - 1);
        let now = members_upto(emb, g, k);
        assert forall|i: int| 0 <= i < k && group_of(emb, i) == g implies now.contains(i) by {
            if i < k - 1 {
                let p = choose|p: int| 0 <= p < before.len() && before[p] == i;
                assert(now[p] == i);
            } else {
                assert(now[now.len() - 1] == i);
            }
        }
    }
}

/// A group that does not exist yet has no members.
proof fn lemma_no_members_yet(emb: Seq<Seq<u64>>, g: int, k: int)
    requires
        0 <= k,
        g >= reps_upto(emb, k).len(),
    ensures
        members_upto(emb, g, k) == Seq::<int>::empty(),
    decreases k,
{
    if k > 0 {
        lemma_reps_grow(emb, k - 1, k);
        lemma_no_members_yet(emb, g, k - 1);
    }
}

/// The first member of a group is its representative.
pub proof fn lemma_representative_first(emb: Seq<Seq<u64>>, g: int, k: int)
    requires
        0 <= k,
        0 <= g < reps_upto(emb, k).len(),
    ensures
        members_upto(emb, g, k).len() > 0,
        members_upto(emb, g, k)[0] == reps_upto(emb, k)[g],
    decreases k,
{
    let before = reps_upto(emb, k - 1);
    lemma_first_close_range(emb, before, k - 1, 0);
    if g < before.len() {
        lemma_representative_first(emb, g, k - 1);
    } else {
        lemma_no_members_yet(emb, g, k - 1);
    }
}

proof fn lemma_population_same(a: Seq<Seq<int>>, b: Seq<Seq<int>>, n: int)
    requires
        0 <= n <= a.len(),
        n <= b.len(),
        forall|g: int| 0 <= g < n ==> a[g].len() == b[g].len(),
    ensures
        population(a, n) == population(b, n),
    decreases n,
{
    if n > 0 {
        lemma_population_same(a, b, n - 1);
    }
}

proof fn lemma_population_one_more(a: Seq<Seq<int>>, b: Seq<Seq<int>>, n: int, h: int)
    requires
        0 <= h < n <= a.len(),
        n <= b.len(),
        forall|g: int| 0 <= g < n && g != h ==> a[g].len() == b[g].len(),
        b[h].len() == a[h].len() + 1,
    ensures
        population(b, n) == population(a, n) + 1,
    decreases n,
{
    if h == n - 1 {
        lemma_population_same(a, b, n - 1);
    } else {
        lemma_population_one_more(a, b, n - 1, h);
    }
}

/// The groups among the first `k` answers.
pub open spec fn groups_upto(emb: Seq<Seq<u64>>, k: int) -> Seq<Seq<int>> {
    Seq::new(reps_upto(emb, k).len(), |g: int| members_upto(emb, g, k))
}

proof fn lemma_population_upto(emb: Seq<Seq<u64>>, k: int)
    requires
        0 <= k,
    ensures
        population(groups_upto(emb, k), groups_upto(emb, k).len() as int) == k,
    decreases k,
{
    if k > 0 {
        lemma_population_upto(emb, k - 1);
        lemma_reps_grow(emb, k - 1, k);
        let a = groups_upto(emb, k - 1);
        let b = groups_upto(emb, k);
        let h = group_of(emb, k - 1);
        let n = a.len() as int;
        if h < n {
            assert(b.len() == n);
            lemma_population_one_more(a, b, n, h);
        } else {
            lemma_first_close_range(emb, reps_upto(emb, k - 1), k - 1, 0);
            assert(h == n);
            assert(b.len() == n + 1);
            lemma_population_same(a, b, n);
            lemma_no_members_yet(emb, n, k - 1);
            assert(b[n].len() == 1);
        }
    }
}

/// The groups are a partition of the answers: every answer is in the group
/// that is its own and in no other, every member of a group is an answer, no
/// group is empty, and the sizes of the groups add up to the number of
/// answers.
pub proof fn lemma_groups_partition(emb: Seq<Seq<u64>>)
    ensures
        forall|i: int|
            0 <= i < emb.len() ==> 0 <= #[trigger] group_of(emb, i) < groups(emb).len() && groups(
                emb,
            )[group_of(emb, i)].contains(i),
        forall|g: int, p: int|
            0 <= g < groups(emb).len() && 0 <= p < groups(emb)[g].len() ==> 0 <= #[trigger] groups(
                emb,
            )[g][p] < emb.len() && group_of(emb, groups(emb)[g][p]) == g,
        forall|g: int, p: int, q: int|
            0 <= g < groups(emb).len() && 0 <= p < q < groups(emb)[g].len() ==> groups(emb)[g][p]
                < groups(emb)[g][q],
        forall|g: int| 0 <= g < groups(emb).len() ==> (#[trigger] groups(emb)[g]).len() > 0,
        population(groups(emb), groups(emb).len() as int) == emb.len(),
{
    let n = emb.len() as int;
    assert forall|i: int| 0 <= i < n implies 0 <= #[trigger] group_of(emb, i) < groups(emb).len()
        && groups(emb)[group_of(emb, i)].contains(i) by {
        lemma_reps_grow(emb, i, n);
        lemma_members(emb, group_of(emb, i), n);
    }
    assert forall|g: int, p: int|
        0 <= g < groups(emb).len() && 0 <= p < groups(emb)[g].len() implies 0 <= #[trigger] groups(
        emb,
    )[g][p] < n && group_of(emb, groups(emb)[g][p]) == g by {
        lemma_members(emb, g, n);
    }
    assert forall|g: int, p: int, q: int|
        0 <= g < groups(emb).len() && 0 <= p < q < groups(emb)[g].len() implies groups(emb)[g][p]
        < groups(emb)[g][q] by {
        lemma_members(emb, g, n);
    }
    assert forall|g: int| 0 <= g < groups(emb).len() implies (#[trigger] groups(emb)[g]).len()
        > 0 by {
        lemma_representative_first(emb, g, n);
    }
    lemma_population_upto(emb, n);
    assert(groups(emb) =~= groups_upto(emb, n));
}

/// The members of the first `n` scores, added up.
pub open spec fn members_sum(scores: Seq<Score>, n: int) -> int
    decreases n,
{
    if n <= 0 {
        0
    } else {
        members_sum(scores, n - 1) + scores[n - 1].members
    }
}

proof fn lemma_members_sum(scores: Seq<Score>, groups: Seq<Seq<int>>, n: int)
    requires
        0 <= n <= scores.len(),
        n <= groups.len(),
        forall|g: int| 0 <= g < n ==> (#[trigger] scores[g]).members == groups[g].len(),
    ensures
        members_sum(scores, n) == population(groups, n),
    decreases n,
{
    if n > 0 {
        lemma_members_sum(scores, groups, n - 1);
    }
}

/// In a consensus over at least one answer the scores add up to one: the
/// members of all groups are as many as the total of each score. The groups
/// are those of [`lemma_groups_partition`].
pub proof fn lemma_scores_sum_to_one(r: ConsensusResult, finals: Seq<Seq<char>>)
    requires
        is_consensus(r, finals),
        finals.len() > 0,
    ensures
        members_sum(r.scores@, r.scores@.len() as int) == finals.len(),
        forall|g: int| 0 <= g < r.scores@.len() ==> (#[trigger] r.scores@[g]).total == finals.len(),
        forall|g: int| 0 <= g < r.scores@.len() ==> (#[trigger] r.scores@[g]).members > 0,
{
    let emb = embeddings(finals);
    lemma_groups_partition(emb);
    lemma_members_sum(r.scores@, groups(emb), r.scores@.len() as int);
}

/// The consensus is a function of the answers in their order: two outcomes
/// for one list hold the same answers, groups, representatives and scores.
pub proof fn lemma_consensus_deterministic(
    a: ConsensusResult,
    b: ConsensusResult,
    finals: Seq<Seq<char>>,
)
    requires
        is_consensus(a, finals),
        is_consensus(b, finals),
    ensures
        texts(a.finals@) == texts(b.finals@),
        index_lists(a.groups@) == index_lists(b.groups@),
        a.scores@ == b.scores@,
        a.representatives@.len() == b.representatives@.len(),
        forall|g: int|
            0 <= g < a.representatives@.len() ==> (#[trigger] a.representatives@[g]).0
                == b.representatives@[g].0 && a.representatives@[g].1@ == b.representatives@[g].1@,
{
    assert(a.scores@ =~= b.scores@);
}

/// The first representative close to answer `i`, as a position among the
/// representatives; their number if there is none.
fn find_home(vectors: &Vec<Vec<u64>>, reps: &Vec<usize>, i: usize) -> (r: usize)
    requires
        i < vectors@.len(),
        forall|j: int| 0 <= j < vectors@.len() ==> is_embedding(#[trigger] vectors@[j]@),
        forall|j: int| 0 <= j < reps@.len() ==> #[trigger] reps@[j] < vectors@.len(),
    ensures
        r == first_close_from(rows(vectors@), indices(reps@), i as int, 0),
        r <= reps@.len(),
{
    let ghost emb = rows(vectors@);
    let ghost chosen = indices(reps@);
    let mut j: usize = 0;
    while j < reps.len()
        invariant
            j <= reps@.len(),
            i < vectors@.len(),
            emb == rows(vectors@),
            chosen == indices(reps@),
            forall|j: int| 0 <= j < vectors@.len() ==> is_embedding(#[trigger] vectors@[j]@),
            forall|j: int| 0 <= j < reps@.len() ==> #[trigger] reps@[j] < vectors@.len(),
            first_close_from(emb, chosen, i as int, 0) == first_close_from(
                emb,
                chosen,
                i as int,
                j as int,
            ),
        decreases reps@.len() - j,
    {
        let rep = reps[j];
        assert(chosen[j as int] == rep);
        assert(emb[i as int] == vectors@[i as int]@);
        assert(emb[rep as int] == vectors@[rep as int]@);
        if similar(&vectors[i], &vectors[rep]) {
            return j;
        }
        j += 1;
    }
    j
}

/// Groups embeddings: each joins the group of the first representative close
/// to it, or starts a group of its own. Hands out the representatives and
/// the groups, both as indices.
pub fn cluster(vectors: &Vec<Vec<u64>>) -> (r: (Vec<usize>, Vec<Vec<usize>>))
    requires
        forall|j: int| 0 <= j < vectors@.len() ==> is_embedding(#[trigger] vectors@[j]@),
    ensures
        indices(r.0@) == representatives(rows(vectors@)),
        index_lists(r.1@) == groups(rows(vectors@)),
{
    let ghost emb = rows(vectors@);
    let mut reps: Vec<usize> = Vec::new();
    let mut lists: Vec<Vec<usize>> = Vec::new();
    let mut i: usize = 0;
    proof {
        assert(indices(reps@) =~= reps_upto(emb, 0));
    }
    while i < vectors.len()
        invariant
            i <= vectors@.len(),
            emb == rows(vectors@),
            forall|j: int| 0 <= j < vectors@.len() ==> is_embedding(#[trigger] vectors@[j]@),
            indices(reps@) == reps_upto(emb, i as int),
            lists@.len() == reps@.len(),
            forall|g: int|
                0 <= g < lists@.len() ==> indices(#[trigger] lists@[g]@) == members_upto(
                    emb,
                    g,
                    i as int,
                ),
        decreases vectors@.len() - i,
    {
        proof {
            lemma_reps(emb, i as int);
            assert forall|j: int| 0 <= j < reps@.len() implies #[trigger] reps@[j]
                < vectors@.len() by {
                assert(indices(reps@)[j] == reps@[j]);
            }
            lemma_first_close_range(emb, reps_upto(emb, i as int), i as int, 0);
        }
        let home = find_home(vectors, &reps, i);
        assert(home == group_of(emb, i as int));
        if home < reps.len() {
            let ghost old_lists = lists@;
            let mut list: Vec<usize> = Vec::new();
            core::mem::swap(&mut list, &mut lists[home]);
            let ghost old_list = list@;
            list.push(i);
            lists.set(home, list);
            proof {
                assert(indices(old_list.push(i)) =~= indices(old_list).push(i as int));
                assert forall|g: int| 0 <= g < lists@.len() implies indices(
                    #[trigger] lists@[g]@,
                ) == members_upto(emb, g, i + 1) by {
                    if g != home {
                        assert(lists@[g] == old_lists[g]);
                    }
                }
            }
        } else {
            let ghost old_reps = reps@;
            let ghost old_lists = lists@;
            reps.push(i);
            let mut list: Vec<usize> = Vec::new();
            list.push(i);
            lists.push(list);
            proof {
                assert(indices(reps@) =~= indices(old_reps).push(i as int));
                lemma_no_members_yet(emb, home as int, i as int);
                assert(indices(list@) =~= Seq::<int>::empty().push(i as int));
                assert forall|g: int| 0 <= g < lists@.len() implies indices(
                    #[trigger] lists@[g]@,
                ) == members_upto(emb, g, i + 1) by {
                    if g < home {
                        assert(lists@[g] == old_lists[g]);
                    }
                }
            }
        }
        i += 1;
    }
    proof {
        assert(index_lists(lists@) =~= groups(emb));
    }
    (reps, lists)
}

/// The consensus over answers whose embeddings are given.
pub fn consensus_of(finals: &[String], vectors: &Vec<Vec<u64>>) -> (r: ConsensusResult)
    requires
        vectors@.len() == finals@.len(),
        forall|j: int| 0 <= j < vectors@.len() ==> is_embedding(#[trigger] vectors@[j]@),
    ensures
        is_consensus_over(r, texts(finals@), rows(vectors@)),
{
    let ghost emb = rows(vectors@);
    let n = finals.len();
    let (reps, lists) = cluster(vectors);
    let total = if n == 0 {
        1
    } else {
        n
    };
    proof {
        lemma_reps(emb, n as int);
        assert(index_lists(lists@).len() == lists@.len());
        assert(indices(reps@).len() == reps@.len());
    }
    let mut kept: Vec<String> = Vec::new();
    let mut i: usize = 0;
    while i < n
        invariant
            i <= n,
            n == finals@.len(),
            kept@.len() == i,
            forall|j: int| 0 <= j < i ==> kept@[j]@ == finals@[j]@,
        decreases n - i,
    {
        kept.push(finals[i].clone());
        i += 1;
    }
    assert(texts(kept@) =~= texts(finals@));
    let mut named: Vec<(usize, String)> = Vec::new();
    let mut scores: Vec<Score> = Vec::new();
    let mut g: usize = 0;
    while g < reps.len()
        invariant
            g <= reps@.len(),
            lists@.len() == reps@.len(),
            n == finals@.len(),
            emb.len() == n,
            indices(reps@) == representatives(emb),
            index_lists(lists@) == groups(emb),
            forall|j: int| 0 <= j < reps_upto(emb, n as int).len() ==> 0 <= #[trigger] reps_upto(
                emb,
                n as int,
            )[j] < n,
            named@.len() == g,
            scores@.len() == g,
            forall|j: int|
                0 <= j < g ==> {
                    &&& (#[trigger] named@[j]).0 == representatives(emb)[j]
                    &&& named@[j].1@ == texts(finals@)[representatives(emb)[j]]
                },
            forall|j: int|
                0 <= j < g ==> {
                    &&& (#[trigger] scores@[j]).members == groups(emb)[j].len()
                    &&& scores@[j].total == total
                },
        decreases reps@.len() - g,
    {
        let rep = reps[g];
        assert(indices(reps@)[g as int] == rep);
        assert(index_lists(lists@)[g as int] == indices(lists@[g as int]@));
        named.push((rep, finals[rep].clone()));
        scores.push(Score { members: lists[g].len(), total: total });
        g += 1;
    }
    ConsensusResult { finals: kept, representatives: named, groups: lists, scores: scores }
}

/// The consensus over a list of answers.
pub fn compute(finals: &[String]) -> (r: ConsensusResult)
    ensures
        is_consensus(r, texts(finals@)),
{
    let mut vectors: Vec<Vec<u64>> = Vec::new();
    let mut i: usize = 0;
    while i < finals.len()
        invariant
            i <= finals@.len(),
            vectors@.len() == i,
            forall|j: int|
                0 <= j < i ==> is_embedding(#[trigger] vectors@[j]@) && vectors@[j]@ == embedding(
                    finals@[j]@,
                ),
        decreases finals@.len() - i,
    {
        vectors.push(embed(finals[i].as_str()));
        i += 1;
    }
    assert(rows(vectors@) =~= embeddings(texts(finals@)));
    consensus_of(finals, &vectors)
}

} // verus!
