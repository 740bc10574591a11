//! The match engine: turns a live query into the list of candidate actions,
//! or into the one action to invoke when the query is unambiguous.

use vstd::prelude::*;
use crate::registry::{Action, find_action, first_with, has_shortcut, names, shortcuts};
use crate::text::{starts_with, to_upper, upper_text};

verus! {

/// What a query resolves to.
#[derive(Debug, PartialEq, Eq)]
pub enum QueryOutcome {
    /// Invoke the action at this registry position, show the whole registry
    /// again and clear the query.
    Invoke(usize),
    /// Show these registry positions, in this order.
    Show(Vec<usize>),
}

/// Every position of a registry of `n` actions, in registry order.
pub open spec fn all_indices(n: nat) -> Seq<usize> {
    Seq::new(n, |i: int| i as usize)
}

/// Whether `r` shows exactly the positions `v`.
pub open spec fn shows(r: QueryOutcome, v: Seq<usize>) -> bool {
    match r {
        QueryOutcome::Show(w) => w@ == v,
        QueryOutcome::Invoke(_) => false,
    }
}

/// Whether `r` invokes the action at position `i`.
pub open spec fn invokes(r: QueryOutcome, i: int) -> bool {
    match r {
        QueryOutcome::Invoke(k) => k == i,
        QueryOutcome::Show(_) => false,
    }
}

/// Whether `v` lists, in registry order, exactly the positions whose
/// shortcut starts with `q`.
pub open spec fn prefix_listing(sc: Seq<Seq<char>>, q: Seq<char>, v: Seq<usize>) -> bool {
    &&& forall|i: int, j: int| 0 <= i < j < v.len() ==> v[i] < v[j]
    &&& forall|k: int| 0 <= k < v.len() ==> v[k] < sc.len() && q.is_prefix_of(#[trigger] sc[v[k] as int])
    &&& forall|k: int| 0 <= k < sc.len() && q.is_prefix_of(#[trigger] sc[k]) ==> v.contains(k as usize)
}

/// Letters mode, on a query already folded to uppercase: the empty query
/// shows everything; an exact shortcut invokes the first action that has it;
/// otherwise the actions whose shortcut starts with the query are shown.
pub open spec fn letters_outcome(sc: Seq<Seq<char>>, q: Seq<char>, r: QueryOutcome) -> bool {
    if q.len() == 0 {
        shows(r, all_indices(sc.len()))
    } else if has_shortcut(sc, q) {
        match r {
            QueryOutcome::Invoke(i) => first_with(sc, q, i as int),
            QueryOutcome::Show(_) => false,
        }
    } else {
        match r {
            QueryOutcome::Show(v) => prefix_listing(sc, q, v@),
            QueryOutcome::Invoke(_) => false,
        }
    }
}

/// Every position of the registry, in order.
pub fn all_positions(n: usize) -> (r: Vec<usize>)
    ensures
        r@ == all_indices(n as nat),
{
    let mut r: Vec<usize> = Vec::new();
    let mut i: usize = 0;
    while i < n
        invariant
            i <= n,
            r@ == all_indices(i as nat),
        decreases n - i,
    {
        r.push(i);
        i = i + 1;
        assert(r@ =~= all_indices(i as nat));
    }
    r
}

/// Letters mode on a query already folded to uppercase.
pub fn match_letters_folded<C>(actions: &Vec<Action<C>>, folded: &String) -> (r: QueryOutcome)
    ensures
        letters_outcome(shortcuts(actions@), folded@, r),
{
    if folded.as_str().unicode_len() == 0 {
        return QueryOutcome::Show(all_positions(actions.len()));
    }
    if let Some(i) = find_action(actions, folded) {
        return QueryOutcome::Invoke(i);
    }
    let ghost sc = shortcuts(actions@);
    let mut v: Vec<usize> = Vec::new();
    let mut i: usize = 0;
    while i < actions.len()
        invariant
            i <= actions@.len(),
            sc == shortcuts(actions@),
            forall|a: int, b: int| 0 <= a < b < v@.len() ==> v@[a] < v@[b],
            forall|k: int| 0 <= k < v@.len() ==> v@[k] < i,
            forall|k: int| 0 <= k < v@.len() ==> folded@.is_prefix_of(#[trigger] sc[v@[k] as int]),
            forall|k: int| 0 <= k < i && folded@.is_prefix_of(#[trigger] sc[k]) ==> v@.contains(k as usize),
        decreases actions@.len() - i,
    {
        assert(sc[i as int] == actions@[i as int].shortcut@);
        let ghost old_v = v@;
        if starts_with(actions[i].shortcut.as_str(), folded.as_str()) {
            v.push(i);
            assert(forall|k: int| 0 <= k < old_v.len() ==> v@[k] == old_v[k]);
            assert(v@[v@.len() - 1] == i);
            assert forall|k: int| 0 <= k <= i && folded@.is_prefix_of(#[trigger] sc[k]) implies v@.contains(k as usize) by {
                if k < i {
                    let p = choose|p: int| 0 <= p < old_v.len() && old_v[p] == k as usize;
                    assert(v@[p] == k as usize);
                }
            }
        }
        i = i + 1;
    }
    QueryOutcome::Show(v)
}

/// Letters mode: the query is folded to uppercase, then resolved against the
/// shortcuts.
pub fn match_letters<C>(actions: &Vec<Action<C>>, query: &str) -> (r: QueryOutcome)
    ensures
        letters_outcome(shortcuts(actions@), upper_text(query@), r),
        query@.len() == 0 ==> shows(r, all_indices(actions@.len())),
{
    let folded = to_upper(query);
    match_letters_folded(actions, &folded)
}

/// The score that the fuzzy matcher gives `query` against `target`, or
/// `None` when the query does not occur in the target as a subsequence.
pub uninterp spec fn fuzzy_score(query: Seq<char>, target: Seq<char>) -> Option<isize>;

/// Relies on `sublime_fuzzy::best_match` (case-insensitive subsequence match)
/// and `Match::score`: the result depends on the two texts alone.
#[verifier::external_body]
fn best_match_score(query: &str, target: &str) -> (r: Option<isize>)
    ensures
        r == fuzzy_score(query@, target@),
{
    sublime_fuzzy::best_match(query, target).map(|m| m.score())
}

/// The score at a matched position.
pub open spec fn score_of(s: Seq<Option<isize>>, k: int) -> int {
    match s[k] {
        Some(x) => x as int,
        None => 0,
    }
}

/// Whether position `a` ranks before position `b`: a higher score first,
/// registry order among equal scores.
pub open spec fn ranks_before(s: Seq<Option<isize>>, a: int, b: int) -> bool {
    score_of(s, a) > score_of(s, b) || (score_of(s, a) == score_of(s, b) && a < b)
}

/// Whether `v` holds exactly the matched positions of `s`, each once,
/// ranked by descending score and, among equal scores, by registry order.
pub open spec fn ranked(s: Seq<Option<isize>>, v: Seq<usize>) -> bool {
    &&& forall|i: int, j: int| 0 <= i < j < v.len() ==> ranks_before(s, v[i] as int, v[j] as int)
    &&& forall|k: int| 0 <= k < v.len() ==> v[k] < s.len() && (#[trigger] s[v[k] as int]) is Some
    &&& forall|k: int| 0 <= k < s.len() && (#[trigger] s[k]) is Some ==> v.contains(k as usize)
}

/// Whether position `i` is the one and only match.
pub open spec fn only_match(s: Seq<Option<isize>>, i: int) -> bool {
    &&& 0 <= i < s.len()
    &&& s[i] is Some
    &&& forall|j: int| 0 <= j < s.len() && j != i ==> s[j] is None
}

/// Fuzzy mode, given the score of each action: a single match is invoked,
/// otherwise the matches are shown ranked.
pub open spec fn fuzzy_outcome(s: Seq<Option<isize>>, r: QueryOutcome) -> bool {
    if exists|i: int| only_match(s, i) {
        match r {
            QueryOutcome::Invoke(i) => only_match(s, i as int),
            QueryOutcome::Show(_) => false,
        }
    } else {
        match r {
            QueryOutcome::Show(v) => ranked(s, v@),
            QueryOutcome::Invoke(_) => false,
        }
    }
}

/// The fuzzy score of `query` against each action's name, in registry order.
pub open spec fn name_scores<C>(actions: Seq<Action<C>>, query: Seq<char>) -> Seq<Option<isize>> {
    names(actions).map_values(|t: Seq<char>| fuzzy_score(query, t))
}

fn score_at(scores: &Vec<Option<isize>>, k: usize) -> (r: isize)
    requires
        k < scores@.len(),
    ensures
        r == score_of(scores@, k as int),
{
    match scores[k] {
        Some(x) => x,
        None => 0,
    }
}

/// Fuzzy mode, given the score of each action (`None` where it does not
/// match): invokes the only match, or ranks the matches, stable on ties.
pub fn rank_matches(scores: &Vec<Option<isize>>) -> (r: QueryOutcome)
    ensures
        fuzzy_outcome(scores@, r),
{
    let ghost s = scores@;
    let mut v: Vec<usize> = Vec::new();
    let mut k: usize = 0;
    while k < scores.len()
        invariant
            s == scores@,
            k <= s.len(),
            forall|i: int, j: int| 0 <= i < j < v@.len() ==> ranks_before(s, v@[i] as int, v@[j] as int),
            forall|i: int| 0 <= i < v@.len() ==> v@[i] < k,
            forall|i: int| 0 <= i < v@.len() ==> (#[trigger] s[v@[i] as int]) is Some,
            forall|i: int| 0 <= i < k && (#[trigger] s[i]) is Some ==> v@.contains(i as usize),
        decreases s.len() - k,
    {
        if let Some(sk) = scores[k] {
            let mut p: usize = 0;
            while p < v.len() && score_at(scores, v[p]) >= sk
                invariant
                    s == scores@,
                    k < s.len(),
                    s[k as int] == Some(sk),
                    p <= v@.len(),
                    forall|i: int| 0 <= i < v@.len() ==> v@[i] < k,
                    forall|i: int| 0 <= i < v@.len() ==> (#[trigger] s[v@[i] as int]) is Some,
                    forall|i: int| 0 <= i < p ==> score_of(s, #[trigger] v@[i] as int) >= sk,
                decreases v@.len() - p,
            {
                p = p + 1;
            }
            let ghost old_v = v@;
            proof {
                if p < old_v.len() {
                    assert(score_of(s, old_v[p as int] as int) < sk);
                    assert forall|j: int| p <= j < old_v.len() implies score_of(s, old_v[j] as int) < sk by {
                        if j > p {
                            assert(ranks_before(s, old_v[p as int] as int, old_v[j] as int));
                        }
                    }
                }
            }
            v.insert(p, k);
            assert(v@ == old_v.insert(p as int, k));
            assert forall|i: int, j: int| 0 <= i < j < v@.len() implies ranks_before(
                s,
                v@[i] as int,
                v@[j] as int,
            ) by {
                if j < p {
                    assert(v@[i] == old_v[i] && v@[j] == old_v[j]);
                } else if j == p {
                    assert(v@[i] == old_v[i]);
                } else if i < p {
                    assert(v@[i] == old_v[i] && v@[j] == old_v[j - 1]);
                } else if i == p {
                    assert(v@[j] == old_v[j - 1]);
                } else {
                    assert(v@[i] == old_v[i - 1] && v@[j] == old_v[j - 1]);
                }
            }
            assert forall|i: int| 0 <= i <= k && (#[trigger] s[i]) is Some implies v@.contains(i as usize) by {
                if i < k {
                    let q = choose|q: int| 0 <= q < old_v.len() && old_v[q] == i as usize;
                    if q < p {
                        assert(v@[q] == i as usize);
                    } else {
                        assert(v@[q + 1] == i as usize);
                    }
                } else {
                    assert(v@[p as int] == k);
                }
            }
            assert forall|i: int| 0 <= i < v@.len() implies v@[i] < k + 1 && (#[trigger] s[v@[i] as int]) is Some by {
                if i < p {
                    assert(v@[i] == old_v[i]);
                } else if i > p {
                    assert(v@[i] == old_v[i - 1]);
                }
            }
        }
        k = k + 1;
    }
    if v.len() == 1 {
        proof {
            assert forall|j: int| 0 <= j < s.len() && j != v@[0] implies s[j] is None by {
                if s[j] is Some {
                    assert(v@.contains(j as usize));
                }
            }
            assert(s[v@[0] as int] is Some);
            assert(only_match(s, v@[0] as int));
        }
        QueryOutcome::Invoke(v[0])
    } else {
        proof {
            if exists|i: int| only_match(s, i) {
                let i = choose|i: int| only_match(s, i);
                assert(v@.contains(i as usize));
                assert(v@.len() >= 2);
                assert(s[v@[0] as int] is Some);
                assert(s[v@[1] as int] is Some);
                assert(ranks_before(s, v@[0] as int, v@[1] as int));
            }
            assert(ranked(s, v@));
        }
        QueryOutcome::Show(v)
    }
}

/// Fuzzy mode: the empty query shows everything; otherwise each name is
/// scored against the query and the scores are resolved by [`rank_matches`].
pub fn match_fuzzy<C>(actions: &Vec<Action<C>>, query: &str) -> (r: QueryOutcome)
    ensures
        query@.len() == 0 ==> shows(r, all_indices(actions@.len())),
        query@.len() > 0 ==> fuzzy_outcome(name_scores(actions@, query@), r),
{
    if query.unicode_len() == 0 {
        return QueryOutcome::Show(all_positions(actions.len()));
    }
    let mut scores: Vec<Option<isize>> = Vec::new();
    let mut i: usize = 0;
    while i < actions.len()
        invariant
            i <= actions@.len(),
            scores@ == name_scores(actions@, query@).subrange(0, i as int),
        decreases actions@.len() - i,
    {
        let sc = best_match_score(query, actions[i].name.as_str());
        scores.push(sc);
        i = i + 1;
        assert(scores@ =~= name_scores(actions@, query@).subrange(0, i as int));
    }
    assert(scores@ =~= name_scores(actions@, query@));
    rank_matches(&scores)
}

/// Resolves a query in either mode. The empty query shows the whole registry
/// in either mode.
pub fn match_query<C>(actions: &Vec<Action<C>>, query: &str, letters_mode: bool) -> (r: QueryOutcome)
    ensures
        query@.len() == 0 ==> shows(r, all_indices(actions@.len())),
        letters_mode ==> letters_outcome(shortcuts(actions@), upper_text(query@), r),
        !letters_mode && query@.len() > 0 ==> fuzzy_outcome(name_scores(actions@, query@), r),
{
    if letters_mode {
        match_letters(actions, query)
    } else {
        match_fuzzy(actions, query)
    }
}

/// Letters mode: a non-empty folded query that equals the shortcut of exactly
/// one action invokes that action.
pub proof fn law_letters_single_exact_hit(sc: Seq<Seq<char>>, q: Seq<char>, i: int, r: QueryOutcome)
    requires
        letters_outcome(sc, q, r),
        q.len() > 0,
        0 <= i < sc.len(),
        sc[i] == q,
        forall|j: int| 0 <= j < sc.len() && j != i ==> sc[j] != q,
    ensures
        invokes(r, i),
{
    assert(has_shortcut(sc, q));
}

/// Letters mode: a non-empty folded query that is no action's shortcut
/// invokes nothing and shows, in registry order, exactly the actions whose
/// shortcut starts with it.
pub proof fn law_letters_prefix_listing(sc: Seq<Seq<char>>, q: Seq<char>, r: QueryOutcome)
    requires
        letters_outcome(sc, q, r),
        q.len() > 0,
        forall|j: int| 0 <= j < sc.len() ==> sc[j] != q,
    ensures
        match r {
            QueryOutcome::Show(v) => prefix_listing(sc, q, v@),
            QueryOutcome::Invoke(_) => false,
        },
{
}

/// Fuzzy mode: when exactly one action matches, it is invoked.
pub proof fn law_fuzzy_single_match(s: Seq<Option<isize>>, i: int, r: QueryOutcome)
    requires
        fuzzy_outcome(s, r),
        0 <= i < s.len(),
        s[i] is Some,
        forall|j: int| 0 <= j < s.len() && j != i ==> s[j] is None,
    ensures
        invokes(r, i),
{
    assert(only_match(s, i));
}

/// Fuzzy mode: when two or more actions match, nothing is invoked and the
/// matches are shown by descending score, in registry order among equal
/// scores.
pub proof fn law_fuzzy_ranked(s: Seq<Option<isize>>, a: int, b: int, r: QueryOutcome)
    requires
        fuzzy_outcome(s, r),
        0 <= a < s.len(),
        0 <= b < s.len(),
        a != b,
        s[a] is Some,
        s[b] is Some,
    ensures
        match r {
            QueryOutcome::Show(v) => ranked(s, v@),
            QueryOutcome::Invoke(_) => false,
        },
{
    assert forall|i: int| !only_match(s, i) by {
        if only_match(s, i) {
            if i == a {
                assert(s[b] is None);
            } else {
                assert(s[a] is None);
            }
        }
    }
}

/// Whether `v` is strictly ordered by [`ranks_before`].
pub open spec fn rank_sorted(s: Seq<Option<isize>>, v: Seq<usize>) -> bool {
    forall|i: int, j: int| 0 <= i < j < v.len() ==> ranks_before(s, v[i] as int, v[j] as int)
}

proof fn lemma_rank_sorted_unique(s: Seq<Option<isize>>, v: Seq<usize>, w: Seq<usize>)
    requires
        rank_sorted(s, v),
        rank_sorted(s, w),
        forall|x: usize| v.contains(x) <==> w.contains(x),
    ensures
        v == w,
    decreases v.len(),
{
    if v.len() == 0 {
        if w.len() > 0 {
            assert(w.contains(w[0]));
        }
        assert(v =~= w);
    } else {
        assert(v.contains(v[0]));
        let p = choose|p: int| 0 <= p < w.len() && w[p] == v[0];
        assert(w.contains(w[0]));
        let q = choose|q: int| 0 <= q < v.len() && v[q] == w[0];
        if p > 0 {
            assert(ranks_before(s, w[0] as int, w[p] as int));
            if q > 0 {
                assert(ranks_before(s, v[0] as int, v[q] as int));
            }
        }
        assert(v[0] == w[0]);
        let v1 = v.drop_first();
        let w1 = w.drop_first();
        assert forall|x: usize| v1.contains(x) <==> w1.contains(x) by {
            if v1.contains(x) {
                let i = choose|i: int| 0 <= i < v1.len() && v1[i] == x;
                assert(ranks_before(s, v[0] as int, v[i + 1] as int));
                assert(v.contains(x));
                let j = choose|j: int| 0 <= j < w.len() && w[j] == x;
                assert(j != 0);
                assert(w1[j - 1] == x);
            }
            if w1.contains(x) {
                let i = choose|i: int| 0 <= i < w1.len() && w1[i] == x;
                assert(ranks_before(s, w[0] as int, w[i + 1] as int));
                assert(w.contains(x));
                let j = choose|j: int| 0 <= j < v.len() && v[j] == x;
                assert(j != 0);
                assert(v1[j - 1] == x);
            }
        }
        lemma_rank_sorted_unique(s, v1, w1);
        assert forall|i: int| 0 < i < v.len() implies v[i] == w[i] by {
            assert(v[i] == v1[i - 1]);
            assert(w[i] == w1[i - 1]);
        }
        assert(v =~= w);
    }
}

/// Fuzzy mode: the ranked list of matches is determined by the scores; no
/// two different lists are both ranked.
pub proof fn law_fuzzy_ranking_unique(s: Seq<Option<isize>>, v: Seq<usize>, w: Seq<usize>)
    requires
        ranked(s, v),
        ranked(s, w),
    ensures
        v == w,
{
    assert forall|x: usize| v.contains(x) <==> w.contains(x) by {
        if v.contains(x) {
            let i = choose|i: int| 0 <= i < v.len() && v[i] == x;
            assert(s[v[i] as int] is Some);
        }
        if w.contains(x) {
            let i = choose|i: int| 0 <= i < w.len() && w[i] == x;
            assert(s[w[i] as int] is Some);
        }
    }
    lemma_rank_sorted_unique(s, v, w);
}

proof fn lemma_increasing_unique(v: Seq<usize>, w: Seq<usize>)
    requires
        forall|i: int, j: int| 0 <= i < j < v.len() ==> v[i] < v[j],
        forall|i: int, j: int| 0 <= i < j < w.len() ==> w[i] < w[j],
        forall|x: usize| v.contains(x) <==> w.contains(x),
    ensures
        v == w,
    decreases v.len(),
{
    if v.len() == 0 {
        if w.len() > 0 {
            assert(w.contains(w[0]));
        }
        assert(v =~= w);
    } else {
        assert(v.contains(v[0]));
        let p = choose|p: int| 0 <= p < w.len() && w[p] == v[0];
        assert(w.contains(w[0]));
        let q = choose|q: int| 0 <= q < v.len() && v[q] == w[0];
        if p > 0 && q > 0 {
            assert(w[0] < w[p]);
            assert(v[0] < v[q]);
        }
        assert(v[0] == w[0]);
        let v1 = v.drop_first();
        let w1 = w.drop_first();
        assert forall|x: usize| v1.contains(x) <==> w1.contains(x) by {
            if v1.contains(x) {
                let i = choose|i: int| 0 <= i < v1.len() && v1[i] == x;
                assert(v[0] < v[i + 1]);
                assert(v.contains(x));
                let j = choose|j: int| 0 <= j < w.len() && w[j] == x;
                assert(j != 0);
                assert(w1[j - 1] == x);
            }
            if w1.contains(x) {
                let i = choose|i: int| 0 <= i < w1.len() && w1[i] == x;
                assert(w[0] < w[i + 1]);
                assert(w.contains(x));
                let j = choose|j: int| 0 <= j < v.len() && v[j] == x;
                assert(j != 0);
                assert(v1[j - 1] == x);
            }
        }
        lemma_increasing_unique(v1, w1);
        assert forall|i: int| 0 < i < v.len() implies v[i] == w[i] by {
            assert(v[i] == v1[i - 1]);
            assert(w[i] == w1[i - 1]);
        }
        assert(v =~= w);
    }
}

/// Letters mode: the list of actions whose shortcut starts with a query is
/// determined by the shortcuts; no two different lists both qualify.
pub proof fn law_letters_prefix_listing_unique(
    sc: Seq<Seq<char>>,
    q: Seq<char>,
    v: Seq<usize>,
    w: Seq<usize>,
)
    requires
        prefix_listing(sc, q, v),
        prefix_listing(sc, q, w),
    ensures
        v == w,
{
    assert forall|x: usize| v.contains(x) <==> w.contains(x) by {
        if v.contains(x) {
            let i = choose|i: int| 0 <= i < v.len() && v[i] == x;
            assert(q.is_prefix_of(sc[v[i] as int]));
        }
        if w.contains(x) {
            let i = choose|i: int| 0 <= i < w.len() && w[i] == x;
            assert(q.is_prefix_of(sc[w[i] as int]));
        }
    }
    lemma_increasing_unique(v, w);
}

} // verus!
