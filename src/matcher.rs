use crate::cli::CaseSensitivity;
use fuzzy_matcher::skim::SkimMatcherV2;
use fuzzy_matcher::FuzzyMatcher;
use vstd::prelude::*;

verus! {

/// What the skim matcher in smart-case mode makes of `key` against `query`:
/// a score and the matched character positions, or no match.
pub uninterp spec fn smart_case_match(key: Seq<char>, query: Seq<char>) -> Option<(i64, Seq<usize>)>;

/// What the skim matcher in case-respecting mode makes of `key` against `query`.
pub uninterp spec fn respect_case_match(key: Seq<char>, query: Seq<char>) -> Option<(i64, Seq<usize>)>;

/// What the skim matcher in case-ignoring mode makes of `key` against `query`.
pub uninterp spec fn ignore_case_match(key: Seq<char>, query: Seq<char>) -> Option<(i64, Seq<usize>)>;

pub open spec fn match_view(r: Option<(i64, Vec<usize>)>) -> Option<(i64, Seq<usize>)> {
    match r {
        Some((score, positions)) => Some((score, positions@)),
        None => None,
    }
}

/// The fuzzy match of `key` against `query` under the given case handling.
pub open spec fn fuzzy_match_of(case: CaseSensitivity, key: Seq<char>, query: Seq<char>) -> Option<
    (i64, Seq<usize>),
> {
    match case {
        CaseSensitivity::Smart => smart_case_match(key, query),
        CaseSensitivity::Respect => respect_case_match(key, query),
        CaseSensitivity::Ignore => ignore_case_match(key, query),
    }
}

/// Relies on fuzzy_matcher's `SkimMatcherV2::smart_case` and `fuzzy_indices`:
/// the outcome depends on the two strings alone.
#[verifier::external_body]
fn skim_smart_case(key: &str, query: &str) -> (r: Option<(i64, Vec<usize>)>)
    ensures
        match_view(r) == smart_case_match(key@, query@),
{
    SkimMatcherV2::default().smart_case().fuzzy_indices(key, query)
}

/// Relies on fuzzy_matcher's `SkimMatcherV2::respect_case` and `fuzzy_indices`:
/// the outcome depends on the two strings alone.
#[verifier::external_body]
fn skim_respect_case(key: &str, query: &str) -> (r: Option<(i64, Vec<usize>)>)
    ensures
        match_view(r) == respect_case_match(key@, query@),
{
    SkimMatcherV2::default().respect_case().fuzzy_indices(key, query)
}

/// Relies on fuzzy_matcher's `SkimMatcherV2::ignore_case` and `fuzzy_indices`:
/// the outcome depends on the two strings alone.
#[verifier::external_body]
fn skim_ignore_case(key: &str, query: &str) -> (r: Option<(i64, Vec<usize>)>)
    ensures
        match_view(r) == ignore_case_match(key@, query@),
{
    SkimMatcherV2::default().ignore_case().fuzzy_indices(key, query)
}

/// Fuzzy-matches `key` against `query` with the chosen case handling.
pub fn fuzzy_indices(case: CaseSensitivity, key: &str, query: &str) -> (r: Option<(i64, Vec<usize>)>)
    ensures
        match_view(r) == fuzzy_match_of(case, key@, query@),
{
    match case {
        CaseSensitivity::Smart => skim_smart_case(key, query),
        CaseSensitivity::Respect => skim_respect_case(key, query),
        CaseSensitivity::Ignore => skim_ignore_case(key, query),
    }
}

/// Whether position `i` outranks position `j`: both scored, `i` higher, or
/// equal and earlier.
pub open spec fn outranks(scores: Seq<Option<i64>>, i: int, j: int) -> bool {
    &&& scores[i] is Some
    &&& scores[j] is Some
    &&& (scores[i]->0 > scores[j]->0 || (scores[i]->0 == scores[j]->0 && i < j))
}

pub open spec fn scored(scores: Seq<Option<i64>>, c: int) -> bool {
    0 <= c < scores.len() && scores[c] is Some
}

/// `top` lists the best-scored positions, best first, as many as `n` allows.
pub open spec fn best_scored(scores: Seq<Option<i64>>, top: Seq<usize>, n: nat) -> bool {
    &&& top.len() <= n
    &&& forall|k: int| 0 <= k < top.len() ==> scored(scores, #[trigger] top[k] as int)
    &&& forall|k1: int, k2: int| 0 <= k1 < k2 < top.len() ==> outranks(scores, top[k1] as int, top[k2] as int)
    &&& forall|c: int, k: int|
        #![trigger top[k], scored(scores, c)]
        0 <= k < top.len() && scored(scores, c) && !top.contains(c as usize) ==> outranks(scores, top[k] as int, c)
    &&& top.len() < n ==> forall|c: int| #[trigger] scored(scores, c) ==> top.contains(c as usize)
}

fn contains_position(v: &Vec<usize>, x: usize) -> (r: bool)
    ensures
        r == v@.contains(x),
{
    let mut i: usize = 0;
    while i < v.len()
        invariant
            i <= v.len(),
            forall|k: int| 0 <= k < i ==> v@[k] != x,
        decreases v.len() - i,
    {
        if v[i] == x {
            assert(v@[i as int] == x);
            return true;
        }
        i = i + 1;
    }
    false
}

/// The positions of the `n` best scores, best first; unscored positions never
/// appear.
pub fn rank_by_score(scores: &Vec<Option<i64>>, n: usize) -> (r: Vec<usize>)
    ensures
        best_scored(scores@, r@, n as nat),
{
    let mut top: Vec<usize> = Vec::new();
    while top.len() < n
        invariant
            top@.len() <= n,
            forall|k: int| 0 <= k < top@.len() ==> scored(scores@, #[trigger] top@[k] as int),
            forall|k1: int, k2: int| 0 <= k1 < k2 < top@.len() ==> outranks(scores@, top@[k1] as int, top@[k2] as int),
            forall|c: int, k: int|
                #![trigger top@[k], scored(scores@, c)]
                0 <= k < top@.len() && scored(scores@, c) && !top@.contains(c as usize) ==> outranks(
                    scores@,
                    top@[k] as int,
                    c,
                ),
        ensures
            best_scored(scores@, top@, n as nat),
        decreases n - top@.len(),
    {
        let mut best: Option<usize> = None;
        let mut i: usize = 0;
        while i < scores.len()
            invariant
                i <= scores@.len(),
                match best {
                    Some(b) => {
                        &&& b < i
                        &&& scored(scores@, b as int)
                        &&& !top@.contains(b)
                        &&& forall|c: int|
                            #![trigger scored(scores@, c)]
                            0 <= c < i && scored(scores@, c) && !top@.contains(c as usize) && c != b ==> outranks(
                                scores@,
                                b as int,
                                c,
                            )
                    },
                    None => forall|c: int| #![trigger scored(scores@, c)] 0 <= c < i && scored(scores@, c) ==> top@.contains(c as usize),
                },
            decreases scores@.len() - i,
        {
            if let Some(s) = scores[i] {
                if !contains_position(&top, i) {
                    match best {
                        None => {
                            best = Some(i);
                        },
                        Some(b) => {
                            if let Some(t) = scores[b] {
                                if s > t {
                                    best = Some(i);
                                }
                            }
                        },
                    }
                }
            }
            i = i + 1;
        }
        match best {
            None => {
                break;
            },
            Some(b) => {
                let ghost old_top = top@;
                top.push(b);
                assert forall|c: int, k: int|
                    #![trigger top@[k], scored(scores@, c)]
                    0 <= k < top@.len() && scored(scores@, c) && !top@.contains(c as usize) implies outranks(
                        scores@,
                        top@[k] as int,
                        c,
                    ) by {
                    assert(!old_top.contains(c as usize)) by {
                        if old_top.contains(c as usize) {
                            let w = choose|w: int| 0 <= w < old_top.len() && old_top[w] == c as usize;
                            assert(top@[w] == c as usize);
                        }
                    }
                    if k < old_top.len() {
                        assert(top@[k] == old_top[k]);
                    } else {
                        assert(c != b as int) by {
                            assert(top@[old_top.len() as int] == b);
                        }
                    }
                }
                assert forall|k1: int, k2: int| 0 <= k1 < k2 < top@.len() implies outranks(
                    scores@,
                    top@[k1] as int,
                    top@[k2] as int,
                ) by {
                    assert(top@[k1] == old_top[k1]);
                    if k2 < old_top.len() {
                        assert(top@[k2] == old_top[k2]);
                    } else {
                        assert(top@[k2] == b);
                        assert(scored(scores@, old_top[k1] as int));
                    }
                }
                assert forall|k: int| 0 <= k < top@.len() implies scored(scores@, #[trigger] top@[k] as int) by {
                    if k < old_top.len() {
                        assert(top@[k] == old_top[k]);
                    }
                }
            },
        }
    }
    top
}

/// The ignore-case fuzzy score of `name` against `pattern`, if it matches.
pub open spec fn suggestion_score(name: Seq<char>, pattern: Seq<char>) -> Option<i64> {
    match ignore_case_match(name, pattern) {
        Some((s, _)) => Some(s),
        None => None,
    }
}

/// The suggestion score of each name.
pub open spec fn suggestion_scores(names: Seq<String>, pattern: Seq<char>) -> Seq<Option<i64>> {
    Seq::new(names.len(), |i: int| suggestion_score(names[i]@, pattern))
}

/// Up to `n` of the `installed` names that fuzzy-match `pattern` ignoring
/// case, best match first, earlier names first among equals.
pub fn similar_fonts(installed: &Vec<String>, pattern: &str, n: usize) -> (r: Vec<String>)
    ensures
        exists|top: Seq<usize>|
            {
                &&& #[trigger] best_scored(suggestion_scores(installed@, pattern@), top, n as nat)
                &&& r@.len() == top.len()
                &&& forall|k: int| 0 <= k < top.len() ==> #[trigger] r@[k] == installed@[top[k] as int]
            },
{
    let ghost want = suggestion_scores(installed@, pattern@);
    let mut scores: Vec<Option<i64>> = Vec::new();
    let mut i: usize = 0;
    while i < installed.len()
        invariant
            i <= installed@.len(),
            scores@ == want.subrange(0, i as int),
            want == suggestion_scores(installed@, pattern@),
            want.len() == installed@.len(),
        decreases installed@.len() - i,
    {
        let score = match fuzzy_indices(CaseSensitivity::Ignore, installed[i].as_str(), pattern) {
            Some((s, _)) => Some(s),
            None => None,
        };
        scores.push(score);
        assert(scores@ =~= want.subrange(0, i as int + 1));
        i = i + 1;
    }
    assert(scores@ =~= want);
    let top = rank_by_score(&scores, n);
    let mut r: Vec<String> = Vec::new();
    let mut k: usize = 0;
    while k < top.len()
        invariant
            best_scored(want, top@, n as nat),
            want.len() == installed@.len(),
            k <= top@.len(),
            r@.len() == k,
            forall|q: int| 0 <= q < k ==> #[trigger] r@[q] == installed@[top@[q] as int],
        decreases top@.len() - k,
    {
        assert(scored(want, top@[k as int] as int));
        r.push(installed[top[k]].clone());
        k = k + 1;
    }
    assert(best_scored(suggestion_scores(installed@, pattern@), top@, n as nat));
    r
}

} // verus!
