//! Types and functions for working with permissions.
//!
//! A permission pattern is a string of dot-separated segments; the final
//! segment may be the wildcard `*`, which matches any single segment. A
//! pattern matches a query exactly when both have the same number of segments
//! and every pattern segment is either the wildcard or equal to the query's
//! segment at that position. Among matching rules, a deeper pattern is more
//! specific than a shallower one, and at equal depth a literal final segment
//! is more specific than the wildcard. Among rules of exactly equal
//! specificity, the first one seen wins.

use core::cmp::Ordering;
use vstd::prelude::*;
use vstd::string::*;

verus! {

/// The dot-delimited segments of a pattern or query. Every string has at
/// least one segment; each dot ends the segment before it, so a trailing dot
/// yields a final empty segment.
pub open spec fn segments(s: Seq<char>) -> Seq<Seq<char>>
    decreases s.len(),
{
    if s.len() == 0 {
        seq![Seq::<char>::empty()]
    } else if s.last() == '.' {
        segments(s.drop_last()).push(Seq::<char>::empty())
    } else {
        let prev = segments(s.drop_last());
        prev.update(prev.len() - 1, prev.last().push(s.last()))
    }
}

/// The number of segments of a pattern or query (delimiter count + 1).
pub open spec fn depth(s: Seq<char>) -> int {
    segments(s).len() as int
}

/// Whether the final segment of a pattern is the wildcard token `*`.
pub open spec fn ends_in_wildcard(s: Seq<char>) -> bool {
    segments(s).last() == seq!['*']
}

/// Whether a pattern matches a query: both have the same number of segments,
/// and each pattern segment is either the wildcard or exactly the query's
/// segment at that position.
pub open spec fn pattern_matches(pattern: Seq<char>, query: Seq<char>) -> bool {
    &&& depth(pattern) == depth(query)
    &&& forall|i: int|
        0 <= i < depth(pattern) ==> #[trigger] segments(pattern)[i] == seq!['*'] || segments(
            pattern,
        )[i] == segments(query)[i]
}

/// The specificity ordering between two patterns: a strictly deeper pattern
/// is more specific, regardless of wildcards; at equal depth a literal final
/// segment beats the wildcard; otherwise the patterns are equally specific.
pub open spec fn compare_spec(a: Seq<char>, b: Seq<char>) -> Ordering {
    if depth(a) < depth(b) {
        Ordering::Less
    } else if depth(a) > depth(b) {
        Ordering::Greater
    } else if ends_in_wildcard(a) && !ends_in_wildcard(b) {
        Ordering::Less
    } else if !ends_in_wildcard(a) && ends_in_wildcard(b) {
        Ordering::Greater
    } else {
        Ordering::Equal
    }
}

/// Every string splits into at least one segment.
pub proof fn lemma_segments_nonempty(s: Seq<char>)
    ensures
        segments(s).len() >= 1,
    decreases s.len(),
{
    if s.len() != 0 {
        lemma_segments_nonempty(s.drop_last());
    }
}

/// The views of a sequence of owned segment strings.
spec fn seg_views(ss: Seq<String>) -> Seq<Seq<char>> {
    Seq::new(ss.len(), |i: int| ss[i]@)
}

/// Split a string into its dot-delimited segments.
fn split_segments(s: &str) -> (segs: Vec<String>)
    ensures
        seg_views(segs@) == segments(s@),
{
    let n: usize = s.unicode_len();
    let mut segs: Vec<String> = Vec::new();
    let mut start: usize = 0;
    let mut i: usize = 0;
    proof {
        assert(s@.take(0) =~= Seq::<char>::empty());
        assert(s@.subrange(0, 0) =~= Seq::<char>::empty());
        assert(seg_views(segs@).push(s@.subrange(0, 0)) =~= seq![Seq::<char>::empty()]);
    }
    while i < n
        invariant
            start <= i <= n,
            n == s@.len(),
            seg_views(segs@).push(s@.subrange(start as int, i as int)) == segments(
                s@.take(i as int),
            ),
        decreases n - i,
    {
        let c = s.get_char(i);
        proof {
            assert(s@.take(i as int + 1).drop_last() =~= s@.take(i as int));
            assert(s@.take(i as int + 1).last() == s@[i as int]);
        }
        if c == '.' {
            let seg = s.substring_char(start, i).to_owned();
            proof {
                assert(seg_views(segs@.push(seg)) =~= seg_views(segs@).push(seg@));
                assert(s@.subrange(i as int + 1, i as int + 1) =~= Seq::<char>::empty());
                assert(segments(s@.take(i as int + 1)) == segments(s@.take(i as int)).push(
                    Seq::<char>::empty(),
                ));
            }
            segs.push(seg);
            start = i + 1;
        } else {
            proof {
                let prev = segments(s@.take(i as int));
                assert(segments(s@.take(i as int + 1)) == prev.update(
                    prev.len() - 1,
                    prev.last().push(s@[i as int]),
                ));
                assert(s@.subrange(start as int, i as int).push(s@[i as int]) =~= s@.subrange(
                    start as int,
                    i as int + 1,
                ));
                assert(prev.update(prev.len() - 1, prev.last().push(s@[i as int]))
                    =~= seg_views(segs@).push(s@.subrange(start as int, i as int + 1)));
            }
        }
        i += 1;
    }
    let last_seg = s.substring_char(start, n).to_owned();
    proof {
        assert(s@.take(n as int) =~= s@);
        assert(seg_views(segs@.push(last_seg)) =~= seg_views(segs@).push(last_seg@));
    }
    segs.push(last_seg);
    segs
}

/// Whether a pattern matches a query: equal segment counts, and each pattern
/// segment is the wildcard or equals the query's segment at that position.
pub fn matches_query(pattern: &str, query: &str) -> (m: bool)
    ensures
        m == pattern_matches(pattern@, query@),
{
    let ps = split_segments(pattern);
    let qs = split_segments(query);
    if ps.len() != qs.len() {
        return false;
    }
    let star: String = "*".to_owned();
    proof {
        reveal_strlit("*");
        assert(star@ =~= seq!['*']);
    }
    let mut i: usize = 0;
    while i < ps.len()
        invariant
            i <= ps.len() == qs.len(),
            seg_views(ps@) == segments(pattern@),
            seg_views(qs@) == segments(query@),
            star@ == seq!['*'],
            forall|j: int|
                0 <= j < i ==> #[trigger] segments(pattern@)[j] == seq!['*'] || segments(
                    pattern@,
                )[j] == segments(query@)[j],
        decreases ps.len() - i,
    {
        if !(ps[i] == star || ps[i] == qs[i]) {
            proof {
                assert(segments(pattern@)[i as int] != seq!['*'] && segments(pattern@)[i as int]
                    != segments(query@)[i as int]);
            }
            return false;
        }
        i += 1;
    }
    true
}

/// Compares two permission patterns and calculates which one takes priority
/// over the other when both match the same query.
pub fn compare_permission_depth(perm: &str, other_perm: &str) -> (o: Ordering)
    ensures
        o == compare_spec(perm@, other_perm@),
{
    let ps = split_segments(perm);
    let qs = split_segments(other_perm);
    proof {
        lemma_segments_nonempty(perm@);
        lemma_segments_nonempty(other_perm@);
    }
    if ps.len() < qs.len() {
        Ordering::Less
    } else if ps.len() > qs.len() {
        Ordering::Greater
    } else {
        let star: String = "*".to_owned();
        proof {
            reveal_strlit("*");
            assert(star@ =~= seq!['*']);
        }
        let pw = ps[ps.len() - 1] == star;
        let qw = qs[qs.len() - 1] == star;
        if pw && !qw {
            Ordering::Less
        } else if !pw && qw {
            Ordering::Greater
        } else {
            Ordering::Equal
        }
    }
}

/// The rules of an executable rule list, as pairs of pattern view and outcome.
pub open spec fn rules_view(perms: Seq<(String, bool)>) -> Seq<(Seq<char>, bool)> {
    Seq::new(perms.len(), |i: int| (perms[i].0@, perms[i].1))
}

/// The winning rule after scanning `rules` left to right: the first matching
/// rule, replaced whenever a strictly more specific matching rule appears
/// later. Ties keep the earlier rule.
pub open spec fn winner(rules: Seq<(Seq<char>, bool)>, query: Seq<char>) -> Option<
    (Seq<char>, bool),
>
    decreases rules.len(),
{
    if rules.len() == 0 {
        None
    } else {
        let prev = winner(rules.drop_last(), query);
        let rule = rules.last();
        if pattern_matches(rule.0, query) {
            match prev {
                None => Some(rule),
                Some(w) => if compare_spec(rule.0, w.0) == Ordering::Greater {
                    Some(rule)
                } else {
                    Some(w)
                },
            }
        } else {
            prev
        }
    }
}

/// The resolution outcome: the winning rule's outcome, or `None` when no
/// rule's pattern matches the query.
pub open spec fn resolution(rules: Seq<(Seq<char>, bool)>, query: Seq<char>) -> Option<bool> {
    match winner(rules, query) {
        None => None,
        Some(w) => Some(w.1),
    }
}

/// Checks if a permission is allowed in some permission collection.
///
/// Returns `None` if no permissions were matched.
pub fn has_permission(perms: &Vec<(String, bool)>, query: &str) -> (r: Option<bool>)
    ensures
        r == resolution(rules_view(perms@), query@),
{
    let mut best: Option<usize> = None;
    let mut i: usize = 0;
    while i < perms.len()
        invariant
            i <= perms.len(),
            match best {
                None => winner(rules_view(perms@).take(i as int), query@) is None,
                Some(j) => j < i && winner(rules_view(perms@).take(i as int), query@) == Some(
                    (perms@[j as int].0@, perms@[j as int].1),
                ),
            },
        decreases perms.len() - i,
    {
        proof {
            let rv = rules_view(perms@);
            assert(rv.take(i as int + 1).drop_last() =~= rv.take(i as int));
            assert(rv.take(i as int + 1).last() == rv[i as int]);
        }
        if matches_query(perms[i].0.as_str(), query) {
            match best {
                None => {
                    best = Some(i);
                },
                Some(j) => {
                    let ord = compare_permission_depth(
                        perms[i].0.as_str(),
                        perms[j].0.as_str(),
                    );
                    if let Ordering::Greater = ord {
                        best = Some(i);
                    }
                },
            }
        }
        i += 1;
    }
    proof {
        assert(rules_view(perms@).take(perms.len() as int) =~= rules_view(perms@));
    }
    match best {
        None => None,
        Some(j) => Some(perms[j].1),
    }
}

/// Specificity comparison is antisymmetric: swapping the arguments turns
/// `Less` into `Greater` and back, and every pattern compares `Equal` to
/// itself.
pub proof fn lemma_compare_antisymmetry(a: Seq<char>, b: Seq<char>)
    ensures
        compare_spec(a, b) == Ordering::Less <==> compare_spec(b, a) == Ordering::Greater,
        compare_spec(a, b) == Ordering::Equal <==> compare_spec(b, a) == Ordering::Equal,
        compare_spec(a, a) == Ordering::Equal,
{
}

/// Depth dominance: a strictly deeper pattern is more specific, independent
/// of any wildcard content.
pub proof fn lemma_depth_dominates(a: Seq<char>, b: Seq<char>)
    requires
        depth(a) > depth(b),
    ensures
        compare_spec(a, b) == Ordering::Greater,
{
}

/// At equal depth, a pattern whose final segment is the wildcard is less
/// specific than one whose final segment is a literal.
pub proof fn lemma_wildcard_less_specific(a: Seq<char>, b: Seq<char>)
    requires
        depth(a) == depth(b),
        ends_in_wildcard(a),
        !ends_in_wildcard(b),
    ensures
        compare_spec(a, b) == Ordering::Less,
{
}

/// Matching requires equal segment counts: a pattern never matches a query
/// with a different number of segments.
pub proof fn lemma_match_requires_equal_depth(pattern: Seq<char>, query: Seq<char>)
    ensures
        pattern_matches(pattern, query) ==> depth(pattern) == depth(query),
{
}

/// The resolution is `None` exactly when no rule's pattern matches the query;
/// in particular it is `None` for the empty rule set.
pub proof fn lemma_undetermined_iff_no_match(rules: Seq<(Seq<char>, bool)>, query: Seq<char>)
    ensures
        resolution(rules, query) is None <==> (forall|i: int|
            0 <= i < rules.len() ==> !pattern_matches(#[trigger] rules[i].0, query)),
    decreases rules.len(),
{
    if rules.len() > 0 {
        lemma_undetermined_iff_no_match(rules.drop_last(), query);
        assert(forall|i: int|
            0 <= i < rules.len() - 1 ==> rules.drop_last()[i] == #[trigger] rules[i]);
    }
}

/// The winning rule, when there is one, is a matching rule from the list, and
/// no matching rule in the list is strictly more specific than it.
pub proof fn lemma_winner_most_specific(rules: Seq<(Seq<char>, bool)>, query: Seq<char>)
    ensures
        winner(rules, query) matches Some(w) ==> {
            &&& exists|i: int| 0 <= i < rules.len() && rules[i] == w
            &&& pattern_matches(w.0, query)
            &&& forall|i: int|
                0 <= i < rules.len() && pattern_matches(#[trigger] rules[i].0, query)
                    ==> compare_spec(rules[i].0, w.0) != Ordering::Greater
        },
    decreases rules.len(),
{
    if rules.len() > 0 {
        lemma_winner_most_specific(rules.drop_last(), query);
        lemma_undetermined_iff_no_match(rules.drop_last(), query);
        assert(forall|i: int|
            0 <= i < rules.len() - 1 ==> rules.drop_last()[i] == #[trigger] rules[i]);
        match winner(rules, query) {
            Some(w) => {
                if rules[rules.len() - 1] == w {
                    assert(exists|i: int| 0 <= i < rules.len() && rules[i] == w);
                } else {
                    assert(winner(rules.drop_last(), query) == Some(w));
                }
            },
            None => {},
        }
    }
}

} // verus!
