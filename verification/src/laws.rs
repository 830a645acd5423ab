//! The engine's general laws, stated and proved over the specification
//! functions that the public contracts use: determinism, monotonicity of
//! rule lists under their combining logic, and order-independence of the
//! array-contains walk. The reflexivity law stands in the crate root, next
//! to the request and response orchestration it speaks about.

use vstd::prelude::*;

use crate::json::spec_array_contains;
use crate::json::spec_compare;
use crate::json::spec_derived_contains;
use crate::json::v_all_ok;
use crate::json::v_any_ok;
use crate::matchers::spec_all_ok;
use crate::matchers::spec_any_ok;
use crate::rules::Matchers;
use crate::rules::MatchingRule;
use crate::value::Value;
use crate::DiffConfig;
use crate::HttpPart;
use crate::MismatchV;

verus! {

/// Determinism: matching is a pure function of the expected message, the
/// actual message and the rules; two runs on the same inputs give the same
/// mismatches, order included. The contracts of `match_request` and
/// `match_response` pin each run's result to the same specification
/// function, so two results on equal inputs are equal.
pub proof fn lemma_match_request_deterministic(
    e: HttpPart,
    a: HttpPart,
    r1: Seq<MismatchV>,
    r2: Seq<MismatchV>,
)
    requires
        r1 == crate::spec_match_request(e, a),
        r2 == crate::spec_match_request(e, a),
    ensures
        r1 == r2,
{
}

/// Determinism for responses (see [`lemma_match_request_deterministic`]).
pub proof fn lemma_match_response_deterministic(
    e: HttpPart,
    a: HttpPart,
    r1: Seq<MismatchV>,
    r2: Seq<MismatchV>,
)
    requires
        r1 == crate::spec_match_response(e, a),
        r2 == crate::spec_match_response(e, a),
    ensures
        r1 == r2,
{
}

proof fn lemma_any_ok_extend(
    rules: Seq<MatchingRule>,
    ext: Seq<MatchingRule>,
    i: int,
    e: Seq<char>,
    a: Seq<char>,
    c: bool,
)
    requires
        0 <= i <= rules.len(),
    ensures
        spec_any_ok(rules, i, e, a, c) ==> spec_any_ok(rules + ext, i, e, a, c),
    decreases rules.len() - i,
{
    if i < rules.len() {
        assert((rules + ext)[i] == rules[i]);
        lemma_any_ok_extend(rules, ext, i + 1, e, a, c);
    }
}

proof fn lemma_all_ok_shrink(
    rules: Seq<MatchingRule>,
    ext: Seq<MatchingRule>,
    i: int,
    e: Seq<char>,
    a: Seq<char>,
    c: bool,
)
    requires
        0 <= i <= rules.len(),
    ensures
        spec_all_ok(rules + ext, i, e, a, c) ==> spec_all_ok(rules, i, e, a, c),
    decreases rules.len() - i,
{
    if i < rules.len() {
        assert((rules + ext)[i] == rules[i]);
        lemma_all_ok_shrink(rules, ext, i + 1, e, a, c);
    }
}

/// Rule-list monotonicity under `OR` logic, for string values: adding more
/// rules at a path cannot turn a passing match into a failing one, because
/// a rule that passed still passes.
pub proof fn lemma_or_rules_monotone(
    rules: Seq<MatchingRule>,
    ext: Seq<MatchingRule>,
    e: Seq<char>,
    a: Seq<char>,
    c: bool,
)
    ensures
        spec_any_ok(rules, 0, e, a, c) ==> spec_any_ok(rules + ext, 0, e, a, c),
{
    lemma_any_ok_extend(rules, ext, 0, e, a, c);
}

/// Rule-list monotonicity under `AND` logic, for string values: adding more
/// rules at a path cannot turn a failing match into a passing one, because
/// a rule that failed still fails.
pub proof fn lemma_and_rules_monotone(
    rules: Seq<MatchingRule>,
    ext: Seq<MatchingRule>,
    e: Seq<char>,
    a: Seq<char>,
    c: bool,
)
    ensures
        !spec_all_ok(rules, 0, e, a, c) ==> !spec_all_ok(rules + ext, 0, e, a, c),
{
    lemma_all_ok_shrink(rules, ext, 0, e, a, c);
}

proof fn lemma_v_any_ok_extend(
    rules: Seq<MatchingRule>,
    ext: Seq<MatchingRule>,
    i: int,
    e: Value,
    a: Value,
    c: bool,
)
    requires
        0 <= i <= rules.len(),
    ensures
        v_any_ok(rules, i, e, a, c) ==> v_any_ok(rules + ext, i, e, a, c),
    decreases rules.len() - i,
{
    if i < rules.len() {
        assert((rules + ext)[i] == rules[i]);
        lemma_v_any_ok_extend(rules, ext, i + 1, e, a, c);
    }
}

proof fn lemma_v_all_ok_shrink(
    rules: Seq<MatchingRule>,
    ext: Seq<MatchingRule>,
    i: int,
    e: Value,
    a: Value,
    c: bool,
)
    requires
        0 <= i <= rules.len(),
    ensures
        v_all_ok(rules + ext, i, e, a, c) ==> v_all_ok(rules, i, e, a, c),
    decreases rules.len() - i,
{
    if i < rules.len() {
        assert((rules + ext)[i] == rules[i]);
        lemma_v_all_ok_shrink(rules, ext, i + 1, e, a, c);
    }
}

/// Rule-list monotonicity under `OR` logic, for document values (see
/// [`lemma_or_rules_monotone`]).
pub proof fn lemma_or_value_rules_monotone(
    rules: Seq<MatchingRule>,
    ext: Seq<MatchingRule>,
    e: Value,
    a: Value,
    c: bool,
)
    ensures
        v_any_ok(rules, 0, e, a, c) ==> v_any_ok(rules + ext, 0, e, a, c),
{
    lemma_v_any_ok_extend(rules, ext, 0, e, a, c);
}

/// Rule-list monotonicity under `AND` logic, for document values (see
/// [`lemma_and_rules_monotone`]).
pub proof fn lemma_and_value_rules_monotone(
    rules: Seq<MatchingRule>,
    ext: Seq<MatchingRule>,
    e: Value,
    a: Value,
    c: bool,
)
    ensures
        !v_all_ok(rules, 0, e, a, c) ==> !v_all_ok(rules + ext, 0, e, a, c),
{
    lemma_v_all_ok_shrink(rules, ext, 0, e, a, c);
}


/// Array-contains is order-independent: permuting the actual list changes
/// neither which variants are found nor, therefore, how many mismatches the
/// walk reports. (The diagnostic text quotes the actual list as given, so
/// only the count and the found set are order-free, not the rendered
/// records.)
#[verifier::rlimit(60)]
pub proof fn lemma_array_contains_order_independent(
    path: Seq<Seq<char>>,
    e: Value,
    a1: Value,
    a2: Value,
    variants: Seq<(usize, Matchers)>,
    i: int,
    config: DiffConfig,
)
    requires
        a1 is Array,
        a2 is Array,
        a1->Array_0@.to_multiset() == a2->Array_0@.to_multiset(),
    ensures
        spec_array_contains(path, e, a1, variants, i, config).len() == spec_array_contains(
            path,
            e,
            a2,
            variants,
            i,
            config,
        ).len(),
    decreases variants.len() - i,
{
    broadcast use vstd::seq_lib::group_to_multiset_ensures;

    if !(e is Array) || i < 0 || i >= variants.len() {
    } else {
        let el = e->Array_0@;
        let al1 = a1->Array_0@;
        let al2 = a2->Array_0@;
        let k = variants[i].0;
        if k < el.len() {
            let found1 = exists|j: int|
                0 <= j < al1.len() && spec_compare(
                    seq!["$"@],
                    el[k as int],
                    al1[j],
                    variants[i].1.entries@,
                    DiffConfig::AllowUnexpectedKeys,
                ).len() == 0;
            let found2 = exists|j: int|
                0 <= j < al2.len() && spec_compare(
                    seq!["$"@],
                    el[k as int],
                    al2[j],
                    variants[i].1.entries@,
                    DiffConfig::AllowUnexpectedKeys,
                ).len() == 0;
            assert(found1 ==> found2) by {
                if found1 {
                    let j = choose|j: int|
                        0 <= j < al1.len() && spec_compare(
                            seq!["$"@],
                            el[k as int],
                            al1[j],
                            variants[i].1.entries@,
                            DiffConfig::AllowUnexpectedKeys,
                        ).len() == 0;
                    assert(al1.contains(al1[j]));
                    assert(al1.to_multiset().count(al1[j]) > 0);
                    assert(al2.to_multiset().count(al1[j]) > 0);
                    assert(al2.contains(al1[j]));
                    let j2 = choose|j2: int| 0 <= j2 < al2.len() && al2[j2] == al1[j];
                    assert(spec_compare(
                        seq!["$"@],
                        el[k as int],
                        al2[j2],
                        variants[i].1.entries@,
                        DiffConfig::AllowUnexpectedKeys,
                    ).len() == 0);
                }
            }
            assert(found2 ==> found1) by {
                if found2 {
                    let j = choose|j: int|
                        0 <= j < al2.len() && spec_compare(
                            seq!["$"@],
                            el[k as int],
                            al2[j],
                            variants[i].1.entries@,
                            DiffConfig::AllowUnexpectedKeys,
                        ).len() == 0;
                    assert(al2.contains(al2[j]));
                    assert(al2.to_multiset().count(al2[j]) > 0);
                    assert(al1.to_multiset().count(al2[j]) > 0);
                    assert(al1.contains(al2[j]));
                    let j2 = choose|j2: int| 0 <= j2 < al1.len() && al1[j2] == al2[j];
                    assert(spec_compare(
                        seq!["$"@],
                        el[k as int],
                        al1[j2],
                        variants[i].1.entries@,
                        DiffConfig::AllowUnexpectedKeys,
                    ).len() == 0);
                }
            }
        }
        lemma_array_contains_order_independent(path, e, a1, a2, variants, i + 1, config);
    }
}

/// Order-independence for the array-contains walk with no variants given
/// (see [`lemma_array_contains_order_independent`]).
#[verifier::rlimit(60)]
pub proof fn lemma_derived_contains_order_independent(
    path: Seq<Seq<char>>,
    e: Value,
    a1: Value,
    a2: Value,
    k: int,
    config: DiffConfig,
)
    requires
        a1 is Array,
        a2 is Array,
        a1->Array_0@.to_multiset() == a2->Array_0@.to_multiset(),
    ensures
        spec_derived_contains(path, e, a1, k, config).len() == spec_derived_contains(
            path,
            e,
            a2,
            k,
            config,
        ).len(),
    decreases (if e is Array {
        e->Array_0@.len()
    } else {
        0
    }) - k,
{
    broadcast use vstd::seq_lib::group_to_multiset_ensures;

    if !(e is Array) || k < 0 || k >= e->Array_0@.len() {
    } else {
        let el = e->Array_0@;
        let al1 = a1->Array_0@;
        let al2 = a2->Array_0@;
        let found1 = exists|j: int|
            0 <= j < al1.len() && spec_compare(
                seq!["$"@],
                el[k],
                al1[j],
                Seq::<crate::rules::MatcherEntry>::empty(),
                DiffConfig::AllowUnexpectedKeys,
            ).len() == 0;
        let found2 = exists|j: int|
            0 <= j < al2.len() && spec_compare(
                seq!["$"@],
                el[k],
                al2[j],
                Seq::<crate::rules::MatcherEntry>::empty(),
                DiffConfig::AllowUnexpectedKeys,
            ).len() == 0;
        assert(found1 ==> found2) by {
            if found1 {
                let j = choose|j: int|
                    0 <= j < al1.len() && spec_compare(
                        seq!["$"@],
                        el[k],
                        al1[j],
                        Seq::<crate::rules::MatcherEntry>::empty(),
                        DiffConfig::AllowUnexpectedKeys,
                    ).len() == 0;
                assert(al1.contains(al1[j]));
                assert(al1.to_multiset().count(al1[j]) > 0);
                assert(al2.to_multiset().count(al1[j]) > 0);
                assert(al2.contains(al1[j]));
                let j2 = choose|j2: int| 0 <= j2 < al2.len() && al2[j2] == al1[j];
                assert(spec_compare(
                    seq!["$"@],
                    el[k],
                    al2[j2],
                    Seq::<crate::rules::MatcherEntry>::empty(),
                    DiffConfig::AllowUnexpectedKeys,
                ).len() == 0);
            }
        }
        assert(found2 ==> found1) by {
            if found2 {
                let j = choose|j: int|
                    0 <= j < al2.len() && spec_compare(
                        seq!["$"@],
                        el[k],
                        al2[j],
                        Seq::<crate::rules::MatcherEntry>::empty(),
                        DiffConfig::AllowUnexpectedKeys,
                    ).len() == 0;
                assert(al2.contains(al2[j]));
                assert(al2.to_multiset().count(al2[j]) > 0);
                assert(al1.to_multiset().count(al2[j]) > 0);
                assert(al1.contains(al2[j]));
                let j2 = choose|j2: int| 0 <= j2 < al1.len() && al1[j2] == al2[j];
                assert(spec_compare(
                    seq!["$"@],
                    el[k],
                    al1[j2],
                    Seq::<crate::rules::MatcherEntry>::empty(),
                    DiffConfig::AllowUnexpectedKeys,
                ).len() == 0);
            }
        }
        lemma_derived_contains_order_independent(path, e, a1, a2, k + 1, config);
    }
}

} // verus!
