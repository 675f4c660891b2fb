//! The zoom rule engine: an ordered decision table from a display
//! resolution to a zoom-level label.
//!
//! Aspect-ratio bounds are held in thousandths of the width/height ratio,
//! so that every comparison is exact integer arithmetic: a display with
//! width `w` and height `h > 0` has aspect ratio at least `m/1000`
//! exactly when `1000 * w >= m * h`.

use vstd::prelude::*;

verus! {

/// One row of the decision table. A rule matches a resolution when the
/// aspect ratio lies within `[min_aspect_milli, max_aspect_milli]`
/// (inclusive, in thousandths) and the width is at least `min_width`
/// (inclusive). `zoom_level` is an opaque label handed to the display
/// tool; the engine never interprets it.
pub struct ZoomRule {
    pub min_aspect_milli: u64,
    pub max_aspect_milli: u64,
    pub min_width: u32,
    pub zoom_level: String,
}

/// The aspect ratio `width / height` is at least `milli` thousandths.
pub open spec fn aspect_at_least(width: u32, height: u32, milli: u64) -> bool {
    1000 * (width as int) >= (milli as int) * (height as int)
}

/// The aspect ratio `width / height` is at most `milli` thousandths.
pub open spec fn aspect_at_most(width: u32, height: u32, milli: u64) -> bool {
    1000 * (width as int) <= (milli as int) * (height as int)
}

/// The aspect ratio `width / height` is exactly `milli` thousandths.
pub open spec fn aspect_exactly(width: u32, height: u32, milli: u64) -> bool {
    1000 * (width as int) == (milli as int) * (height as int)
}

/// Whether `rule` matches a display of `width x height` pixels.
/// A height of zero matches no rule: the aspect ratio is undefined there.
pub open spec fn rule_matches(rule: ZoomRule, width: u32, height: u32) -> bool {
    &&& height > 0
    &&& aspect_at_least(width, height, rule.min_aspect_milli)
    &&& aspect_at_most(width, height, rule.max_aspect_milli)
    &&& width >= rule.min_width
}

/// The label returned when no rule matches: the identity scale.
pub open spec fn fallback_zoom() -> Seq<char> {
    seq!['1', 'x', '1']
}

/// The label the engine owes: the `zoom_level` of the first matching
/// rule, in the order given, or the fallback when none matches.
pub open spec fn eval_zoom_spec(rules: Seq<ZoomRule>, width: u32, height: u32) -> Seq<char>
    decreases rules.len(),
{
    if rules.len() == 0 {
        fallback_zoom()
    } else if rule_matches(rules[0], width, height) {
        rules[0].zoom_level@
    } else {
        eval_zoom_spec(rules.subrange(1, rules.len() as int), width, height)
    }
}

/// Skipping a prefix of rules that all fail to match does not change the
/// outcome.
proof fn lemma_eval_skip(rules: Seq<ZoomRule>, width: u32, height: u32, i: int)
    requires
        0 <= i <= rules.len(),
        forall|j: int| 0 <= j < i ==> !rule_matches(rules[j], width, height),
    ensures
        eval_zoom_spec(rules, width, height) == eval_zoom_spec(
            rules.subrange(i, rules.len() as int),
            width,
            height,
        ),
    decreases i,
{
    if i == 0 {
        assert(rules.subrange(0, rules.len() as int) =~= rules);
    } else {
        let rest = rules.subrange(1, rules.len() as int);
        lemma_eval_skip(rest, width, height, i - 1);
        assert(rest.subrange(i - 1, rest.len() as int) =~= rules.subrange(
            i,
            rules.len() as int,
        ));
    }
}

/// First-match priority: if rule `i` matches and no earlier rule does,
/// the engine returns exactly the `zoom_level` of rule `i`. Reordering
/// two overlapping rules can therefore change the result.
pub proof fn lemma_first_match_wins(rules: Seq<ZoomRule>, width: u32, height: u32, i: int)
    requires
        0 <= i < rules.len(),
        rule_matches(rules[i], width, height),
        forall|j: int| 0 <= j < i ==> !rule_matches(rules[j], width, height),
    ensures
        eval_zoom_spec(rules, width, height) == rules[i].zoom_level@,
{
    lemma_eval_skip(rules, width, height, i);
    assert(rules.subrange(i, rules.len() as int)[0] == rules[i]);
}

/// When no rule matches, the engine returns the fallback label.
pub proof fn lemma_no_match_fallback(rules: Seq<ZoomRule>, width: u32, height: u32)
    requires
        forall|j: int| 0 <= j < rules.len() ==> !rule_matches(rules[j], width, height),
    ensures
        eval_zoom_spec(rules, width, height) == fallback_zoom(),
{
    lemma_eval_skip(rules, width, height, rules.len() as int);
}

/// A height of zero yields the fallback label, whatever the rules are:
/// no rule can match when the aspect ratio is undefined.
pub proof fn lemma_zero_height_fallback(rules: Seq<ZoomRule>, width: u32)
    ensures
        eval_zoom_spec(rules, width, 0) == fallback_zoom(),
{
    lemma_no_match_fallback(rules, width, 0);
}

/// An empty rule list yields the fallback label.
pub proof fn lemma_empty_rules_fallback(width: u32, height: u32)
    ensures
        eval_zoom_spec(Seq::<ZoomRule>::empty(), width, height) == fallback_zoom(),
{
}

/// The bounds are inclusive: an aspect ratio exactly at the minimum or
/// maximum bound, or a width exactly at `min_width`, is a match, not a
/// miss, whenever the remaining two conditions hold.
pub proof fn lemma_boundaries_inclusive(rule: ZoomRule, width: u32, height: u32)
    requires
        height > 0,
    ensures
        (aspect_exactly(width, height, rule.min_aspect_milli) && aspect_at_most(
            width,
            height,
            rule.max_aspect_milli,
        ) && width >= rule.min_width) ==> rule_matches(rule, width, height),
        (aspect_exactly(width, height, rule.max_aspect_milli) && aspect_at_least(
            width,
            height,
            rule.min_aspect_milli,
        ) && width >= rule.min_width) ==> rule_matches(rule, width, height),
        (width == rule.min_width && aspect_at_least(width, height, rule.min_aspect_milli)
            && aspect_at_most(width, height, rule.max_aspect_milli)) ==> rule_matches(
            rule,
            width,
            height,
        ),
{
}

/// Whether `rule` matches a display of `width x height` pixels.
fn rule_applies(rule: &ZoomRule, width: u32, height: u32) -> (r: bool)
    ensures
        r == rule_matches(*rule, width, height),
{
    if height == 0 {
        return false;
    }
    proof {
        assert((rule.min_aspect_milli as int) * (height as int) <= (u64::MAX as int) * (
        u32::MAX as int)) by (nonlinear_arith)
            requires
                rule.min_aspect_milli as int <= u64::MAX as int,
                0 <= height as int <= u32::MAX as int,
                0 <= rule.min_aspect_milli as int,
        ;
        assert((rule.max_aspect_milli as int) * (height as int) <= (u64::MAX as int) * (
        u32::MAX as int)) by (nonlinear_arith)
            requires
                rule.max_aspect_milli as int <= u64::MAX as int,
                0 <= height as int <= u32::MAX as int,
                0 <= rule.max_aspect_milli as int,
        ;
    }
    let scaled: u128 = 1000u128 * (width as u128);
    let lo: u128 = (rule.min_aspect_milli as u128) * (height as u128);
    let hi: u128 = (rule.max_aspect_milli as u128) * (height as u128);
    scaled >= lo && scaled <= hi && width >= rule.min_width
}

/// Evaluates the ordered rule list against a resolution: returns the
/// `zoom_level` of the first rule whose three inclusive conditions all
/// hold, or `"1x1"` when none does (in particular when the list is empty
/// or the height is zero). Total: no input is rejected.
pub fn calculate_zoom_level(width: u32, height: u32, rules: &Vec<ZoomRule>) -> (r: String)
    ensures
        r@ == eval_zoom_spec(rules@, width, height),
{
    let mut i: usize = 0;
    while i < rules.len()
        invariant
            i <= rules.len(),
            forall|j: int| 0 <= j < i ==> !rule_matches(rules@[j], width, height),
        decreases rules.len() - i,
    {
        if rule_applies(&rules[i], width, height) {
            proof {
                lemma_first_match_wins(rules@, width, height, i as int);
            }
            return rules[i].zoom_level.clone();
        }
        i += 1;
    }
    proof {
        lemma_no_match_fallback(rules@, width, height);
        reveal_strlit("1x1");
        assert("1x1"@ =~= fallback_zoom());
    }
    "1x1".to_owned()
}

} // verus!
