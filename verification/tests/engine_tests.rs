use autozoom::engine::{calculate_zoom_level, ZoomRule};

fn rule(min_milli: u64, max_milli: u64, min_width: u32, zoom: &str) -> ZoomRule {
    ZoomRule {
        min_aspect_milli: min_milli,
        max_aspect_milli: max_milli,
        min_width,
        zoom_level: zoom.to_string(),
    }
}

// Aspect bounds come from the configuration as floating-point ratios;
// the engine holds them in thousandths.
fn milli(ratio: f64) -> u64 {
    (ratio * 1000.0).round() as u64
}

#[test]
fn first_match_wins_over_overlapping_rules() {
    let rules = vec![
        rule(1000, 3000, 0, "0.8x0.8"),
        rule(1000, 3000, 0, "0.5x0.5"),
    ];
    assert_eq!(calculate_zoom_level(1920, 1080, &rules), "0.8x0.8");

    let reordered = vec![
        rule(1000, 3000, 0, "0.5x0.5"),
        rule(1000, 3000, 0, "0.8x0.8"),
    ];
    assert_eq!(calculate_zoom_level(1920, 1080, &reordered), "0.5x0.5");
}

#[test]
fn later_rule_matches_when_earlier_misses() {
    let rules = vec![
        rule(milli(1.7), milli(1.8), 3000, "0.67x0.67"),
        rule(milli(1.7), milli(1.8), 0, "0.8x0.8"),
    ];
    // 1920x1080 has aspect 1.777...: both aspect ranges match, but the
    // first rule's width threshold (3000) misses.
    assert_eq!(calculate_zoom_level(1920, 1080, &rules), "0.8x0.8");
}

#[test]
fn min_aspect_boundary_is_inclusive() {
    // 3200x2000 has aspect exactly 1.6.
    let rules = vec![rule(1600, 2000, 0, "0.9x0.9")];
    assert_eq!(calculate_zoom_level(3200, 2000, &rules), "0.9x0.9");
}

#[test]
fn max_aspect_boundary_is_inclusive() {
    // 3840x1600 has aspect exactly 2.4, equal to the maximum bound.
    let rules = vec![rule(milli(2.3), milli(2.4), 3000, "0.5x0.5")];
    assert_eq!(calculate_zoom_level(3840, 1600, &rules), "0.5x0.5");
}

#[test]
fn min_width_boundary_is_inclusive() {
    let rules = vec![rule(0, 10000, 1920, "0.7x0.7")];
    assert_eq!(calculate_zoom_level(1920, 1080, &rules), "0.7x0.7");
}

#[test]
fn just_outside_the_bounds_misses() {
    // Aspect 1.6 exactly: one thousandth above the maximum bound 1.599.
    let above_max = vec![rule(1000, 1599, 0, "0.9x0.9")];
    assert_eq!(calculate_zoom_level(3200, 2000, &above_max), "1x1");
    // One thousandth below the minimum bound 1.601.
    let below_min = vec![rule(1601, 2000, 0, "0.9x0.9")];
    assert_eq!(calculate_zoom_level(3200, 2000, &below_min), "1x1");
    // Width one pixel under the threshold.
    let narrow = vec![rule(0, 10000, 1921, "0.7x0.7")];
    assert_eq!(calculate_zoom_level(1920, 1080, &narrow), "1x1");
}

#[test]
fn zero_height_yields_fallback() {
    let rules = vec![rule(0, 100000, 0, "0.5x0.5")];
    assert_eq!(calculate_zoom_level(1920, 0, &rules), "1x1");
}

#[test]
fn empty_rule_list_yields_fallback() {
    let rules: Vec<ZoomRule> = Vec::new();
    assert_eq!(calculate_zoom_level(1920, 1080, &rules), "1x1");
}

#[test]
fn ultrawide_misses_both_sample_rules() {
    // 3440x1440 has aspect about 2.389: neither [1.7, 1.8] nor
    // [1.3, 1.4] contains it, so the fallback applies.
    let rules = vec![
        rule(milli(1.7), milli(1.8), 3000, "0.67x0.67"),
        rule(milli(1.3), milli(1.4), 0, "1x1"),
    ];
    assert_eq!(calculate_zoom_level(3440, 1440, &rules), "1x1");
}

#[test]
fn wide_display_matches_inclusive_rule() {
    let rules = vec![rule(milli(2.3), milli(2.4), 3000, "0.5x0.5")];
    assert_eq!(calculate_zoom_level(3840, 1600, &rules), "0.5x0.5");
}
