use cargo_polylith::corsett::{all_unique, compact, fit_group, fold_to_height, min_group_height, shorten, FoldEntry};

#[test]
fn compact_hyphen() {
    assert_eq!(compact("mdma-playback"), "m-p");
}

#[test]
fn compact_underscore() {
    assert_eq!(compact("some_module"), "s-m");
}

#[test]
fn compact_single_word() {
    assert_eq!(compact("logger"), "l");
}

#[test]
fn shorten_full_when_fits() {
    assert_eq!(shorten("mdma-playback", 20), "mdma-playback");
    assert_eq!(shorten("mdma-playback", 13), "mdma-playback");
}

#[test]
fn shorten_compact_at_minimum() {
    assert_eq!(shorten("mdma-playback", 3), "m-p");
    assert_eq!(shorten("mdma-playback", 1), "m-p");
}

#[test]
fn shorten_ellipsis_intermediate() {
    assert_eq!(shorten("mdma-playback", 8), "mdma-pl…");
}

#[test]
fn fit_group_full_when_all_fit() {
    let names = &["mdma-playback", "mdma-audio"];
    let result = fit_group(names, 20);
    assert_eq!(result, vec!["mdma-playback", "mdma-audio"]);
}

#[test]
fn fit_group_compresses_common_prefix() {
    let names = &["mdma-playback", "mdma-audio"];
    let result = fit_group(names, 9);
    assert_eq!(result[0], "m…-playb…");
    assert_eq!(result[1], "m…-audio");
}

#[test]
fn fit_group_unique_at_minimum_height() {
    let names = &["mdma-audio", "mdma-acid", "mdma-playback", "mdma-synth"];
    let h = min_group_height(names);
    let shortened = fit_group(names, h);
    assert!(all_unique(&shortened), "not unique at height {h}: {shortened:?}");
}

#[test]
fn fit_group_no_common_prefix_falls_back() {
    let names = &["alpha-foo", "beta-bar"];
    let result = fit_group(names, 6);
    assert_eq!(result[0], shorten("alpha-foo", 6));
    assert_eq!(result[1], shorten("beta-bar", 6));
}

#[test]
fn min_height_single_name() {
    assert_eq!(min_group_height(&["mdma-playback"]), 3);
}

#[test]
fn min_height_suffix_collision_resolved() {
    let names = &["mdma-audio", "mdma-acid"];
    let h = min_group_height(names);
    let shortened = fit_group(names, h);
    assert!(all_unique(&shortened), "not unique at height {h}: {shortened:?}");
    assert_eq!(h, 6, "expected min height 6, got {h}");
    assert!(shortened[0].starts_with("m…-"), "{}", shortened[0]);
    assert!(shortened[1].starts_with("m…-"), "{}", shortened[1]);
}

#[test]
fn fold_to_height_no_hiding_when_fits() {
    let must_show: std::collections::HashSet<usize> = [1, 3].iter().copied().collect();
    let plan = fold_to_height(5, &must_show, 10, 0);
    assert_eq!(
        plan,
        vec![FoldEntry::Row(0), FoldEntry::Row(1), FoldEntry::Row(2), FoldEntry::Row(3), FoldEntry::Row(4)]
    );
}

#[test]
fn fold_to_height_hides_non_chain() {
    let must_show: std::collections::HashSet<usize> = [2, 5].iter().copied().collect();
    let plan = fold_to_height(10, &must_show, 5, 0);
    assert_eq!(
        plan,
        vec![
            FoldEntry::Hidden(2),
            FoldEntry::Row(2),
            FoldEntry::Hidden(2),
            FoldEntry::Row(5),
            FoldEntry::Hidden(4),
        ]
    );
}

#[test]
fn fold_to_height_keeps_rows_when_budget_allows() {
    let must_show: std::collections::HashSet<usize> = [4].iter().copied().collect();
    let plan = fold_to_height(10, &must_show, 8, 0);
    assert_eq!(
        plan,
        vec![
            FoldEntry::Row(0),
            FoldEntry::Row(1),
            FoldEntry::Row(2),
            FoldEntry::Row(3),
            FoldEntry::Row(4),
            FoldEntry::Row(5),
            FoldEntry::Hidden(4),
        ]
    );
}

const MDMA_NAMES: &[&str] = &["mdma-acid", "mdma-audio", "mdma-effects", "mdma-mixer", "mdma-playback", "mdma-synth"];

#[test]
fn show_scroll_progression() {
    let full_h = MDMA_NAMES.iter().map(|n| n.chars().count()).max().unwrap();
    let min_h = min_group_height(MDMA_NAMES);
    println!("full_header_h={full_h}  min_unique_h={min_h}");
    for scroll in 0..=(full_h - min_h + 2) {
        let target = full_h.saturating_sub(scroll).max(min_h);
        let names = fit_group(MDMA_NAMES, target);
        let actual_h = names.iter().map(|n| n.chars().count()).max().unwrap_or(0);
        println!("scroll={scroll:2}  target={target:2}  actual_h={actual_h:2}  {:?}", names);
    }
}

#[test]
fn shorten_never_exceeds_target_above_floor() {
    for t in 3..20 {
        assert!(shorten("mdma-playback", t).chars().count() <= t);
    }
}

#[test]
fn fold_plan_covers_every_row_once() {
    let must_show: std::collections::HashSet<usize> = [0, 7].iter().copied().collect();
    let plan = fold_to_height(9, &must_show, 4, 0);
    let covered: usize = plan
        .iter()
        .map(|e| match e {
            FoldEntry::Row(_) => 1,
            FoldEntry::Hidden(n) => *n,
        })
        .sum();
    assert_eq!(covered, 9);
    assert!(plan.contains(&FoldEntry::Row(0)));
    assert!(plan.contains(&FoldEntry::Row(7)));
}

#[test]
fn fit_group_never_gives_different_names_one_label() {
    let names = &["mdma-audio", "mdma-acid"];
    for t in 1..12 {
        let labels = fit_group(names, t);
        assert!(all_unique(&labels), "labels collide at height {t}: {labels:?}");
    }
}

#[test]
fn fold_plan_hides_rows_in_single_nonempty_runs() {
    let must_show: std::collections::HashSet<usize> = [2, 3, 7].into_iter().collect();
    for available in 0..12 {
        let plan = fold_to_height(12, &must_show, available, 1);
        for w in plan.windows(2) {
            assert!(!(matches!(w[0], FoldEntry::Hidden(_)) && matches!(w[1], FoldEntry::Hidden(_))), "{plan:?}");
        }
        assert!(plan.iter().all(|e| !matches!(e, FoldEntry::Hidden(0))), "{plan:?}");
    }
}
