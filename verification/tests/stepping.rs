use ca1d::{automate, Border, CAEvalType, CA};

#[test]
fn step_preserves_the_lattice_length() {
    let ca = CA::new(3, 2, CAEvalType::new("30").unwrap(), Border::Ring);
    let config = vec![0, 1, 1, 0, 1, 0, 0];
    let next = ca.gtf(&config);
    assert_eq!(next.len(), config.len());
    let (lines, last) = automate(2, 3, &ca, &config);
    assert_eq!(lines.len(), 3);
    for line in &lines {
        assert_eq!(line.len(), config.len());
    }
    assert_eq!(last.len(), config.len());
}

#[test]
fn ring_wraps_around_the_ends() {
    // rule 2 in base 2 maps only the window 01 to 1: each cell copies its
    // right neighbor, and the leftmost cell copies around the edge
    let ca = CA::new(3, 2, CAEvalType::new("2").unwrap(), Border::Ring);
    let config = vec![1, 0, 0, 0];
    let next = ca.gtf(&config);
    assert_eq!(next, vec![0, 0, 0, 1]);
}

#[test]
fn fixed_border_pads_with_zero() {
    // the same right-shift rule under the fixed border drops what crosses
    // the edge instead of wrapping it
    let ca = CA::new(3, 2, CAEvalType::new("2").unwrap(), Border::Fixed);
    let config = vec![1, 0, 0, 0];
    let next = ca.gtf(&config);
    assert_eq!(next, vec![0, 0, 0, 0]);
    let config = vec![0, 1, 0, 0];
    let next = ca.gtf(&config);
    assert_eq!(next, vec![1, 0, 0, 0]);
}

#[test]
fn fixed_border_keeps_all_zero_lattices_zero() {
    // code 600 maps the all-zero window sum to symbol 0
    let ca = CA::new(3, 3, CAEvalType::new("code=600").unwrap(), Border::Fixed);
    let (lines, last) = automate(0, 2, &ca, &vec![0, 0, 0, 0, 0]);
    assert_eq!(lines[0], vec![0, 0, 0, 0, 0]);
    assert_eq!(lines[1], vec![0, 0, 0, 0, 0]);
    assert_eq!(last, vec![0, 0, 0, 0, 0]);
}

#[test]
fn rule90_fixed_matches_ring_away_from_the_edges() {
    let ca = CA::new(3, 2, CAEvalType::new("rule=90").unwrap(), Border::Fixed);
    let (_, config) = automate(0, 1, &ca, &vec![0, 0, 1, 0, 0]);
    assert_eq!(config, vec![0, 1, 0, 1, 0]);
}

#[test]
fn automate_returns_each_retained_generation() {
    let ca = CA::new(3, 2, CAEvalType::new("90").unwrap(), Border::Ring);
    let start = vec![0, 0, 0, 1, 0, 0, 0];
    let (lines, last) = automate(0, 3, &ca, &start);
    assert_eq!(lines[0], start);
    assert_eq!(lines[1], ca.gtf(&start));
    assert_eq!(lines[2], ca.gtf(&lines[1]));
    assert_eq!(last, ca.gtf(&lines[2]));
}

#[test]
fn automate_skips_the_requested_prefix() {
    let ca = CA::new(3, 2, CAEvalType::new("30").unwrap(), Border::Ring);
    let start = vec![0, 0, 1, 0, 0];
    let (all, _) = automate(0, 4, &ca, &start);
    let (skipped, _) = automate(2, 2, &ca, &start);
    assert_eq!(skipped[0], all[2]);
    assert_eq!(skipped[1], all[3]);
}
