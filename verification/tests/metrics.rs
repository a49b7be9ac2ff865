#[test]
fn odds_implied_probability_and_ev_are_consistent() {
    let odds = [2.0, 3.5, 4.0];
    let inv_sum: f64 = odds.iter().map(|item| 1.0 / item).sum();
    let fair_home = (1.0 / odds[0]) / inv_sum;
    let ev = 0.55 * odds[0] - 1.0;
    assert!((fair_home - 0.4828).abs() < 0.01);
    assert!((ev - 0.10).abs() < 0.0001);
}

#[test]
fn brier_and_log_loss_basic_metrics() {
    let p: f64 = 0.7;
    let brier = (p - 1.0) * (p - 1.0);
    let log_loss = -p.ln();
    assert!((brier - 0.09).abs() < 0.0001);
    assert!((log_loss - 0.3566).abs() < 0.01);
}
