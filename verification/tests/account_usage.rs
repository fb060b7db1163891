use zeron::account_usage::{
    account_label, caption, meter, open_chat_harness, percent_label, render, render_card,
    render_other_row, tightest_window, AgentAccount, AgentUsageWindow, ChatConfig, ChatRow, Meter,
    Moment, USAGE_UNAVAILABLE,
};
use zeron::event::HarnessId;
use zeron::fraction::Fraction;

fn fraction(value: f32) -> Fraction {
    Fraction { bits: value.to_bits() }
}

fn window(label: &str, used: f32) -> AgentUsageWindow {
    AgentUsageWindow {
        label: label.into(),
        used_fraction: fraction(used),
        resets_at: None,
    }
}

fn account(id: &str, windows: Vec<AgentUsageWindow>) -> AgentAccount {
    AgentAccount {
        id: id.to_string(),
        harness: HarnessId::Grok,
        email: Some(format!("{id}@example.org")),
        display_name: None,
        plan_label: Some("Pro".to_string()),
        active: true,
        usage_windows: windows,
    }
}

fn reset(at: Option<Moment>) -> Option<String> {
    at.map(|at| format!("in {}s", at.secs))
}

#[test]
fn tightest_window_picks_the_highest_fraction() {
    let windows = vec![window("Session", 0.73), window("Week", 0.82)];
    assert_eq!(tightest_window(&windows).unwrap().label, "Week");
}

#[test]
fn tightest_window_keeps_the_earlier_window_on_a_tie() {
    let windows = vec![window("Session", 0.0), window("Week", 0.0)];
    assert_eq!(tightest_window(&windows).unwrap().label, "Session");
}

#[test]
fn tightest_window_is_none_without_windows() {
    assert!(tightest_window(&[]).is_none());
}

#[test]
fn tightest_window_is_a_reduction_by_greater_than() {
    let values = [
        0.0,
        -0.0,
        0.5,
        -0.5,
        1.4,
        f32::NAN,
        f32::INFINITY,
        f32::NEG_INFINITY,
        f32::MIN_POSITIVE,
        1.0e-45,
    ];
    for a in values {
        for b in values {
            for c in values {
                let windows = vec![window("a", a), window("b", b), window("c", c)];
                let expected = [("a", a), ("b", b), ("c", c)]
                    .into_iter()
                    .reduce(|worst, w| if w.1 > worst.1 { w } else { worst })
                    .unwrap();
                assert_eq!(tightest_window(&windows).unwrap().label, expected.0);
            }
        }
    }
}

#[test]
fn percent_label_rounds() {
    assert_eq!(percent_label(fraction(0.825)), "83%");
    assert_eq!(percent_label(fraction(0.0)), "0%");
    // Fractions past 1.0 arrive when a provider reports an overage.
    assert_eq!(percent_label(fraction(1.4)), "100%");
}

fn percent_by_float(value: f32) -> u32 {
    (value.clamp(0.0, 1.0) * 100.0).round() as u32
}

fn same_percent(bits: u32) {
    let value = f32::from_bits(bits);
    assert_eq!(Fraction { bits }.to_percent(), percent_by_float(value), "{value:?}");
}

#[test]
fn percent_is_the_float_computation() {
    for bits in (0..=0x3f80_0001u32).step_by(613) {
        same_percent(bits);
    }
    // Around every point where the rounding turns.
    for n in 0..=100u32 {
        let turn = ((n as f32 + 0.5) / 100.0).to_bits();
        for bits in turn - 3000..turn + 3000 {
            same_percent(bits);
        }
    }
    for value in [
        -0.0,
        -1.0,
        1.0,
        2.0,
        f32::NAN,
        -f32::NAN,
        f32::INFINITY,
        f32::NEG_INFINITY,
        f32::MAX,
        f32::MIN_POSITIVE,
    ] {
        same_percent(value.to_bits());
    }
}

#[test]
fn any_use_shows() {
    assert_eq!(percent_label(fraction(f32::from_bits(1))), "2%");
    assert_eq!(percent_label(fraction(0.001)), "2%");
    assert_eq!(percent_label(fraction(0.015)), "2%");
    assert_eq!(percent_label(fraction(0.03)), "3%");
    assert_eq!(percent_label(fraction(-0.0)), "0%");
    assert_eq!(percent_label(fraction(-0.5)), "0%");
    assert_eq!(percent_label(fraction(f32::NAN)), "0%");
    assert_eq!(percent_label(fraction(1.0)), "100%");
}

#[test]
fn percent_never_falls_as_use_grows() {
    let mut last = 0;
    for bits in (0..=0x3f80_0000u32).step_by(10_007) {
        let percent = Fraction { bits }.to_percent();
        assert!(last <= percent && percent <= 100);
        last = percent;
    }
    assert_eq!(fraction(1.0).to_percent(), 100);
}

#[test]
fn comparison_and_clamp_are_the_float_ones() {
    let mut values: Vec<f32> = (0..=0xffff_ffffu32)
        .step_by(0x0147_ae17)
        .map(f32::from_bits)
        .collect();
    values.extend([0.0, -0.0, 1.0, -1.0, 0.015, f32::NAN, f32::INFINITY]);
    for a in &values {
        for b in &values {
            assert_eq!(fraction(*a).exceeds(fraction(*b)), a > b, "{a:?} {b:?}");
        }
        assert_eq!(fraction(*a).clamp().bits, a.clamp(0.0, 1.0).to_bits());
    }
}

#[test]
fn meter_paints_any_use() {
    assert_eq!(meter(fraction(0.0)), Meter { level: fraction(0.0), fill: None });
    assert_eq!(meter(fraction(-3.0)), Meter { level: fraction(0.0), fill: None });
    assert_eq!(
        meter(fraction(0.001)),
        Meter { level: fraction(0.001), fill: Some(fraction(0.015)) }
    );
    assert_eq!(
        meter(fraction(0.4)),
        Meter { level: fraction(0.4), fill: Some(fraction(0.4)) }
    );
    assert_eq!(
        meter(fraction(1.4)),
        Meter { level: fraction(1.0), fill: Some(fraction(1.0)) }
    );
    assert_eq!(meter(fraction(f32::NAN)).fill, None);
}

#[test]
fn account_label_prefers_the_email() {
    let mut login = account("a", vec![]);
    login.display_name = Some("Ann".to_string());
    assert_eq!(account_label(&login), "a@example.org");
    login.email = None;
    assert_eq!(account_label(&login), "Ann");
    login.display_name = None;
    assert_eq!(account_label(&login), "Unknown account");
}

#[test]
fn pill_shows_the_tightest_window() {
    let mut windows = vec![window("Session", 0.73), window("Week", 0.82)];
    windows[1].resets_at = Some(Moment { secs: 90, nanos: 0 });
    let login = account("a", windows);
    let pill = render(Some(HarnessId::Other(3)), Some(&login), &reset).unwrap();
    assert_eq!(pill.brand, HarnessId::Grok);
    assert_eq!(pill.name, HarnessId::Other(3));
    let usage = pill.usage.unwrap();
    assert_eq!(usage.percent, "82%");
    assert_eq!(usage.accent, fraction(0.82));
    assert_eq!(usage.meter, meter(fraction(0.82)));
    assert_eq!(usage.caption, "Week · in 90s");
    assert_eq!(caption("Week", &None), "Week");
}

#[test]
fn pill_hides_without_a_chat_or_an_account() {
    let login = account("a", vec![]);
    assert!(render(None, Some(&login), &reset).is_none());
    assert!(render(Some(HarnessId::Grok), None, &reset).is_none());
    // A login without a plan is shown, without a use.
    assert!(render(Some(HarnessId::Grok), Some(&login), &reset).unwrap().usage.is_none());
    assert_eq!(USAGE_UNAVAILABLE, "Usage unavailable");
}

#[test]
fn card_lists_all_windows_and_all_other_accounts() {
    let mut login = account("a", vec![window("Session", 0.1), window("Week", 0.825)]);
    login.usage_windows[0].resets_at = Some(Moment { secs: 5, nanos: 0 });
    let all = vec![
        account("b", vec![window("Day", 0.2), window("Week", 0.3)]),
        account("a", vec![]),
        account("c", vec![]),
    ];
    let card = render_card(&login, Some(&all), &reset);
    assert_eq!(card.brand, HarnessId::Grok);
    assert!(card.active);
    assert_eq!(card.label, "a@example.org");
    assert_eq!(card.plan.as_deref(), Some("Pro"));
    assert_eq!(card.meters.len(), 2);
    assert_eq!(card.meters[0].label, "Session");
    assert_eq!(card.meters[0].row.percent, "10%");
    assert_eq!(card.meters[0].row.reset.as_deref(), Some("in 5s"));
    assert_eq!(card.meters[1].row.percent, "83%");
    assert_eq!(card.meters[1].row.reset, None);
    let labels: Vec<&str> = card.others.iter().map(|o| o.label.as_str()).collect();
    assert_eq!(labels, vec!["b@example.org", "c@example.org"]);
    assert_eq!(card.others[0].usage.as_ref().unwrap().percent, "30%");
    assert_eq!(card.others[0], render_other_row(&all[0], &reset));
    assert!(card.others[1].usage.is_none());
    assert!(render_card(&login, None, &reset).others.is_empty());
}

#[test]
fn open_chat_names_its_harness() {
    assert_eq!(open_chat_harness(None), None);
    assert_eq!(open_chat_harness(Some(&ChatRow { config: None })), None);
    assert_eq!(
        open_chat_harness(Some(&ChatRow {
            config: Some(ChatConfig { harness: HarnessId::Grok })
        })),
        Some(HarnessId::Grok)
    );
}
