use inertia_axum::cookie_flash::{store_action, FitAction, FitStage, FlashFitter, StoreAction, MAX_FLASH_COOKIE_BYTES};
use inertia_axum::flash::FlashData;
use inertia_axum::json::JsonValue;

fn size(v: &JsonValue) -> usize {
    match v {
        JsonValue::Text(s) | JsonValue::Number(s) => s.chars().count() + 2,
        JsonValue::Array(items) => items.iter().map(size).sum::<usize>() + 2,
        JsonValue::Object(m) => m.iter().map(|(k, v)| k.len() + size(v)).sum::<usize>() + 2,
        _ => 4,
    }
}

/// A stand-in for encrypting: the length grows with the data.
fn measure(d: &FlashData) -> usize {
    d.errors.iter().chain(d.flash.iter()).map(|(k, v)| k.len() + size(v)).sum::<usize>() + 100
}

fn fit(data: FlashData) -> (Option<FlashData>, Vec<FitStage>) {
    let (mut fitter, mut action) = FlashFitter::start(data);
    let mut last: Option<FlashData> = None;
    let mut stages = Vec::new();
    loop {
        match action {
            FitAction::Measure(d) => {
                let len = measure(&d);
                last = Some(d);
                action = fitter.step(Some(len));
                stages.push(fitter.stage);
            }
            FitAction::Accept => return (last, stages),
            FitAction::GiveUp => return (None, stages),
        }
    }
}

fn t(s: &str) -> JsonValue {
    JsonValue::Text(s.into())
}

#[test]
fn small_data_is_sent_as_is() {
    let mut d = FlashData::new();
    d.flash.push(("message".into(), t("Saved!")));
    let (sent, stages) = fit(d);
    assert_eq!(stages, vec![FitStage::Done]);
    assert_eq!(sent.unwrap().flash, vec![("message".to_string(), t("Saved!"))]);
}

#[test]
fn long_lists_keep_their_first_message_then_get_shortened() {
    let mut d = FlashData::new();
    for i in 0..10 {
        d.errors.push((format!("f{i}"), JsonValue::Array(vec![t(&"x".repeat(1000)), t("second")])));
    }
    let (sent, stages) = fit(d);
    assert_eq!(stages, vec![FitStage::FirstMessages, FitStage::Truncated, FitStage::Done]);
    let sent = sent.unwrap();
    assert!(measure(&sent) <= MAX_FLASH_COOKIE_BYTES);
    let expected = format!("{}\u{2026}", "x".repeat(200));
    assert_eq!(sent.errors[0].1, t(&expected));
}

#[test]
fn only_the_errors_that_fit_are_kept_with_a_notice() {
    let mut d = FlashData::new();
    for i in 0..40 {
        d.errors.push((format!("f{i:02}"), t(&"y".repeat(190))));
    }
    d.flash.push(("toast".into(), t("hello")));
    let (sent, _) = fit(d);
    let sent = sent.unwrap();
    assert!(measure(&sent) <= MAX_FLASH_COOKIE_BYTES);
    assert!(sent.flash.is_empty());
    assert_eq!(sent.errors[0], ("_overflow".to_string(), t("There are more errors than can be shown.")));
    assert!(sent.errors.len() > 1 && sent.errors.len() < 41);
    assert_eq!(sent.errors[1].0, "f00");
}

#[test]
fn encryption_failure_sends_nothing() {
    let (mut fitter, _) = FlashFitter::start(FlashData::new());
    assert_eq!(fitter.step(None), FitAction::GiveUp);
    assert_eq!(fitter.stage, FitStage::Done);
}

#[test]
fn the_store_keeps_removes_or_fits() {
    let mut d = FlashData::new();
    d.clear_history = true;
    assert!(matches!(store_action(true, true, Some(d)), StoreAction::Fit(_)));
    assert_eq!(store_action(true, true, Some(FlashData::new())), StoreAction::Remove);
    assert_eq!(store_action(true, false, None), StoreAction::Keep);
    assert_eq!(store_action(false, true, None), StoreAction::Keep);
}

#[test]
fn overflowing_fields_are_tried_in_key_order() {
    let mut d = FlashData::new();
    for i in (0..40).rev() {
        d.errors.push((format!("f{i:02}"), t(&"y".repeat(190))));
    }
    let (sent, _) = fit(d);
    let kept: Vec<String> = sent.unwrap().errors.iter().skip(1).map(|(k, _)| k.clone()).collect();
    assert!(kept.len() > 1 && kept.len() < 40);
    let expected: Vec<String> = (0..kept.len()).map(|i| format!("f{i:02}")).collect();
    assert_eq!(kept, expected);
}
