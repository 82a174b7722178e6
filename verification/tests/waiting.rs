//! Waiting for a page, and getting past what it asks.

use webbrowser_plugin::gate::{GateAction, GateReport, Gates};
use webbrowser_plugin::scripts::{
    band_plan_js, prune_hidden_script, settled_source, LAYOUT_JS, PRUNE_JS_BODY, PRUNE_JS_END,
    PRUNE_JS_HEAD,
};
use webbrowser_plugin::settle::{NavigationStable, PageSettled, StableUrl};

const PLAIN: &str = "<html><body><p>Hello</p></body></html>";
const BANNER: &str = "<html><body><div id=\"onetrust-banner-sdk\"></div></body></html>";
const WALL: &str = "<form action=\"https://consent.youtube.com/save\"></form>";

fn report(labels: &[&str], gated: bool, pending: bool) -> GateReport {
    GateReport {
        gated,
        labels: labels.iter().map(|l| (*l).to_owned()).collect(),
        marked: false,
        pending,
    }
}

#[test]
fn a_page_has_settled_after_two_equal_readings() {
    let mut wait = PageSettled::new();
    assert!(!wait.step("complete|10", false), "there was nothing to compare with");
    assert!(!wait.step("complete|10", false), "once is not enough");
    assert!(wait.step("complete|10", false));

    let mut wait = PageSettled::new();
    assert!(!wait.step("loading|10", false));
    assert!(!wait.step("loading|10", false), "it has not finished");
    assert!(!wait.step("complete|10", false));
    assert!(!wait.step("complete|11", false), "it still changes");
    assert!(!wait.step("", false), "it did not answer");
    assert!(wait.step("", true), "the time is up");
}

#[test]
fn an_address_is_stable_when_it_stays_long_enough() {
    let mut wait = StableUrl::new();
    assert!(!wait.step("https://a/", 300, false));
    assert!(!wait.step("https://a/", 600, false), "a redirect may still come");
    assert!(wait.step("https://a/", 1500, false));
    let mut wait = StableUrl::new();
    assert!(wait.step("https://consent.youtube.com/m", 300, false), "a wall ends the wait");
    assert!(wait.step("https://b/", 300, true));
}

#[test]
fn a_navigation_is_stable_when_nothing_moves() {
    let mut wait = NavigationStable::new();
    assert!(!wait.step("https://a/", 200, 750, 10_000));
    assert!(!wait.step("https://a/", 400, 750, 10_000));
    assert!(!wait.step("https://b/", 900, 750, 10_000), "it moved on");
    assert!(wait.step("https://b/", 1650, 750, 10_000));
    let mut wait = NavigationStable::new();
    assert!(!wait.step("", 200, 750, 10_000));
    assert!(wait.step("", 10_000, 750, 10_000));
}

#[test]
fn without_pruning_nothing_is_asked() {
    let (_, action) = Gates::start(false, "https://a/", BANNER.to_owned());
    assert!(matches!(action, GateAction::Done { load, surfaced: false } if load.html == BANNER));
}

#[test]
fn an_ordinary_page_is_handed_over_after_one_look() {
    let (mut gates, action) = Gates::start(true, "https://a/", PLAIN.to_owned());
    assert!(matches!(action, GateAction::Surface { wait: false, .. }));
    let action = gates.on_report(report(&[], false, false));
    assert!(
        matches!(action, GateAction::Done { load, surfaced: false } if load.html == PLAIN && load.notices.is_empty())
    );
}

#[test]
fn a_banner_is_looked_for_four_times() {
    let (mut gates, _) = Gates::start(true, "https://a/", BANNER.to_owned());
    for _ in 0..3 {
        let action = gates.on_report(GateReport::nothing());
        assert!(matches!(action, GateAction::Surface { wait: true, .. }));
    }
    assert!(matches!(gates.on_report(GateReport::nothing()), GateAction::Serialise));
    assert!(
        matches!(gates.on_html(None), GateAction::Done { load, surfaced: false } if load.html == BANNER)
    );
    assert!(
        matches!(gates.on_html(Some(PLAIN.to_owned())), GateAction::Done { load, .. } if load.html == PLAIN)
    );
}

#[test]
fn a_step_needs_an_id_for_every_choice() {
    let (mut gates, _) = Gates::start(true, "https://a/", BANNER.to_owned());
    assert!(matches!(
        gates.on_report(report(&["No"], true, true)),
        GateAction::Surface { wait: true, .. }
    ));
    assert!(matches!(gates.on_report(report(&["No", "Yes"], true, false)), GateAction::ReadIds));
    let ids = vec!["sic-consent-0".to_owned(), "sic-consent-1".to_owned()];
    let GateAction::Done { load, surfaced } = gates.on_ids(&ids) else {
        panic!("the choices are the page");
    };
    assert!(surfaced);
    assert_eq!(load.notices.len(), 1);
    assert_eq!(
        load.html,
        "<!DOCTYPE html><html><body>\
         <form><button type=\"button\" id=\"sic-consent-0\">No</button></form>\
         <form><button type=\"button\" id=\"sic-consent-1\">Yes</button></form></body></html>"
    );
    assert!(matches!(gates.on_ids(&vec!["sic-consent-0".to_owned()]), GateAction::Serialise));
}

#[test]
fn a_wall_without_choices_is_announced() {
    let (mut gates, _) = Gates::start(true, "https://a/", WALL.to_owned());
    let GateAction::Done { load, surfaced } = gates.on_report(GateReport::nothing()) else {
        panic!("a wall is not waited for");
    };
    assert!(!surfaced);
    assert_eq!(load.notices.len(), 1);
    assert_eq!(load.html, WALL);
}

#[test]
fn a_pruned_page_is_used_unless_it_is_empty() {
    assert_eq!(settled_source(true, Some("<p>".to_owned())).as_deref(), Some("<p>"));
    assert_eq!(settled_source(true, Some(String::new())), None);
    assert_eq!(settled_source(true, None), None);
    assert_eq!(settled_source(false, Some("<p>".to_owned())), None);
}

#[test]
fn the_reading_script_declares_before_it_uses() {
    let js = prune_hidden_script();
    assert!(js.starts_with(PRUNE_JS_HEAD) && js.ends_with(PRUNE_JS_END));
    let declared = js.find(LAYOUT_JS).expect("the layout pass is there");
    let used = js.find(PRUNE_JS_BODY).expect("the pruning pass is there");
    assert!(declared < used);
    assert!(band_plan_js().contains("JSON.stringify(sicPlan(document.body))"));
    assert!(!band_plan_js().contains(PRUNE_JS_BODY));
}
