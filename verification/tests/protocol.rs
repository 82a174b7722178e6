//! Talking to Chrome over its pipe.

use webbrowser_plugin::cdp::{
    chrome_missing_message, find_chrome, launch_error, launch_plan, xvfb_display,
    xvfb_step, Launch,
};
use webbrowser_plugin::json::Json;
use webbrowser_plugin::protocol::{
    attach_params, attached_page, blank_tab_params, close_params, evaluate_params, evaluated,
    evaluated_text, exited_error, navigate_params, navigation_error, navigation_timeout, no_params,
    opened_target, script_params, viewport_params, Chrome, Page, LOAD_EVENT, MAX_EVENTS,
};

fn page() -> Page {
    Page { target_id: "T".to_owned(), session_id: "S".to_owned() }
}

/// What Chrome says, as it says it.
fn said(text: &str) -> Vec<u8> {
    let mut bytes = text.as_bytes().to_vec();
    bytes.push(0);
    bytes
}

/// What a request with these parameters is sent as.
fn sent(params: Json) -> String {
    let mut chrome = Chrome::new();
    let (id, bytes) = chrome.request(Some("S"), "M", params);
    assert_eq!(id, 1);
    assert_eq!(bytes.last(), Some(&0));
    assert!(!bytes[..bytes.len() - 1].contains(&0));
    String::from_utf8(bytes[..bytes.len() - 1].to_vec()).unwrap()
}

#[test]
fn a_request_is_numbered_and_ends_with_a_zero() {
    let mut chrome = Chrome::new();
    let (one, bytes) = chrome.request(None, "Browser.getVersion", no_params());
    assert_eq!(one, 1);
    assert_eq!(
        bytes,
        said(r#"{"id":1,"method":"Browser.getVersion","params":{}}"#)
    );
    let (two, bytes) = chrome.request(Some("S"), "Page.enable", no_params());
    assert_eq!(two, 2);
    assert_eq!(
        bytes,
        said(r#"{"id":2,"method":"Page.enable","params":{},"sessionId":"S"}"#)
    );
}

#[test]
fn what_is_asked_is_written_out() {
    assert!(sent(blank_tab_params()).contains(r#""params":{"url":"about:blank"}"#));
    let attach = sent(attach_params("T"));
    assert!(attach.contains(r#""targetId":"T""#) && attach.contains(r#""flatten":true"#));
    assert!(sent(close_params(&page())).contains(r#"{"targetId":"T"}"#));
    assert!(sent(navigate_params("https://x/")).contains(r#"{"url":"https://x/"}"#));
    assert!(sent(script_params("a\u{0}\"b")).contains(r#"{"source":"a\u0000\"b"}"#));
    let run = sent(evaluate_params("1+1"));
    assert!(run.contains(r#""expression":"1+1""#));
    assert!(run.contains(r#""returnByValue":true"#) && run.contains(r#""awaitPromise":true"#));
    let size = sent(viewport_params());
    assert!(size.contains(r#""width":1920"#) && size.contains(r#""height":1080"#));
    assert!(size.contains(r#""deviceScaleFactor":1.0"#) && size.contains(r#""mobile":false"#));
}

#[test]
fn messages_come_in_pieces() {
    let mut chrome = Chrome::new();
    let bytes = said(r#"{"id":1,"result":{"a":"b"}}"#);
    for b in &bytes {
        assert!(chrome.take_answer(1, "M").is_none());
        assert!(chrome.pump(&[*b]));
    }
    let answer = chrome.take_answer(1, "M").expect("it has come").expect("it is a result");
    assert_eq!(answer.text_at("a"), Some("b"));
    assert!(chrome.take_answer(1, "M").is_none(), "an answer is taken once");
    assert!(!chrome.pump(&[]));
}

#[test]
fn answers_are_sorted_from_events() {
    let mut chrome = Chrome::new();
    let mut bytes = said(r#"{"method":"Page.loadEventFired","sessionId":"S","params":{"n":1}}"#);
    bytes.extend(said("no json"));
    bytes.extend(said(r#"{"id":9,"error":{"message":"late"}}"#));
    bytes.extend(said(r#"{"id":8,"error":{}}"#));
    bytes.extend(said(r#"{"id":7}"#));
    bytes.extend(said(r#"{"method":"Page.loadEventFired","sessionId":"other"}"#));
    assert!(chrome.pump(&bytes));
    assert_eq!(chrome.take_answer(9, "M"), Some(Err("M: late".to_owned())));
    assert_eq!(chrome.take_answer(8, "M"), Some(Err("M: error".to_owned())));
    assert_eq!(chrome.take_answer(7, "M"), Some(Ok(Json::Null)));
    let event = chrome.take_event(&page(), LOAD_EVENT).expect("the tab's own event");
    assert!(event.get("params").is_some());
    assert!(chrome.take_event(&page(), LOAD_EVENT).is_none());
}

#[test]
fn a_call_is_answered_or_times_out() {
    let mut chrome = Chrome::new();
    assert_eq!(chrome.poll_call(1, "M", false), None);
    assert_eq!(chrome.poll_call(1, "M", true), Some(Err("M timed out".to_owned())));
    assert_eq!(exited_error("M"), "M: Chrome has exited");
    let _ = chrome.pump(&said(r#"{"id":1,"result":true}"#));
    assert_eq!(chrome.poll_call(1, "M", true), Some(Ok(Json::Bool(true))));
}

#[test]
fn an_event_comes_or_the_wait_is_over() {
    let mut chrome = Chrome::new();
    assert_eq!(chrome.poll_event(&page(), LOAD_EVENT, false), None);
    assert_eq!(chrome.poll_event(&page(), LOAD_EVENT, true), Some(None));
    let _ = chrome.pump(&said(r#"{"method":"Page.loadEventFired","sessionId":"S"}"#));
    let event = chrome.poll_event(&page(), LOAD_EVENT, true).flatten();
    assert!(event.is_some_and(|e| e.get("method").is_some()), "it came in time");
    assert_eq!(chrome.poll_event(&page(), LOAD_EVENT, false), None, "it is taken once");
}

#[test]
fn xvfb_starts_or_says_why_not() {
    let broken: &[u8] = b" no screen \n";
    assert_eq!(xvfb_step(b"12\n", Some(broken), true), Some(Ok(12)), "the number comes first");
    assert_eq!(xvfb_step(b"1", Some(broken), true), Some(Err("no screen".to_owned())));
    assert_eq!(xvfb_step(b"1", None, true), Some(Err("no display number after 10 s".to_owned())));
    assert_eq!(xvfb_step(b"1", None, false), None);
}

#[test]
fn events_of_an_earlier_page_are_forgotten() {
    let mut chrome = Chrome::new();
    let _ = chrome.pump(&said(r#"{"method":"Page.loadEventFired","sessionId":"S"}"#));
    let _ = chrome.pump(&said(r#"{"method":"Other","sessionId":"S"}"#));
    chrome.forget_events(&page(), LOAD_EVENT);
    assert!(chrome.take_event(&page(), LOAD_EVENT).is_none());
    assert!(chrome.take_event(&page(), "Other").is_some());
}

#[test]
fn events_that_nobody_waits_for_do_not_pile_up() {
    let mut chrome = Chrome::new();
    for n in 0..MAX_EVENTS + 2 {
        let _ = chrome.pump(&said(&format!(r#"{{"method":"E","sessionId":"S","n":{n}}}"#)));
    }
    let first = chrome.take_event(&page(), "E").expect("many are there");
    assert_eq!(first.get("n"), Some(&Json::Unsigned(2)), "the oldest went");
}

fn result(text: &str) -> Json {
    let mut chrome = Chrome::new();
    let _ = chrome.pump(&said(&format!(r#"{{"id":1,"result":{text}}}"#)));
    chrome.take_answer(1, "M").unwrap().unwrap()
}

#[test]
fn a_tab_is_opened_and_attached() {
    assert_eq!(opened_target(&result(r#"{"targetId":"T"}"#)), Ok("T".to_owned()));
    assert_eq!(opened_target(&result("{}")), Err("Chrome opened no tab".to_owned()));
    let p = attached_page("T".to_owned(), &result(r#"{"sessionId":"S"}"#)).unwrap();
    assert_eq!((p.target_id.as_str(), p.session_id.as_str()), ("T", "S"));
    assert_eq!(
        attached_page("T".to_owned(), &result(r#"{"sessionId":5}"#)).unwrap_err(),
        "Chrome did not attach to the tab"
    );
}

#[test]
fn a_navigation_says_what_went_wrong() {
    assert_eq!(navigation_error(&result(r#"{"errorText":"net::ERR"}"#)), Some("net::ERR".to_owned()));
    assert_eq!(navigation_error(&result(r#"{"errorText":""}"#)), None);
    assert_eq!(navigation_error(&result("{}")), None);
    assert_eq!(
        navigation_timeout("https://x/", 30),
        "navigation to https://x/ timed out after 30 s"
    );
}

#[test]
fn a_script_gives_its_value_or_its_error() {
    let v = evaluated(&result(r#"{"result":{"value":"text"}}"#)).unwrap();
    assert_eq!(evaluated_text(&v), Ok("text".to_owned()));
    assert_eq!(evaluated(&result(r#"{"result":{}}"#)), Ok(Json::Null));
    assert!(evaluated_text(&Json::Null).is_err());
    assert!(evaluated_text(&Json::Float("\"1.5\"".to_owned())).is_err());
    assert_eq!(
        evaluated(&result(
            r#"{"exceptionDetails":{"text":"t","exception":{"description":"d"}}}"#
        )),
        Err("d".to_owned())
    );
    assert_eq!(evaluated(&result(r#"{"exceptionDetails":{"text":"t"}}"#)), Err("t".to_owned()));
    assert_eq!(evaluated(&result(r#"{"exceptionDetails":{}}"#)), Err("script error".to_owned()));
}

#[test]
fn every_kind_of_value_is_read() {
    let v = result(r#"{"a":null,"b":-3,"c":1.5,"d":[1,"x"],"e":true}"#);
    assert_eq!(v.get("a"), Some(&Json::Null));
    assert_eq!(v.get("b"), Some(&Json::Negative(-3)));
    assert_eq!(v.get("c"), Some(&Json::Float("1.5".to_owned())));
    assert_eq!(v.get("d"), Some(&Json::Array(vec![Json::Unsigned(1), Json::Str("x".to_owned())])));
    assert_eq!(v.get("e"), Some(&Json::Bool(true)));
    assert_eq!(v.get("f"), None);
    assert_eq!(v.copy(), v);
}

#[test]
fn the_first_chrome_that_is_there_is_taken() {
    let there = |names: &[&str]| names.iter().map(|n| (*n).to_owned()).collect::<Vec<String>>();
    assert_eq!(find_chrome(&there(&["Chromium", "chromium", "vi"])), Some("chromium"));
    assert_eq!(find_chrome(&there(&["vi"])), None);
    assert_eq!(
        chrome_missing_message(),
        "Chrome, Chromium or Edge was not found. Install one of them to use the web browser."
    );
}

#[test]
fn chrome_has_a_window_only_on_a_virtual_display() {
    let opts = Launch { chrome: "chromium", profile_parent: "/data", profile: "p" };
    let plan = launch_plan(&opts, None);
    assert!(plan.args.contains(&"--headless=new".to_owned()));
    let plan = launch_plan(&opts, Some(3));
    assert!(!plan.args.contains(&"--headless=new".to_owned()));
    assert!(plan.env.contains(&("DISPLAY".to_owned(), ":3".to_owned())));
    assert!(plan.args.contains(&"--user-data-dir=p".to_owned()));
}

#[test]
fn a_chrome_that_does_not_start_shows_its_last_words() {
    assert_eq!(
        launch_error("chromium", "timed out", "a\nb\nc\nd\n"),
        "Chrome (chromium) did not start: timed out d | c | b"
    );
}

#[test]
fn xvfb_says_its_display() {
    assert_eq!(xvfb_display(b"9"), None, "the line has not ended yet");
    assert_eq!(xvfb_display(b" 12\nrest"), Some(Ok(12)));
    assert!(matches!(xvfb_display(b"\n"), Some(Err(_))));
    assert!(matches!(xvfb_display(b"x\n"), Some(Err(_))));
    assert!(matches!(xvfb_display(b"4294967296\n"), Some(Err(_))));
    assert_eq!(xvfb_display(b"4294967295\n"), Some(Ok(4294967295)));
    for bad in ["", "x", "-1", "4294967296"] {
        let std = bad.parse::<u32>().unwrap_err().to_string();
        assert_eq!(xvfb_display(format!("{bad}\n").as_bytes()), Some(Err(std)));
    }
}
