//! The browser task: its queue, its jobs and its answers.

use std::collections::VecDeque;
use webbrowser_plugin::forms::FormMap;
use webbrowser_plugin::page::{page_to_ffon_with_forms, PageLoad};
use webbrowser_plugin::tree::Element;
use webbrowser_plugin::provider::Switches;
use webbrowser_plugin::worker::{
    next_job, Done, Job, TaskEvent, WirePage, Worker, WorkerAction, WorkerState,
};

fn nav(seq: u64) -> Job {
    Job::Navigate { seq, url: format!("https://{seq}.example/"), prune: true }
}

fn sorted(forms: FormMap) -> Vec<(String, String)> {
    let mut v: Vec<(String, String)> =
        forms.entries.into_iter().map(|(k, c)| (k, format!("{c:?}"))).collect();
    v.sort();
    v
}

#[test]
fn a_navigation_queued_behind_a_newer_one_is_skipped() {
    let mut q: VecDeque<Job> = [nav(1), Job::ClearCookies, nav(2)].into();
    assert!(matches!(next_job(&mut q), Some(Job::ClearCookies)));
    assert!(matches!(next_job(&mut q), Some(Job::Navigate { seq: 2, .. })));
    assert!(next_job(&mut q).is_none());
}

#[test]
fn a_page_and_its_forms_survive_the_trip() {
    let html = r#"<html><body><h1>Title</h1><form><input name="q" placeholder="Search">
               <input type="submit" value="Go"></form></body></html>"#;
    let (elements, forms) =
        page_to_ffon_with_forms(&PageLoad::plain(html.to_owned()), "https://example.com/");
    let wire = WirePage::new(&elements, &forms);
    let done = Done::Page { seq: 3, submitted: false, page: wire };
    let Done::Page { seq, page, .. } = done else {
        panic!("not a page");
    };
    assert_eq!(seq, 3);
    let (e2, f2) = page.into_parts();
    assert_eq!(e2, elements);
    assert_eq!(sorted(f2), sorted(forms));
}

#[test]
fn a_tree_that_is_no_tree_comes_out_empty() {
    let page = WirePage { elements: "not json".to_owned(), forms: Vec::new() };
    assert!(page.into_parts().0.is_empty());
}

#[test]
fn every_other_job_runs_in_order() {
    let fill = |n: u64| Job::Fill { js: format!("{n}") };
    let mut q: VecDeque<Job> = [fill(1), nav(1), fill(2), nav(2), fill(3), nav(3)].into();
    let mut ran = Vec::new();
    while let Some(job) = next_job(&mut q) {
        ran.push(job);
    }
    assert_eq!(ran, vec![fill(1), fill(2), fill(3), nav(3)]);
}

#[test]
fn a_navigation_starts_chrome_once_and_loads() {
    let mut state = WorkerState::new();
    let mut switches = Switches::new();
    let job = Job::Navigate { seq: 1, url: "https://1.example/".to_owned(), prune: false };
    assert!(matches!(state.run(&mut switches, job, false), WorkerAction::Start));
    assert_eq!(switches, Switches { prune: false, no_launch: false });
    let WorkerAction::Load { url } = state.on_started(Ok(())) else {
        panic!("Chrome runs, so the page is loaded");
    };
    assert_eq!(url, "https://1.example/");
    let load = PageLoad::plain("<html><body><p>Hi</p></body></html>".to_owned());
    let WorkerAction::Answer { done: Done::Page { seq: 1, submitted: false, page } } =
        state.on_loaded(Ok(load))
    else {
        panic!("a page is answered");
    };
    assert_eq!(page.into_parts().0, vec![Element::Str("Hi".to_owned())]);
    assert!(state.is_live());
    // A Chrome that still runs is used again; one that went away is not.
    assert!(matches!(state.run(&mut switches, Job::Fill { js: String::new() }, true), WorkerAction::Fill { .. }));
    assert!(!switches.prune, "only a job that reads a page turns it");
    assert!(matches!(state.run(&mut switches, nav(2), true), WorkerAction::Load { .. }));
    assert!(switches.prune);
    assert!(matches!(state.run(&mut switches, nav(3), false), WorkerAction::Start));
    assert!(!state.is_live());
}

#[test]
fn a_chrome_that_does_not_start_is_answered() {
    let mut state = WorkerState::new();
    let mut switches = Switches::new();
    let _ = state.run(&mut switches, nav(7), false);
    let WorkerAction::Answer { done } = state.on_started(Err("no Chrome".to_owned())) else {
        panic!("the failure is answered");
    };
    assert_eq!(
        done,
        Done::Failed { seq: 7, error: "Error launching browser: no Chrome".to_owned() }
    );
    let job = Job::Render { url: "https://r.example/".to_owned(), prune: true };
    let _ = state.run(&mut switches, job, false);
    let WorkerAction::Answer { done: Done::Rendered { url, page } } =
        state.on_started(Err("no Chrome".to_owned()))
    else {
        panic!("the failure is rendered");
    };
    assert_eq!(url, "https://r.example/");
    assert!(page.contains("Error launching browser: no Chrome"), "{page}");
}

#[test]
fn a_failed_load_closes_chrome() {
    let mut state = WorkerState::new();
    let mut switches = Switches::new();
    let _ = state.run(&mut switches, nav(7), false);
    let _ = state.on_started(Ok(()));
    let WorkerAction::CloseAndAnswer { done } = state.on_loaded(Err("gone".to_owned())) else {
        panic!("the next attempt starts from a fresh Chrome");
    };
    assert_eq!(
        done,
        Done::Failed { seq: 7, error: "Error loading https://7.example/: gone".to_owned() }
    );
    assert!(!state.is_live());
}

#[test]
fn without_a_chrome_nothing_is_filled_or_submitted() {
    let mut state = WorkerState::new();
    let mut switches = Switches::new();
    assert!(matches!(state.run(&mut switches, Job::Fill { js: "x".to_owned() }, false), WorkerAction::Nothing));
    let submit = || Job::Submit {
        seq: 4,
        js: "x".to_owned(),
        url: "https://s.example/".to_owned(),
        prune: true,
    };
    assert!(matches!(state.run(&mut switches, submit(), false), WorkerAction::Nothing));
    assert!(matches!(state.run(&mut switches, Job::ClearCookies, false), WorkerAction::RemoveCookieFiles));
    assert!(matches!(state.run(&mut switches, Job::Close, false), WorkerAction::Nothing));

    let _ = state.run(&mut switches, nav(1), false);
    let _ = state.on_started(Ok(()));
    let _ = state.on_loaded(Ok(PageLoad::plain(String::new())));
    assert!(matches!(state.run(&mut switches, Job::Fill { js: "x".to_owned() }, true), WorkerAction::Fill { .. }));
    assert!(matches!(state.run(&mut switches, submit(), true), WorkerAction::Submit { .. }));
    assert_eq!(state.landed(None), "https://s.example/");
    assert_eq!(state.landed(Some("https://t.example/".to_owned())), "https://t.example/");
    let load = PageLoad::plain("<html><body><p>Sent</p></body></html>".to_owned());
    let WorkerAction::Answer { done: Done::Page { seq: 4, submitted: true, .. } } =
        state.on_submitted(Some(load), "https://t.example/")
    else {
        panic!("the page a form led to is answered");
    };
    let _ = state.run(&mut switches, submit(), true);
    assert!(matches!(state.on_submitted(None, "https://t.example/"), WorkerAction::Nothing));

    assert!(matches!(state.run(&mut switches, Job::ClearCookies, true), WorkerAction::ClearCookies));
    assert!(matches!(state.on_cleared(true), WorkerAction::Nothing));
    let WorkerAction::Answer { done } = state.on_cleared(false) else {
        panic!("a failure is said");
    };
    assert_eq!(
        done,
        Done::Error { error: "Could not clear cookies (browser not responding)".to_owned() }
    );
    assert!(matches!(state.run(&mut switches, Job::Close, true), WorkerAction::Close));
    assert!(!state.is_live());
}

#[test]
fn a_link_is_rendered_in_a_tab_of_its_own() {
    let mut state = WorkerState::new();
    let mut switches = Switches::new();
    let job = Job::Render { url: "https://r.example/".to_owned(), prune: true };
    let _ = state.run(&mut switches, job, false);
    let WorkerAction::Render { url } = state.on_started(Ok(())) else {
        panic!("Chrome runs, so the link is rendered");
    };
    assert_eq!(url, "https://r.example/");
    let WorkerAction::Answer { done: Done::Rendered { url, page } } =
        state.on_rendered(&vec![Element::Str("Hello".to_owned())])
    else {
        panic!("the page is answered");
    };
    assert_eq!(url, "https://r.example/");
    assert_eq!(page, "[\n  \"Hello\"\n]".replace(['\n', ' '], ""), "{page}");
}

#[test]
fn jobs_go_out_and_answers_come_in_in_order() {
    let mut worker = Worker::recording();
    assert_eq!(worker.send(nav(1)), Ok(()));
    assert_eq!(worker.send(Job::Close), Ok(()));
    assert_eq!(worker.take_jobs(), vec![nav(1), Job::Close]);
    assert!(worker.take_jobs().is_empty());
    let error = |e: &str| Done::Error { error: e.to_owned() };
    worker.deliver(error("a"));
    worker.deliver(error("b"));
    assert_eq!(worker.drain(), vec![error("a"), error("b")]);
    assert!(worker.drain().is_empty());
    worker.stop();
    assert_eq!(worker.send(Job::Close), Err("the browser has stopped".to_owned()));
}

#[test]
fn an_event_of_another_task_is_none_of_ours() {
    let worker = Worker::start(5);
    let done = || Done::Error { error: "x".to_owned() };
    assert!(worker.on_task_event(6, TaskEvent::Progress(Some(done()))).is_none());
    assert_eq!(worker.on_task_event(5, TaskEvent::Progress(Some(done()))), Some(Ok(done())));
    assert!(worker.on_task_event(5, TaskEvent::Progress(None)).is_none());
    assert_eq!(
        worker.on_task_event(5, TaskEvent::Ended(Ok(()))),
        Some(Err("the browser stopped".to_owned()))
    );
    assert_eq!(
        worker.on_task_event(5, TaskEvent::Ended(Err("why".to_owned()))),
        Some(Err("the browser stopped: why".to_owned()))
    );
}
