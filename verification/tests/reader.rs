//! The reader: loading, recall history, bookmarks, forms and commands.

use sicompass_sdk::localize;
use sicompass_sdk::tags::{extract_button_display_text, extract_button_function_name, has_button, has_input};
use webbrowser_plugin::forms::{extract_form_key, ControlKind, FormControl, FormMap};
use webbrowser_plugin::history::HistoryFile;
use webbrowser_plugin::launch::Platform;
use webbrowser_plugin::page::PageLoad;
use webbrowser_plugin::provider::{
    bookmark_message, fetch_url_to_ffon, fill_failed, plan_reopened_submit, reopen_failed,
    submit_launch_failed, unlaunched_link, unlaunched_page, Commanded, Committed, LoadStep,
    Navigated, NavigationRequest, SubmitStep, Switches, WebbrowserProvider, _set_test_no_launch,
    CMD_HIDE_HIDDEN, CMD_SHOW_HIDDEN, CMD_TOGGLE_BOOKMARK,
};
use webbrowser_plugin::tree::{Element, Section};

/// What a node of the tree is.
trait Reading {
    fn as_str(&self) -> Option<&str>;
    fn as_obj(&self) -> Option<&Section>;
}

impl Reading for Element {
    fn as_str(&self) -> Option<&str> {
        match self {
            Element::Str(s) => Some(s),
            Element::Obj(_) => None,
        }
    }

    fn as_obj(&self) -> Option<&Section> {
        match self {
            Element::Str(_) => None,
            Element::Obj(o) => Some(o),
        }
    }
}

fn section(key: &str, children: Vec<Element>) -> Element {
    Element::Obj(Section { key: key.to_owned(), children })
}

/// What several readers share: the file of the history, and the switches of
/// the process. No browser is started.
struct Disk {
    file: HistoryFile,
    switches: Switches,
}

impl Disk {
    fn with(file: HistoryFile) -> Disk {
        let mut switches = Switches::new();
        _set_test_no_launch(&mut switches, true);
        Disk { file, switches }
    }

    fn empty() -> Disk {
        Disk::with(HistoryFile::Missing)
    }

    fn holding(text: &str) -> Disk {
        Disk::with(HistoryFile::Text(text.to_owned()))
    }

    fn write(&mut self, text: Option<String>) {
        if let Some(text) = text {
            self.file = HistoryFile::Text(text);
        }
    }

    fn text(&self) -> &str {
        match &self.file {
            HistoryFile::Text(t) => t,
            _ => panic!("nothing was written"),
        }
    }

    fn commit(&mut self, p: &mut WebbrowserProvider, typed: &str) -> bool {
        let Committed { accepted, write, .. } = p.commit_edit(&self.switches, typed, &self.file);
        self.write(write);
        accepted
    }

    fn press(&mut self, p: &mut WebbrowserProvider, name: &str) {
        let pressed = p.on_button_press(&self.switches, name, &self.file);
        self.write(pressed.write);
    }

    fn command(&mut self, p: &mut WebbrowserProvider, cmd: &str, key: &str) -> String {
        let Commanded { write, message, .. } = p.handle_command(&mut self.switches, cmd, key, &self.file);
        self.write(write);
        message.unwrap_or_default()
    }
}

fn register_translations() {
    let _ = localize::register_bundle(
        "en-US",
        "webbrowser-bookmark-marker = [bookmark]\n\
         webbrowser-bookmark-nothing = No page to bookmark\n\
         webbrowser-bookmark-added = Bookmarked { $url }\n\
         webbrowser-bookmark-removed = Bookmark removed: { $url }\n",
    );
}

/// A reader with its history read from `disk`.
fn history_provider(disk: &Disk) -> WebbrowserProvider {
    register_translations();
    let mut p = WebbrowserProvider::new();
    p.init(&disk.file);
    p
}

fn history_rows(p: &WebbrowserProvider) -> Vec<String> {
    p.fetch().iter().filter_map(|e| e.as_str()).filter_map(extract_button_function_name).collect()
}

fn row_key(p: &WebbrowserProvider, url: &str) -> String {
    p.fetch()
        .iter()
        .filter_map(|e| e.as_str())
        .find(|k| extract_button_function_name(k).as_deref() == Some(url))
        .map(str::to_owned)
        .unwrap_or_else(|| panic!("no history row for {url}"))
}

fn row_labels(p: &WebbrowserProvider) -> Vec<String> {
    p.fetch()
        .iter()
        .filter_map(|e| e.as_str())
        .filter(|k| has_button(k))
        .filter_map(extract_button_display_text)
        .collect()
}

fn bookmarked(p: &WebbrowserProvider, url: &str) -> bool {
    p.history().is_bookmarked(url)
}

// ---- What the user sees ----

#[test]
fn test_fetch_returns_meta_and_url_bar() {
    let p = WebbrowserProvider::new();
    let items = p.fetch();
    assert!(items[0].as_str().is_some());
}

#[test]
fn test_fetch_url_bar_contains_input_tag() {
    let p = WebbrowserProvider::new();
    let items = p.fetch();
    let url_bar = items[0].as_str().unwrap();
    assert!(url_bar.contains("<input>") && url_bar.contains("</input>"));
    assert_eq!(url_bar, "<input>https://</input>");
}

#[test]
fn test_commands_includes_refresh() {
    let p = WebbrowserProvider::new();
    assert!(p.commands(&Switches::new()).contains(&"refresh".to_owned()));
}

#[test]
fn provider_push_pop_path() {
    let mut p = WebbrowserProvider::new();
    assert_eq!(p.current_path(), "/");
    p.push_path("https://example.com");
    assert_eq!(p.current_path(), "/https://example.com");
    p.push_path("form_1");
    assert_eq!(p.current_path(), "/https://example.com/form_1");
    p.pop_path();
    assert_eq!(p.current_path(), "/https://example.com");
    p.pop_path();
    assert_eq!(p.current_path(), "/");
    p.pop_path();
    assert_eq!(p.current_path(), "/");
}

#[test]
fn provider_set_current_path() {
    let mut p = WebbrowserProvider::new();
    p.set_current_path("/https://x.com/form_2/q");
    assert_eq!(p.current_path(), "/https://x.com/form_2/q");
    assert_eq!(extract_form_key(p.current_path()), Some("form_2/q".to_owned()));
}

// ---- Loading ----

#[test]
fn provider_tick_drains_ready_content() {
    let mut p = WebbrowserProvider::new();
    p.deliver(vec![Element::new_str("result")], FormMap::new());
    assert!(p.tick(), "tick should return true when content is ready");
    assert!(
        p.page().and_then(|c| c.first()).and_then(|e| e.as_str()).map_or(false, |s| s == "result"),
        "the page should hold the delivered content"
    );
    assert!(!p.tick());
}

#[test]
fn page_landing_asks_app_to_enter_content() {
    let mut p = WebbrowserProvider::new();
    let _ = p.load_url(&Switches::new(), "https://example.com");
    assert!(
        p.take_navigation_request().is_none(),
        "no request before the page has landed — the content isn't there to enter yet"
    );
    p.deliver(vec![Element::new_str("body text")], FormMap::new());
    assert!(p.tick());
    assert_eq!(p.take_navigation_request(), Some(NavigationRequest::EnterChildren));
    assert!(p.take_navigation_request().is_none(), "request must not repeat");
}

#[test]
fn fetch_while_loading_keeps_the_url_bar_childless() {
    let mut p = WebbrowserProvider::new();
    p.deliver(vec![Element::new_str("stale body")], FormMap::new());
    assert!(p.tick());
    let step = p.load_url(&Switches::new(), "https://example.com");
    assert_eq!(step, LoadStep::Start { url: "https://example.com".to_owned() });

    let items = p.fetch();
    assert_eq!(items.len(), 2, "URL bar plus a status line: {items:?}");
    assert!(
        matches!(&items[0], Element::Str(s) if s.contains("https://example.com")),
        "URL bar must be childless while loading so nothing descends into \
         the previous page: {:?}",
        items[0]
    );
    assert_eq!(items[1].as_str(), Some("Loading…"));
}

#[test]
fn browser_launch_failure_leaves_the_loading_state() {
    let mut p = WebbrowserProvider::new();
    let _ = p.load_url(&Switches::new(), "https://example.com");
    p.publish_load_failure("Error launching browser: Chrome/Chromium not found.".to_owned());
    assert_eq!(p.next_target(), None);

    assert!(
        p.tick(),
        "the failure must signal the app to re-fetch, or the view stays on \
         \"Loading…\" forever"
    );
    let items = p.fetch();
    assert_eq!(items.len(), 1, "URL bar wrapping the failure: {items:?}");
    let body = items[0].as_obj().expect("URL bar gains the page as children");
    assert!(
        body.children
            .iter()
            .any(|e| e.as_str().is_some_and(|s| s.contains("Chrome/Chromium not found"))),
        "the reason has to be readable in the page: {body:?}"
    );
    assert!(
        p.take_error().is_some_and(|e| e.contains("Error launching browser")),
        "and on the status line, which the app drains on the same tick"
    );
    assert_eq!(
        p.take_navigation_request(),
        Some(NavigationRequest::EnterChildren),
        "the cursor still descends, so the error is where the user is reading"
    );
}

#[test]
fn url_committed_during_a_load_is_queued_not_dropped() {
    let mut p = WebbrowserProvider::new();
    let _ = p.load_url(&Switches::new(), "https://first.example/");

    let step = p.load_url(&Switches::new(), "https://second.example/");

    assert_eq!(step, LoadStep::Nothing, "no second task beside the first");
    assert_eq!(
        p.current_url(),
        "https://second.example/",
        "the URL bar still shows where the user is going"
    );
    assert_eq!(
        p.take_pending().as_deref(),
        Some("https://second.example/"),
        "the URL has to reach the running task, or nothing ever loads it"
    );
    assert!(
        p.is_loading(),
        "the first load is still running; the flag stays set so `fetch` \
         keeps saying \"Loading…\""
    );
}

#[test]
fn queued_navigations_coalesce_to_the_newest() {
    let mut p = WebbrowserProvider::new();
    let _ = p.load_url(&Switches::new(), "https://zeroth.example/");
    let _ = p.load_url(&Switches::new(), "https://first.example/");
    let _ = p.load_url(&Switches::new(), "https://second.example/");
    let _ = p.load_url(&Switches::new(), "https://third.example/");

    assert_eq!(p.take_pending().as_deref(), Some("https://third.example/"));
    assert_eq!(p.take_pending(), None, "one slot, not a backlog");
}

#[test]
fn next_target_serves_the_queue_then_releases_the_flag() {
    let mut p = WebbrowserProvider::new();
    let _ = p.load_url(&Switches::new(), "https://first.example/");

    p.queue_pending("https://queued.example/");
    assert_eq!(
        p.next_target().as_deref(),
        Some("https://queued.example/"),
        "a queued URL is the task's next destination"
    );
    assert!(
        p.is_loading(),
        "the chain continues, so the flag stays set and no second task spawns"
    );

    assert_eq!(p.next_target(), None, "empty queue ends the chain");
    assert!(
        !p.is_loading(),
        "and releases the flag, so the next commit spawns its own task"
    );
    assert_eq!(
        p.load_url(&Switches::new(), "https://next.example/"),
        LoadStep::Start { url: "https://next.example/".to_owned() }
    );
}

#[test]
fn a_load_superseded_mid_flight_does_not_publish() {
    let mut p = WebbrowserProvider::new();
    let _ = p.load_url(&Switches::new(), "https://older.example/");
    assert!(!p.has_pending());
    p.queue_pending("https://newer.example/");
    assert!(
        p.has_pending(),
        "the in-flight navigation can see that it has been superseded"
    );
    let load = PageLoad::plain("<html><body><p>old</p></body></html>".to_owned());
    assert!(!p.on_navigated("https://older.example/", Navigated::Loaded(load)));
    assert!(!p.tick(), "nothing of the older page is shown");
}

#[test]
fn a_loaded_page_is_published_and_a_failed_one_closes_the_browser() {
    let mut p = WebbrowserProvider::new();
    let _ = p.load_url(&Switches::new(), "https://a.example/");
    let load = PageLoad::plain("<html><body><p>Hello</p></body></html>".to_owned());
    assert!(!p.on_navigated("https://a.example/", Navigated::Loaded(load)));
    assert!(p.tick());
    assert_eq!(p.page().unwrap()[0].as_str(), Some("Hello"));

    assert!(p.on_navigated("https://a.example/", Navigated::LoadFailed("gone".to_owned())));
    assert!(p.tick());
    assert_eq!(p.page().unwrap()[0].as_str(), Some("Error loading https://a.example/: gone"));
    assert_eq!(p.take_error().as_deref(), Some("Error loading https://a.example/: gone"));

    assert!(!p.on_navigated("https://a.example/", Navigated::LaunchFailed("no".to_owned())));
    assert!(p.tick());
    assert_eq!(p.page().unwrap()[0].as_str(), Some("Error launching browser: no"));
}

#[test]
fn a_browser_per_page_shows_what_came_of_it_at_once() {
    let mut p = WebbrowserProvider::on_platform(Platform::Windows);
    assert_eq!(
        p.load_url(&Switches::new(), "https://a.example/"),
        LoadStep::Fetch { url: "https://a.example/".to_owned() }
    );
    assert!(!p.is_loading());
    let load = PageLoad::plain("<html><body><p>Hello</p></body></html>".to_owned());
    p.on_fetched("https://a.example/", Ok(load));
    assert_eq!(p.current_url(), "https://a.example/");
    assert_eq!(p.page().unwrap()[0].as_str(), Some("Hello"));
    assert_eq!(p.take_navigation_request(), Some(NavigationRequest::EnterChildren));

    p.on_fetched("https://b.example/", Err("gone".to_owned()));
    assert_eq!(p.page().unwrap()[0].as_str(), Some("Error loading https://b.example/: gone"));
    assert_eq!(p.forms().entries.len(), 0);
    assert_eq!(p.take_navigation_request(), None);
}

#[test]
fn a_link_is_rendered_or_says_why_not() {
    let load = PageLoad::plain("<html><body><p>Hello</p></body></html>".to_owned());
    let page = fetch_url_to_ffon("https://a.example/", Ok(load));
    assert_eq!(page[0].as_str(), Some("Hello"));
    let page = fetch_url_to_ffon("https://a.example/", Err("gone".to_owned()));
    assert_eq!(page.len(), 1);
    assert_eq!(page[0].as_str(), Some("Error loading https://a.example/: gone"));
}

#[test]
fn submit_response_does_not_move_the_cursor() {
    let mut p = WebbrowserProvider::new();
    p.deliver(vec![Element::new_str("results")], FormMap::new());
    assert!(p.tick());
    assert!(p.take_navigation_request().is_none());
}

#[test]
fn every_navigation_arms_the_descent_into_the_page() {
    let mut disk = Disk::with(HistoryFile::Unknown);
    let mut p = WebbrowserProvider::new();
    assert!(disk.commit(&mut p, "https://example.invalid"));
    assert_eq!(
        p.take_navigation_request(),
        Some(NavigationRequest::EnterChildren),
        "committing a URL should drop the user into the loaded page"
    );

    for cmd in ["refresh", CMD_SHOW_HIDDEN] {
        let _ = disk.command(&mut p, cmd, "");
        assert_eq!(
            p.take_navigation_request(),
            Some(NavigationRequest::EnterChildren),
            "`{cmd}` reloads the page, so it must land the user back in it"
        );
    }

    let _ = disk.command(&mut p, CMD_TOGGLE_BOOKMARK, "");
    assert_eq!(p.take_navigation_request(), None);
}

// ---- Recall history ----

#[test]
fn committing_a_url_prepends_it_to_the_history() {
    let mut disk = Disk::empty();
    let mut p = history_provider(&disk);

    disk.commit(&mut p, "https://a.invalid");
    disk.commit(&mut p, "https://b.invalid");

    assert_eq!(*p.history().urls(), vec!["https://b.invalid", "https://a.invalid"], "newest first");
}

#[test]
fn revisiting_a_url_moves_it_to_the_top_instead_of_duplicating_it() {
    let mut disk = Disk::empty();
    let mut p = history_provider(&disk);

    disk.commit(&mut p, "https://a.invalid");
    disk.commit(&mut p, "https://b.invalid");
    disk.commit(&mut p, "https://a.invalid");

    assert_eq!(
        *p.history().urls(),
        vec!["https://a.invalid", "https://b.invalid"],
        "a revisit ranks, it does not accumulate"
    );
}

#[test]
fn url_history_survives_a_restart() {
    let mut disk = Disk::empty();
    {
        let mut p = history_provider(&disk);
        disk.commit(&mut p, "https://a.invalid");
        disk.commit(&mut p, "https://b.invalid");
    }
    let p = history_provider(&disk);
    assert_eq!(*p.history().urls(), vec!["https://b.invalid", "https://a.invalid"]);
}

#[test]
fn the_history_file_is_newest_first_one_url_per_line() {
    let mut disk = Disk::empty();
    let mut p = history_provider(&disk);
    disk.commit(&mut p, "https://a.invalid");
    disk.commit(&mut p, "https://b.invalid");

    assert_eq!(disk.text(), "https://b.invalid\nhttps://a.invalid\n");
}

#[test]
fn fetch_puts_history_below_the_url_bar_as_root_siblings() {
    let mut disk = Disk::empty();
    let mut p = history_provider(&disk);
    disk.commit(&mut p, "https://a.invalid");
    disk.commit(&mut p, "https://b.invalid");

    let items = p.fetch();
    assert_eq!(items.len(), 3, "URL bar plus two history rows: {items:?}");

    let url_bar = items[0].as_obj().expect("a page is loaded");
    assert!(has_input(&url_bar.key));
    assert!(
        !url_bar.children.iter().filter_map(|c| c.as_str()).any(has_button),
        "history must not be mixed into the page content: {:?}",
        url_bar.children
    );

    for row in &items[1..] {
        assert!(has_button(row.as_str().unwrap()));
    }
    assert_eq!(history_rows(&p), vec!["https://b.invalid", "https://a.invalid"]);
}

#[test]
fn fetch_keeps_history_visible_while_loading() {
    let mut disk = Disk::empty();
    let mut p = history_provider(&disk);
    disk.commit(&mut p, "https://a.invalid");

    _set_test_no_launch(&mut disk.switches, false);
    let _ = p.load_url(&disk.switches, "https://a.invalid");
    let items = p.fetch();

    assert_eq!(items.len(), 3, "URL bar, status line, and the history row: {items:?}");
    assert_eq!(items[1].as_str().unwrap(), "Loading…");
    assert_eq!(
        extract_button_function_name(items[2].as_str().unwrap()),
        Some("https://a.invalid".to_owned()),
    );
}

#[test]
fn pressing_a_history_row_moves_it_to_the_top_and_loads_it() {
    let mut disk = Disk::empty();
    let mut p = history_provider(&disk);
    disk.commit(&mut p, "https://a.invalid");
    disk.commit(&mut p, "https://b.invalid");
    let _ = p.take_navigation_request();

    disk.press(&mut p, "https://a.invalid");

    assert_eq!(p.current_url(), "https://a.invalid", "the site is loaded");
    assert_eq!(
        *p.history().urls(),
        vec!["https://a.invalid", "https://b.invalid"],
        "the pressed row moves to the top"
    );
    assert_eq!(
        p.take_navigation_request(),
        Some(NavigationRequest::EnterChildren),
        "and the user is dropped into the page, as if they had typed it"
    );
}

#[test]
fn a_form_submit_press_is_not_mistaken_for_a_history_row() {
    let mut disk = Disk::empty();
    let mut p = history_provider(&disk);
    disk.commit(&mut p, "https://a.invalid");
    let before: Vec<String> = p.history().urls().clone();

    disk.press(&mut p, "submit:form_1");

    assert_eq!(*p.history().urls(), before);
}

#[test]
fn a_page_button_carrying_a_url_does_not_navigate_the_tab() {
    let mut disk = Disk::empty();
    let mut p = history_provider(&disk);
    disk.commit(&mut p, "https://a.invalid");

    disk.press(&mut p, "https://elsewhere.invalid");

    assert_eq!(p.current_url(), "https://a.invalid");
    assert_eq!(*p.history().urls(), vec!["https://a.invalid"]);
}

#[test]
fn reloading_commands_do_not_reorder_the_history() {
    let mut disk = Disk::empty();
    let mut p = history_provider(&disk);
    disk.commit(&mut p, "https://a.invalid");
    disk.commit(&mut p, "https://b.invalid");
    disk.press(&mut p, "https://a.invalid");
    let ranked: Vec<String> = p.history().urls().clone();

    for cmd in ["refresh", CMD_SHOW_HIDDEN, CMD_TOGGLE_BOOKMARK] {
        let _ = disk.command(&mut p, cmd, "");
        assert_eq!(
            *p.history().urls(),
            ranked,
            "`{cmd}` reloads the current page and must not touch the ranking"
        );
    }
}

#[test]
fn url_history_size_setting_drops_the_oldest() {
    let mut disk = Disk::empty();
    let mut p = history_provider(&disk);
    disk.commit(&mut p, "https://a.invalid");
    disk.commit(&mut p, "https://b.invalid");
    disk.commit(&mut p, "https://c.invalid");

    p.on_setting_change("urlHistorySize", "2");

    assert_eq!(*p.history().urls(), vec!["https://c.invalid", "https://b.invalid"]);
    disk.commit(&mut p, "https://d.invalid");
    assert_eq!(*p.history().urls(), vec!["https://d.invalid", "https://c.invalid"]);
}

#[test]
fn url_history_size_zero_is_unbounded() {
    let mut disk = Disk::empty();
    let mut p = history_provider(&disk);
    p.on_setting_change("urlHistorySize", "0");
    for i in 0..10 {
        disk.commit(&mut p, &format!("https://{i}.invalid"));
    }
    assert_eq!(p.history().urls().len(), 10);
}

#[test]
fn on_setting_change_ignores_a_garbage_history_size() {
    let mut p = WebbrowserProvider::new();
    p.on_setting_change("urlHistorySize", "lots");
    assert_eq!(p.history().size(), 50_000);
    p.on_setting_change("elsewhere", "7");
    assert_eq!(p.history().size(), 50_000);
    p.on_setting_change("urlHistorySize", "7");
    assert_eq!(p.history().size(), 7);
}

#[test]
fn a_url_containing_a_close_button_tag_round_trips() {
    let mut disk = Disk::empty();
    let mut p = history_provider(&disk);

    disk.commit(&mut p, "https://x.invalid/?q=</button>evil");

    assert_eq!(
        *p.history().urls(),
        vec!["https://x.invalid/?q=%3C/button%3Eevil"],
        "the tag is encoded before it can truncate the button payload"
    );
    assert_eq!(history_rows(&p), *p.history().urls());
}

#[test]
fn a_provider_that_was_never_initialised_never_touches_disk() {
    let mut disk = Disk::holding("https://kept.invalid\n");
    let mut p = WebbrowserProvider::new();
    disk.commit(&mut p, "https://new.invalid");

    assert_eq!(
        disk.text(),
        "https://kept.invalid\n",
        "writing from a list that was never loaded would truncate the user's history"
    );
}

#[test]
fn a_second_tab_recording_does_not_lose_the_first_tabs_entries() {
    let mut disk = Disk::empty();
    let mut tab_a = history_provider(&disk);
    let mut tab_b = history_provider(&disk);

    disk.commit(&mut tab_a, "https://a.invalid");
    disk.commit(&mut tab_b, "https://b.invalid");

    assert_eq!(
        *tab_b.history().urls(),
        vec!["https://b.invalid", "https://a.invalid"],
        "the file is rewritten in full, so tab B has to merge what tab A wrote"
    );
    assert_eq!(disk.text(), "https://b.invalid\nhttps://a.invalid\n");
}

#[test]
fn an_unreadable_history_file_is_never_overwritten() {
    let mut p = WebbrowserProvider::new();
    p.init(&HistoryFile::Unknown);
    let committed = p.commit_edit(&Disk::empty().switches, "https://new.invalid", &HistoryFile::Unknown);

    assert_eq!(
        committed.write, None,
        "a history that could not be read must survive exactly as it was"
    );
    assert_eq!(*p.history().urls(), vec!["https://new.invalid"]);
}

#[test]
fn a_missing_history_file_is_a_first_run_not_an_error() {
    let mut disk = Disk::empty();
    let mut p = history_provider(&disk);
    disk.commit(&mut p, "https://a.invalid");
    assert_eq!(disk.text(), "https://a.invalid\n", "no file yet must still start recording");
}

#[test]
fn a_corrupt_history_file_is_filtered_not_fatal() {
    let disk = Disk::holding(
        "https://ok.invalid\n\nnot a url with spaces\nhttps://ok.invalid\nhttps://other.invalid\n",
    );

    let p = history_provider(&disk);

    assert_eq!(
        *p.history().urls(),
        vec!["https://ok.invalid", "https://other.invalid"],
        "unusable lines dropped, duplicates collapsed to the first (newest) copy"
    );
}

// ---- Bookmarks ----

#[test]
fn toggling_a_bookmark_marks_the_row_without_moving_it() {
    let mut disk = Disk::empty();
    let mut p = history_provider(&disk);
    disk.commit(&mut p, "https://a.invalid");
    disk.commit(&mut p, "https://b.invalid");

    let key = row_key(&p, "https://a.invalid");
    let error = disk.command(&mut p, CMD_TOGGLE_BOOKMARK, &key);

    assert_eq!(
        *p.history().urls(),
        vec!["https://b.invalid", "https://a.invalid"],
        "the ranking is untouched, so the row cannot jump under the cursor"
    );
    assert_eq!(row_labels(&p), vec!["https://b.invalid", "[bookmark] https://a.invalid"]);
    assert!(
        error.contains("https://a.invalid"),
        "the URL belongs in the message, or a second bookmark is announced \
         identically and therefore silently: {error}"
    );
}

#[test]
fn history_rows_keep_the_bare_url_as_the_button_function_name() {
    let mut disk = Disk::empty();
    let mut p = history_provider(&disk);
    disk.commit(&mut p, "https://a.invalid");

    let key = row_key(&p, "https://a.invalid");
    let _ = disk.command(&mut p, CMD_TOGGLE_BOOKMARK, &key);

    assert_eq!(history_rows(&p), vec!["https://a.invalid"]);
    disk.press(&mut p, "https://a.invalid");
    assert_eq!(p.current_url(), "https://a.invalid");
}

#[test]
fn toggling_twice_removes_the_bookmark() {
    let mut disk = Disk::empty();
    let mut p = history_provider(&disk);
    disk.commit(&mut p, "https://a.invalid");
    let key = row_key(&p, "https://a.invalid");

    let _ = disk.command(&mut p, CMD_TOGGLE_BOOKMARK, &key);
    assert!(bookmarked(&p, "https://a.invalid"));

    let _ = disk.command(&mut p, CMD_TOGGLE_BOOKMARK, &key);
    assert!(p.history().bookmarks().is_empty());
    assert_eq!(row_labels(&p), vec!["https://a.invalid"]);
}

#[test]
fn the_history_file_marks_bookmarked_lines_with_a_star() {
    let mut disk = Disk::empty();
    let mut p = history_provider(&disk);
    disk.commit(&mut p, "https://a.invalid");
    disk.commit(&mut p, "https://b.invalid");

    let key = row_key(&p, "https://a.invalid");
    let _ = disk.command(&mut p, CMD_TOGGLE_BOOKMARK, &key);

    assert_eq!(
        disk.text(),
        "https://b.invalid\n*https://a.invalid\n",
        "unbookmarked lines keep the pre-bookmark format exactly"
    );
}

#[test]
fn bookmarks_survive_a_restart() {
    let mut disk = Disk::empty();
    {
        let mut p = history_provider(&disk);
        disk.commit(&mut p, "https://a.invalid");
        disk.commit(&mut p, "https://b.invalid");
        let key = row_key(&p, "https://a.invalid");
        let _ = disk.command(&mut p, CMD_TOGGLE_BOOKMARK, &key);
    }
    let p = history_provider(&disk);
    assert_eq!(row_labels(&p), vec!["https://b.invalid", "[bookmark] https://a.invalid"]);
}

#[test]
fn an_unprefixed_history_file_reads_as_all_unbookmarked() {
    let disk = Disk::holding("https://a.invalid\nhttps://b.invalid\n");

    let p = history_provider(&disk);

    assert!(p.history().bookmarks().is_empty(), "no migration step to get wrong");
    assert_eq!(row_labels(&p), vec!["https://a.invalid", "https://b.invalid"]);
}

#[test]
fn bookmarking_a_url_not_in_the_history_adds_a_row_at_the_top() {
    let mut disk = Disk::empty();
    let mut p = history_provider(&disk);
    disk.commit(&mut p, "https://typed.invalid");

    let _ = disk.command(
        &mut p,
        CMD_TOGGLE_BOOKMARK,
        "Some article <link>https://followed.invalid</link>",
    );

    assert_eq!(
        *p.history().urls(),
        vec!["https://followed.invalid", "https://typed.invalid"],
        "a bookmark is an annotation on a row, so there has to be a row"
    );
    assert!(bookmarked(&p, "https://followed.invalid"));
    assert_eq!(p.current_url(), "https://typed.invalid", "bookmarking must not navigate");
}

#[test]
fn a_history_row_wins_over_the_loaded_url() {
    let mut disk = Disk::empty();
    let mut p = history_provider(&disk);
    disk.commit(&mut p, "https://a.invalid");
    disk.commit(&mut p, "https://b.invalid");

    let key = row_key(&p, "https://a.invalid");
    let _ = disk.command(&mut p, CMD_TOGGLE_BOOKMARK, &key);

    assert_eq!(
        *p.history().bookmarks(),
        vec!["https://a.invalid"],
        "the cursor's row, not the page being displayed"
    );
}

#[test]
fn a_page_button_is_not_mistaken_for_a_history_row() {
    let mut disk = Disk::empty();
    let mut p = history_provider(&disk);
    disk.commit(&mut p, "https://a.invalid");

    let _ = disk.command(
        &mut p,
        CMD_TOGGLE_BOOKMARK,
        "<button>https://elsewhere.invalid</button>Subscribe",
    );

    assert_eq!(
        *p.history().urls(),
        vec!["https://a.invalid"],
        "matched by membership, so it falls through to the loaded page"
    );
    assert!(bookmarked(&p, "https://a.invalid"));
}

#[test]
fn bookmarking_with_no_url_loaded_reports_nothing_to_bookmark() {
    let mut disk = Disk::empty();
    let mut p = history_provider(&disk);

    let error = disk.command(&mut p, CMD_TOGGLE_BOOKMARK, "");

    assert_eq!(error, "No page to bookmark");
    assert!(p.history().urls().is_empty());
    assert!(p.history().bookmarks().is_empty());
}

#[test]
fn a_bookmark_is_not_dropped_by_the_history_cap() {
    let mut disk = Disk::empty();
    let mut p = history_provider(&disk);
    disk.commit(&mut p, "https://keep.invalid");
    let key = row_key(&p, "https://keep.invalid");
    let _ = disk.command(&mut p, CMD_TOGGLE_BOOKMARK, &key);
    disk.commit(&mut p, "https://a.invalid");
    disk.commit(&mut p, "https://b.invalid");
    disk.commit(&mut p, "https://c.invalid");

    p.on_setting_change("urlHistorySize", "2");

    assert_eq!(
        *p.history().urls(),
        vec!["https://c.invalid", "https://b.invalid", "https://keep.invalid"],
        "the cap governs the unbookmarked rows; ageing a bookmark out would \
         silently delete the one thing the user asked to keep"
    );
    disk.commit(&mut p, "https://d.invalid");
    assert_eq!(
        *p.history().urls(),
        vec!["https://d.invalid", "https://c.invalid", "https://keep.invalid"],
    );
}

#[test]
fn unbookmarking_is_not_resurrected_by_another_tab() {
    let mut disk = Disk::empty();
    let mut tab_a = history_provider(&disk);
    let mut tab_b = history_provider(&disk);

    disk.commit(&mut tab_a, "https://a.invalid");
    let key = row_key(&tab_a, "https://a.invalid");
    let _ = disk.command(&mut tab_a, CMD_TOGGLE_BOOKMARK, &key);
    disk.commit(&mut tab_b, "https://b.invalid");
    assert!(bookmarked(&tab_b, "https://a.invalid"));

    let key = row_key(&tab_a, "https://a.invalid");
    let _ = disk.command(&mut tab_a, CMD_TOGGLE_BOOKMARK, &key);

    disk.commit(&mut tab_b, "https://c.invalid");
    assert!(
        tab_b.history().bookmarks().is_empty(),
        "disk is authoritative for the flag: {:?}",
        tab_b.history().bookmarks()
    );
    assert!(!disk.text().contains('*'));
}

#[test]
fn bookmarks_work_in_memory_without_a_history_file() {
    let mut disk = Disk::with(HistoryFile::Unknown);
    let mut p = history_provider(&disk);
    disk.commit(&mut p, "https://a.invalid");

    let key = row_key(&p, "https://a.invalid");
    let _ = disk.command(&mut p, CMD_TOGGLE_BOOKMARK, &key);
    assert!(bookmarked(&p, "https://a.invalid"));

    disk.commit(&mut p, "https://b.invalid");
    assert!(bookmarked(&p, "https://a.invalid"), "a navigation must not wipe it");

    let _ = disk.command(&mut p, CMD_TOGGLE_BOOKMARK, &key);
    assert!(p.history().bookmarks().is_empty(), "and it has to be removable");
}

#[test]
fn a_url_starting_with_a_star_is_encoded() {
    let mut disk = Disk::empty();
    let mut p = history_provider(&disk);

    disk.commit(&mut p, "*://x.invalid");

    assert_eq!(*p.history().urls(), vec!["%2A://x.invalid"]);
    assert!(p.history().bookmarks().is_empty());
    assert_eq!(disk.text(), "%2A://x.invalid\n");
    let p = history_provider(&disk);
    assert!(p.history().bookmarks().is_empty());
    assert_eq!(history_rows(&p), vec!["%2A://x.invalid"]);
}

#[test]
fn a_bookmark_is_announced_as_what_it_became() {
    assert_eq!(bookmark_message(true), "webbrowser-bookmark-added");
    assert_eq!(bookmark_message(false), "webbrowser-bookmark-removed");
    let mut disk = Disk::empty();
    let mut p = history_provider(&disk);
    disk.commit(&mut p, "https://a.invalid");
    let on = disk.command(&mut p, CMD_TOGGLE_BOOKMARK, "");
    assert!(on.starts_with("Bookmarked "), "{on}");
    let off = disk.command(&mut p, CMD_TOGGLE_BOOKMARK, "");
    assert!(off.starts_with("Bookmark removed: "), "{off}");
}

#[test]
fn a_link_that_is_no_address_does_not_win_over_the_loaded_url() {
    let mut disk = Disk::empty();
    let mut p = history_provider(&disk);
    disk.commit(&mut p, "https://a.invalid");
    assert_eq!(
        p.bookmark_target("Skip <link>#content</link>").as_deref(),
        Some("https://a.invalid")
    );
    assert_eq!(
        p.bookmark_target("x <link>http://other.invalid</link>").as_deref(),
        Some("http://other.invalid")
    );
}

// ---- Forms ----

fn with_form(label: &str) -> WebbrowserProvider {
    let mut p = WebbrowserProvider::new();
    let form = section("form_1", vec![Element::Str(format!("{label}: <input></input>"))]);
    let mut forms = FormMap::new();
    forms.insert(
        &format!("form_1/{label}"),
        FormControl {
            css_selector: format!("#{label}"),
            kind: ControlKind::TextInput,
            form_index: 1,
            match_index: 0,
        },
    );
    p.deliver(vec![form], forms);
    assert!(p.tick());
    p
}

#[test]
fn commit_edit_form_field_returns_false_and_patches_cache() {
    let mut p = with_form("q");
    p.push_path("https://example.com");
    p.push_path("form_1");
    p.push_path("q");

    let result = p.commit_edit(&Switches::new(), "hello", &HistoryFile::Unknown);
    assert!(!result.accepted, "commit_edit for form field must return false");
    assert!(result.fill.is_some_and(|js| js.contains("\"hello\"")));

    let child = p.page().unwrap()[0].as_obj().unwrap().children[0].as_str().unwrap();
    assert_eq!(child, "q: <input>hello</input>", "cached_page not patched");

    let _ = p.commit_edit(&Switches::new(), "bye", &HistoryFile::Unknown);
    let child = p.page().unwrap()[0].as_obj().unwrap().children[0].as_str().unwrap();
    assert_eq!(child, "q: <input>bye</input>", "the newest value wins");
}

#[test]
fn commit_edit_records_typed_value_in_form_field_values() {
    let mut p = with_form("email");
    p.push_path("https://x");
    p.push_path("form_1");
    p.push_path("email");
    let _ = p.commit_edit(&Switches::new(), "user@example.com", &HistoryFile::Unknown);

    assert_eq!(p.typed().get("form_1/email").map(|s| s.as_str()), Some("user@example.com"));
}

#[test]
fn typed_values_go_away_with_their_page() {
    let mut p = with_form("email");
    p.set_current_path("/https://x/form_1/email");
    let _ = p.commit_edit(&Switches::new(), "user@example.com", &HistoryFile::Unknown);
    let _ = p.load_url(&Switches::new(), "https://elsewhere.example/");
    assert!(p.typed().get("form_1/email").is_none());
}

#[test]
fn a_submit_button_is_pressed_in_the_tab() {
    let mut p = with_form("q");
    let mut forms = FormMap::new();
    forms.insert(
        "form_2/Go",
        FormControl {
            css_selector: "#go".to_owned(),
            kind: ControlKind::Submit,
            form_index: 2,
            match_index: 3,
        },
    );
    p.deliver(Vec::new(), forms);
    assert!(p.tick());
    let SubmitStep::Click { js, .. } = p.on_button_press(&Switches::new(), "submit:form_2", &HistoryFile::Unknown).submit
    else {
        panic!("a form is submitted by a press");
    };
    assert!(js.contains("const fi = 2;"), "{js}");
    assert!(js.contains("querySelectorAll(\"#go\")[3]"), "{js}");
    // A form that lists no button, and a number that is none.
    let SubmitStep::Click { js, .. } = p.on_button_press(&Switches::new(), "submit:form_x", &HistoryFile::Unknown).submit
    else {
        panic!("a form is submitted by a press");
    };
    assert!(js.contains("const fi = 0;"), "{js}");
    assert!(js.contains("[type=\\\"submit\\\"]"), "{js}");
    let nothing = p.on_button_press(&Switches::new(), "elsewhere", &HistoryFile::Unknown);
    assert!(matches!(nothing.submit, SubmitStep::Nothing));
}

#[test]
fn take_error_drains_pending_error_once() {
    let mut p = WebbrowserProvider::new();
    p.set_error("boom".to_owned());
    assert_eq!(p.take_error(), Some("boom".to_owned()));
    assert_eq!(p.take_error(), None, "second drain returns None");
}

#[test]
fn single_flight_rejects_second_submit() {
    let mut p = WebbrowserProvider::on_platform(Platform::Windows);
    let first = p.on_button_press(&Switches::new(), "submit:form_1", &HistoryFile::Unknown);
    assert!(matches!(first.submit, SubmitStep::Reopen { form_n: 1, .. }));
    let second = p.on_button_press(&Switches::new(), "submit:form_1", &HistoryFile::Unknown);
    assert!(matches!(second.submit, SubmitStep::Nothing));

    let err = p.take_error().expect("pending_error should carry single-flight message");
    assert!(err.contains("already in progress"), "unexpected error message: {err}");

    p.on_reopened(Err("Could not".to_owned()));
    assert_eq!(p.take_error().as_deref(), Some("Could not"));
    let third = p.on_button_press(&Switches::new(), "submit:form_1", &HistoryFile::Unknown);
    assert!(matches!(third.submit, SubmitStep::Reopen { .. }), "the next one goes through");
}

#[test]
fn a_submit_without_a_browser_says_so() {
    let mut p = WebbrowserProvider::on_platform(Platform::Windows);
    let mut switches = Switches::new();
    _set_test_no_launch(&mut switches, true);
    let _ = p.on_button_press(&switches, "submit:form_1", &HistoryFile::Unknown);
    assert_eq!(p.take_error().as_deref(), Some("test-no-launch: submit skipped"));
}

const LOGIN: &str = "<html><body><form><input id=\"email\" name=\"email\" placeholder=\"email\">\
                     <input type=\"submit\" id=\"go\" value=\"Go\"></form></body></html>";

#[test]
fn a_reopened_form_is_filled_and_submitted() {
    let mut p = WebbrowserProvider::on_platform(Platform::Windows);
    p.on_fetched("https://x.example/", Ok(PageLoad::plain(LOGIN.to_owned())));
    p.set_current_path("/https://x.example/form_1/email");
    let done = p.commit_edit(&Switches::new(), "me@x", &HistoryFile::Unknown);
    assert!(!done.accepted);
    assert_eq!(done.fill, None, "there is no tab to fill it in");
    let SubmitStep::Reopen { url, form_n, values } =
        p.on_button_press(&Switches::new(), "submit:form_1", &HistoryFile::Unknown).submit
    else {
        panic!("a browser of its own");
    };
    let plan = plan_reopened_submit(LOGIN, &url, form_n, &values).expect("nothing has gone");
    assert_eq!(plan.fills.len(), 1);
    assert_eq!(plan.fills[0].0, "form_1/email");
    assert!(plan.fills[0].1.contains("\"me@x\""));
    assert!(plan.fills[0].1.contains("\"#email\""));
    assert!(plan.click.contains("document.querySelector(\"#go\")"), "{}", plan.click);
    assert!(plan.click.contains("form:nth-of-type(1)"));

    let e = plan_reopened_submit("<html><body></body></html>", &url, form_n, &values)
        .expect_err("the field has gone");
    assert_eq!(
        e,
        "Form changed since you started filling it: missing field(s) form_1/email. \
         Refresh the page and try again."
    );

    p.on_reopened(Ok((
        "https://x.example/in".to_owned(),
        PageLoad::plain("<html><body><p>Welcome</p></body></html>".to_owned()),
    )));
    assert!(p.tick());
    assert_eq!(p.page().unwrap()[0].as_str(), Some("Welcome"));
}

#[test]
fn what_stops_a_submit_is_said() {
    assert_eq!(submit_launch_failed("no"), "Could not launch Chrome for submit: no");
    assert_eq!(reopen_failed("u", "no"), "Failed to reopen u for submit: no");
    assert_eq!(fill_failed("form_1/q", Some("no")), "Failed to fill field form_1/q: no");
    assert_eq!(fill_failed("form_1/q", None), "Timed out filling field form_1/q");
}

// ---- Hidden content ----

#[test]
fn prune_toggle_command_is_labelled_by_what_it_does() {
    let mut p = WebbrowserProvider::new();
    let mut disk = Disk::with(HistoryFile::Unknown);

    assert!(p.commands(&disk.switches).contains(&CMD_SHOW_HIDDEN.to_owned()));
    assert!(!p.commands(&disk.switches).contains(&CMD_HIDE_HIDDEN.to_owned()));

    let _ = disk.command(&mut p, CMD_SHOW_HIDDEN, "");
    assert!(!disk.switches.prune, "pressing it should turn pruning off");
    assert!(p.commands(&disk.switches).contains(&CMD_HIDE_HIDDEN.to_owned()));

    let _ = disk.command(&mut p, CMD_HIDE_HIDDEN, "");
    assert!(disk.switches.prune, "pressing it again should turn pruning on");
}

#[test]
fn pruning_is_on_by_default() {
    assert!(Switches::new().prune);
}

#[test]
fn clearing_cookies_changes_nothing_else() {
    let mut disk = Disk::empty();
    let mut p = history_provider(&disk);
    disk.commit(&mut p, "https://a.invalid");
    let done = p.handle_command(&mut disk.switches, "clear cookies", "", &disk.file);
    assert!(done.clear_cookies && done.write.is_none() && done.message.is_none());
    assert_eq!(done.load, LoadStep::Nothing);
    assert_eq!(p.current_url(), "https://a.invalid");
    let done = p.handle_command(&mut disk.switches, "no such command", "", &disk.file);
    assert!(!done.clear_cookies);
}

#[test]
fn what_one_reader_turns_every_reader_sees() {
    let mut disk = Disk::empty();
    let mut first = history_provider(&disk);
    let mut second = WebbrowserProvider::default();
    let _ = disk.command(&mut first, CMD_SHOW_HIDDEN, "");
    assert_eq!(disk.switches, Switches { prune: false, no_launch: true });
    assert!(first.commands(&disk.switches).contains(&CMD_HIDE_HIDDEN.to_owned()));
    assert_eq!(second.commands(&disk.switches), first.commands(&disk.switches));

    let _ = disk.command(&mut first, "refresh", "");
    assert!(!disk.switches.prune, "another command leaves it");
    let _ = disk.command(&mut second, CMD_HIDE_HIDDEN, "");
    assert!(first.commands(&disk.switches).contains(&CMD_SHOW_HIDDEN.to_owned()));

    _set_test_no_launch(&mut disk.switches, false);
    for reader in [&mut first, &mut second] {
        let step = reader.load_url(&disk.switches, "https://a.invalid");
        assert_eq!(step, LoadStep::Start { url: "https://a.invalid".to_owned() });
    }
    assert_eq!(Switches::default(), Switches::new());
}

#[test]
fn a_form_that_was_submitted_leads_to_its_page_and_leaves_the_cursor() {
    let mut p = WebbrowserProvider::new();
    p.on_clicked(&PageLoad::plain(LOGIN.to_owned()), "https://x.example/");
    assert!(p.page().is_none(), "it lies ready first");
    assert!(p.tick());
    assert!(p.forms().contains_key("form_1/email"));
    assert_eq!(p.take_navigation_request(), None);
}

#[test]
fn a_submit_that_ended_without_a_result_lets_the_next_one_through() {
    let mut p = WebbrowserProvider::on_platform(Platform::Windows);
    let first = p.on_button_press(&Switches::new(), "submit:form_1", &HistoryFile::Unknown);
    assert!(matches!(first.submit, SubmitStep::Reopen { .. }));
    p.on_submit_ended();
    assert_eq!(p.take_error(), None);
    let second = p.on_button_press(&Switches::new(), "submit:form_1", &HistoryFile::Unknown);
    assert!(matches!(second.submit, SubmitStep::Reopen { .. }));
}

#[test]
fn a_link_without_a_browser_is_named() {
    let page = unlaunched_page("https://x.example/");
    assert_eq!(page.len(), 1);
    assert_eq!(page[0].as_str(), Some("<test-no-launch>https://x.example/</test-no-launch>"));
    assert_eq!(unlaunched_link(&Disk::empty().switches, "https://x.example/"), Some(page));
    assert_eq!(unlaunched_link(&Switches::new(), "https://x.example/"), None);
}

#[test]
fn the_limit_counts_the_rows_without_a_bookmark() {
    let disk = Disk::holding("https://d.invalid\n*https://c.invalid\nhttps://b.invalid\n*https://a.invalid\n");
    let mut p = history_provider(&disk);
    p.on_setting_change("urlHistorySize", "1");
    assert_eq!(history_rows(&p), ["https://d.invalid", "https://c.invalid", "https://a.invalid"]);
    p.on_setting_change("urlHistorySize", "many");
    assert_eq!(p.history().size(), 1);
}

#[test]
fn every_stored_address_survives_a_restart_and_can_be_pressed() {
    let mut disk = Disk::empty();
    let mut p = history_provider(&disk);
    let long = format!("https://a.invalid/{}", "<".repeat(1359));
    disk.commit(&mut p, &long);
    disk.commit(&mut p, &format!("https://a.invalid/{}", "<".repeat(1360)));
    disk.commit(&mut p, "https://b.invalid");
    let before = history_rows(&p);
    assert_eq!(before.len(), 2, "the longer one is not stored");
    let mut again = history_provider(&disk);
    assert_eq!(history_rows(&again), before);
    disk.press(&mut again, &before[1]);
    assert_eq!(history_rows(&again)[0], before[1]);
}

#[test]
fn marking_a_row_leaves_it_in_place_when_the_file_has_grown() {
    let mut disk = Disk::holding("https://a.invalid\nhttps://b.invalid\n");
    let mut p = history_provider(&disk);
    disk.file = HistoryFile::Text("https://z.invalid\nhttps://b.invalid\nhttps://a.invalid\n".to_owned());
    let key = row_key(&p, "https://b.invalid");
    disk.command(&mut p, CMD_TOGGLE_BOOKMARK, &key);
    assert_eq!(history_rows(&p), ["https://a.invalid", "https://b.invalid", "https://z.invalid"]);
}
