//! The reader: what the user sees, types and presses.
//!
//! A page is loaded by a task of its own, one at a time, in one tab. An address
//! committed while a load runs waits for that task; only the newest waits. What
//! the task made of a page lies ready until the reader picks it up.

use crate::address;
use crate::address::normalize_url_input;
use crate::forms;
use crate::forms::{
    build_click_js, build_fill_js, build_reopened_click_js, check_form_drift, copy_values,
    extract_form_key, find_submit, FieldValues, FormMap,
};
use crate::history;
use crate::history::{sanitize_history_url, HistoryFile, UrlHistory};
use crate::launch::Platform;
use crate::outside;
use crate::outside::{render_html, translate_with};
use crate::page;
use crate::page::{page_to_ffon_with_forms, PageLoad};
use crate::table;
use crate::text;
use crate::text::{chars_of, index_upto, join, parse_number, same_text, stands_at, text_of};
use crate::tree;
use crate::tree::{copies, patch_form_field_in_tree, Element, Section};
use crate::worker;
use crate::worker::{launch_failed, load_failed};
use vstd::prelude::*;
use vstd::slice::slice_subrange;

verus! {

/// The command that shows what the page hides.
pub const CMD_SHOW_HIDDEN: &'static str = "show hidden content";

/// The command that leaves out what the page hides.
pub const CMD_HIDE_HIDDEN: &'static str = "hide hidden content";

/// The command that marks the focused row of the history, or the page being
/// read, as one worth keeping.
pub const CMD_TOGGLE_BOOKMARK: &'static str = "toggle bookmark";

pub const CMD_REFRESH: &'static str = "refresh";

pub const CMD_CLEAR_COOKIES: &'static str = "clear cookies";

/// What the reader says of a form that is submitted while another is.
pub const SUBMIT_BUSY: &'static str = "Submit already in progress; please wait for the response.";

/// What the reader says of a form where no browser may be started.
pub const SUBMIT_SKIPPED: &'static str = "test-no-launch: submit skipped";

/// What the reader holds, as a value.
#[verifier::ext_equal]
pub struct ReaderState {
    /// The address in the bar.
    pub current_url: Seq<char>,
    /// The path of the cursor, piece by piece, and as a whole.
    pub segments: Seq<Seq<char>>,
    pub path: Seq<char>,
    /// The page on show: where it was loaded from, and its content.
    pub page: Option<(Seq<char>, Seq<tree::Node>)>,
    /// The form controls of the page.
    pub forms: Map<Seq<char>, forms::Control>,
    /// What the user typed into its fields.
    pub typed: Map<Seq<char>, Seq<char>>,
    /// A task is loading pages.
    pub loading: bool,
    /// The address that waits for that task.
    pub pending: Option<Seq<char>>,
    /// The page that lies ready to be picked up.
    pub ready: Option<(Seq<tree::Node>, Map<Seq<char>, forms::Control>)>,
    /// What is to be put on the status line.
    pub error: Option<Seq<char>>,
    /// A form is being submitted in a browser of its own.
    pub submitting: bool,
    /// The user is to be taken into the page once it is there.
    pub armed: bool,
    /// The user is to be taken into the page now.
    pub enter: bool,
    /// The recall history.
    pub history: history::HistoryState,
    /// A browser is started for every page, and closed again.
    pub reopens: bool,
}

/// The switches of the process. There is one pair of them, which every reader
/// is handed: what one reader turns, the others see.
#[derive(Debug, Clone, Copy, PartialEq, Eq, Structural)]
pub struct Switches {
    /// Hidden content is left out of the pages.
    pub prune: bool,
    /// No browser may be started.
    pub no_launch: bool,
}

impl Switches {
    /// The switches as a process starts with them.
    pub fn new() -> (r: Switches)
        ensures
            r == (Switches { prune: true, no_launch: false }),
    {
        Switches { prune: true, no_launch: false }
    }

    /// The switches after the command `cmd`.
    pub open spec fn after(self, cmd: Seq<char>) -> Switches {
        if cmd == CMD_SHOW_HIDDEN@ || cmd == CMD_HIDE_HIDDEN@ {
            Switches { prune: cmd == CMD_HIDE_HIDDEN@, ..self }
        } else {
            self
        }
    }

    /// The command for hidden content, named by what it does.
    pub open spec fn hidden_toggle(self) -> Seq<char> {
        if self.prune {
            CMD_SHOW_HIDDEN@
        } else {
            CMD_HIDE_HIDDEN@
        }
    }
}

impl Default for Switches {
    fn default() -> (r: Switches)
        ensures
            r == (Switches { prune: true, no_launch: false }),
    {
        Switches::new()
    }
}

/// Say whether a browser may be started.
pub fn _set_test_no_launch(switches: &mut Switches, enabled: bool)
    ensures
        *final(switches) == (Switches { no_launch: enabled, ..*old(switches) }),
{
    switches.no_launch = enabled;
}

/// A step that loads a page.
#[derive(Debug, PartialEq, Eq)]
pub enum LoadStep {
    /// Nothing is to be done: the page is there, or a running task takes the
    /// address up.
    Nothing,
    /// Start the task that loads pages, with this address.
    Start { url: String },
    /// Load this address in a browser of its own, and say what came of it.
    Fetch { url: String },
}

/// A step that submits a form.
#[derive(Debug)]
pub enum SubmitStep {
    Nothing,
    /// Run a script in the tab, and read the page it leads to.
    Click { js: String, url: String },
    /// Open the page again in a browser of its own, fill the form with what
    /// was typed, and submit it.
    Reopen { url: String, form_n: usize, values: FieldValues },
}

/// What came of a navigation.
#[derive(Debug)]
pub enum Navigated {
    Loaded(PageLoad),
    /// The browser could not be started.
    LaunchFailed(String),
    /// The page could not be loaded.
    LoadFailed(String),
}

/// Where the cursor is to go.
#[derive(Debug, Clone, Copy, PartialEq, Eq, Structural)]
pub enum NavigationRequest {
    /// Into the page.
    EnterChildren,
}

/// What a committed edit leads to.
#[derive(Debug)]
pub struct Committed {
    /// Whether the view is to be read again.
    pub accepted: bool,
    /// A script that fills the field in the tab.
    pub fill: Option<String>,
    /// The text to write to the history file.
    pub write: Option<String>,
    pub load: LoadStep,
}

/// What a pressed button leads to.
#[derive(Debug)]
pub struct Pressed {
    /// The text to write to the history file.
    pub write: Option<String>,
    pub load: LoadStep,
    pub submit: SubmitStep,
}

/// What a command leads to.
#[derive(Debug)]
pub struct Commanded {
    /// The text to write to the history file.
    pub write: Option<String>,
    pub load: LoadStep,
    /// The cookies are to be cleared.
    pub clear_cookies: bool,
    /// What to say to the user.
    pub message: Option<String>,
}

// ---------------------------------------------------------------------------
// What the reader does, on values
// ---------------------------------------------------------------------------

/// The path made of pieces.
pub open spec fn path_of(segments: Seq<Seq<char>>) -> Seq<char> {
    if segments.len() == 0 {
        "/"@
    } else {
        "/"@ + text::joined(segments, "/"@)
    }
}

/// The page where no browser may be started.
pub open spec fn stub_page(url: Seq<char>) -> Seq<tree::Node> {
    seq![tree::Node::Str("<test-no-launch>"@ + url + "</test-no-launch>"@)]
}

/// The line for one address of the history. The mark stands behind the button,
/// whose name stays the bare address.
pub open spec fn history_row(u: Seq<char>, marked: bool, marker: Seq<char>) -> Seq<char> {
    "<button>"@ + u + "</button>"@ + (if marked {
        marker + " "@
    } else {
        ""@
    }) + u
}

/// The lines of the history, newest first.
pub open spec fn history_rows(
    urls: Seq<Seq<char>>,
    marks: Set<Seq<char>>,
    marker: Seq<char>,
) -> Seq<tree::Node> {
    Seq::new(
        urls.len(),
        |i: int| tree::Node::Str(history_row(urls[i], marks.contains(urls[i]), marker)),
    )
}

/// The address bar.
pub open spec fn url_bar(url: Seq<char>) -> Seq<char> {
    "<input>"@ + (if url.len() == 0 {
        "https://"@
    } else {
        url
    }) + "</input>"@
}

/// What is typed into the line of a field.
pub open spec fn field_line(label: Seq<char>, value: Seq<char>) -> Seq<char> {
    label + ": <input>"@ + value + "</input>"@
}

/// The content of a page with the line of the field `key` changed.
pub open spec fn with_field(
    nodes: Seq<tree::Node>,
    key: Seq<char>,
    value: Seq<char>,
) -> Seq<tree::Node> {
    let slash = text::upto(key, '/');
    if slash >= key.len() {
        nodes
    } else {
        let label = key.skip(slash + 1);
        match tree::patched(
            nodes,
            0,
            key.take(slash),
            label + ": <input>"@,
            field_line(label, value),
        ) {
            Some(s) => s,
            None => nodes,
        }
    }
}

/// `ready` is what `load`, read from `url`, is put before the reader as.
pub open spec fn is_page_of(
    ready: Option<(Seq<tree::Node>, Map<Seq<char>, forms::Control>)>,
    load: PageLoad,
    url: Seq<char>,
) -> bool {
    &&& ready is Some
    &&& (ready->0).1 == outside::html_page(load.html@, url).1
    &&& page::renders((ready->0).0, load, url)
}

/// The number in the name of a submit button, zero where there is none.
pub open spec fn submit_number(name: Seq<char>) -> nat {
    match text::number_value(name.skip(12), usize::MAX as nat) {
        Ok(n) => n,
        Err(_) => 0,
    }
}

/// A reader that has loaded nothing.
pub open spec fn fresh(reopens: bool) -> ReaderState {
    ReaderState {
        current_url: Seq::empty(),
        segments: Seq::empty(),
        path: "/"@,
        page: None,
        forms: Map::empty(),
        typed: Map::empty(),
        loading: false,
        pending: None,
        ready: None,
        error: None,
        submitting: false,
        armed: false,
        enter: false,
        history: history::HistoryState {
            urls: Seq::empty(),
            marks: Set::empty(),
            cap: 50_000,
            loaded: false,
        },
        reopens,
    }
}

impl ReaderState {
    /// Every address in the history can stand on a row of its own.
    pub open spec fn wf(self) -> bool {
        self.history.wf()
    }

    /// A page has come to be read: where the user waits for it, they are to be
    /// taken there.
    pub open spec fn landed(self) -> ReaderState {
        if self.armed {
            ReaderState { armed: false, enter: true, ..self }
        } else {
            self
        }
    }

    /// The state once the page that lies ready was picked up. What was typed
    /// before does not belong to it.
    pub open spec fn picked_up(self) -> ReaderState {
        match self.ready {
            Some((nodes, forms)) => ReaderState {
                ready: None,
                page: Some((self.current_url, nodes)),
                forms,
                typed: Map::empty(),
                ..self
            }.landed(),
            None => self,
        }
    }

    /// The state after a navigation to `url` was asked for, where a browser may
    /// be started or not.
    pub open spec fn load(self, no_launch: bool, url: Seq<char>) -> ReaderState {
        let s = ReaderState { typed: Map::empty(), armed: true, ..self };
        if no_launch {
            ReaderState {
                page: Some((url, stub_page(url))),
                forms: Map::empty(),
                current_url: url,
                ..s
            }.landed()
        } else if self.reopens {
            s
        } else if self.loading {
            ReaderState { current_url: url, pending: Some(url), ..s }
        } else {
            ReaderState { current_url: url, loading: true, ..s }
        }
    }

    /// `step` is what a navigation to `url` asks for.
    pub open spec fn load_step(self, no_launch: bool, url: Seq<char>, step: LoadStep) -> bool {
        if no_launch {
            step is Nothing
        } else if self.reopens {
            step matches LoadStep::Fetch { url: u } && u@ == url
        } else if self.loading {
            step is Nothing
        } else {
            step matches LoadStep::Start { url: u } && u@ == url
        }
    }

    /// What the user sees, with the word `marker` for a bookmark.
    pub open spec fn shown(self, marker: Seq<char>) -> Seq<tree::Node> {
        let rows = history_rows(self.history.urls, self.history.marks, marker);
        let bar = url_bar(self.current_url);
        if self.loading {
            seq![tree::Node::Str(bar), tree::Node::Str("Loading…"@)] + rows
        } else {
            match self.page {
                Some((_, content)) => seq![tree::Node::Obj(bar, content)] + rows,
                None => seq![tree::Node::Str(bar)] + rows,
            }
        }
    }

    /// The field that the cursor is in.
    pub open spec fn field(self) -> Option<Seq<char>> {
        match forms::form_key(self.path) {
            Some(k) => if self.forms.dom().contains(k) {
                Some(k)
            } else {
                None
            },
            None => None,
        }
    }

    /// The state after `value` was typed into the field `key`.
    pub open spec fn fill(self, key: Seq<char>, value: Seq<char>) -> ReaderState {
        ReaderState {
            typed: self.typed.insert(key, value),
            page: match self.page {
                Some((url, nodes)) => Some((url, with_field(nodes, key, value))),
                None => None,
            },
            ..self
        }
    }

    /// The state after a visit to `url`, with what the history file holds.
    pub open spec fn visit(
        self,
        no_launch: bool,
        disk: Option<(Seq<Seq<char>>, Set<Seq<char>>)>,
        url: Seq<char>,
    ) -> ReaderState {
        ReaderState { history: self.history.record(disk, url), ..self }.load(no_launch, url)
    }

    /// What is written to the history file after a visit to `url`.
    pub open spec fn visit_write(
        self,
        disk: Option<(Seq<Seq<char>>, Set<Seq<char>>)>,
        url: Seq<char>,
    ) -> Option<Seq<char>> {
        if history::sanitized(url) is Some {
            self.history.record(disk, url).to_write(disk)
        } else {
            None
        }
    }

    /// The state after the form number `n` was to be submitted.
    pub open spec fn submit(self, no_launch: bool, n: nat) -> ReaderState {
        if !self.reopens {
            self
        } else if no_launch {
            ReaderState { error: Some(SUBMIT_SKIPPED@), ..self }
        } else if self.submitting {
            ReaderState { error: Some(SUBMIT_BUSY@), ..self }
        } else {
            ReaderState { submitting: true, ..self }
        }
    }

    /// `step` is what submitting the form number `n` asks for.
    pub open spec fn submit_step(self, no_launch: bool, n: nat, step: SubmitStep) -> bool {
        if !self.reopens {
            step matches SubmitStep::Click { js, url } && url@ == self.current_url && presses(
                self.forms,
                n,
                js@,
            )
        } else if no_launch || self.submitting {
            step is Nothing
        } else {
            step matches SubmitStep::Reopen { url, form_n, values } && url@ == self.current_url
                && form_n == n && values.wf() && values@ == self.typed
        }
    }

    /// What the bookmark command acts on: the row of the history that the
    /// cursor is on, else a link that it is in, else the page being read.
    pub open spec fn bookmark_target(self, elem_key: Seq<char>) -> Option<Seq<char>> {
        let button = outside::between(elem_key, "<button>"@, "</button>"@);
        let link = outside::between(elem_key, "<link>"@, "</link>"@);
        if button is Some && self.history.urls.contains(button->0) {
            button
        } else if link is Some && (text::begins(link->0, "http://"@) || text::begins(
            link->0,
            "https://"@,
        )) {
            history::sanitized(link->0)
        } else {
            history::sanitized(self.current_url)
        }
    }

    /// The state after the page was to be loaded again.
    pub open spec fn reload(self, no_launch: bool) -> ReaderState {
        if self.current_url.len() == 0 {
            self
        } else {
            ReaderState { page: None, ..self }.load(no_launch, self.current_url)
        }
    }

    /// `step` is what loading the page again asks for.
    pub open spec fn reload_step(self, no_launch: bool, step: LoadStep) -> bool {
        if self.current_url.len() == 0 {
            step is Nothing
        } else {
            self.load_step(no_launch, self.current_url, step)
        }
    }
}

/// `js` presses a submit button of form number `n`.
pub open spec fn presses(forms: Map<Seq<char>, forms::Control>, n: nat, js: Seq<char>) -> bool {
    exists|selector: Seq<char>, match_index: nat| #[trigger]
        forms::finds_submit(forms, n, selector, match_index) && js == forms::click_js(
            n,
            selector,
            match_index,
        )
}

// ---------------------------------------------------------------------------
// The reader
// ---------------------------------------------------------------------------

/// A page on show.
struct CachedPage {
    url: String,
    elements: Vec<Element>,
}

/// The reader.
pub struct WebbrowserProvider {
    current_url: String,
    path_segments: Vec<String>,
    path_cache: String,
    cached_page: Option<CachedPage>,
    form_map: FormMap,
    form_field_values: FieldValues,
    load_inflight: bool,
    pending_url: Option<String>,
    ready_content: Option<(Vec<Element>, FormMap)>,
    pending_error: Option<String>,
    submit_in_flight: bool,
    pending_enter_content: bool,
    enter_content_request: bool,
    url_history: UrlHistory,
    reopens: bool,
}

impl View for WebbrowserProvider {
    type V = ReaderState;

    closed spec fn view(&self) -> ReaderState {
        ReaderState {
            current_url: self.current_url@,
            segments: text::views(self.path_segments@),
            path: self.path_cache@,
            page: match self.cached_page {
                Some(page) => Some((page.url@, tree::nodes(page.elements@))),
                None => None,
            },
            forms: self.form_map@,
            typed: self.form_field_values@,
            loading: self.load_inflight,
            pending: text::maybe(self.pending_url),
            ready: match self.ready_content {
                Some((elements, forms)) => Some((tree::nodes(elements@), forms@)),
                None => None,
            },
            error: text::maybe(self.pending_error),
            submitting: self.submit_in_flight,
            armed: self.pending_enter_content,
            enter: self.enter_content_request,
            history: self.url_history@,
            reopens: self.reopens,
        }
    }
}

impl WebbrowserProvider {
    /// What holds of every reader: no field and no address stands twice, and
    /// every address can stand on a row of its own.
    pub closed spec fn wf(&self) -> bool {
        &&& self.form_map.wf()
        &&& self.form_field_values.wf()
        &&& self.ready_content matches Some((_, forms)) ==> forms.wf()
        &&& self@.wf()
    }

    /// A reader that has loaded nothing, on a system where one browser serves
    /// every page.
    pub fn new() -> (r: WebbrowserProvider)
        ensures
            r.wf(),
            r@ == fresh(false),
    {
        let r = WebbrowserProvider {
            current_url: String::new(),
            path_segments: Vec::new(),
            path_cache: "/".to_owned(),
            cached_page: None,
            form_map: FormMap::new(),
            form_field_values: FieldValues::new(),
            load_inflight: false,
            pending_url: None,
            ready_content: None,
            pending_error: None,
            submit_in_flight: false,
            pending_enter_content: false,
            enter_content_request: false,
            url_history: UrlHistory::new(),
            reopens: false,
        };
        assert(r.current_url@ =~= Seq::empty());
        assert(text::views(r.path_segments@) =~= Seq::empty());
        r
    }

    /// A reader that has loaded nothing. On Windows the window of a browser
    /// would be read out along with the page, so there a browser is started
    /// for every page and closed again.
    pub fn on_platform(platform: Platform) -> (r: WebbrowserProvider)
        ensures
            r.wf(),
            r@ == fresh(platform == Platform::Windows),
    {
        let mut r = WebbrowserProvider::new();
        r.reopens = platform == Platform::Windows;
        r
    }

    // -----------------------------------------------------------------------
    // The path of the cursor
    // -----------------------------------------------------------------------

    fn rebuild_path_cache(&mut self)
        requires
            old(self).wf(),
        ensures
            final(self).wf(),
            final(self)@ == (ReaderState { path: path_of(old(self)@.segments), ..old(self)@ }),
    {
        if self.path_segments.len() == 0 {
            self.path_cache = "/".to_owned();
        } else {
            let mut path = "/".to_owned();
            path.append(join(self.path_segments.as_slice(), "/").as_str());
            self.path_cache = path;
        }
    }

    /// The cursor went into `segment`.
    pub fn push_path(&mut self, segment: &str)
        requires
            old(self).wf(),
        ensures
            final(self).wf(),
            final(self)@ == (ReaderState {
                segments: old(self)@.segments.push(segment@),
                path: path_of(old(self)@.segments.push(segment@)),
                ..old(self)@
            }),
    {
        self.path_segments.push(segment.to_owned());
        assert(text::views(self.path_segments@) =~= old(self)@.segments.push(segment@));
        self.rebuild_path_cache();
    }

    /// The cursor came out of where it was.
    pub fn pop_path(&mut self)
        requires
            old(self).wf(),
        ensures
            final(self).wf(),
            final(self)@ == ({
                let left = if old(self)@.segments.len() == 0 {
                    old(self)@.segments
                } else {
                    old(self)@.segments.drop_last()
                };
                ReaderState { segments: left, path: path_of(left), ..old(self)@ }
            }),
    {
        let _ = self.path_segments.pop();
        proof {
            if old(self)@.segments.len() > 0 {
                assert(text::views(self.path_segments@) =~= old(self)@.segments.drop_last());
            } else {
                assert(text::views(self.path_segments@) =~= old(self)@.segments);
            }
        }
        self.rebuild_path_cache();
    }

    /// The path of the cursor.
    pub fn current_path(&self) -> (r: &str)
        ensures
            r@ == self@.path,
    {
        self.path_cache.as_str()
    }

    /// Put the cursor at `path`. It is kept as it is: an address in it has
    /// slashes of its own, so it cannot be taken to pieces.
    pub fn set_current_path(&mut self, path: &str)
        requires
            old(self).wf(),
        ensures
            final(self).wf(),
            final(self)@ == (ReaderState { path: path@, segments: Seq::empty(), ..old(self)@ }),
    {
        self.path_cache = path.to_owned();
        self.path_segments = Vec::new();
        assert(text::views(self.path_segments@) =~= Seq::empty());
    }

    // -----------------------------------------------------------------------
    // Loading a page
    // -----------------------------------------------------------------------

    /// A page the user navigated to has come to be read.
    fn content_landed(&mut self)
        requires
            old(self).wf(),
        ensures
            final(self).wf(),
            final(self)@ == old(self)@.landed(),
    {
        if self.pending_enter_content {
            self.pending_enter_content = false;
            self.enter_content_request = true;
        }
    }

    /// Navigate to `url`.
    ///
    /// What was typed for the page before goes away, and the user is to be
    /// taken into the page once it is there. Where a load is running already,
    /// it is handed the new destination: two tasks would share one tab, and
    /// what the one loads would land under the address of the other.
    pub fn load_url(&mut self, switches: &Switches, url: &str) -> (r: LoadStep)
        requires
            old(self).wf(),
        ensures
            final(self).wf(),
            final(self)@ == old(self)@.load(switches.no_launch, url@),
            old(self)@.load_step(switches.no_launch, url@, r),
    {
        self.form_field_values = FieldValues::new();
        self.pending_enter_content = true;
        if switches.no_launch {
            self.cached_page = Some(
                CachedPage { url: url.to_owned(), elements: unlaunched_page(url) },
            );
            self.form_map = FormMap::new();
            self.current_url = url.to_owned();
            self.content_landed();
            return LoadStep::Nothing;
        }
        if self.reopens {
            return LoadStep::Fetch { url: url.to_owned() };
        }
        self.current_url = url.to_owned();
        if self.load_inflight {
            self.queue_pending(url);
            return LoadStep::Nothing;
        }
        self.load_inflight = true;
        LoadStep::Start { url: url.to_owned() }
    }

    /// Let `url` wait for the task that loads pages. The newest wins: an older
    /// address that waits is one the user has typed past.
    pub fn queue_pending(&mut self, url: &str)
        requires
            old(self).wf(),
        ensures
            final(self).wf(),
            final(self)@ == (ReaderState { pending: Some(url@), ..old(self)@ }),
    {
        self.pending_url = Some(url.to_owned());
    }

    /// Take the address that waits.
    pub fn take_pending(&mut self) -> (r: Option<String>)
        requires
            old(self).wf(),
        ensures
            final(self).wf(),
            text::maybe(r) == old(self)@.pending,
            final(self)@ == (ReaderState { pending: None, ..old(self)@ }),
    {
        self.pending_url.take()
    }

    /// Whether an address waits.
    pub fn has_pending(&self) -> (r: bool)
        ensures
            r == self@.pending is Some,
    {
        self.pending_url.is_some()
    }

    /// What the task does after one navigation: the next address, or `None` to
    /// end. Both happen in one step: an address that is committed before it is
    /// served by the running task, and one committed after it starts a task.
    pub fn next_target(&mut self) -> (r: Option<String>)
        requires
            old(self).wf(),
        ensures
            final(self).wf(),
            text::maybe(r) == old(self)@.pending,
            final(self)@ == (ReaderState {
                pending: None,
                loading: old(self)@.loading && old(self)@.pending is Some,
                ..old(self)@
            }),
    {
        match self.take_pending() {
            Some(next) => Some(next),
            None => {
                self.load_inflight = false;
                None
            },
        }
    }

    /// Whether a task is loading pages.
    pub fn is_loading(&self) -> (r: bool)
        ensures
            r == self@.loading,
    {
        self.load_inflight
    }

    /// Put `msg` on the status line.
    pub fn set_error(&mut self, msg: String)
        requires
            old(self).wf(),
        ensures
            final(self).wf(),
            final(self)@ == (ReaderState { error: Some(msg@), ..old(self)@ }),
    {
        self.pending_error = Some(msg);
    }

    /// Lay a page out for the reader to pick up.
    pub fn deliver(&mut self, elements: Vec<Element>, forms: FormMap)
        requires
            old(self).wf(),
            forms.wf(),
        ensures
            final(self).wf(),
            final(self)@ == (ReaderState {
                ready: Some((tree::nodes(elements@), forms@)),
                ..old(self)@
            }),
    {
        self.ready_content = Some((elements, forms));
    }

    /// Report a failed load both as the page and on the status line: a browser
    /// that does not start shows up as a readable page that says so.
    pub fn publish_load_failure(&mut self, msg: String)
        requires
            old(self).wf(),
        ensures
            final(self).wf(),
            final(self)@ == (ReaderState {
                error: Some(msg@),
                ready: Some((seq![tree::Node::Str(msg@)], Map::empty())),
                ..old(self)@
            }),
    {
        self.set_error(msg.clone());
        let mut elements: Vec<Element> = Vec::new();
        elements.push(Element::Str(msg));
        assert(tree::nodes(elements@) =~= seq![tree::Node::Str(msg@)]);
        self.deliver(elements, FormMap::new());
    }

    /// Render a page, and lay it out.
    fn publish(&mut self, load: &PageLoad, url: &str)
        requires
            old(self).wf(),
        ensures
            final(self).wf(),
            is_page_of(final(self)@.ready, *load, url@),
            final(self)@ == (ReaderState { ready: final(self)@.ready, ..old(self)@ }),
    {
        let (elements, forms) = page_to_ffon_with_forms(load, url);
        self.deliver(elements, forms);
    }

    /// A navigation to `url` is done. Nothing is shown of it where a newer
    /// address waits: its content would stand under the newer address for a
    /// moment. Returns whether the browser is to be closed, so that the next
    /// attempt starts from a fresh one.
    pub fn on_navigated(&mut self, url: &str, outcome: Navigated) -> (r: bool)
        requires
            old(self).wf(),
        ensures
            final(self).wf(),
            r == outcome is LoadFailed,
            if old(self)@.pending is Some {
                final(self)@ == old(self)@
            } else {
                match outcome {
                    Navigated::Loaded(load) => {
                        &&& is_page_of(final(self)@.ready, load, url@)
                        &&& final(self)@ == (ReaderState {
                            ready: final(self)@.ready,
                            ..old(self)@
                        })
                    },
                    Navigated::LaunchFailed(e) => final(self)@ == (ReaderState {
                        error: Some(worker::launch_words(e@)),
                        ready: Some(
                            (seq![tree::Node::Str(worker::launch_words(e@))], Map::empty()),
                        ),
                        ..old(self)@
                    }),
                    Navigated::LoadFailed(e) => final(self)@ == (ReaderState {
                        error: Some(worker::load_words(url@, e@)),
                        ready: Some(
                            (seq![tree::Node::Str(worker::load_words(url@, e@))], Map::empty()),
                        ),
                        ..old(self)@
                    }),
                }
            },
    {
        let wanted = !self.has_pending();
        match outcome {
            Navigated::Loaded(load) => {
                if wanted {
                    self.publish(&load, url);
                }
                false
            },
            Navigated::LaunchFailed(e) => {
                if wanted {
                    self.publish_load_failure(launch_failed(e.as_str()));
                }
                false
            },
            Navigated::LoadFailed(e) => {
                if wanted {
                    self.publish_load_failure(load_failed(url, e.as_str()));
                }
                true
            },
        }
    }

    /// An address was fetched in a browser of its own: show what came of it.
    pub fn on_fetched(&mut self, url: &str, outcome: Result<PageLoad, String>)
        requires
            old(self).wf(),
        ensures
            final(self).wf(),
            final(self)@ == (ReaderState {
                current_url: url@,
                page: final(self)@.page,
                forms: final(self)@.forms,
                ..old(self)@
            }).landed(),
            match outcome {
                Ok(load) => {
                    &&& final(self)@.page matches Some((u, nodes)) && u == url@ && is_page_of(
                        Some((nodes, final(self)@.forms)),
                        load,
                        url@,
                    )
                },
                Err(e) => {
                    &&& final(self)@.page == Some(
                        (url@, seq![tree::Node::Str(worker::load_words(url@, e@))]),
                    )
                    &&& final(self)@.forms == Map::<Seq<char>, forms::Control>::empty()
                },
            },
    {
        match outcome {
            Ok(load) => {
                let (elements, forms) = page_to_ffon_with_forms(&load, url);
                self.cached_page = Some(CachedPage { url: url.to_owned(), elements });
                self.form_map = forms;
            },
            Err(e) => {
                let mut elements: Vec<Element> = Vec::new();
                elements.push(Element::Str(load_failed(url, e.as_str())));
                assert(tree::nodes(elements@) =~= seq![
                    tree::Node::Str(worker::load_words(url@, e@)),
                ]);
                self.cached_page = Some(CachedPage { url: url.to_owned(), elements });
                self.form_map = FormMap::new();
            },
        }
        self.current_url = url.to_owned();
        self.content_landed();
    }

    /// Pick up a page that lies ready. What was typed before does not belong
    /// to it. Returns whether there was one.
    pub fn tick(&mut self) -> (r: bool)
        requires
            old(self).wf(),
        ensures
            final(self).wf(),
            r == old(self)@.ready is Some,
            final(self)@ == old(self)@.picked_up(),
    {
        match self.ready_content.take() {
            Some((elements, forms)) => {
                self.cached_page = Some(CachedPage { url: self.current_url.clone(), elements });
                self.form_map = forms;
                self.form_field_values = FieldValues::new();
                self.content_landed();
                true
            },
            None => false,
        }
    }

    /// Where the cursor is to go, once.
    pub fn take_navigation_request(&mut self) -> (r: Option<NavigationRequest>)
        requires
            old(self).wf(),
        ensures
            final(self).wf(),
            r == if old(self)@.enter {
                Some(NavigationRequest::EnterChildren)
            } else {
                None
            },
            final(self)@ == (ReaderState { enter: false, ..old(self)@ }),
    {
        let enter = self.enter_content_request;
        self.enter_content_request = false;
        if enter {
            Some(NavigationRequest::EnterChildren)
        } else {
            None
        }
    }

    /// What is to be put on the status line, once.
    pub fn take_error(&mut self) -> (r: Option<String>)
        requires
            old(self).wf(),
        ensures
            final(self).wf(),
            text::maybe(r) == old(self)@.error,
            final(self)@ == (ReaderState { error: None, ..old(self)@ }),
    {
        self.pending_error.take()
    }

    // -----------------------------------------------------------------------
    // What the user sees
    // -----------------------------------------------------------------------

    /// The history as rows that can be pressed, newest first, bookmarked ones
    /// with the word `marker`.
    pub fn history_buttons(&self, marker: &str) -> (r: Vec<Element>)
        ensures
            tree::nodes(r@) == history_rows(self@.history.urls, self@.history.marks, marker@),
    {
        let urls = self.url_history.urls();
        let ghost want = history_rows(self@.history.urls, self@.history.marks, marker@);
        let mut r: Vec<Element> = Vec::new();
        let mut i: usize = 0;
        assert(tree::nodes(r@) =~= want.take(0));
        while i < urls.len()
            invariant
                i <= urls.len(),
                text::views(urls@) == self@.history.urls,
                want == history_rows(self@.history.urls, self@.history.marks, marker@),
                tree::nodes(r@) == want.take(i as int),
            decreases urls.len() - i,
        {
            let u = urls[i].as_str();
            assert(self@.history.urls[i as int] == u@);
            let mut line = "<button>".to_owned();
            line.append(u);
            line.append("</button>");
            let mut mark = "".to_owned();
            if self.url_history.is_bookmarked(u) {
                mark = marker.to_owned();
                mark.append(" ");
            }
            line.append(mark.as_str());
            line.append(u);
            let ghost before = r@;
            r.push(Element::Str(line));
            assert(tree::nodes(r@) =~= tree::nodes(before).push(want[i as int]));
            i = i + 1;
            assert(tree::nodes(r@) =~= want.take(i as int));
        }
        assert(want.take(want.len() as int) =~= want);
        r
    }

    /// What the user sees, with the word `marker` for a bookmark: the address
    /// bar first, with the page in it once it is there, and the history below.
    /// While a page is loading the bar has nothing in it, so that nobody is
    /// taken into it.
    pub fn view_with(&self, marker: &str) -> (r: Vec<Element>)
        ensures
            tree::nodes(r@) == self@.shown(marker@),
    {
        let mut bar = "<input>".to_owned();
        if self.current_url.as_str().is_empty() {
            bar.append("https://");
        } else {
            bar.append(self.current_url.as_str());
        }
        bar.append("</input>");
        assert(bar@ == url_bar(self@.current_url));
        let mut rows = self.history_buttons(marker);
        let ghost rest = tree::nodes(rows@);
        let mut r: Vec<Element> = Vec::new();
        if self.load_inflight {
            r.push(Element::Str(bar));
            r.push(Element::new_str("Loading…"));
            assert(tree::nodes(r@) =~= seq![
                tree::Node::Str(bar@),
                tree::Node::Str("Loading…"@),
            ]);
        } else {
            match &self.cached_page {
                Some(page) => {
                    let section = Section { key: bar, children: copies(&page.elements) };
                    proof {
                        tree::lemma_section(section);
                    }
                    r.push(Element::Obj(section));
                    assert(tree::nodes(r@) =~= seq![
                        tree::Node::Obj(bar@, tree::nodes(page.elements@)),
                    ]);
                },
                None => {
                    r.push(Element::Str(bar));
                    assert(tree::nodes(r@) =~= seq![tree::Node::Str(bar@)]);
                },
            }
        }
        let ghost first = tree::nodes(r@);
        r.append(&mut rows);
        assert(tree::nodes(r@) =~= first + rest);
        r
    }

    /// What the user sees, in their language.
    pub fn fetch(&self) -> (r: Vec<Element>)
        ensures
            exists|marker: Seq<char>|
                outside::worded(BOOKMARK_MARKER@, marker) && tree::nodes(r@)
                    == #[trigger] self@.shown(marker),
    {
        let marker = sicompass_sdk::localize::t(BOOKMARK_MARKER);
        self.view_with(marker.as_str())
    }

    /// The address in the bar.
    pub fn current_url(&self) -> (r: &str)
        ensures
            r@ == self@.current_url,
    {
        self.current_url.as_str()
    }

    /// The content of the page on show.
    pub fn page(&self) -> (r: Option<&Vec<Element>>)
        ensures
            match self@.page {
                Some((_, nodes)) => r matches Some(v) && tree::nodes(v@) == nodes,
                None => r is None,
            },
    {
        match &self.cached_page {
            Some(page) => Some(&page.elements),
            None => None,
        }
    }

    /// The form controls of the page.
    pub fn forms(&self) -> (r: &FormMap)
        requires
            self.wf(),
        ensures
            r.wf(),
            r@ == self@.forms,
    {
        &self.form_map
    }

    /// What the user typed into the fields of the page.
    pub fn typed(&self) -> (r: &FieldValues)
        requires
            self.wf(),
        ensures
            r.wf(),
            r@ == self@.typed,
    {
        &self.form_field_values
    }

    /// The recall history.
    pub fn history(&self) -> (r: &UrlHistory)
        ensures
            r@ == self@.history,
    {
        &self.url_history
    }

    // -----------------------------------------------------------------------
    // The history
    // -----------------------------------------------------------------------

    /// Load the history from its file.
    pub fn init(&mut self, file: &HistoryFile)
        requires
            old(self).wf(),
        ensures
            final(self).wf(),
            final(self)@ == (ReaderState {
                history: old(self)@.history.load(file.contents()),
                ..old(self)@
            }),
    {
        self.url_history.load_url_history(file);
    }

    /// A setting has changed. A size that is no number is ignored.
    pub fn on_setting_change(&mut self, key: &str, value: &str)
        requires
            old(self).wf(),
        ensures
            final(self).wf(),
            final(self)@ == match text::number_value(value@, usize::MAX as nat) {
                Ok(n) => if key@ == "urlHistorySize"@ {
                    ReaderState { history: old(self)@.history.resize(n), ..old(self)@ }
                } else {
                    old(self)@
                },
                Err(_) => old(self)@,
            },
    {
        if same_text(key, "urlHistorySize") {
            if let Ok(n) = parse_number(chars_of(value).as_slice(), usize::MAX as u64) {
                self.url_history.set_size(n as usize);
            }
        }
    }

    /// Record a visit to `url` and load it. Returns the text to write to the
    /// history file.
    fn visit(&mut self, switches: &Switches, file: &HistoryFile, url: &str) -> (r: (
        Option<String>,
        LoadStep,
    ))
        requires
            old(self).wf(),
        ensures
            final(self).wf(),
            final(self)@ == old(self)@.visit(switches.no_launch, file.contents(), url@),
            text::maybe(r.0) == old(self)@.visit_write(file.contents(), url@),
            old(self)@.load_step(switches.no_launch, url@, r.1),
    {
        let write = self.url_history.record_url_history(file, url);
        let step = self.load_url(switches, url);
        (write, step)
    }

    // -----------------------------------------------------------------------
    // Typing
    // -----------------------------------------------------------------------

    /// Keep the new value of a field in the page, so that it is there when the
    /// page is read again.
    fn patch_cached_form_field(&mut self, form_key: &str, new_value: &str)
        requires
            old(self).wf(),
        ensures
            final(self).wf(),
            final(self)@ == (ReaderState {
                page: match old(self)@.page {
                    Some((url, nodes)) => Some((url, with_field(nodes, form_key@, new_value@))),
                    None => None,
                },
                ..old(self)@
            }),
    {
        let key = chars_of(form_key);
        let slash = index_upto(key.as_slice(), '/');
        if slash >= key.len() {
            return;
        }
        let form = text_of(slice_subrange(key.as_slice(), 0, slash));
        let label = text_of(slice_subrange(key.as_slice(), slash + 1, key.len()));
        assert(form@ =~= form_key@.take(slash as int));
        assert(label@ =~= form_key@.skip(slash + 1));
        let mut prefix = label.clone();
        prefix.append(": <input>");
        let mut line = prefix.clone();
        line.append(new_value);
        line.append("</input>");
        assert(line@ == field_line(label@, new_value@));
        match self.cached_page.take() {
            Some(page) => {
                let mut page = page;
                let _ = patch_form_field_in_tree(
                    &mut page.elements,
                    form.as_str(),
                    prefix.as_str(),
                    line.as_str(),
                );
                self.cached_page = Some(page);
            },
            None => {},
        }
    }

    /// The user committed `new_content` where the cursor is: into a field of a
    /// form, or into the address bar.
    pub fn commit_edit(
        &mut self,
        switches: &Switches,
        new_content: &str,
        file: &HistoryFile,
    ) -> (r: Committed)
        requires
            old(self).wf(),
        ensures
            final(self).wf(),
            match old(self)@.field() {
                Some(k) => {
                    let node = old(self)@.forms[k];
                    &&& final(self)@ == old(self)@.fill(k, new_content@)
                    &&& !r.accepted && r.write is None && r.load is Nothing
                    &&& text::maybe(r.fill) == if old(self)@.reopens {
                        None
                    } else {
                        Some(
                            forms::fill_js(
                                node.form_index,
                                node.match_index,
                                node.css_selector,
                                new_content@,
                                node.form_index == 0,
                            ),
                        )
                    }
                },
                None => match address::normalized(new_content@) {
                    Some(url) => {
                        &&& final(self)@ == old(self)@.visit(switches.no_launch, file.contents(), url)
                        &&& r.accepted && r.fill is None
                        &&& text::maybe(r.write) == old(self)@.visit_write(file.contents(), url)
                        &&& old(self)@.load_step(switches.no_launch, url, r.load)
                    },
                    None => {
                        &&& final(self)@ == old(self)@
                        &&& !r.accepted && r.fill is None && r.write is None && r.load is Nothing
                    },
                },
            },
    {
        if let Some(key) = extract_form_key(self.path_cache.as_str()) {
            if let Some(node) = self.form_map.get(key.as_str()) {
                let fill = if self.reopens {
                    None
                } else {
                    Some(
                        build_fill_js(
                            node.form_index,
                            node.match_index,
                            node.css_selector.as_str(),
                            new_content,
                            node.form_index == 0,
                        ),
                    )
                };
                self.form_field_values.insert(key.as_str(), new_content.to_owned());
                self.patch_cached_form_field(key.as_str(), new_content);
                return Committed { accepted: false, fill, write: None, load: LoadStep::Nothing };
            }
        }
        match normalize_url_input(new_content) {
            Some(url) => {
                let (write, load) = self.visit(switches, file, url.as_str());
                Committed { accepted: true, fill: None, write, load }
            },
            None => Committed { accepted: false, fill: None, write: None, load: LoadStep::Nothing },
        }
    }

    // -----------------------------------------------------------------------
    // Pressing a button
    // -----------------------------------------------------------------------

    /// Submit the form number `form_n`. In a browser of its own only one form
    /// is submitted at a time.
    fn submit_form(&mut self, switches: &Switches, form_n: usize) -> (r: SubmitStep)
        requires
            old(self).wf(),
        ensures
            final(self).wf(),
            final(self)@ == old(self)@.submit(switches.no_launch, form_n as nat),
            old(self)@.submit_step(switches.no_launch, form_n as nat, r),
    {
        if !self.reopens {
            let (selector, match_index) = find_submit(&self.form_map, form_n);
            let js = build_click_js(form_n, selector.as_str(), match_index);
            assert(presses(self@.forms, form_n as nat, js@));
            return SubmitStep::Click { js, url: self.current_url.clone() };
        }
        if switches.no_launch {
            self.set_error(SUBMIT_SKIPPED.to_owned());
            return SubmitStep::Nothing;
        }
        if self.submit_in_flight {
            self.set_error(SUBMIT_BUSY.to_owned());
            return SubmitStep::Nothing;
        }
        self.submit_in_flight = true;
        SubmitStep::Reopen {
            url: self.current_url.clone(),
            form_n,
            values: copy_values(&self.form_field_values),
        }
    }

    /// The user pressed the button `function_name`: a row of the history, which
    /// is loaded and goes to the top, or the submit button of a form. A row is
    /// known by being listed, not by its shape, so that a button of the page
    /// can never take the user away.
    pub fn on_button_press(
        &mut self,
        switches: &Switches,
        function_name: &str,
        file: &HistoryFile,
    ) -> (r: Pressed)
        requires
            old(self).wf(),
        ensures
            final(self).wf(),
            if old(self)@.history.urls.contains(function_name@) {
                &&& final(self)@ == old(self)@.visit(
                    switches.no_launch,
                    file.contents(),
                    function_name@,
                )
                &&& text::maybe(r.write) == old(self)@.visit_write(file.contents(), function_name@)
                &&& old(self)@.load_step(switches.no_launch, function_name@, r.load)
                &&& r.submit is Nothing
            } else if text::begins(function_name@, "submit:form_"@) {
                &&& final(self)@ == old(self)@.submit(
                    switches.no_launch,
                    submit_number(function_name@),
                )
                &&& old(self)@.submit_step(
                    switches.no_launch,
                    submit_number(function_name@),
                    r.submit,
                )
                &&& r.write is None && r.load is Nothing
            } else {
                &&& final(self)@ == old(self)@
                &&& r.write is None && r.load is Nothing && r.submit is Nothing
            },
    {
        if self.url_history.is_listed(function_name) {
            let (write, load) = self.visit(switches, file, function_name);
            return Pressed { write, load, submit: SubmitStep::Nothing };
        }
        let name = chars_of(function_name);
        if stands_at(name.as_slice(), chars_of("submit:form_").as_slice(), 0) {
            proof {
                reveal_strlit("submit:form_");
            }
            let number = slice_subrange(name.as_slice(), 12, name.len());
            assert(number@ =~= function_name@.skip(12));
            let form_n: usize = match parse_number(number, usize::MAX as u64) {
                Ok(n) => n as usize,
                Err(_) => 0,
            };
            let submit = self.submit_form(switches, form_n);
            return Pressed { write: None, load: LoadStep::Nothing, submit };
        }
        Pressed { write: None, load: LoadStep::Nothing, submit: SubmitStep::Nothing }
    }

    /// A form was submitted in the tab, and led to this page at `landed`.
    pub fn on_clicked(&mut self, load: &PageLoad, landed: &str)
        requires
            old(self).wf(),
        ensures
            final(self).wf(),
            is_page_of(final(self)@.ready, *load, landed@),
            final(self)@ == (ReaderState { ready: final(self)@.ready, ..old(self)@ }),
    {
        self.publish(load, landed);
    }

    /// A form was submitted in a browser of its own: where that led to, or what
    /// went wrong.
    pub fn on_reopened(&mut self, outcome: Result<(String, PageLoad), String>)
        requires
            old(self).wf(),
        ensures
            final(self).wf(),
            match outcome {
                Ok((url, load)) => {
                    &&& is_page_of(final(self)@.ready, load, url@)
                    &&& final(self)@ == (ReaderState {
                        submitting: false,
                        ready: final(self)@.ready,
                        ..old(self)@
                    })
                },
                Err(e) => final(self)@ == (ReaderState {
                    submitting: false,
                    error: Some(e@),
                    ..old(self)@
                }),
            },
    {
        self.submit_in_flight = false;
        match outcome {
            Ok((url, load)) => self.publish(&load, url.as_str()),
            Err(e) => self.set_error(e),
        }
    }

    /// The submit in a browser of its own is over, whatever came of it.
    pub fn on_submit_ended(&mut self)
        requires
            old(self).wf(),
        ensures
            final(self).wf(),
            final(self)@ == (ReaderState { submitting: false, ..old(self)@ }),
    {
        self.submit_in_flight = false;
    }

    // -----------------------------------------------------------------------
    // Commands
    // -----------------------------------------------------------------------

    /// The commands of the reader. The one for hidden content is named by what
    /// it does, not by how things are.
    pub fn commands(&self, switches: &Switches) -> (r: Vec<String>)
        ensures
            text::views(r@) == seq![
                CMD_REFRESH@,
                CMD_CLEAR_COOKIES@,
                switches.hidden_toggle(),
                CMD_TOGGLE_BOOKMARK@,
            ],
    {
        let hidden_toggle = if switches.prune {
            CMD_SHOW_HIDDEN
        } else {
            CMD_HIDE_HIDDEN
        };
        let mut r: Vec<String> = Vec::new();
        r.push(CMD_REFRESH.to_owned());
        r.push(CMD_CLEAR_COOKIES.to_owned());
        r.push(hidden_toggle.to_owned());
        r.push(CMD_TOGGLE_BOOKMARK.to_owned());
        assert(text::views(r@) =~= seq![
            CMD_REFRESH@,
            CMD_CLEAR_COOKIES@,
            hidden_toggle@,
            CMD_TOGGLE_BOOKMARK@,
        ]);
        r
    }

    /// What the bookmark command acts on, with the cursor on `elem_key`.
    pub fn bookmark_target(&self, elem_key: &str) -> (r: Option<String>)
        ensures
            text::maybe(r) == self@.bookmark_target(elem_key@),
    {
        if let Some(name) = sicompass_sdk::tags::extract_button_function_name(elem_key) {
            if self.url_history.is_listed(name.as_str()) {
                return Some(name);
            }
        }
        if let Some(url) = sicompass_sdk::tags::extract_link(elem_key) {
            let c = chars_of(url.as_str());
            if stands_at(c.as_slice(), chars_of("http://").as_slice(), 0) || stands_at(
                c.as_slice(),
                chars_of("https://").as_slice(),
                0,
            ) {
                return sanitize_history_url(url.as_str());
            }
        }
        sanitize_history_url(self.current_url.as_str())
    }

    /// Flip the bookmark of what the cursor is on, and say so. The address is
    /// part of the message, so that two in a row are not the same words.
    fn handle_toggle_bookmark_command(
        &mut self,
        elem_key: &str,
        file: &HistoryFile,
    ) -> (r: (Option<String>, String))
        requires
            old(self).wf(),
        ensures
            final(self).wf(),
            match old(self)@.bookmark_target(elem_key@) {
                Some(url) => {
                    &&& final(self)@ == (ReaderState {
                        history: old(self)@.history.toggle(file.contents(), url),
                        ..old(self)@
                    })
                    &&& text::maybe(r.0) == final(self)@.history.to_write(file.contents())
                    &&& outside::worded_with(
                        bookmark_key(old(self)@.history.toggles_on(file.contents(), url)),
                        "url"@,
                        url,
                        r.1@,
                    )
                },
                None => final(self)@ == old(self)@ && r.0 is None && outside::worded(
                    BOOKMARK_NOTHING@,
                    r.1@,
                ),
            },
    {
        match self.bookmark_target(elem_key) {
            None => (None, sicompass_sdk::localize::t(BOOKMARK_NOTHING)),
            Some(url) => {
                let (on, write) = self.url_history.toggle_bookmark(file, url.as_str());
                proof {
                    let target = url@;
                    if !old(self)@.history.urls.contains(target) {
                        let link = outside::between(elem_key@, "<link>"@, "</link>"@);
                        if link is Some {
                            history::law_sanitized_is_storable(link->0);
                        }
                        history::law_sanitized_is_storable(old(self)@.current_url);
                    }
                }
                (write, translate_with(bookmark_message(on), "url", url.as_str()))
            },
        }
    }

    /// Load the page again.
    fn reload(&mut self, switches: &Switches) -> (r: LoadStep)
        requires
            old(self).wf(),
        ensures
            final(self).wf(),
            final(self)@ == old(self)@.reload(switches.no_launch),
            old(self)@.reload_step(switches.no_launch, r),
    {
        if self.current_url.as_str().is_empty() {
            return LoadStep::Nothing;
        }
        let url = self.current_url.clone();
        self.cached_page = None;
        self.load_url(switches, url.as_str())
    }

    /// Run a command, with the cursor on `elem_key`. A page that is loaded
    /// again does not move in the history.
    pub fn handle_command(
        &mut self,
        switches: &mut Switches,
        cmd: &str,
        elem_key: &str,
        file: &HistoryFile,
    ) -> (r: Commanded)
        requires
            old(self).wf(),
        ensures
            final(self).wf(),
            *final(switches) == old(switches).after(cmd@),
            r.clear_cookies == (cmd@ == CMD_CLEAR_COOKIES@),
            r.message is Some == (cmd@ == CMD_TOGGLE_BOOKMARK@),
            if cmd@ == CMD_TOGGLE_BOOKMARK@ {
                &&& r.load is Nothing
                &&& match old(self)@.bookmark_target(elem_key@) {
                    Some(url) => {
                        &&& final(self)@ == (ReaderState {
                            history: old(self)@.history.toggle(file.contents(), url),
                            ..old(self)@
                        })
                        &&& text::maybe(r.write) == final(self)@.history.to_write(file.contents())
                        &&& outside::worded_with(
                            bookmark_key(old(self)@.history.toggles_on(file.contents(), url)),
                            "url"@,
                            url,
                            (r.message->0)@,
                        )
                    },
                    None => final(self)@ == old(self)@ && r.write is None && outside::worded(
                        BOOKMARK_NOTHING@,
                        (r.message->0)@,
                    ),
                }
            } else if cmd@ == CMD_REFRESH@ || cmd@ == CMD_SHOW_HIDDEN@ || cmd@ == CMD_HIDE_HIDDEN@ {
                &&& final(self)@ == old(self)@.reload(old(switches).no_launch)
                &&& old(self)@.reload_step(old(switches).no_launch, r.load)
                &&& r.write is None
            } else {
                final(self)@ == old(self)@ && r.load is Nothing && r.write is None
            },
    {
        proof {
            reveal_strlit("toggle bookmark");
            reveal_strlit("refresh");
            reveal_strlit("clear cookies");
            reveal_strlit("show hidden content");
            reveal_strlit("hide hidden content");
            assert(CMD_TOGGLE_BOOKMARK@.len() != CMD_CLEAR_COOKIES@.len());
            assert(CMD_REFRESH@.len() != CMD_CLEAR_COOKIES@.len());
        }
        let mut r = Commanded {
            write: None,
            load: LoadStep::Nothing,
            clear_cookies: false,
            message: None,
        };
        if same_text(cmd, CMD_TOGGLE_BOOKMARK) {
            let (write, message) = self.handle_toggle_bookmark_command(elem_key, file);
            r.write = write;
            r.message = Some(message);
        } else if same_text(cmd, CMD_REFRESH) {
            r.load = self.reload(switches);
        } else if same_text(cmd, CMD_CLEAR_COOKIES) {
            r.clear_cookies = true;
        } else if same_text(cmd, CMD_SHOW_HIDDEN) || same_text(cmd, CMD_HIDE_HIDDEN) {
            switches.prune = same_text(cmd, CMD_HIDE_HIDDEN);
            r.load = self.reload(switches);
        }
        r
    }
}

impl Default for WebbrowserProvider {
    fn default() -> (r: WebbrowserProvider)
        ensures
            r.wf(),
            r@ == fresh(false),
    {
        WebbrowserProvider::new()
    }
}

/// The message for the mark in front of a bookmarked address.
pub const BOOKMARK_MARKER: &'static str = "webbrowser-bookmark-marker";

/// The message for a bookmark command with nothing to act on.
pub const BOOKMARK_NOTHING: &'static str = "webbrowser-bookmark-nothing";

/// The message for a bookmark that was set.
pub const BOOKMARK_ADDED: &'static str = "webbrowser-bookmark-added";

/// The message for a bookmark that was removed.
pub const BOOKMARK_REMOVED: &'static str = "webbrowser-bookmark-removed";

/// The message for a bookmark that was set, or removed.
pub open spec fn bookmark_key(on: bool) -> Seq<char> {
    if on {
        BOOKMARK_ADDED@
    } else {
        BOOKMARK_REMOVED@
    }
}

/// The message for a bookmark that was set, or removed.
pub fn bookmark_message(on: bool) -> (r: &'static str)
    ensures
        r@ == bookmark_key(on),
{
    if on {
        BOOKMARK_ADDED
    } else {
        BOOKMARK_REMOVED
    }
}

/// Make the page where no browser may be started.
pub fn unlaunched_page(url: &str) -> (r: Vec<Element>)
    ensures
        tree::nodes(r@) == stub_page(url@),
{
    let mut line = "<test-no-launch>".to_owned();
    line.append(url);
    line.append("</test-no-launch>");
    let mut r: Vec<Element> = Vec::new();
    r.push(Element::Str(line));
    assert(tree::nodes(r@) =~= stub_page(url@));
    r
}

/// The page for a link that another program shows, where no browser may be
/// started. `None` to load the link, and to make the page of what comes of it.
pub fn unlaunched_link(switches: &Switches, url: &str) -> (r: Option<Vec<Element>>)
    ensures
        r is Some == switches.no_launch,
        r matches Some(page) ==> tree::nodes(page@) == stub_page(url@),
{
    if switches.no_launch {
        Some(unlaunched_page(url))
    } else {
        None
    }
}

/// The page for a link that another program shows, from what came of loading
/// it.
pub fn fetch_url_to_ffon(url: &str, outcome: Result<PageLoad, String>) -> (r: Vec<Element>)
    ensures
        match outcome {
            Ok(load) => page::renders(tree::nodes(r@), load, url@),
            Err(e) => tree::nodes(r@) == seq![tree::Node::Str(worker::load_words(url@, e@))],
        },
{
    match outcome {
        Ok(load) => page_to_ffon_with_forms(&load, url).0,
        Err(e) => {
            let mut r: Vec<Element> = Vec::new();
            r.push(Element::Str(load_failed(url, e.as_str())));
            assert(tree::nodes(r@) =~= seq![tree::Node::Str(worker::load_words(url@, e@))]);
            r
        },
    }
}

// ---------------------------------------------------------------------------
// Submitting a form in a browser of its own
// ---------------------------------------------------------------------------

/// How a form is submitted in a page that was opened again.
#[derive(Debug)]
pub struct SubmitPlan {
    /// A script for each field, with the path of the field.
    pub fills: Vec<(String, String)>,
    /// The script that submits the form.
    pub click: String,
}

/// `missing` are the fields that were typed into and are gone, in order.
pub open spec fn gone(
    missing: Seq<Seq<char>>,
    stored: Map<Seq<char>, Seq<char>>,
    fresh: Map<Seq<char>, forms::Control>,
) -> bool {
    &&& missing.len() > 0
    &&& forms::ordered(missing)
    &&& forall|k: Seq<char>|
        missing.contains(k) <==> stored.dom().contains(k) && !fresh.dom().contains(k)
}

/// What to say of a form whose fields are gone.
pub open spec fn drift_words(missing: Seq<Seq<char>>) -> Seq<char> {
    "Form changed since you started filling it: missing field(s) "@ + text::joined(missing, ", "@)
        + ". Refresh the page and try again."@
}

/// The script that puts `value` into the field `key`.
pub open spec fn fill_of(
    fresh: Map<Seq<char>, forms::Control>,
    key: Seq<char>,
    value: Seq<char>,
) -> Seq<char> {
    forms::fill_js(
        fresh[key].form_index,
        fresh[key].match_index,
        fresh[key].css_selector,
        value,
        false,
    )
}

/// `fills` has one script for each typed value, that puts it into its field.
pub open spec fn fills_all(
    fills: Seq<(String, String)>,
    stored: Map<Seq<char>, Seq<char>>,
    fresh: Map<Seq<char>, forms::Control>,
) -> bool {
    let scripts = table::rows_map(table::rows(fills));
    &&& table::distinct(table::rows(fills))
    &&& scripts.dom() == stored.dom()
    &&& forall|key: Seq<char>| #[trigger]
        stored.dom().contains(key) ==> scripts[key] == fill_of(fresh, key, stored[key])
}

/// `js` presses a submit button of form number `n`, in a page that was opened
/// again.
pub open spec fn presses_again(
    forms: Map<Seq<char>, forms::Control>,
    n: nat,
    js: Seq<char>,
) -> bool {
    exists|selector: Seq<char>, match_index: nat| #[trigger]
        forms::finds_submit(forms, n, selector, match_index) && js == forms::reopened_click_js(
            selector,
            n,
        )
}

/// Plan how what was typed is put into the form of a page that was opened
/// again, and the form submitted. Nothing is where a field has gone.
pub fn plan_submit(fresh: &FormMap, form_n: usize, stored: &FieldValues) -> (r: Result<
    SubmitPlan,
    String,
>)
    requires
        fresh.wf(),
        stored.wf(),
    ensures
        match r {
            Ok(plan) => {
                &&& stored@.dom().subset_of(fresh@.dom())
                &&& fills_all(plan.fills@, stored@, fresh@)
                &&& presses_again(fresh@, form_n as nat, plan.click@)
            },
            Err(e) => exists|missing: Seq<Seq<char>>| #[trigger]
                gone(missing, stored@, fresh@) && e@ == drift_words(missing),
        },
{
    if let Err(missing) = check_form_drift(stored, fresh) {
        let mut e = "Form changed since you started filling it: missing field(s) ".to_owned();
        e.append(join(missing.as_slice(), ", ").as_str());
        e.append(". Refresh the page and try again.");
        proof {
            assert(gone(text::views(missing@), stored@, fresh@));
        }
        return Err(e);
    }
    let ghost all = table::rows(stored.entries@);
    let mut fills: Vec<(String, String)> = Vec::new();
    let mut i: usize = 0;
    while i < stored.entries.len()
        invariant
            i <= stored.entries.len(),
            stored.wf(),
            fresh.wf(),
            stored@.dom().subset_of(fresh@.dom()),
            all == table::rows(stored.entries@),
            fills@.len() == i,
            forall|j: int|
                0 <= j < i ==> (#[trigger] table::rows(fills@)[j]).0 == all[j].0 && table::rows(
                    fills@,
                )[j].1 == fill_of(fresh@, all[j].0, all[j].1),
        decreases stored.entries.len() - i,
    {
        let key = stored.entries[i].0.as_str();
        let value = stored.entries[i].1.as_str();
        proof {
            table::lemma_entry(*stored, i as int);
            assert(stored@.dom().contains(key@));
            assert(all[i as int] == (key@, value@));
        }
        if let Some(node) = fresh.get(key) {
            let ghost before = table::rows(fills@);
            let js = build_fill_js(
                node.form_index,
                node.match_index,
                node.css_selector.as_str(),
                value,
                false,
            );
            fills.push((key.to_owned(), js));
            assert(table::rows(fills@) =~= before.push(
                (key@, fill_of(fresh@, all[i as int].0, all[i as int].1)),
            ));
        }
        i = i + 1;
    }
    proof {
        lemma_fills(table::rows(fills@), all, fresh@);
    }
    let (selector, match_index) = find_submit(fresh, form_n);
    let click = build_reopened_click_js(selector.as_str(), form_n);
    assert(forms::finds_submit(fresh@, form_n as nat, selector@, match_index as nat));
    Ok(SubmitPlan { fills, click })
}

proof fn lemma_fills(
    fills: Seq<(Seq<char>, Seq<char>)>,
    all: Seq<(Seq<char>, Seq<char>)>,
    fresh: Map<Seq<char>, forms::Control>,
)
    requires
        fills.len() == all.len(),
        table::distinct(all),
        forall|j: int|
            0 <= j < all.len() ==> (#[trigger] fills[j]).0 == all[j].0 && fills[j].1 == fill_of(
                fresh,
                all[j].0,
                all[j].1,
            ),
    ensures
        table::distinct(fills),
        table::rows_map(fills).dom() == table::rows_map(all).dom(),
        forall|key: Seq<char>| #[trigger]
            table::rows_map(all).dom().contains(key) ==> table::rows_map(fills)[key] == fill_of(
                fresh,
                key,
                table::rows_map(all)[key],
            ),
{
    table::lemma_rows_map(fills);
    table::lemma_rows_map(all);
    assert forall|i: int, j: int| 0 <= i < j < fills.len() implies (#[trigger] fills[i]).0 != (
    #[trigger] fills[j]).0 by {
        assert(all[i].0 != all[j].0);
    }
    assert forall|key: Seq<char>| table::rows_map(fills).dom().contains(key) == #[trigger] table::rows_map(
        all,
    ).dom().contains(key) by {
        if table::rows_map(fills).dom().contains(key) {
            let i = choose|i: int| 0 <= i < fills.len() && #[trigger] fills[i].0 == key;
            assert(all[i].0 == key);
        }
        if table::rows_map(all).dom().contains(key) {
            let i = choose|i: int| 0 <= i < all.len() && #[trigger] all[i].0 == key;
            assert(fills[i].0 == key);
        }
    }
    assert(table::rows_map(fills).dom() =~= table::rows_map(all).dom());
    assert forall|key: Seq<char>| #[trigger] table::rows_map(all).dom().contains(key) implies table::rows_map(
        fills,
    )[key] == fill_of(fresh, key, table::rows_map(all)[key]) by {
        let i = choose|i: int| 0 <= i < all.len() && #[trigger] all[i].0 == key;
        assert(fills[i].0 == key);
    }
}

/// Plan how a form is submitted in a page that was opened again, from the
/// source of that page.
pub fn plan_reopened_submit(html: &str, url: &str, form_n: usize, stored: &FieldValues) -> (r:
    Result<SubmitPlan, String>)
    requires
        stored.wf(),
    ensures
        match r {
            Ok(plan) => {
                let fresh = outside::html_page(html@, url@).1;
                &&& stored@.dom().subset_of(fresh.dom())
                &&& fills_all(plan.fills@, stored@, fresh)
                &&& presses_again(fresh, form_n as nat, plan.click@)
            },
            Err(e) => exists|missing: Seq<Seq<char>>| #[trigger]
                gone(missing, stored@, outside::html_page(html@, url@).1) && e@ == drift_words(
                    missing,
                ),
        },
{
    let (_elements, fresh) = render_html(html, url);
    assert(fresh@ == outside::html_page(html@, url@).1);
    plan_submit(&fresh, form_n, stored)
}

/// Say why a form could not be submitted: the browser did not start.
pub fn submit_launch_failed(e: &str) -> (r: String)
    ensures
        r@ == "Could not launch Chrome for submit: "@ + e@,
{
    let mut r = "Could not launch Chrome for submit: ".to_owned();
    r.append(e);
    r
}

/// Say why a form could not be submitted: its page could not be opened again.
pub fn reopen_failed(url: &str, e: &str) -> (r: String)
    ensures
        r@ == "Failed to reopen "@ + url@ + " for submit: "@ + e@,
{
    let mut r = "Failed to reopen ".to_owned();
    r.append(url);
    r.append(" for submit: ");
    r.append(e);
    r
}

/// Say why a form could not be submitted: a field could not be filled, in time
/// or at all.
pub fn fill_failed(key: &str, e: Option<&str>) -> (r: String)
    ensures
        r@ == match e {
            Some(e) => "Failed to fill field "@ + key@ + ": "@ + e@,
            None => "Timed out filling field "@ + key@,
        },
{
    match e {
        Some(e) => {
            let mut r = "Failed to fill field ".to_owned();
            r.append(key);
            r.append(": ");
            r.append(e);
            r
        },
        None => {
            let mut r = "Timed out filling field ".to_owned();
            r.append(key);
            r
        },
    }
}

// ---------------------------------------------------------------------------
// Laws
// ---------------------------------------------------------------------------

/// A row of the history is known by its bare address, bookmarked or not: what
/// the reader is told when it is pressed is the address on the row.
pub proof fn law_a_row_names_its_address(u: Seq<char>, marked: bool, marker: Seq<char>)
    requires
        history::row_safe(u),
    ensures
        outside::between(history_row(u, marked, marker), "<button>"@, "</button>"@) == Some(u),
{
    let open = "<button>"@;
    let close = "</button>"@;
    reveal_strlit("<button>");
    reveal_strlit("</button>");
    let row = history_row(u, marked, marker);
    assert(row.subrange(0, 8) =~= open);
    assert(text::occurs_at(row, open, 0));
    assert(outside::tag_at(row, open, 0) == Some(0int));
    let end: int = 8 + u.len() as int;
    assert(row.subrange(end, end + 9) =~= close);
    assert(text::occurs_at(row, close, end));
    text::lemma_find_from(row, close, 8);
    assert(text::find_from(row, close, 8) == Some(end)) by {
        assert forall|i: int| 8 <= i < end implies !text::occurs_at(row, close, i) by {
            if text::occurs_at(row, close, i) {
                assert(row.subrange(i, i + 9)[0] == close[0]);
                assert(row[i] == u[i - 8]);
            }
        }
    }
    assert(row.subrange(8, end) =~= u);
}

/// Going into something and coming out of it again leaves the cursor where it
/// was.
pub proof fn law_going_in_and_out(segments: Seq<Seq<char>>, segment: Seq<char>)
    ensures
        segments.push(segment).drop_last() == segments,
        path_of(segments.push(segment).drop_last()) == path_of(segments),
{
    assert(segments.push(segment).drop_last() =~= segments);
}

/// The state after the user committed `urls`, one after the other, where a
/// browser may be started.
pub open spec fn loads(s: ReaderState, urls: Seq<Seq<char>>) -> ReaderState
    decreases urls.len(),
{
    if urls.len() == 0 {
        s
    } else {
        loads(s, urls.drop_last()).load(false, urls.last())
    }
}

/// An address that is committed while a page loads is neither lost nor loaded
/// beside it: whatever is committed, no other task is started, and the one that
/// runs goes on with the newest address, and only with that one.
pub proof fn law_the_newest_address_is_served(s: ReaderState, urls: Seq<Seq<char>>)
    requires
        s.loading,
        !s.reopens,
        urls.len() > 0,
    ensures
        loads(s, urls).pending == Some(urls.last()),
        loads(s, urls).current_url == urls.last(),
        loads(s, urls).loading,
        forall|step: LoadStep| #[trigger]
            loads(s, urls.drop_last()).load_step(false, urls.last(), step) ==> step is Nothing,
    decreases urls.len(),
{
    if urls.len() > 1 {
        law_the_newest_address_is_served(s, urls.drop_last());
    } else {
        assert(urls.drop_last().len() == 0);
    }
    lemma_loads_flags(s, urls.drop_last());
}

proof fn lemma_loads_flags(s: ReaderState, urls: Seq<Seq<char>>)
    requires
        s.loading,
        !s.reopens,
    ensures
        loads(s, urls).loading,
        !loads(s, urls).reopens,
    decreases urls.len(),
{
    if urls.len() > 0 {
        lemma_loads_flags(s, urls.drop_last());
    }
}

/// What waits, waits for a task: a navigation never leaves an address waiting
/// that nothing will load.
pub proof fn law_what_waits_is_waited_for(s: ReaderState, no_launch: bool, url: Seq<char>)
    requires
        s.pending is Some ==> s.loading,
    ensures
        s.load(no_launch, url).pending is Some ==> s.load(no_launch, url).loading,
{
}

/// Every navigation takes the user into the page once it is there, whether it
/// comes at once or is picked up later, and whatever page that is.
pub proof fn law_every_navigation_enters_the_page(
    s: ReaderState,
    url: Seq<char>,
    nodes: Seq<tree::Node>,
    forms: Map<Seq<char>, forms::Control>,
)
    ensures
        s.load(true, url).enter,
        s.load(false, url).landed().enter,
        (ReaderState { ready: Some((nodes, forms)), ..s.load(false, url) }).picked_up().enter,
{
}

/// A page that nobody navigated to, such as the answer to a form, does not move
/// the cursor: it is picked up without taking the user anywhere.
pub proof fn law_an_answer_does_not_move_the_cursor(s: ReaderState)
    requires
        !s.armed,
    ensures
        s.picked_up().enter == s.enter,
        s.picked_up().path == s.path,
        s.picked_up().segments == s.segments,
{
}

/// Reloading a page does not move it in the history.
pub proof fn law_reloading_does_not_reorder(s: ReaderState, no_launch: bool)
    ensures
        s.reload(no_launch).history == s.history,
{
}

/// The command for hidden content does what its name says, for every reader of
/// the process at once: it turns the switch, from then on the other command is
/// offered, and that one turns it back. No other command touches a switch.
pub proof fn law_the_command_for_hidden_content_turns_the_switch(w: Switches, cmd: Seq<char>)
    ensures
        w.after(w.hidden_toggle()) == (Switches { prune: !w.prune, ..w }),
        w.after(w.hidden_toggle()).hidden_toggle() != w.hidden_toggle(),
        w.after(w.hidden_toggle()).after(w.after(w.hidden_toggle()).hidden_toggle()) == w,
        cmd != CMD_SHOW_HIDDEN@ && cmd != CMD_HIDE_HIDDEN@ ==> w.after(cmd) == w,
{
    reveal_strlit("show hidden content");
    reveal_strlit("hide hidden content");
    assert(CMD_SHOW_HIDDEN@[0] != CMD_HIDE_HIDDEN@[0]);
}

/// The bar comes first, and the history right below it, whatever is on show:
/// a row for each address, in the order of the list.
pub proof fn law_the_history_stands_below_the_bar(s: ReaderState, marker: Seq<char>, i: int)
    requires
        0 <= i < s.history.urls.len(),
    ensures
        s.shown(marker)[(if s.loading {
            2int
        } else {
            1
        }) + i] == tree::Node::Str(
            history_row(
                s.history.urls[i],
                s.history.marks.contains(s.history.urls[i]),
                marker,
            ),
        ),
        s.shown(marker).len() == s.history.urls.len() + (if s.loading {
            2nat
        } else {
            1
        }),
        s.loading ==> s.shown(marker)[0] == tree::Node::Str(url_bar(s.current_url)),
{
}

/// Every row that the user sees can be pressed, and pressing it, or marking it,
/// acts on the address that stands on it: a press lifts that address to the
/// top, whatever the file holds.
pub proof fn law_every_row_can_be_pressed(
    p: WebbrowserProvider,
    marker: Seq<char>,
    no_launch: bool,
    disk: Option<(Seq<Seq<char>>, Set<Seq<char>>)>,
    i: int,
)
    requires
        p.wf(),
        0 <= i < p@.history.urls.len(),
    ensures
        ({
            let u = p@.history.urls[i];
            let row = history_row(u, p@.history.marks.contains(u), marker);
            &&& outside::between(row, "<button>"@, "</button>"@) == Some(u)
            &&& p@.history.urls.contains(u)
            &&& p@.bookmark_target(row) == Some(u)
            &&& p@.visit(no_launch, disk, u).history.urls.len() > 0
            &&& p@.visit(no_launch, disk, u).history.urls[0] == u
        }),
{
    let u = p@.history.urls[i];
    assert(p@.history.urls.contains(u));
    history::law_a_storable_address_stays_as_it_is(u);
    history::law_record_puts_on_top(p@.history, disk, u);
    law_a_row_names_its_address(u, p@.history.marks.contains(u), marker);
}

/// The newest value typed into a field is the one that is kept and shown.
pub proof fn law_the_newest_typed_value_is_kept(
    s: ReaderState,
    key: Seq<char>,
    first: Seq<char>,
    second: Seq<char>,
)
    ensures
        s.fill(key, first).fill(key, second) == s.fill(key, second),
{
    let a = s.fill(key, first).fill(key, second);
    let b = s.fill(key, second);
    assert(a.typed =~= b.typed);
    if let Some((url, nodes)) = s.page {
        let slash = text::upto(key, '/');
        if slash < key.len() {
            let label = key.skip(slash + 1);
            let prefix = label + ": <input>"@;
            let line = field_line(label, first);
            assert(line.subrange(0, prefix.len() as int) =~= prefix);
            assert(text::begins(line, prefix));
            tree::law_the_newest_value_wins(
                nodes,
                key.take(slash),
                prefix,
                line,
                field_line(label, second),
            );
        }
        assert(with_field(with_field(nodes, key, first), key, second) == with_field(
            nodes,
            key,
            second,
        ));
    }
}

/// Where no load is running, a page on show is shown in full: the first thing
/// the user sees is a section with the content of the page in it, as many
/// nodes, the same ones and in the same order. While a load is running, or
/// where there is no page, the bar has nothing in it.
pub proof fn law_the_page_is_shown_in_full(s: ReaderState, marker: Seq<char>)
    ensures
        s.shown(marker).len() > 0,
        match s.page {
            Some((_, content)) if !s.loading => s.shown(marker)[0] matches tree::Node::Obj(_, kids)
                && kids.len() == content.len() && forall|i: int|
                0 <= i < content.len() ==> #[trigger] kids[i] == content[i],
            _ => s.shown(marker)[0] is Str,
        },
{
}

/// What lies ready is what the user gets: once it is picked up and no load is
/// running, it is the content of the first thing they see, its controls are
/// the controls of the page, and nothing typed before is left. Where nothing
/// lies ready nothing changes.
pub proof fn law_what_came_is_what_is_shown(s: ReaderState, marker: Seq<char>)
    ensures
        match s.ready {
            Some((nodes, forms)) => {
                let t = s.picked_up();
                &&& t.page == Some((s.current_url, nodes))
                &&& t.forms == forms
                &&& t.typed == Map::<Seq<char>, Seq<char>>::empty()
                &&& t.ready is None
                &&& t.history == s.history && t.error == s.error && t.loading == s.loading
                    && t.pending == s.pending && t.current_url == s.current_url
                &&& !s.loading ==> (t.shown(marker)[0] matches tree::Node::Obj(_, kids) && kids
                    == nodes)
            },
            None => s.picked_up() == s,
        },
{
}

/// The bar holds the address being read, character for character; before
/// anything was read it holds the beginning of one.
pub proof fn law_the_bar_holds_the_address(url: Seq<char>)
    requires
        forall|i: int| 0 <= i < url.len() ==> #[trigger] url[i] != '<',
    ensures
        outside::between(url_bar(url), "<input>"@, "</input>"@) == Some(
            if url.len() == 0 {
                "https://"@
            } else {
                url
            },
        ),
{
    reveal_strlit("https://");
    let u = if url.len() == 0 {
        "https://"@
    } else {
        url
    };
    let bar = url_bar(url);
    reveal_strlit("<input>");
    reveal_strlit("</input>");
    let end = 7 + u.len() as int;
    assert(bar =~= "<input>"@ + u + "</input>"@);
    assert(bar.subrange(0, 7) =~= "<input>"@);
    assert(bar.subrange(end, end + 8) =~= "</input>"@);
    assert(bar.subrange(7, end) =~= u);
    assert forall|i: int| 7 <= i < end implies #[trigger] bar[i] != '<' by {
        assert(bar[i] == u[i - 7]);
    }
    lemma_between(bar, "<input>"@, 0, "</input>"@, end);
}

/// What stands between the first two tags of a line.
proof fn lemma_between(s: Seq<char>, open: Seq<char>, n: int, close: Seq<char>, end: int)
    requires
        0 <= n,
        n + open.len() <= end,
        open.len() > 0 && open[0] == '<',
        close.len() > 0 && close[0] == '<',
        text::occurs_at(s, open, n),
        text::occurs_at(s, close, end),
        n == 0 || s[n - 1] != '\\',
        forall|i: int| 0 <= i < n ==> #[trigger] s[i] != '<',
        forall|i: int| n + open.len() <= i < end ==> #[trigger] s[i] != '<',
    ensures
        outside::between(s, open, close) == Some(s.subrange(n + open.len(), end)),
{
    let from = n + open.len();
    lemma_tag_at(s, open, 0, n);
    text::lemma_find_from(s, close, from);
    assert forall|i: int| from <= i < end implies !text::occurs_at(s, close, i) by {
        if text::occurs_at(s, close, i) {
            assert(s.subrange(i, i + close.len())[0] == close[0]);
        }
    }
    assert(text::find_from(s, close, from) == Some(end));
}

proof fn lemma_tag_at(s: Seq<char>, tag: Seq<char>, from: int, n: int)
    requires
        0 <= from <= n,
        tag.len() > 0 && tag[0] == '<',
        text::occurs_at(s, tag, n),
        n == 0 || s[n - 1] != '\\',
        forall|i: int| from <= i < n ==> #[trigger] s[i] != '<',
    ensures
        outside::tag_at(s, tag, from) == Some(n),
    decreases n - from,
{
    if from < n {
        if text::occurs_at(s, tag, from) {
            assert(s.subrange(from, from + tag.len())[0] == tag[0]);
        }
        lemma_tag_at(s, tag, from + 1, n);
    }
}

/// A navigation goes where it was asked to go. Where a browser may be started,
/// the address is handed to a browser, or waits for the load that is running;
/// in either case the user waits for the page, what was typed is gone, and the
/// history stays as it is.
pub proof fn law_a_navigation_goes_where_it_was_asked_to(
    s: ReaderState,
    url: Seq<char>,
    step: LoadStep,
)
    requires
        s.load_step(false, url, step),
    ensures
        match step {
            LoadStep::Start { url: u } => u@ == url && !s.loading && s.load(false, url).loading,
            LoadStep::Fetch { url: u } => u@ == url && s.reopens,
            LoadStep::Nothing => s.loading && s.load(false, url).loading && s.load(
                false,
                url,
            ).pending == Some(url),
        },
        s.reopens ==> step is Fetch,
        !s.reopens ==> s.load(false, url).current_url == url,
        s.load(false, url).armed,
        s.load(false, url).typed == Map::<Seq<char>, Seq<char>>::empty(),
        s.load(false, url).history == s.history,
        s.reopens ==> s.load(false, url).current_url == s.current_url,
        s.load(false, url).page == s.page && s.load(false, url).forms == s.forms,
        s.load(false, url).path == s.path && s.load(false, url).segments == s.segments,
        s.load(false, url).ready == s.ready && s.load(false, url).error == s.error,
        s.load(false, url).enter == s.enter && s.load(false, url).submitting == s.submitting,
{
}

/// Where no browser may be started, the page names the address that was asked
/// for, and is there at once.
pub proof fn law_without_a_browser_the_page_names_the_address(
    s: ReaderState,
    url: Seq<char>,
    step: LoadStep,
)
    requires
        s.load_step(true, url, step),
    ensures
        step is Nothing,
        s.load(true, url).current_url == url,
        s.load(true, url).enter,
        s.load(true, url).page matches Some((u, nodes)) && u == url && nodes.len() == 1
            && (nodes[0] matches tree::Node::Str(line) && text::occurs(line, url)),
{
    let line = "<test-no-launch>"@ + url + "</test-no-launch>"@;
    let n = "<test-no-launch>"@.len() as int;
    assert(line.subrange(n, n + url.len()) =~= url);
    assert(text::occurs_at(line, url, n));
}

/// A reload loads the address in the bar again: the old page goes, the address
/// is handed to a browser or waits for the running load, and the user waits for
/// the page. Without an address there is nothing to load.
pub proof fn law_a_reload_loads_the_page_again(s: ReaderState, step: LoadStep)
    requires
        s.reload_step(false, step),
    ensures
        s.current_url.len() == 0 ==> step is Nothing && s.reload(false) == s,
        s.current_url.len() > 0 ==> {
            let t = s.reload(false);
            &&& t.page is None
            &&& t.armed
            &&& t.current_url == s.current_url
            &&& s.reopens ==> (step matches LoadStep::Fetch { url } && url@ == s.current_url)
            &&& !s.reopens && !s.loading ==> t.loading && (step matches LoadStep::Start { url }
                && url@ == s.current_url)
            &&& !s.reopens && s.loading ==> t.loading && t.pending == Some(s.current_url)
            &&& t.history == s.history && t.path == s.path && t.segments == s.segments
            &&& t.ready == s.ready && t.error == s.error
        },
{
}

/// Going to an address puts it on top of the history and loads it, the same
/// address both: what is stored is read back as the newest line of the file.
pub proof fn law_a_visit_is_recorded_and_loaded(
    s: ReaderState,
    no_launch: bool,
    disk: Option<(Seq<Seq<char>>, Set<Seq<char>>)>,
    url: Seq<char>,
)
    ensures
        !s.reopens || no_launch ==> s.visit(no_launch, disk, url).current_url == url,
        no_launch || s.visit(no_launch, disk, url).armed,
        match history::sanitized(url) {
            Some(u) => {
                &&& s.visit(no_launch, disk, url).history.urls.len() > 0
                &&& s.visit(no_launch, disk, url).history.urls[0] == u
                &&& s.visit_write(disk, url) is Some <==> disk is Some && s.history.loaded
            },
            None => s.visit(no_launch, disk, url).history == s.history && s.visit_write(
                disk,
                url,
            ) is None,
        },
{
    if let Some(u) = history::sanitized(url) {
        history::law_record_puts_on_top(s.history, disk, url);
    }
}

proof fn lemma_first_slash(form: Seq<char>, label: Seq<char>)
    requires
        !form.contains('/'),
    ensures
        text::upto(form + "/"@ + label, '/') == form.len(),
{
    reveal_strlit("/");
    let key = form + "/"@ + label;
    text::lemma_upto(key, '/');
    let n = text::upto(key, '/');
    assert(key[form.len() as int] == '/');
    if n < form.len() {
        assert(key[n] == form[n]);
        assert(form.contains(form[n]));
    }
}

/// What is typed into a field is kept under that field, and stands in the page
/// on the line of that field: the first line with its label in the section of
/// its form. Every other value and every other place of the page is as it was.
pub proof fn law_typing_fills_that_field(
    s: ReaderState,
    form: Seq<char>,
    label: Seq<char>,
    value: Seq<char>,
)
    requires
        !form.contains('/'),
    ensures
        ({
            let key = form + "/"@ + label;
            let t = s.fill(key, value);
            let prefix = label + ": <input>"@;
            &&& t.typed.dom().contains(key) && t.typed[key] == value
            &&& forall|k: Seq<char>|
                k != key ==> #[trigger] t.typed.dom().contains(k) == s.typed.dom().contains(k)
                    && t.typed[k] == s.typed[k]
            &&& t == (ReaderState { typed: t.typed, page: t.page, ..s })
            &&& t.page is Some == s.page is Some
            &&& s.page matches Some((url, nodes)) ==> {
                &&& t.page matches Some((still, now))
                &&& still == url
                &&& {
                    ||| exists|path: Seq<int>| #[trigger]
                        tree::refilled(
                            nodes,
                            now,
                            None,
                            path,
                            form,
                            prefix,
                            prefix + value + "</input>"@,
                        )
                    ||| now == nodes && forall|path: Seq<int>|
                        !tree::is_field(#[trigger] tree::read_at(nodes, None, path), form, prefix)
                }
            }
        }),
{
    let key = form + "/"@ + label;
    let prefix = label + ": <input>"@;
    lemma_first_slash(form, label);
    reveal_strlit("/");
    assert(key.take(form.len() as int) =~= form);
    assert(key.skip(form.len() as int + 1) =~= label);
    if let Some((url, nodes)) = s.page {
        assert(field_line(label, value) =~= prefix + value + "</input>"@);
        tree::law_a_patch_changes_one_field_of_the_form(
            nodes,
            form,
            prefix,
            prefix + value + "</input>"@,
        );
    }
}

/// In a browser of its own only one form is submitted at a time: with the first
/// one on its way the next one is not sent, and the user is told.
pub proof fn law_one_form_is_submitted_at_a_time(s: ReaderState, first: nat, second: nat, step: SubmitStep)
    requires
        s.reopens,
        s.submit(false, first).submit_step(false, second, step),
    ensures
        step is Nothing,
        s.submit(false, first).submitting,
        s.submit(false, first).submit(false, second).error is Some,
        s.submit(false, first).typed == s.typed,
{
}

/// In the tab the submit button of that form is pressed, on the page being
/// read, and nothing of the reader changes. Where no browser may be started a
/// form that needs one is not sent, and the user is told.
pub proof fn law_a_form_is_sent_from_the_page_being_read(s: ReaderState, n: nat, step: SubmitStep)
    ensures
        !s.reopens && s.submit_step(false, n, step) ==> (step matches SubmitStep::Click { js, url }
            && url@ == s.current_url && presses(s.forms, n, js@)),
        !s.reopens ==> s.submit(false, n) == s,
        s.reopens && s.submit_step(true, n, step) ==> step is Nothing,
        s.reopens ==> s.submit(true, n).error is Some && s.submit(true, n).submitting
            == s.submitting,
{
}

/// A form is sent with what was typed, from the page being read, and it is the
/// form that was asked for.
pub proof fn law_a_form_is_sent_with_what_was_typed(s: ReaderState, n: nat, step: SubmitStep)
    requires
        s.reopens,
        !s.submitting,
        s.submit_step(false, n, step),
    ensures
        step matches SubmitStep::Reopen { url, form_n, values } && url@ == s.current_url && form_n
            == n && values@ == s.typed,
        s.submit(false, n).submitting,
{
}

/// A bookmark is set on the link that the cursor is in, and away from rows and
/// links on the page being read.
pub proof fn law_a_bookmark_is_set_where_the_cursor_is(
    s: ReaderState,
    front: Seq<char>,
    link: Seq<char>,
    back: Seq<char>,
)
    requires
        history::storable(link),
        text::begins(link, "https://"@) || text::begins(link, "http://"@),
        forall|i: int| 0 <= i < front.len() ==> #[trigger] front[i] != '<' && front[i] != '\\',
        forall|i: int| 0 <= i < back.len() ==> #[trigger] back[i] != '<',
    ensures
        s.bookmark_target(front + "<link>"@ + link + "</link>"@ + back) == Some(link),
        s.bookmark_target(front) == history::sanitized(s.current_url),
{
    reveal_strlit("<link>");
    reveal_strlit("</link>");
    reveal_strlit("<button>");
    let key = front + "<link>"@ + link + "</link>"@ + back;
    let at = front.len() as int;
    let end = at + 6 + link.len();
    assert(key.subrange(at, at + 6) =~= "<link>"@);
    assert(key.subrange(end, end + 7) =~= "</link>"@);
    assert(key.subrange(at + 6, end) =~= link);
    assert forall|i: int| 0 <= i < at implies #[trigger] key[i] != '<' && key[i] != '\\' by {
        assert(key[i] == front[i]);
    }
    assert forall|i: int| at + 6 <= i < end implies #[trigger] key[i] != '<' by {
        assert(key[i] == link[i - at - 6]);
    }
    lemma_between(key, "<link>"@, at, "</link>"@, end);
    history::law_a_storable_address_stays_as_it_is(link);
    assert forall|i: int| !text::occurs_at(key, "<button>"@, i) by {
        if text::occurs_at(key, "<button>"@, i) {
            assert(key.subrange(i, i + 8)[0] == '<');
            assert(key.subrange(i, i + 8)[1] == 'b');
            let n = front.len() as int;
            let m = n + 6 + link.len();
            if i < n {
                assert(key[i] == front[i]);
            } else if i < n + 6 {
                assert(key[i] == "<link>"@[i - n]);
                assert(key[n + 1] == "<link>"@[1]);
            } else if i < m {
                assert(key[i] == link[i - n - 6]);
            } else if i < m + 7 {
                assert(key[i] == "</link>"@[i - m]);
                assert(key[m + 1] == "</link>"@[1]);
            } else {
                assert(key[i] == back[i - m - 7]);
            }
        }
    }
    lemma_no_tag(key, "<button>"@, 0);
    assert forall|i: int| !text::occurs_at(front, "<button>"@, i) && !text::occurs_at(
        front,
        "<link>"@,
        i,
    ) by {
        if text::occurs_at(front, "<button>"@, i) {
            assert(front.subrange(i, i + 8)[0] == '<');
        }
        if text::occurs_at(front, "<link>"@, i) {
            assert(front.subrange(i, i + 6)[0] == '<');
        }
    }
    lemma_no_tag(front, "<button>"@, 0);
    lemma_no_tag(front, "<link>"@, 0);
}

proof fn lemma_no_tag(s: Seq<char>, tag: Seq<char>, from: int)
    requires
        0 <= from,
        forall|i: int| !text::occurs_at(s, tag, i),
    ensures
        outside::tag_at(s, tag, from) is None,
    decreases s.len() + 1 - from,
{
    if from + tag.len() <= s.len() {
        lemma_no_tag(s, tag, from + 1);
    }
}

/// A row of the history shows its address, and the word for a bookmark in
/// front of it where it is bookmarked and nowhere else.
pub proof fn law_a_row_shows_its_address(u: Seq<char>, marker: Seq<char>)
    ensures
        ({
            let plain = history_row(u, false, marker);
            let marked = history_row(u, true, marker);
            let n = u.len() as int;
            &&& plain.skip(8 + n + 9) == u
            &&& marked.skip(8 + n + 9) == marker + seq![' '] + u
            &&& plain.take(8 + n + 9) == marked.take(8 + n + 9)
        }),
{
    reveal_strlit("<button>");
    reveal_strlit("</button>");
    reveal_strlit(" ");
    reveal_strlit("");
    let n = u.len() as int;
    assert(history_row(u, false, marker).skip(8 + n + 9) =~= u);
    assert(history_row(u, true, marker).skip(8 + n + 9) =~= marker + seq![' '] + u);
    assert(history_row(u, false, marker).take(8 + n + 9) =~= history_row(u, true, marker).take(
        8 + n + 9,
    ));
}

/// The path of the cursor is made of the pieces it went through, in order, each
/// behind a slash.
pub proof fn law_the_path_names_every_piece(segments: Seq<Seq<char>>, segment: Seq<char>)
    ensures
        path_of(Seq::<Seq<char>>::empty()) == seq!['/'],
        path_of(seq![segment]) == seq!['/'] + segment,
        segments.len() > 0 ==> path_of(segments.push(segment)) == path_of(segments) + seq!['/']
            + segment,
{
    reveal_strlit("/");
    assert("/"@ =~= seq!['/']);
    assert(seq![segment].drop_last() =~= Seq::<Seq<char>>::empty());
    if segments.len() > 0 {
        assert(segments.push(segment).drop_last() =~= segments);
        assert(path_of(segments.push(segment)) =~= path_of(segments) + seq!['/'] + segment);
    }
}

/// The number in the name of a submit button is the number of the form.
pub proof fn law_a_button_names_its_form(n: nat)
    requires
        n <= usize::MAX,
    ensures
        submit_number("submit:form_"@ + text::decimal(n)) == n,
{
    reveal_strlit("submit:form_");
    assert(("submit:form_"@ + text::decimal(n)).skip(12) =~= text::decimal(n));
    text::law_a_written_number_reads_back(n, usize::MAX as nat);
}

/// In a page that was opened again every typed value goes into its own field:
/// the script asks for the control of that field, and gives it that value.
pub proof fn law_every_value_goes_into_its_own_field(
    fresh: Map<Seq<char>, forms::Control>,
    key: Seq<char>,
    value: Seq<char>,
)
    ensures
        forms::asks_for(
            fill_of(fresh, key, value),
            fresh[key].css_selector,
            fresh[key].match_index,
        ),
        forms::says_behind(fill_of(fresh, key, value), "setter.call(el, "@, value),
        fresh[key].form_index > 0 ==> text::occurs(
            fill_of(fresh, key, value),
            "const root = (document.forms["@ + text::decimal((fresh[key].form_index - 1) as nat)
                + "] || document)"@,
        ),
{
    forms::law_a_script_fills_the_control_with_what_was_typed(
        fresh[key].form_index,
        fresh[key].match_index,
        fresh[key].css_selector,
        value,
        false,
    );
}

/// Pressing a submit button presses a button that the page lists for that form,
/// where it lists one.
pub proof fn law_a_press_presses_a_button_of_the_form(
    forms: Map<Seq<char>, forms::Control>,
    n: nat,
    js: Seq<char>,
    key: Seq<char>,
)
    requires
        presses(forms, n, js),
        forms.dom().contains(key),
        forms[key].kind == forms::Kind::Submit,
        text::begins(key, "form_"@ + text::decimal(n) + "/"@),
    ensures
        exists|k: Seq<char>| #[trigger]
            forms.dom().contains(k) && forms[k].kind == forms::Kind::Submit && text::begins(
                k,
                "form_"@ + text::decimal(n) + "/"@,
            ) && forms::asks_for(js, forms[k].css_selector, forms[k].match_index),
        text::occurs(js, "const fi = "@ + text::decimal(n) + ";"@),
{
    assert(forms::is_submit_of(forms, n, key));
    let (selector, match_index) = choose|selector: Seq<char>, match_index: nat| #[trigger]
        forms::finds_submit(forms, n, selector, match_index) && js == forms::click_js(
            n,
            selector,
            match_index,
        );
    let k = choose|k: Seq<char>| #[trigger]
        forms::is_submit_of(forms, n, k) && forms[k].css_selector == selector
            && forms[k].match_index == match_index;
    forms::law_a_script_presses_the_button_of_the_form(n, selector, match_index);
    assert(forms.dom().contains(k));
}

/// What is said of a form whose fields are gone names every one of them.
pub proof fn law_every_field_that_is_gone_is_named(missing: Seq<Seq<char>>, i: int)
    requires
        0 <= i < missing.len(),
    ensures
        text::occurs(drift_words(missing), missing[i]),
{
    let all = text::joined(missing, ", "@);
    let at = lemma_joined_holds(missing, ", "@, i);
    let a = "Form changed since you started filling it: missing field(s) "@;
    let words = drift_words(missing);
    let n = a.len() + at;
    assert(words.subrange(n, n + missing[i].len()) =~= all.subrange(at, at + missing[i].len()));
    assert(text::occurs_at(words, missing[i], n));
}

proof fn lemma_joined_holds(parts: Seq<Seq<char>>, sep: Seq<char>, i: int) -> (at: int)
    requires
        0 <= i < parts.len(),
    ensures
        text::occurs_at(text::joined(parts, sep), parts[i], at),
    decreases parts.len(),
{
    let all = text::joined(parts, sep);
    if parts.len() == 1 {
        assert(all.subrange(0, all.len() as int) =~= parts[0]);
        0
    } else if i == parts.len() - 1 {
        let at = all.len() - parts[i].len();
        assert(all.subrange(at, at + parts[i].len()) =~= parts[i]);
        at
    } else {
        let front = text::joined(parts.drop_last(), sep);
        let at = lemma_joined_holds(parts.drop_last(), sep, i);
        assert(all.subrange(at, at + parts[i].len()) =~= front.subrange(
            at,
            at + parts[i].len(),
        ));
        at
    }
}

/// The cursor is in a field where its path names one that the page has, and
/// only there.
pub proof fn law_the_cursor_is_in_a_field_of_the_page(s: ReaderState, i: int)
    requires
        forms::names_form(s.path, i),
        forall|j: int| 0 <= j < i ==> !#[trigger] forms::names_form(s.path, j),
    ensures
        s.field() == if s.forms.dom().contains(s.path.skip(i)) {
            Some(s.path.skip(i))
        } else {
            None
        },
{
    forms::law_a_field_is_the_end_of_its_path(s.path);
}

/// A page that the user navigated to takes them into it once; any other leaves
/// them where they are.
pub proof fn law_the_user_is_taken_in_once(s: ReaderState)
    ensures
        s.armed ==> s.landed().enter && !s.landed().armed,
        !s.armed ==> s.landed() == s,
        s.landed().landed() == s.landed(),
        s.landed().page == s.page && s.landed().forms == s.forms && s.landed().typed == s.typed
            && s.landed().history == s.history && s.landed().current_url == s.current_url,
{
}

/// A key that names no form changes nothing of the page.
pub proof fn law_a_key_without_a_form_changes_no_page(s: ReaderState, key: Seq<char>, value: Seq<char>)
    requires
        !key.contains('/'),
    ensures
        s.fill(key, value).page == s.page,
{
    text::lemma_upto(key, '/');
    if text::upto(key, '/') < key.len() {
        assert(key.contains(key[text::upto(key, '/')]));
    }
}

/// What is written down after a visit is the history as it is after the visit.
pub proof fn law_a_visit_is_written_down(
    s: ReaderState,
    no_launch: bool,
    disk: Option<(Seq<Seq<char>>, Set<Seq<char>>)>,
    url: Seq<char>,
)
    ensures
        s.visit_write(disk, url) matches Some(t) ==> t == history::file_text(
            s.visit(no_launch, disk, url).history.urls,
            s.visit(no_launch, disk, url).history.marks,
        ),
{
}

/// A page comes with the controls of its own source, and with its own content.
pub proof fn law_a_page_comes_with_its_controls(
    s: ReaderState,
    load: PageLoad,
    url: Seq<char>,
)
    requires
        is_page_of(s.ready, load, url),
    ensures
        s.picked_up().forms == outside::html_page(load.html@, url).1,
        s.picked_up().page matches Some((at, nodes)) && at == s.current_url && page::renders(
            nodes,
            load,
            url,
        ),
{
}

/// A new reader shows an empty bar and nothing else, waits for nothing, and has
/// not asked for the history yet.
pub proof fn law_a_new_reader_is_blank(
    reopens: bool,
    marker: Seq<char>,
    urls: Seq<Seq<char>>,
    marks: Set<Seq<char>>,
)
    ensures
        ({
            let s = fresh(reopens);
            &&& s.shown(marker) == seq![tree::Node::Str("<input>https://</input>"@)]
            &&& !s.loading && !s.submitting && !s.armed && !s.enter
            &&& s.pending is None && s.ready is None && s.error is None
            &&& s.reopens == reopens
            &&& s.path == "/"@ && s.segments.len() == 0
            &&& forall|u: Seq<char>|
                urls.contains(u) && marks.contains(u) ==> #[trigger] s.history.load(
                    Some((urls, marks)),
                ).urls.contains(u)
        }),
{
    let s = fresh(reopens);
    reveal_strlit("<input>https://</input>");
    reveal_strlit("<input>");
    reveal_strlit("https://");
    reveal_strlit("</input>");
    assert(url_bar(s.current_url) =~= "<input>https://</input>"@);
    assert(s.shown(marker) =~= seq![tree::Node::Str("<input>https://</input>"@)]);
    assert forall|u: Seq<char>| urls.contains(u) && marks.contains(u) implies #[trigger] s.history.load(
        Some((urls, marks)),
    ).urls.contains(u) by {
        history::lemma_dedup(urls);
        history::lemma_capped(history::dedup(urls), marks, s.history.cap);
        assert(history::dedup(urls).contains(u));
    }
}

/// A button whose name gives no number means the first form.
pub proof fn law_a_button_without_a_number_means_the_first_form(rest: Seq<char>)
    requires
        rest.len() == 0 || (rest[0] != '+' && !text::ascii_digit(rest[0])),
    ensures
        submit_number("submit:form_"@ + rest) == 0,
{
    reveal_strlit("submit:form_");
    assert(("submit:form_"@ + rest).skip(12) =~= rest);
    text::law_a_number_is_written_in_digits(rest, usize::MAX as nat);
}

/// The user is told what became of the bookmark: that it was added where it is
/// now on, and that it was removed where it is now off.
pub proof fn law_the_message_says_what_became_of_the_bookmark(on: bool)
    ensures
        bookmark_key(on) == "webbrowser-bookmark-added"@ <==> on,
        bookmark_key(on) == "webbrowser-bookmark-removed"@ <==> !on,
{
    reveal_strlit("webbrowser-bookmark-added");
    reveal_strlit("webbrowser-bookmark-removed");
    assert("webbrowser-bookmark-added"@.len() == 25);
    assert("webbrowser-bookmark-removed"@.len() == 27);
}

/// A field is called gone only where something was typed into it and the page
/// has it no more, and every such field is.
pub proof fn law_only_a_field_that_is_gone_is_named(
    missing: Seq<Seq<char>>,
    stored: Map<Seq<char>, Seq<char>>,
    fresh: Map<Seq<char>, forms::Control>,
    key: Seq<char>,
)
    requires
        gone(missing, stored, fresh),
    ensures
        fresh.dom().contains(key) ==> !missing.contains(key),
        !stored.dom().contains(key) ==> !missing.contains(key),
        stored.dom().contains(key) && !fresh.dom().contains(key) ==> missing.contains(key),
{
}

/// Whatever was typed is put into the page that was opened again: there is a
/// script for it, and that script sets its control to it.
pub proof fn law_everything_typed_is_put_back(
    fills: Seq<(String, String)>,
    stored: Map<Seq<char>, Seq<char>>,
    fresh: Map<Seq<char>, forms::Control>,
    key: Seq<char>,
)
    requires
        fills_all(fills, stored, fresh),
        stored.dom().contains(key),
    ensures
        exists|i: int|
            0 <= i < fills.len() && (#[trigger] fills[i]).0@ == key && forms::says_behind(
                fills[i].1@,
                "setter.call(el, "@,
                stored[key],
            ),
{
    let s = table::rows(fills);
    table::lemma_rows_map(s);
    assert(table::rows_map(s).dom().contains(key));
    let i = choose|i: int| 0 <= i < s.len() && #[trigger] s[i].0 == key;
    assert(s[i] == (fills[i].0@, fills[i].1@));
    assert(table::rows_map(s)[s[i].0] == s[i].1);
    law_every_value_goes_into_its_own_field(fresh, key, stored[key]);
    assert(fills[i].0@ == key);
}

/// In a page that was opened again the form that was asked for is the one that
/// is sent.
pub proof fn law_a_press_in_a_reopened_page_sends_that_form(
    forms: Map<Seq<char>, forms::Control>,
    n: nat,
    js: Seq<char>,
)
    requires
        presses_again(forms, n, js),
    ensures
        text::occurs(js, "form:nth-of-type("@ + text::decimal(n) + ")"@),
        exists|selector: Seq<char>, match_index: nat| #[trigger]
            forms::finds_submit(forms, n, selector, match_index) && forms::says_behind(
                js,
                "document.querySelector("@,
                selector,
            ),
{
    let (selector, match_index) = choose|selector: Seq<char>, match_index: nat| #[trigger]
        forms::finds_submit(forms, n, selector, match_index) && js == forms::reopened_click_js(
            selector,
            n,
        );
    forms::law_a_script_presses_the_button_of_the_form(n, selector, match_index);
}

} // verus!
