//! The browser task: one Chrome for the reader's whole life.
//!
//! The reader sends jobs and gets answers, one job at a time, in the order
//! they were sent. A navigation queued behind a newer one is skipped: the user
//! has already typed past it. What a job needs of Chrome is an action; its
//! outcome is handed back and leads to the next action or to the answer.

use crate::forms;
use crate::forms::{ControlKind, FormControl, FormMap};
use crate::outside;
use crate::outside::{read_tree, write_tree};
use crate::page;
use crate::page::{page_to_ffon_with_forms, PageLoad};
use crate::provider::Switches;
use crate::table;
use crate::text;
use crate::tree;
use crate::tree::Element;
use std::collections::VecDeque;
use vstd::prelude::*;

verus! {

/// The name of the task that drives Chrome.
pub const BROWSER_TASK: &'static str = "browser";

/// What the reader asks of the browser task.
#[derive(Debug, PartialEq, Eq)]
pub enum Job {
    /// Load `url` in the reader's tab. `seq` numbers the navigations, so an
    /// answer for one the user has moved past is recognised.
    Navigate { seq: u64, url: String, prune: bool },
    /// Run a script that fills a form field in the reader's tab.
    Fill { js: String },
    /// Run a script that submits a form, then read the page it leads to.
    Submit { seq: u64, js: String, url: String, prune: bool },
    /// Forget every cookie.
    ClearCookies,
    /// Render `url` for a link that another program shows, in a tab of its own.
    Render { url: String, prune: bool },
    /// Close Chrome.
    Close,
}

/// What the browser task answers.
#[derive(Debug, PartialEq, Eq)]
pub enum Done {
    /// A page for navigation `seq`, or, with `submitted`, the page that a form
    /// led to.
    Page { seq: u64, submitted: bool, page: WirePage },
    /// Navigation `seq` failed: shown as the page, and on the status line.
    Failed { seq: u64, error: String },
    /// Something else failed: the status line only.
    Error { error: String },
    /// A page rendered for a link.
    Rendered { url: String, page: String },
}

// ---------------------------------------------------------------------------
// A page on its way
// ---------------------------------------------------------------------------

/// A page and its forms, as they cross to the reader.
#[derive(Debug, PartialEq, Eq)]
pub struct WirePage {
    /// The tree, as JSON.
    pub elements: String,
    pub forms: Vec<(String, WireFormNode)>,
}

/// A form control on its way.
#[derive(Debug, PartialEq, Eq)]
pub struct WireFormNode {
    pub css_selector: String,
    pub kind: WireKind,
    pub form_index: usize,
    pub match_index: usize,
}

/// The kind of a form control on its way.
#[derive(Debug, PartialEq, Eq)]
pub enum WireKind {
    TextInput,
    Textarea,
    Checkbox,
    RadioOption { group: String, value: String },
    Submit,
    Select,
}

impl View for WireKind {
    type V = forms::Kind;

    open spec fn view(&self) -> forms::Kind {
        match self {
            WireKind::TextInput => forms::Kind::TextInput,
            WireKind::Textarea => forms::Kind::Textarea,
            WireKind::Checkbox => forms::Kind::Checkbox,
            WireKind::RadioOption { group, value } => forms::Kind::RadioOption(group@, value@),
            WireKind::Submit => forms::Kind::Submit,
            WireKind::Select => forms::Kind::Select,
        }
    }
}

impl View for WireFormNode {
    type V = forms::Control;

    open spec fn view(&self) -> forms::Control {
        forms::Control {
            css_selector: self.css_selector@,
            kind: self.kind@,
            form_index: self.form_index as nat,
            match_index: self.match_index as nat,
        }
    }
}

fn to_wire(n: &FormControl) -> (r: WireFormNode)
    ensures
        r@ == n@,
{
    let kind = match &n.kind {
        ControlKind::TextInput => WireKind::TextInput,
        ControlKind::Textarea => WireKind::Textarea,
        ControlKind::Checkbox => WireKind::Checkbox,
        ControlKind::RadioOption { group, value } => WireKind::RadioOption {
            group: group.clone(),
            value: value.clone(),
        },
        ControlKind::Submit => WireKind::Submit,
        ControlKind::Select => WireKind::Select,
    };
    WireFormNode {
        css_selector: n.css_selector.clone(),
        kind,
        form_index: n.form_index,
        match_index: n.match_index,
    }
}

fn from_wire(n: &WireFormNode) -> (r: FormControl)
    ensures
        r@ == n@,
{
    let kind = match &n.kind {
        WireKind::TextInput => ControlKind::TextInput,
        WireKind::Textarea => ControlKind::Textarea,
        WireKind::Checkbox => ControlKind::Checkbox,
        WireKind::RadioOption { group, value } => ControlKind::RadioOption {
            group: group.clone(),
            value: value.clone(),
        },
        WireKind::Submit => ControlKind::Submit,
        WireKind::Select => ControlKind::Select,
    };
    FormControl {
        css_selector: n.css_selector.clone(),
        kind,
        form_index: n.form_index,
        match_index: n.match_index,
    }
}

impl WirePage {
    /// Pack a page and its forms.
    pub fn new(elements: &Vec<Element>, forms: &FormMap) -> (r: WirePage)
        ensures
            r.elements@ == outside::tree_json(tree::nodes(elements@)),
            table::rows(r.forms@) == table::rows(forms.entries@),
    {
        let mut packed: Vec<(String, WireFormNode)> = Vec::new();
        let ghost want = table::rows(forms.entries@);
        let mut i: usize = 0;
        while i < forms.entries.len()
            invariant
                i <= forms.entries.len(),
                want == table::rows(forms.entries@),
                table::rows(packed@) == want.take(i as int),
            decreases forms.entries.len() - i,
        {
            let ghost before = packed@;
            packed.push((forms.entries[i].0.clone(), to_wire(&forms.entries[i].1)));
            assert(table::rows(packed@) =~= table::rows(before).push(want[i as int]));
            i = i + 1;
            assert(table::rows(packed@) =~= want.take(i as int));
        }
        assert(want.take(want.len() as int) =~= want);
        WirePage { elements: write_tree(elements), forms: packed }
    }

    /// Unpack a page and its forms. What was packed comes out again: the same
    /// controls, and the same tree, as deep as JSON goes.
    pub fn into_parts(self) -> (r: (Vec<Element>, FormMap))
        ensures
            tree::nodes(r.0@) == outside::json_tree(self.elements@),
            forall|nodes: Seq<tree::Node>|
                #[trigger] outside::tree_json(nodes) == self.elements@ && tree::nesting(nodes) <= 63
                    ==> tree::nodes(r.0@) == nodes,
            r.1.wf(),
            r.1@ == table::rows_map(table::rows(self.forms@)),
    {
        let mut forms: FormMap = FormMap::new();
        let ghost all = table::rows(self.forms@);
        let mut i: usize = 0;
        assert(all.take(0) =~= seq![]);
        while i < self.forms.len()
            invariant
                i <= self.forms.len(),
                all == table::rows(self.forms@),
                forms.wf(),
                forms@ == table::rows_map(all.take(i as int)),
            decreases self.forms.len() - i,
        {
            assert(all.take(i + 1).drop_last() =~= all.take(i as int));
            forms.insert(self.forms[i].0.as_str(), from_wire(&self.forms[i].1));
            i = i + 1;
        }
        assert(all.take(all.len() as int) =~= all);
        (read_tree(self.elements.as_str()), forms)
    }
}

/// The forms of a page survive the trip: a packed table of controls comes out
/// as the same map.
pub proof fn law_forms_survive_the_trip(forms: FormMap, page: WirePage)
    requires
        table::rows(page.forms@) == table::rows(forms.entries@),
    ensures
        table::rows_map(table::rows(page.forms@)) == forms@,
{
}

// ---------------------------------------------------------------------------
// The queue
// ---------------------------------------------------------------------------

/// A navigation is among the jobs.
pub open spec fn navigates(q: Seq<Job>) -> bool {
    exists|i: int| 0 <= i < q.len() && (#[trigger] q[i]) is Navigate
}

/// The next job to run, and what stays queued: a navigation with another one
/// behind it is skipped.
pub open spec fn next_of(q: Seq<Job>) -> (Option<Job>, Seq<Job>)
    decreases q.len(),
{
    if q.len() == 0 {
        (None, q)
    } else if q[0] is Navigate && navigates(q.skip(1)) {
        next_of(q.skip(1))
    } else {
        (Some(q[0]), q.skip(1))
    }
}

fn has_navigation(q: &VecDeque<Job>) -> (r: bool)
    ensures
        r == navigates(q@),
{
    let mut i: usize = 0;
    while i < q.len()
        invariant
            i <= q@.len(),
            forall|j: int| 0 <= j < i ==> !((#[trigger] q@[j]) is Navigate),
        decreases q@.len() - i,
    {
        if let Job::Navigate { .. } = &q[i] {
            assert(q@[i as int] is Navigate);
            return true;
        }
        i = i + 1;
    }
    false
}

/// Take the next job to run from `queue`, skipping a navigation that a newer
/// one queued behind it replaces.
pub fn next_job(queue: &mut VecDeque<Job>) -> (r: Option<Job>)
    ensures
        (r, final(queue)@) == next_of(old(queue)@),
{
    loop
        invariant
            next_of(queue@) == next_of(old(queue)@),
        decreases queue@.len(),
    {
        let ghost before = queue@;
        match queue.pop_front() {
            None => {
                return None;
            },
            Some(job) => {
                assert(queue@ =~= before.skip(1));
                let superseded = match &job {
                    Job::Navigate { .. } => has_navigation(queue),
                    _ => false,
                };
                if !superseded {
                    return Some(job);
                }
            },
        }
    }
}

/// The jobs that run, in order, when nothing more is queued.
pub open spec fn served(q: Seq<Job>) -> Seq<Job>
    decreases q.len(),
{
    if q.len() == 0 {
        seq![]
    } else if q[0] is Navigate && navigates(q.skip(1)) {
        served(q.skip(1))
    } else {
        seq![q[0]] + served(q.skip(1))
    }
}

/// Taking one job after another runs exactly those jobs.
pub proof fn law_taking_jobs_serves_the_queue(q: Seq<Job>)
    ensures
        match next_of(q).0 {
            Some(job) => served(q) == seq![job] + served(next_of(q).1),
            None => served(q) == Seq::<Job>::empty(),
        },
    decreases q.len(),
{
    if q.len() > 0 && q[0] is Navigate && navigates(q.skip(1)) {
        law_taking_jobs_serves_the_queue(q.skip(1));
    }
}

/// Only navigations are skipped: every other job runs, in the order it was
/// sent.
pub proof fn law_other_jobs_run_in_order(q: Seq<Job>)
    ensures
        served(q).filter(|j: Job| !(j is Navigate)) == q.filter(|j: Job| !(j is Navigate)),
    decreases q.len(),
{
    let keep = |j: Job| !(j is Navigate);
    if q.len() > 0 {
        let rest = q.skip(1);
        law_other_jobs_run_in_order(rest);
        assert(q =~= seq![q[0]] + rest);
        lemma_filter_front(q[0], rest, keep);
        lemma_filter_front(q[0], served(rest), keep);
    } else {
        assert(served(q) =~= q);
    }
}

proof fn lemma_filter_front(j: Job, rest: Seq<Job>, keep: spec_fn(Job) -> bool)
    ensures
        (seq![j] + rest).filter(keep) == (if keep(j) {
            seq![j]
        } else {
            seq![]
        }) + rest.filter(keep),
{
    Seq::filter_distributes_over_add(seq![j], rest, keep);
    let one: Seq<Job> = seq![j];
    assert(one.drop_last() =~= seq![]);
    reveal_with_fuel(Seq::filter, 2);
    assert(one.filter(keep) =~= if keep(j) {
        seq![j]
    } else {
        seq![]
    });
}

/// The newest navigation wins: of all navigations in the queue exactly one
/// runs, and it is the last.
pub proof fn law_the_last_navigation_runs(q: Seq<Job>, last: int)
    requires
        0 <= last < q.len(),
        q[last] is Navigate,
        forall|i: int| last < i < q.len() ==> !((#[trigger] q[i]) is Navigate),
    ensures
        served(q).filter(|j: Job| j is Navigate) == seq![q[last]],
    decreases q.len(),
{
    let keep = |j: Job| j is Navigate;
    let rest = q.skip(1);
    if last > 0 {
        assert(rest[last - 1] == q[last]);
        assert(navigates(rest));
        assert forall|i: int| last - 1 < i < rest.len() implies !((#[trigger] rest[i]) is Navigate) by {
            assert(rest[i] == q[i + 1]);
        }
        law_the_last_navigation_runs(rest, last - 1);
        if !(q[0] is Navigate) {
            lemma_filter_front(q[0], served(rest), keep);
            assert(Seq::<Job>::empty() + served(rest).filter(keep) =~= served(rest).filter(keep));
        }
    } else {
        assert forall|i: int| 0 <= i < rest.len() implies !((#[trigger] rest[i]) is Navigate) by {
            assert(rest[i] == q[i + 1]);
        }
        assert(!navigates(rest));
        lemma_filter_front(q[0], served(rest), keep);
        lemma_no_navigation(rest);
        assert(seq![q[0]] + Seq::<Job>::empty() =~= seq![q[0]]);
    }
}

proof fn lemma_no_navigation(q: Seq<Job>)
    requires
        !navigates(q),
    ensures
        served(q).filter(|j: Job| j is Navigate) == Seq::<Job>::empty(),
    decreases q.len(),
{
    let keep = |j: Job| j is Navigate;
    if q.len() > 0 {
        let rest = q.skip(1);
        assert(!(q[0] is Navigate));
        assert(!navigates(rest)) by {
            if navigates(rest) {
                let i = choose|i: int| 0 <= i < rest.len() && (#[trigger] rest[i]) is Navigate;
                assert(q[i + 1] is Navigate);
            }
        }
        lemma_no_navigation(rest);
        lemma_filter_front(q[0], served(rest), keep);
        assert(Seq::<Job>::empty() + served(rest).filter(keep) =~= Seq::<Job>::empty());
    } else {
        assert(served(q).filter(keep) =~= Seq::<Job>::empty());
    }
}

// ---------------------------------------------------------------------------
// Doing a job
// ---------------------------------------------------------------------------

/// What a job needs of Chrome next, or what it comes to.
#[derive(Debug)]
pub enum WorkerAction {
    /// Start Chrome and open the reader's tab.
    Start,
    /// Load an address in the reader's tab.
    Load { url: String },
    /// Run a script in the reader's tab; what comes of it does not matter.
    Fill { js: String },
    /// Run a script in the reader's tab, wait for the page it leads to, and
    /// read that.
    Submit { js: String },
    /// Forget every cookie of the running Chrome.
    ClearCookies,
    /// Remove the cookies from the profile on disk.
    RemoveCookieFiles,
    /// Render an address in a tab of its own.
    Render { url: String },
    /// Close Chrome.
    Close,
    /// Close Chrome, then answer.
    CloseAndAnswer { done: Done },
    /// Answer.
    Answer { done: Done },
    /// The job is done, and answers nothing.
    Nothing,
}

/// What the browser task holds between jobs, as a value.
pub struct TaskState {
    /// A Chrome was started and not closed.
    pub live: bool,
    /// The job that waits for Chrome.
    pub job: Option<Job>,
}

/// What the browser task holds between jobs.
pub struct WorkerState {
    live: bool,
    job: Option<Job>,
}

impl View for WorkerState {
    type V = TaskState;

    closed spec fn view(&self) -> TaskState {
        TaskState { live: self.live, job: self.job }
    }
}

/// `page` is the packed form of what `load`, read from `url`, is put before
/// the reader as.
pub open spec fn packs(page: WirePage, load: PageLoad, url: Seq<char>) -> bool {
    &&& exists|nodes: Seq<tree::Node>| #[trigger]
        page::renders(nodes, load, url) && page.elements@ == outside::tree_json(nodes)
    &&& table::rows_map(table::rows(page.forms@)) == outside::html_page(load.html@, url).1
}

fn pack(load: &PageLoad, url: &str) -> (r: WirePage)
    ensures
        packs(r, *load, url@),
{
    let (elements, forms) = page_to_ffon_with_forms(load, url);
    WirePage::new(&elements, &forms)
}

/// The words of a browser that could not be started.
pub open spec fn launch_words(e: Seq<char>) -> Seq<char> {
    "Error launching browser: "@ + e
}

/// The words of a page that could not be loaded.
pub open spec fn load_words(url: Seq<char>, e: Seq<char>) -> Seq<char> {
    "Error loading "@ + url + ": "@ + e
}

/// Say that the browser could not be started.
pub fn launch_failed(e: &str) -> (r: String)
    ensures
        r@ == launch_words(e@),
{
    let mut t = "Error launching browser: ".to_owned();
    t.append(e);
    t
}

/// Say that a page could not be loaded.
pub fn load_failed(url: &str, e: &str) -> (r: String)
    ensures
        r@ == load_words(url@, e@),
{
    let mut t = "Error loading ".to_owned();
    t.append(url);
    t.append(": ");
    t.append(e);
    t
}

/// What to say where the browser does not clear its cookies.
pub const COOKIES_ERROR: &'static str = "Could not clear cookies (browser not responding)";

impl Job {
    /// The switches of the process once the job has begun.
    pub open spec fn sets(self, w: Switches) -> Switches {
        match self {
            Job::Navigate { prune, .. } | Job::Submit { prune, .. } | Job::Render { prune, .. } =>
                Switches { prune, ..w },
            _ => w,
        }
    }
}

impl TaskState {
    /// `action` does the job that waits, now that Chrome runs.
    pub open spec fn goes_on(self, action: WorkerAction) -> bool {
        match self.job {
            Some(Job::Navigate { url, .. }) => action matches WorkerAction::Load { url: u } && u@ == url@,
            Some(Job::Render { url, .. }) => action matches WorkerAction::Render { url: u } && u@
                == url@,
            _ => action is Nothing,
        }
    }
}

impl WorkerState {
    /// A task that has done nothing yet.
    pub fn new() -> (r: WorkerState)
        ensures
            r@ == (TaskState { live: false, job: None }),
    {
        WorkerState { live: false, job: None }
    }

    /// Whether a Chrome was started and not closed.
    pub fn is_live(&self) -> (r: bool)
        ensures
            r == self@.live,
    {
        self.live
    }

    fn go_on(&self) -> (r: WorkerAction)
        ensures
            self@.goes_on(r),
    {
        match &self.job {
            Some(Job::Navigate { url, .. }) => WorkerAction::Load { url: url.clone() },
            Some(Job::Render { url, .. }) => WorkerAction::Render { url: url.clone() },
            _ => WorkerAction::Nothing,
        }
    }

    /// Begin a job. One that reads a page turns the switch for hidden content as
    /// the reader had it when the job was sent. `alive` says whether a Chrome that was started still runs:
    /// one that went away is started again where the job loads a page.
    pub fn run(&mut self, switches: &mut Switches, job: Job, alive: bool) -> (r: WorkerAction)
        ensures
            *final(switches) == job.sets(*old(switches)),
            match job {
                Job::Navigate { .. } | Job::Render { .. } => {
                    &&& final(self)@ == (TaskState {
                        live: old(self)@.live && alive,
                        job: Some(job),
                    })
                    &&& if old(self)@.live && alive {
                        final(self)@.goes_on(r)
                    } else {
                        r is Start
                    }
                },
                Job::Fill { js } => {
                    &&& final(self)@ == (TaskState { job: None, ..old(self)@ })
                    &&& if old(self)@.live {
                        r matches WorkerAction::Fill { js: j } && j@ == js@
                    } else {
                        r is Nothing
                    }
                },
                Job::Submit { js, .. } => {
                    &&& final(self)@ == (TaskState {
                        job: if old(self)@.live {
                            Some(job)
                        } else {
                            None
                        },
                        ..old(self)@
                    })
                    &&& if old(self)@.live {
                        r matches WorkerAction::Submit { js: j } && j@ == js@
                    } else {
                        r is Nothing
                    }
                },
                Job::ClearCookies => {
                    &&& final(self)@ == (TaskState { job: None, ..old(self)@ })
                    &&& if old(self)@.live {
                        r is ClearCookies
                    } else {
                        r is RemoveCookieFiles
                    }
                },
                Job::Close => {
                    &&& final(self)@ == (TaskState { live: false, job: None, ..old(self)@ })
                    &&& if old(self)@.live {
                        r is Close
                    } else {
                        r is Nothing
                    }
                },
            },
    {
        match job {
            Job::Navigate { seq, url, prune } => {
                switches.prune = prune;
                self.live = self.live && alive;
                self.job = Some(Job::Navigate { seq, url, prune });
                if self.live {
                    self.go_on()
                } else {
                    WorkerAction::Start
                }
            },
            Job::Render { url, prune } => {
                switches.prune = prune;
                self.live = self.live && alive;
                self.job = Some(Job::Render { url, prune });
                if self.live {
                    self.go_on()
                } else {
                    WorkerAction::Start
                }
            },
            Job::Fill { js } => {
                self.job = None;
                if self.live {
                    WorkerAction::Fill { js }
                } else {
                    WorkerAction::Nothing
                }
            },
            Job::Submit { seq, js, url, prune } => {
                switches.prune = prune;
                if self.live {
                    let script = js.clone();
                    self.job = Some(Job::Submit { seq, js, url, prune });
                    WorkerAction::Submit { js: script }
                } else {
                    self.job = None;
                    WorkerAction::Nothing
                }
            },
            Job::ClearCookies => {
                self.job = None;
                if self.live {
                    WorkerAction::ClearCookies
                } else {
                    WorkerAction::RemoveCookieFiles
                }
            },
            Job::Close => {
                self.job = None;
                if self.live {
                    self.live = false;
                    WorkerAction::Close
                } else {
                    WorkerAction::Nothing
                }
            },
        }
    }

    /// Chrome was to be started, and was, or could not be.
    pub fn on_started(&mut self, result: Result<(), String>) -> (r: WorkerAction)
        ensures
            match result {
                Ok(_) => {
                    &&& final(self)@.live
                    &&& final(self)@.job == old(self)@.job
                    &&& final(self)@.goes_on(r)
                },
                Err(e) => {
                    &&& !final(self)@.live
                    &&& final(self)@.job is None
                    &&& match old(self)@.job {
                        Some(Job::Navigate { seq, .. }) => r matches WorkerAction::Answer {
                            done: Done::Failed { seq: s, error },
                        } && s == seq && error@ == launch_words(e@),
                        Some(Job::Render { url, .. }) => r matches WorkerAction::Answer {
                            done: Done::Rendered { url: u, page },
                        } && u@ == url@ && page@ == outside::tree_json(
                            seq![tree::Node::Str(launch_words(e@))],
                        ),
                        _ => r is Nothing,
                    }
                },
            },
    {
        match result {
            Ok(_) => {
                self.live = true;
                self.go_on()
            },
            Err(e) => {
                self.live = false;
                let error = launch_failed(e.as_str());
                match self.job.take() {
                    Some(Job::Navigate { seq, .. }) => WorkerAction::Answer {
                        done: Done::Failed { seq, error },
                    },
                    Some(Job::Render { url, .. }) => {
                        let mut elements: Vec<Element> = Vec::new();
                        elements.push(Element::Str(error));
                        assert(tree::nodes(elements@) =~= seq![
                            tree::Node::Str(launch_words(e@)),
                        ]);
                        WorkerAction::Answer { done: Done::Rendered { url, page: write_tree(&elements) } }
                    },
                    _ => WorkerAction::Nothing,
                }
            },
        }
    }

    /// An address was to be loaded, and was, or could not be. After a failure
    /// Chrome is closed, so that the next attempt starts from a fresh one.
    pub fn on_loaded(&mut self, result: Result<PageLoad, String>) -> (r: WorkerAction)
        ensures
            final(self)@.job is None,
            final(self)@.live == (old(self)@.live && result is Ok),
            match old(self)@.job {
                Some(Job::Navigate { seq, url, .. }) => match result {
                    Ok(load) => r matches WorkerAction::Answer {
                        done: Done::Page { seq: s, submitted, page },
                    } && s == seq && !submitted && packs(page, load, url@),
                    Err(e) => r matches WorkerAction::CloseAndAnswer {
                        done: Done::Failed { seq: s, error },
                    } && s == seq && error@ == load_words(url@, e@),
                },
                _ => r is Nothing,
            },
    {
        if result.is_err() {
            self.live = false;
        }
        match self.job.take() {
            Some(Job::Navigate { seq, url, .. }) => match result {
                Ok(load) => WorkerAction::Answer {
                    done: Done::Page { seq, submitted: false, page: pack(&load, url.as_str()) },
                },
                Err(e) => WorkerAction::CloseAndAnswer {
                    done: Done::Failed { seq, error: load_failed(url.as_str(), e.as_str()) },
                },
            },
            _ => WorkerAction::Nothing,
        }
    }

    /// Where a form led to: where the tab is now, or the address it was
    /// submitted from where the tab does not say.
    pub fn landed(&self, now: Option<String>) -> (r: String)
        ensures
            r@ == match now {
                Some(u) => u@,
                None => match self@.job {
                    Some(Job::Submit { url, .. }) => url@,
                    _ => Seq::empty(),
                },
            },
    {
        match now {
            Some(u) => u,
            None => match &self.job {
                Some(Job::Submit { url, .. }) => url.clone(),
                _ => String::new(),
            },
        }
    }

    /// A form was submitted, and this is the page at `landed` that it led to;
    /// `None` where it could not be read, which answers nothing.
    pub fn on_submitted(&mut self, result: Option<PageLoad>, landed: &str) -> (r: WorkerAction)
        ensures
            final(self)@ == (TaskState { job: None, ..old(self)@ }),
            match (old(self)@.job, result) {
                (Some(Job::Submit { seq, .. }), Some(load)) => r matches WorkerAction::Answer {
                    done: Done::Page { seq: s, submitted, page },
                } && s == seq && submitted && packs(page, load, landed@),
                _ => r is Nothing,
            },
    {
        match self.job.take() {
            Some(Job::Submit { seq, .. }) => match result {
                Some(load) => WorkerAction::Answer {
                    done: Done::Page { seq, submitted: true, page: pack(&load, landed) },
                },
                None => WorkerAction::Nothing,
            },
            _ => WorkerAction::Nothing,
        }
    }

    /// The cookies were to be cleared in the running Chrome.
    pub fn on_cleared(&self, cleared: bool) -> (r: WorkerAction)
        ensures
            if cleared {
                r is Nothing
            } else {
                r matches WorkerAction::Answer { done: Done::Error { error } } && error@
                    == COOKIES_ERROR@
            },
    {
        if cleared {
            WorkerAction::Nothing
        } else {
            WorkerAction::Answer { done: Done::Error { error: COOKIES_ERROR.to_owned() } }
        }
    }

    /// An address was rendered for a link.
    pub fn on_rendered(&mut self, elements: &Vec<Element>) -> (r: WorkerAction)
        ensures
            final(self)@ == (TaskState { job: None, ..old(self)@ }),
            match old(self)@.job {
                Some(Job::Render { url, .. }) => r matches WorkerAction::Answer {
                    done: Done::Rendered { url: u, page },
                } && u@ == url@ && page@ == outside::tree_json(tree::nodes(elements@)),
                _ => r is Nothing,
            },
    {
        match self.job.take() {
            Some(Job::Render { url, .. }) => WorkerAction::Answer {
                done: Done::Rendered { url, page: write_tree(elements) },
            },
            _ => WorkerAction::Nothing,
        }
    }
}

// ---------------------------------------------------------------------------
// The reader's side
// ---------------------------------------------------------------------------

/// What came from a task of the host.
#[derive(Debug)]
pub enum TaskEvent {
    /// An answer, where it could be read.
    Progress(Option<Done>),
    /// The task ended.
    Ended(Result<(), String>),
}

/// The reader's handle on the browser task: jobs on their way out, and answers
/// that came in.
#[derive(Debug)]
pub struct Worker {
    task: u64,
    jobs: Vec<Job>,
    done: Vec<Done>,
    stopped: bool,
}

impl Worker {
    /// The number of the task.
    pub closed spec fn task(&self) -> u64 {
        self.task
    }

    /// The jobs that were sent and not taken yet, oldest first.
    pub closed spec fn outgoing(&self) -> Seq<Job> {
        self.jobs@
    }

    /// The answers that came and were not taken yet, oldest first.
    pub closed spec fn incoming(&self) -> Seq<Done> {
        self.done@
    }

    /// The task has ended.
    pub closed spec fn stopped(&self) -> bool {
        self.stopped
    }

    /// A handle on the task number `task`.
    pub fn start(task: u64) -> (r: Worker)
        ensures
            r.task() == task,
            r.outgoing() == Seq::<Job>::empty(),
            r.incoming() == Seq::<Done>::empty(),
            !r.stopped(),
    {
        Worker { task, jobs: Vec::new(), done: Vec::new(), stopped: false }
    }

    /// A handle whose jobs go nowhere but to whoever takes them.
    pub fn recording() -> (r: Worker)
        ensures
            r.task() == 0,
            r.outgoing() == Seq::<Job>::empty(),
            r.incoming() == Seq::<Done>::empty(),
            !r.stopped(),
    {
        Worker::start(0)
    }

    /// Hand the browser task a job.
    pub fn send(&mut self, job: Job) -> (r: Result<(), String>)
        ensures
            final(self).task() == old(self).task(),
            final(self).incoming() == old(self).incoming(),
            final(self).stopped() == old(self).stopped(),
            if old(self).stopped() {
                r matches Err(e) && e@ == "the browser has stopped"@ && final(self).outgoing() == old(
                    self,
                ).outgoing()
            } else {
                r is Ok && final(self).outgoing() == old(self).outgoing().push(job)
            },
    {
        if self.stopped {
            return Err("the browser has stopped".to_owned());
        }
        self.jobs.push(job);
        Ok(())
    }

    /// Take the jobs that were sent, oldest first.
    pub fn take_jobs(&mut self) -> (r: Vec<Job>)
        ensures
            r@ == old(self).outgoing(),
            final(self).outgoing() == Seq::<Job>::empty(),
            final(self).task() == old(self).task(),
            final(self).incoming() == old(self).incoming(),
            final(self).stopped() == old(self).stopped(),
    {
        let mut r: Vec<Job> = Vec::new();
        r.append(&mut self.jobs);
        r
    }

    /// An answer has come.
    pub fn deliver(&mut self, done: Done)
        ensures
            final(self).incoming() == old(self).incoming().push(done),
            final(self).outgoing() == old(self).outgoing(),
            final(self).task() == old(self).task(),
            final(self).stopped() == old(self).stopped(),
    {
        self.done.push(done);
    }

    /// The task has ended: nothing more can be sent.
    pub fn stop(&mut self)
        ensures
            final(self).stopped(),
            final(self).incoming() == old(self).incoming(),
            final(self).outgoing() == old(self).outgoing(),
            final(self).task() == old(self).task(),
    {
        self.stopped = true;
    }

    /// What the browser task has finished since the last call.
    pub fn drain(&mut self) -> (r: Vec<Done>)
        ensures
            r@ == old(self).incoming(),
            final(self).incoming() == Seq::<Done>::empty(),
            final(self).outgoing() == old(self).outgoing(),
            final(self).task() == old(self).task(),
            final(self).stopped() == old(self).stopped(),
    {
        let mut r: Vec<Done> = Vec::new();
        r.append(&mut self.done);
        r
    }

    /// An event from a task: its answer, where the event is of the right task.
    /// An error means that the task ended, so that a new one is started.
    pub fn on_task_event(&self, id: u64, event: TaskEvent) -> (r: Option<Result<Done, String>>)
        ensures
            if id != self.task() {
                r is None
            } else {
                match event {
                    TaskEvent::Progress(Some(d)) => r == Some(Ok::<Done, String>(d)),
                    TaskEvent::Progress(None) => r is None,
                    TaskEvent::Ended(Ok(_)) => r matches Some(Err(e)) && e@ == "the browser stopped"@,
                    TaskEvent::Ended(Err(t)) => r matches Some(Err(e)) && e@
                        == "the browser stopped: "@ + t@,
                }
            },
    {
        if id != self.task {
            return None;
        }
        match event {
            TaskEvent::Progress(Some(d)) => Some(Ok(d)),
            TaskEvent::Progress(None) => None,
            TaskEvent::Ended(Ok(_)) => Some(Err("the browser stopped".to_owned())),
            TaskEvent::Ended(Err(t)) => {
                let mut e = "the browser stopped: ".to_owned();
                e.append(t.as_str());
                Some(Err(e))
            },
        }
    }
}

// ---------------------------------------------------------------------------
// Laws
// ---------------------------------------------------------------------------

/// Whoever reads an error learns what was tried and what went wrong.
pub proof fn law_an_error_says_what_went_wrong(url: Seq<char>, e: Seq<char>)
    ensures
        text::occurs(load_words(url, e), url),
        text::ends(load_words(url, e), e),
        text::ends(launch_words(e), e),
{
    let a = "Error loading "@;
    let b = ": "@;
    let s = load_words(url, e);
    text::lemma_occurs(a, url, b + e);
    assert(s =~= a + url + (b + e));
    assert(s.subrange(s.len() - e.len(), s.len() as int) =~= e);
    let l = launch_words(e);
    assert(l.subrange(l.len() - e.len(), l.len() as int) =~= e);
}

/// A job turns the switch for hidden content as the reader had it, and touches
/// no other switch; a job that reads no page touches none.
pub proof fn law_a_job_carries_the_readers_switch(w: Switches, job: Job)
    ensures
        job.sets(w).no_launch == w.no_launch,
        job matches Job::Navigate { prune, .. } ==> job.sets(w).prune == prune,
        job matches Job::Submit { prune, .. } ==> job.sets(w).prune == prune,
        job matches Job::Render { prune, .. } ==> job.sets(w).prune == prune,
        job is Fill || job is ClearCookies || job is Close ==> job.sets(w) == w,
{
}

/// Once Chrome runs, a job that waits for it goes on with its own address.
pub proof fn law_a_waiting_job_goes_on(s: TaskState, action: WorkerAction)
    requires
        s.goes_on(action),
    ensures
        s.job matches Some(Job::Navigate { url, .. }) ==> (action matches WorkerAction::Load {
            url: u,
        } && u@ == url@),
        s.job matches Some(Job::Render { url, .. }) ==> (action matches WorkerAction::Render {
            url: u,
        } && u@ == url@),
        s.job is None ==> action is Nothing,
{
}

/// What is sent to the reader is the page and its controls: whoever reads the
/// packed tree back has the page that was put together.
pub proof fn law_what_is_packed_is_the_page(page: WirePage, load: PageLoad, url: Seq<char>)
    requires
        packs(page, load, url),
    ensures
        (forall|nodes: Seq<tree::Node>|
            page::renders(nodes, load, url) ==> outside::json_tree(#[trigger] outside::tree_json(nodes))
                == nodes) ==> page::renders(outside::json_tree(page.elements@), load, url),
        table::rows_map(table::rows(page.forms@)) == outside::html_page(load.html@, url).1,
{
    let nodes = choose|nodes: Seq<tree::Node>| #[trigger]
        page::renders(nodes, load, url) && page.elements@ == outside::tree_json(nodes);
    assert(page.elements@ == outside::tree_json(nodes));
}

} // verus!
