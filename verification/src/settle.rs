//! Waiting for a page to come to rest.
//!
//! Each wait is a record of what was seen last. The caller polls the page,
//! hands over each reading with the time it took, and stops when told to.
//! Times are in milliseconds.

use crate::consent;
use crate::consent::is_consent_wall_str;
use crate::text;
use crate::text::{chars_of, same_text, stands_at};
use vstd::prelude::*;

verus! {

/// The script that says how far a document has come: its state, and how much
/// text it shows.
pub const SETTLED_PROBE: &'static str =
    "(function(){try{return document.readyState+'|'+document.body.innerText.length;}catch(e){return 'x|0';}})()";

/// How many readings in a row have to be the same.
pub const QUIET_READINGS: u32 = 2;

/// Waiting until a document has finished loading and its text has stopped
/// changing.
#[derive(Debug)]
pub struct PageSettled {
    prev: String,
    quiet: u32,
}

impl PageSettled {
    /// The last reading.
    pub closed spec fn prev(&self) -> Seq<char> {
        self.prev@
    }

    /// How many readings in a row were the same as the one before.
    pub closed spec fn quiet(&self) -> nat {
        self.quiet as nat
    }

    pub fn new() -> (r: PageSettled)
        ensures
            r.prev() == Seq::<char>::empty(),
            r.quiet() == 0,
    {
        PageSettled { prev: String::new(), quiet: 0 }
    }

    /// A reading of a finished document that is the same as the last one.
    pub open spec fn unchanged(&self, now: Seq<char>) -> bool {
        text::begins(now, "complete"@) && now == self.prev()
    }

    /// Take a reading; an empty one stands for a page that did not answer.
    /// Returns whether the wait is over: enough unchanged readings in a row,
    /// or no time left.
    pub fn step(&mut self, now: &str, past_deadline: bool) -> (done: bool)
        requires
            old(self).quiet() < QUIET_READINGS,
        ensures
            done == (past_deadline || (old(self).unchanged(now@) && old(self).quiet() + 1
                >= QUIET_READINGS)),
            final(self).prev() == now@,
            final(self).quiet() == if old(self).unchanged(now@) {
                old(self).quiet() + 1
            } else {
                0
            },
    {
        let complete = chars_of("complete");
        if stands_at(chars_of(now).as_slice(), complete.as_slice(), 0) && same_text(
            now,
            self.prev.as_str(),
        ) {
            self.quiet = self.quiet + 1;
            if self.quiet >= QUIET_READINGS {
                return true;
            }
        } else {
            self.quiet = 0;
        }
        self.prev = now.to_owned();
        past_deadline
    }
}

/// How long an address has to be watched at least.
pub const STABLE_URL_MIN_WAIT: u64 = 1500;

/// Waiting until the address of a page stays the same, or is that of a consent
/// wall.
#[derive(Debug)]
pub struct StableUrl {
    prev: String,
}

impl StableUrl {
    /// The last address seen.
    pub closed spec fn prev(&self) -> Seq<char> {
        self.prev@
    }

    pub fn new() -> (r: StableUrl)
        ensures
            r.prev() == Seq::<char>::empty(),
    {
        StableUrl { prev: String::new() }
    }

    /// Take the address seen after `elapsed`. Returns whether the wait is over;
    /// the address to go on with is then the one just seen.
    pub fn step(&mut self, url: &str, elapsed: u64, past_deadline: bool) -> (done: bool)
        ensures
            done == (text::mentions(url@, consent::WALL_URLS@) || (url@ == old(self).prev()
                && elapsed >= STABLE_URL_MIN_WAIT) || past_deadline),
            final(self).prev() == if done {
                old(self).prev()
            } else {
                url@
            },
    {
        if is_consent_wall_str(url) {
            return true;
        }
        if same_text(url, self.prev.as_str()) && elapsed >= STABLE_URL_MIN_WAIT {
            return true;
        }
        if past_deadline {
            return true;
        }
        self.prev = url.to_owned();
        false
    }
}

/// Waiting until an address has stayed the same for some time, after a form
/// was submitted.
#[derive(Debug)]
pub struct NavigationStable {
    last: String,
    since: Option<u64>,
}

impl NavigationStable {
    /// The last address seen.
    pub closed spec fn last(&self) -> Seq<char> {
        self.last@
    }

    /// Since when it has been the same.
    pub closed spec fn since(&self) -> Option<u64> {
        self.since
    }

    pub fn new() -> (r: NavigationStable)
        ensures
            r.last() == Seq::<char>::empty(),
            r.since() is None,
    {
        NavigationStable { last: String::new(), since: None }
    }

    /// Take the address seen at `now`. Returns whether the wait is over: it has
    /// been the same for `settle`, or the time is up at `deadline`.
    pub fn step(&mut self, url: &str, now: u64, settle: u64, deadline: u64) -> (done: bool)
        requires
            old(self).since() matches Some(start) ==> start <= now,
        ensures
            done == (now >= deadline || (url@ == old(self).last() && (old(self).since() matches Some(
                start,
            ) && now - start >= settle))),
            final(self).last() == url@,
            final(self).since() == if url@ == old(self).last() && old(self).since() is Some {
                old(self).since()
            } else {
                Some(now)
            },
    {
        if !same_text(url, self.last.as_str()) {
            self.last = url.to_owned();
            self.since = Some(now);
        } else {
            match self.since {
                Some(start) => {
                    if now - start >= settle {
                        return true;
                    }
                },
                None => {
                    self.since = Some(now);
                },
            }
        }
        now >= deadline
    }
}

/// A reading counts only where the document is finished and nothing moved in
/// it since the last one.
pub proof fn law_only_a_finished_page_that_stays_the_same_is_quiet(s: PageSettled, now: Seq<char>)
    ensures
        !text::begins(now, "complete"@) ==> !s.unchanged(now),
        now != s.prev() ==> !s.unchanged(now),
        text::begins(now, "complete"@) && now == s.prev() ==> s.unchanged(now),
{
}

} // verus!
