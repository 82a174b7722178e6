//! The recall history: the addresses the user committed, newest first, and
//! the bookmarks among them.
//!
//! The history file is rewritten in full on every change, one address per
//! line, bookmarked lines marked with a star. Several browsers share the file,
//! so every change reads it first and merges what it finds.

use crate::text;
use crate::text::{
    chars_of, code_point, is_control, is_white_space, lines, push_all, replace_char, same_text,
    text_of, trim,
};
use vstd::prelude::*;
use vstd::slice::slice_subrange;

verus! {

/// Longest address the history stores, in bytes.
pub const MAX_HISTORY_URL_LEN: usize = 4096;

/// The number of bytes of `c` in UTF-8.
pub open spec fn utf8_width(c: char) -> nat {
    if (c as int) < 0x80 {
        1
    } else if (c as int) < 0x800 {
        2
    } else if (c as int) < 0x10000 {
        3
    } else {
        4
    }
}

/// The number of bytes of `s` in UTF-8.
pub open spec fn utf8_len(s: Seq<char>) -> nat
    decreases s.len(),
{
    if s.len() == 0 {
        0
    } else {
        utf8_len(s.drop_last()) + utf8_width(s.last())
    }
}

/// An address that can stand as one line of the history file and as the name
/// of a button row.
pub open spec fn row_safe(u: Seq<char>) -> bool {
    &&& u.len() > 0
    &&& u[0] != '*'
    &&& forall|i: int|
        0 <= i < u.len() ==> !text::white_space(#[trigger] u[i]) && !text::control(u[i]) && u[i] != '<' && u[i]
            != '>'
}

/// An address that the history stores: safe as a row and as a line, and not too
/// long to be read back.
pub open spec fn storable(u: Seq<char>) -> bool {
    row_safe(u) && utf8_len(u) <= MAX_HISTORY_URL_LEN
}

/// Every address of the list can be stored.
pub open spec fn all_storable(urls: Seq<Seq<char>>) -> bool {
    forall|u: Seq<char>| #[trigger] urls.contains(u) ==> storable(u)
}

/// `t` with `<`, `>` and a leading star percent-encoded.
pub open spec fn encoded(t: Seq<char>) -> Seq<char> {
    let e = text::replaced(text::replaced(t, '<', "%3C"@), '>', "%3E"@);
    if e.len() > 0 && e[0] == '*' {
        "%2A"@ + e.skip(1)
    } else {
        e
    }
}

/// The address to store for `s`, or `None` where it is not worth storing.
pub open spec fn sanitized(s: Seq<char>) -> Option<Seq<char>> {
    let t = text::trim_of(s);
    if t.len() == 0 || utf8_len(encoded(t)) > MAX_HISTORY_URL_LEN || exists|i: int|
        0 <= i < t.len() && (text::control(#[trigger] t[i]) || text::white_space(t[i])) {
        None
    } else {
        Some(encoded(t))
    }
}

/// Whether `s` has more than `max` bytes in UTF-8.
fn longer_than(s: &[char], max: usize) -> (r: bool)
    requires
        max <= 0xFFFF,
    ensures
        r == (utf8_len(s@) > max),
{
    let mut n: usize = 0;
    let mut i: usize = 0;
    while i < s.len()
        invariant
            i <= s.len(),
            max <= 0xFFFF,
            n <= max,
            n == utf8_len(s@.take(i as int)),
        decreases s.len() - i,
    {
        assert(s@.take(i + 1).drop_last() =~= s@.take(i as int));
        let c: u32 = code_point(s[i]);
        n = n + if c < 0x80 {
            1
        } else if c < 0x800 {
            2
        } else if c < 0x10000 {
            3
        } else {
            4
        };
        i = i + 1;
        if n > max {
            proof {
                lemma_utf8_len_take(s@, i as int);
            }
            return true;
        }
    }
    assert(s@.take(s@.len() as int) =~= s@);
    false
}

proof fn lemma_utf8_len_take(s: Seq<char>, k: int)
    requires
        0 <= k <= s.len(),
    ensures
        utf8_len(s.take(k)) <= utf8_len(s),
    decreases s.len() - k,
{
    if k < s.len() {
        assert(s.take(k + 1).drop_last() =~= s.take(k));
        lemma_utf8_len_take(s, k + 1);
    } else {
        assert(s.take(k) =~= s);
    }
}

/// Make `url` safe to carry as a button row and as one line of the history
/// file, or reject it.
///
/// Control characters and embedded white space are rejected. `<` and `>` are
/// percent-encoded, since a row is read back up to its first closing tag, and
/// a leading star is encoded because that is the mark of a bookmarked line.
/// What is longer than the longest address once it is encoded is rejected.
pub fn sanitize_history_url(url: &str) -> (r: Option<String>)
    ensures
        match r {
            Some(u) => sanitized(url@) == Some(u@),
            None => sanitized(url@) is None,
        },
{
    let all = chars_of(url);
    let t = trim(all.as_slice());
    if t.len() == 0 {
        return None;
    }
    let mut i: usize = 0;
    while i < t.len()
        invariant
            i <= t.len(),
            t@ == text::trim_of(url@),
            forall|j: int| 0 <= j < i ==> !text::control(#[trigger] t@[j]) && !text::white_space(t@[j]),
        decreases t.len() - i,
    {
        if is_control(t[i]) || is_white_space(t[i]) {
            assert(text::control(t@[i as int]) || text::white_space(t@[i as int]));
            return None;
        }
        i = i + 1;
    }
    let mut e = replace_char(replace_char(t, '<', "%3C").as_slice(), '>', "%3E");
    if e.len() > 0 && e[0] == '*' {
        let mut r = chars_of("%2A");
        let rest = slice_subrange(e.as_slice(), 1, e.len());
        push_all(&mut r, rest);
        assert(rest@ =~= e@.skip(1));
        e = r;
    }
    assert(e@ == encoded(t@));
    if longer_than(e.as_slice(), MAX_HISTORY_URL_LEN) {
        return None;
    }
    Some(text_of(e.as_slice()))
}

// ---------------------------------------------------------------------------
// The list and its marks
// ---------------------------------------------------------------------------

/// `s` with later duplicates dropped.
pub open spec fn dedup(s: Seq<Seq<char>>) -> Seq<Seq<char>>
    decreases s.len(),
{
    if s.len() == 0 {
        seq![]
    } else {
        let d = dedup(s.drop_last());
        if d.contains(s.last()) {
            d
        } else {
            d.push(s.last())
        }
    }
}

/// The number of addresses of `s` that carry no mark.
pub open spec fn unmarked(s: Seq<Seq<char>>, marks: Set<Seq<char>>) -> nat
    decreases s.len(),
{
    if s.len() == 0 {
        0
    } else {
        unmarked(s.drop_last(), marks) + if marks.contains(s.last()) {
            0nat
        } else {
            1nat
        }
    }
}

/// `s` without the unmarked addresses that come after the first `cap`
/// unmarked ones. A cap of zero keeps everything.
pub open spec fn capped(s: Seq<Seq<char>>, marks: Set<Seq<char>>, cap: nat) -> Seq<Seq<char>>
    decreases s.len(),
{
    if s.len() == 0 {
        seq![]
    } else {
        let k = capped(s.drop_last(), marks, cap);
        if cap == 0 || marks.contains(s.last()) || unmarked(s, marks) <= cap {
            k.push(s.last())
        } else {
            k
        }
    }
}

/// Whether `t` is one of the texts `v`.
pub fn lists(v: &Vec<String>, t: &str) -> (r: bool)
    ensures
        r == text::views(v@).contains(t@),
{
    let mut i: usize = 0;
    while i < v.len()
        invariant
            i <= v.len(),
            forall|j: int| 0 <= j < i ==> #[trigger] text::views(v@)[j] != t@,
        decreases v.len() - i,
    {
        if same_text(v[i].as_str(), t) {
            assert(text::views(v@)[i as int] == t@);
            return true;
        }
        i = i + 1;
    }
    false
}

/// Drop later duplicates, keeping the first occurrence of each address.
pub fn dedup_keeping_first(items: &mut Vec<String>)
    ensures
        text::views(final(items)@) == dedup(text::views(old(items)@)),
{
    let mut kept: Vec<String> = Vec::new();
    let mut i: usize = 0;
    let ghost all = text::views(items@);
    while i < items.len()
        invariant
            i <= items.len(),
            all == text::views(items@),
            text::views(kept@) == dedup(all.take(i as int)),
        decreases items.len() - i,
    {
        assert(all.take(i + 1).drop_last() =~= all.take(i as int));
        if !lists(&kept, items[i].as_str()) {
            let ghost before = kept@;
            kept.push(items[i].clone());
            assert(text::views(kept@) =~= text::views(before).push(all[i as int]));
        }
        i = i + 1;
    }
    assert(all.take(all.len() as int) =~= all);
    *items = kept;
}

// ---------------------------------------------------------------------------
// The history file
// ---------------------------------------------------------------------------

/// What is known of the history file.
#[derive(Debug)]
pub enum HistoryFile {
    /// There is no file yet: a first run, with nothing to lose.
    Missing,
    /// The file was read.
    Text(String),
    /// The file could not be read, or there is no place for one.
    Unknown,
}

/// The address on one line of the file, and whether the line is marked.
pub open spec fn line_entry(line: Seq<char>) -> Option<(Seq<char>, bool)> {
    let t = text::trim_of(line);
    let marked = t.len() > 0 && t[0] == '*';
    match sanitized(if marked {
        t.skip(1)
    } else {
        t
    }) {
        Some(u) => Some((u, marked)),
        None => None,
    }
}

/// The addresses on `ls`, in order; unusable lines are skipped.
pub open spec fn entry_urls(ls: Seq<Seq<char>>) -> Seq<Seq<char>>
    decreases ls.len(),
{
    if ls.len() == 0 {
        seq![]
    } else {
        match line_entry(ls.last()) {
            Some((u, _)) => entry_urls(ls.drop_last()).push(u),
            None => entry_urls(ls.drop_last()),
        }
    }
}

/// The addresses on the marked lines of `ls`.
pub open spec fn entry_marks(ls: Seq<Seq<char>>) -> Set<Seq<char>>
    decreases ls.len(),
{
    if ls.len() == 0 {
        Set::empty()
    } else {
        match line_entry(ls.last()) {
            Some((u, true)) => entry_marks(ls.drop_last()).insert(u),
            _ => entry_marks(ls.drop_last()),
        }
    }
}

impl HistoryFile {
    /// The addresses and the marks in the file, where the file is known.
    pub open spec fn contents(&self) -> Option<(Seq<Seq<char>>, Set<Seq<char>>)> {
        match self {
            HistoryFile::Missing => Some((Seq::empty(), Set::empty())),
            HistoryFile::Text(t) => Some((entry_urls(text::lines_of(t@)), entry_marks(text::lines_of(t@)))),
            HistoryFile::Unknown => None,
        }
    }

    /// Read every line of the file: the addresses, newest first, and the
    /// bookmarked ones among them.
    pub fn read(&self) -> (r: Option<(Vec<String>, Vec<String>)>)
        ensures
            match r {
                Some((urls, marks)) => self.contents() == Some(
                    (text::views(urls@), text::views(marks@).to_set()),
                ) && text::views(marks@).no_duplicates(),
                None => self.contents() is None,
            },
    {
        let content = match self {
            HistoryFile::Missing => {
                let r: (Vec<String>, Vec<String>) = (Vec::new(), Vec::new());
                assert(text::views(r.0@) =~= Seq::empty());
                assert(text::views(r.1@).to_set() =~= Set::empty());
                return Some(r);
            },
            HistoryFile::Unknown => {
                return None;
            },
            HistoryFile::Text(t) => t,
        };
        let all = chars_of(content.as_str());
        let rows = lines(all.as_slice());
        let ghost ls = text::lines_of(content@);
        let mut urls: Vec<String> = Vec::new();
        let mut marks: Vec<String> = Vec::new();
        assert(text::views(urls@) =~= Seq::empty());
        assert(text::views(marks@).to_set() =~= Set::empty());
        let mut i: usize = 0;
        while i < rows.len()
            invariant
                i <= rows.len(),
                text::views(rows@) == ls,
                text::views(urls@) == entry_urls(ls.take(i as int)),
                text::views(marks@).no_duplicates(),
                text::views(marks@).to_set() == entry_marks(ls.take(i as int)),
            decreases rows.len() - i,
        {
            assert(ls.take(i + 1).drop_last() =~= ls.take(i as int));
            assert(ls[i as int] == rows@[i as int]@);
            let row = chars_of(rows[i].as_str());
            let t = trim(row.as_slice());
            let marked = t.len() > 0 && t[0] == '*';
            let rest = if marked {
                slice_subrange(t, 1, t.len())
            } else {
                t
            };
            assert(marked ==> rest@ =~= t@.skip(1));
            if let Some(u) = sanitize_history_url(text_of(rest).as_str()) {
                let ghost marks0 = marks@;
                let ghost urls0 = urls@;
                if marked && !lists(&marks, u.as_str()) {
                    marks.push(u.clone());
                    assert(text::views(marks@) =~= text::views(marks0).push(u@));
                    assert(text::views(marks@).to_set() =~= text::views(marks0).to_set().insert(u@)) by {
                        lemma_push_to_set(text::views(marks0), u@);
                    }
                } else if marked {
                    assert(text::views(marks@).to_set().insert(u@) =~= text::views(marks@).to_set());
                }
                urls.push(u);
                assert(text::views(urls@) =~= text::views(urls0).push(u@));
            }
            i = i + 1;
        }
        assert(ls.take(ls.len() as int) =~= ls);
        Some((urls, marks))
    }
}

proof fn lemma_push_to_set(s: Seq<Seq<char>>, u: Seq<char>)
    ensures
        s.push(u).to_set() == s.to_set().insert(u),
{
    assert forall|x: Seq<char>| s.push(u).to_set().contains(x) == s.to_set().insert(u).contains(
        x,
    ) by {
        if s.contains(x) {
            let k = s.index_of(x);
            assert(s.push(u)[k] == x);
        }
        if x == u {
            assert(s.push(u)[s.len() as int] == x);
        }
    }
    assert(s.push(u).to_set() =~= s.to_set().insert(u));
}

// ---------------------------------------------------------------------------
// The history in memory
// ---------------------------------------------------------------------------

/// What a history holds.
#[verifier::ext_equal]
pub struct HistoryState {
    /// The addresses, newest first.
    pub urls: Seq<Seq<char>>,
    /// The bookmarked ones.
    pub marks: Set<Seq<char>>,
    /// How many unmarked addresses are kept; zero for no limit.
    pub cap: nat,
    /// Whether the file has been asked for. Nothing is written before that.
    pub loaded: bool,
}

impl HistoryState {
    /// No address twice, and every bookmark is a listed address.
    pub open spec fn tidy(self) -> bool {
        &&& self.urls.no_duplicates()
        &&& self.marks.subset_of(self.urls.to_set())
    }

    /// What holds of every history: it is tidy, and every address in it can be
    /// stored.
    pub open spec fn wf(self) -> bool {
        self.tidy() && all_storable(self.urls)
    }

    /// No more addresses without a bookmark than the limit allows.
    pub open spec fn within_limit(self) -> bool {
        self.cap == 0 || unmarked(self.urls, self.marks) <= self.cap
    }

    /// The state once the file has been asked for.
    pub open spec fn load(self, disk: Option<(Seq<Seq<char>>, Set<Seq<char>>)>) -> HistoryState {
        if self.loaded {
            self
        } else {
            let (urls, marks) = match disk {
                Some(d) => d,
                None => (Seq::empty(), Set::empty()),
            };
            HistoryState { urls: capped(dedup(urls), marks, self.cap), marks, loaded: true, ..self }
        }
    }

    /// The state with another limit.
    pub open spec fn resize(self, cap: nat) -> HistoryState {
        HistoryState { urls: capped(self.urls, self.marks, cap), cap, ..self }
    }

    /// The addresses once `target` and what the file lists are merged in:
    /// promoted to the top, or prepended only where it would not be listed.
    pub open spec fn merged_urls(
        self,
        disk: Option<(Seq<Seq<char>>, Set<Seq<char>>)>,
        target: Seq<char>,
        promote: bool,
    ) -> Seq<Seq<char>> {
        let first: Seq<Seq<char>> = if promote {
            seq![target]
        } else {
            seq![]
        };
        let more: Seq<Seq<char>> = match disk {
            Some((urls, _)) => urls,
            None => seq![],
        };
        let all = dedup(first + self.urls + more);
        if all.contains(target) {
            all
        } else {
            seq![target] + all
        }
    }

    /// The marks after the merge: the file's where it is known, then what was
    /// asked for `target`.
    pub open spec fn merged_marks(
        self,
        disk: Option<(Seq<Seq<char>>, Set<Seq<char>>)>,
        target: Seq<char>,
        bookmark: Option<bool>,
    ) -> Set<Seq<char>> {
        let base = match disk {
            Some((_, marks)) => marks,
            None => self.marks,
        };
        match bookmark {
            Some(true) => base.insert(target),
            Some(false) => base.remove(target),
            None => base,
        }
    }

    /// The state after merging `target` and the file in.
    pub open spec fn merge(
        self,
        disk: Option<(Seq<Seq<char>>, Set<Seq<char>>)>,
        target: Seq<char>,
        promote: bool,
        bookmark: Option<bool>,
    ) -> HistoryState {
        let marks = self.merged_marks(disk, target, bookmark);
        let urls = capped(self.merged_urls(disk, target, promote), marks, self.cap);
        HistoryState { urls, marks: marks.intersect(urls.to_set()), ..self }
    }

    /// The state after a visit to `url`.
    pub open spec fn record(
        self,
        disk: Option<(Seq<Seq<char>>, Set<Seq<char>>)>,
        url: Seq<char>,
    ) -> HistoryState {
        match sanitized(url) {
            Some(u) => self.merge(disk, u, true, None),
            None => self,
        }
    }

    /// Whether a toggle of `url` turns its bookmark on: the file decides where
    /// it is known.
    pub open spec fn toggles_on(
        self,
        disk: Option<(Seq<Seq<char>>, Set<Seq<char>>)>,
        url: Seq<char>,
    ) -> bool {
        match disk {
            Some((_, marks)) => !marks.contains(url),
            None => !self.marks.contains(url),
        }
    }

    /// The state after a toggle of `url`'s bookmark.
    pub open spec fn toggle(
        self,
        disk: Option<(Seq<Seq<char>>, Set<Seq<char>>)>,
        url: Seq<char>,
    ) -> HistoryState {
        self.merge(disk, url, false, Some(self.toggles_on(disk, url)))
    }

    /// The text to write to the file after a change, or `None` to leave the
    /// file alone: where it could not be read, or was never asked for.
    pub open spec fn to_write(
        self,
        disk: Option<(Seq<Seq<char>>, Set<Seq<char>>)>,
    ) -> Option<Seq<char>> {
        if disk is Some && self.loaded {
            Some(file_text(self.urls, self.marks))
        } else {
            None
        }
    }
}

/// One line of the file, with its line ending.
pub open spec fn file_line(u: Seq<char>, marks: Set<Seq<char>>) -> Seq<char> {
    (if marks.contains(u) {
        seq!['*']
    } else {
        seq![]
    }) + u + seq!['\n']
}

/// The text of the history file.
pub open spec fn file_text(urls: Seq<Seq<char>>, marks: Set<Seq<char>>) -> Seq<char>
    decreases urls.len(),
{
    if urls.len() == 0 {
        seq![]
    } else {
        file_text(urls.drop_last(), marks) + file_line(urls.last(), marks)
    }
}

/// The recall history of one browser.
pub struct UrlHistory {
    urls: Vec<String>,
    bookmarks: Vec<String>,
    size: usize,
    loaded: bool,
}

impl View for UrlHistory {
    type V = HistoryState;

    closed spec fn view(&self) -> HistoryState {
        HistoryState {
            urls: text::views(self.urls@),
            marks: text::views(self.bookmarks@).to_set(),
            cap: self.size as nat,
            loaded: self.loaded,
        }
    }
}

impl UrlHistory {
    /// An empty history that has not asked for its file yet.
    pub fn new() -> (r: UrlHistory)
        ensures
            r@ == (HistoryState { urls: Seq::empty(), marks: Set::empty(), cap: 50_000, loaded: false }),
            r@.wf(),
    {
        let r = UrlHistory { urls: Vec::new(), bookmarks: Vec::new(), size: 50_000, loaded: false };
        assert(text::views(r.urls@) =~= Seq::empty());
        assert(text::views(r.bookmarks@).to_set() =~= Set::empty());
        r
    }

    /// The addresses, newest first.
    pub fn urls(&self) -> (r: &Vec<String>)
        ensures
            text::views(r@) == self@.urls,
    {
        &self.urls
    }

    /// Whether `url` is listed.
    pub fn is_listed(&self, url: &str) -> (r: bool)
        ensures
            r == self@.urls.contains(url@),
    {
        lists(&self.urls, url)
    }

    /// Whether `url` is bookmarked.
    pub fn is_bookmarked(&self, url: &str) -> (r: bool)
        ensures
            r == self@.marks.contains(url@),
    {
        lists(&self.bookmarks, url)
    }

    /// The bookmarked addresses, in no particular order.
    pub fn bookmarks(&self) -> (r: &Vec<String>)
        ensures
            text::views(r@).to_set() == self@.marks,
    {
        &self.bookmarks
    }

    /// How many unmarked addresses are kept; zero for no limit.
    pub fn size(&self) -> (r: usize)
        ensures
            r == self@.cap,
    {
        self.size
    }

    /// Drop the oldest unmarked addresses past the limit.
    fn trim_url_history(&mut self)
        ensures
            final(self)@ == old(self)@.resize(old(self)@.cap),
    {
        let ghost all = text::views(self.urls@);
        let ghost marks = text::views(self.bookmarks@).to_set();
        let ghost cap = self.size as nat;
        let mut kept: Vec<String> = Vec::new();
        let mut bare: usize = 0;
        let mut i: usize = 0;
        assert(text::views(kept@) =~= Seq::empty());
        while i < self.urls.len()
            invariant
                i <= self.urls.len(),
                self.urls@ == old(self).urls@,
                self.bookmarks@ == old(self).bookmarks@,
                self.size == old(self).size,
                self.loaded == old(self).loaded,
                all == text::views(self.urls@),
                marks == text::views(self.bookmarks@).to_set(),
                cap == self.size,
                bare <= i,
                bare == unmarked(all.take(i as int), marks),
                text::views(kept@) == capped(all.take(i as int), marks, cap),
            decreases self.urls.len() - i,
        {
            assert(all.take(i + 1).drop_last() =~= all.take(i as int));
            assert(all[i as int] == self.urls@[i as int]@);
            let marked = lists(&self.bookmarks, self.urls[i].as_str());
            if !marked {
                bare = bare + 1;
            }
            if self.size == 0 || marked || bare <= self.size {
                let ghost before = kept@;
                kept.push(self.urls[i].clone());
                assert(text::views(kept@) =~= text::views(before).push(all[i as int]));
            }
            i = i + 1;
        }
        assert(all.take(all.len() as int) =~= all);
        self.urls = kept;
        assert(self@ =~= old(self)@.resize(old(self)@.cap));
    }

    /// Load the history from its file, once.
    pub fn load_url_history(&mut self, file: &HistoryFile)
        ensures
            final(self)@ == old(self)@.load(file.contents()),
            old(self)@.wf() ==> final(self)@.wf(),
    {
        if self.loaded {
            return;
        }
        self.loaded = true;
        match file.read() {
            Some((urls, marks)) => {
                self.urls = urls;
                self.bookmarks = marks;
                dedup_keeping_first(&mut self.urls);
            },
            None => {
                self.urls = Vec::new();
                self.bookmarks = Vec::new();
                assert(text::views(self.urls@) =~= dedup(Seq::empty()));
                assert(text::views(self.bookmarks@).to_set() =~= Set::empty());
            },
        }
        self.trim_url_history();
        proof {
            if old(self)@.wf() {
                lemma_load_tidy(old(self)@, *file);
                law_every_row_is_safe(old(self)@, *file, Seq::empty(), false, None, 0);
            }
        }
    }

    /// Set how many unmarked addresses are kept, and drop what is past it.
    pub fn set_size(&mut self, size: usize)
        ensures
            final(self)@ == old(self)@.resize(size as nat),
            old(self)@.wf() ==> final(self)@.wf(),
    {
        self.size = size;
        self.trim_url_history();
        proof {
            lemma_capped(old(self)@.urls, old(self)@.marks, size as nat);
            if old(self)@.wf() {
                lemma_capped_storable(old(self)@.urls, old(self)@.marks, size as nat);
            }
        }
    }

    /// Drop the bookmarks whose address is no longer listed.
    fn prune_orphan_bookmarks(&mut self)
        ensures
            final(self)@ == (HistoryState {
                marks: old(self)@.marks.intersect(old(self)@.urls.to_set()),
                ..old(self)@
            }),
    {
        let ghost all = text::views(self.bookmarks@);
        let ghost urls = text::views(self.urls@);
        let mut kept: Vec<String> = Vec::new();
        let mut i: usize = 0;
        assert(text::views(kept@).to_set() =~= all.take(0).to_set().intersect(urls.to_set()));
        while i < self.bookmarks.len()
            invariant
                i <= self.bookmarks.len(),
                self.urls@ == old(self).urls@,
                self.bookmarks@ == old(self).bookmarks@,
                self.size == old(self).size,
                self.loaded == old(self).loaded,
                all == text::views(self.bookmarks@),
                urls == text::views(self.urls@),
                text::views(kept@).to_set() == all.take(i as int).to_set().intersect(urls.to_set()),
            decreases self.bookmarks.len() - i,
        {
            let ghost x = self.bookmarks@[i as int]@;
            let ghost before = kept@;
            assert(all.take(i + 1) =~= all.take(i as int).push(x));
            proof {
                lemma_push_to_set(all.take(i as int), x);
                lemma_push_to_set(text::views(before), x);
            }
            if lists(&self.urls, self.bookmarks[i].as_str()) {
                kept.push(self.bookmarks[i].clone());
                assert(text::views(kept@) =~= text::views(before).push(x));
                assert(urls.to_set().contains(x));
            } else {
                assert(!urls.to_set().contains(x));
            }
            assert(text::views(kept@).to_set() =~= all.take(i + 1).to_set().intersect(urls.to_set()));
            i = i + 1;
        }
        assert(all.take(all.len() as int) =~= all);
        self.bookmarks = kept;
        assert(self@.marks =~= old(self)@.marks.intersect(old(self)@.urls.to_set()));
    }

    /// The text of the file for what is in memory.
    fn file_content(&self) -> (r: String)
        ensures
            r@ == file_text(self@.urls, self@.marks),
    {
        let mut r = String::new();
        let mut i: usize = 0;
        let ghost urls = self@.urls;
        let ghost marks = self@.marks;
        while i < self.urls.len()
            invariant
                i <= self.urls.len(),
                urls == text::views(self.urls@),
                marks == text::views(self.bookmarks@).to_set(),
                r@ == file_text(urls.take(i as int), marks),
            decreases self.urls.len() - i,
        {
            assert(urls.take(i + 1).drop_last() =~= urls.take(i as int));
            let ghost before = r@;
            if lists(&self.bookmarks, self.urls[i].as_str()) {
                r.push('*');
            }
            r.append(self.urls[i].as_str());
            r.push('\n');
            assert(r@ =~= before + file_line(urls[i as int], marks));
            i = i + 1;
        }
        assert(urls.take(urls.len() as int) =~= urls);
        r
    }
}

/// `v` without `t`.
fn without(v: &Vec<String>, t: &str) -> (r: Vec<String>)
    ensures
        text::views(r@).to_set() == text::views(v@).to_set().remove(t@),
{
    let ghost all = text::views(v@);
    let mut r: Vec<String> = Vec::new();
    let mut i: usize = 0;
    assert(text::views(r@).to_set() =~= all.take(0).to_set().remove(t@));
    while i < v.len()
        invariant
            i <= v.len(),
            all == text::views(v@),
            text::views(r@).to_set() == all.take(i as int).to_set().remove(t@),
        decreases v.len() - i,
    {
        let ghost x = v@[i as int]@;
        let ghost before = r@;
        assert(all.take(i + 1) =~= all.take(i as int).push(x));
        proof {
            lemma_push_to_set(all.take(i as int), x);
            lemma_push_to_set(text::views(before), x);
        }
        if !same_text(v[i].as_str(), t) {
            r.push(v[i].clone());
            assert(text::views(r@) =~= text::views(before).push(x));
        }
        assert(text::views(r@).to_set() =~= all.take(i + 1).to_set().remove(t@));
        i = i + 1;
    }
    assert(all.take(all.len() as int) =~= all);
    r
}

impl UrlHistory {
    /// Read, merge and write the history around one address.
    ///
    /// `promote` lifts it to the top of the ranking, which is what a visit
    /// does. Without it the address keeps the position that the merge gives
    /// it, and is only prepended where the merge would not list it at all.
    /// `bookmark` sets or clears its mark; `None` leaves the mark to the file.
    ///
    /// Returns the text to write, or `None` where the file must be left alone.
    pub fn merge_and_save(
        &mut self,
        file: &HistoryFile,
        target: &str,
        promote: bool,
        bookmark: Option<bool>,
    ) -> (r: Option<String>)
        ensures
            final(self)@ == old(self)@.merge(file.contents(), target@, promote, bookmark),
            final(self)@.tidy(),
            old(self)@.wf() && storable(target@) ==> final(self)@.wf(),
            match r {
                Some(t) => final(self)@.to_write(file.contents()) == Some(t@),
                None => final(self)@.to_write(file.contents()) is None,
            },
    {
        let ghost before = self@;
        let ghost disk = file.contents();
        let known = file.read();
        let mut merged: Vec<String> = Vec::new();
        if promote {
            merged.push(target.to_owned());
        }
        let ghost first = text::views(merged@);
        assert(first =~= if promote {
            seq![target@]
        } else {
            seq![]
        });
        merged.append(&mut self.urls);
        assert(text::views(merged@) =~= first + before.urls);
        let readable = match known {
            Some((mut urls, marks)) => {
                let ghost more = text::views(urls@);
                merged.append(&mut urls);
                assert(text::views(merged@) =~= first + before.urls + more);
                self.bookmarks = marks;
                true
            },
            None => {
                assert(text::views(merged@) =~= first + before.urls + Seq::<Seq<char>>::empty());
                false
            },
        };
        dedup_keeping_first(&mut merged);
        if !lists(&merged, target) {
            let ghost rest = merged@;
            merged.insert(0, target.to_owned());
            assert(text::views(merged@) =~= seq![target@] + text::views(rest));
        }
        assert(text::views(merged@) == before.merged_urls(disk, target@, promote));
        self.urls = merged;
        match bookmark {
            Some(true) => {
                if !lists(&self.bookmarks, target) {
                    let ghost marks = self.bookmarks@;
                    self.bookmarks.push(target.to_owned());
                    assert(text::views(self.bookmarks@) =~= text::views(marks).push(target@));
                    proof {
                        lemma_push_to_set(text::views(marks), target@);
                    }
                } else {
                    assert(text::views(self.bookmarks@).to_set().insert(target@) =~= text::views(
                        self.bookmarks@,
                    ).to_set());
                }
            },
            Some(false) => {
                self.bookmarks = without(&self.bookmarks, target);
            },
            None => {},
        }
        assert(self@.marks == before.merged_marks(disk, target@, bookmark));
        self.trim_url_history();
        self.prune_orphan_bookmarks();
        proof {
            lemma_merge_tidy(before, disk, target@, promote, bookmark);
            if before.wf() {
                law_every_row_is_safe(before, *file, target@, promote, bookmark, 0);
            }
        }
        if readable && self.loaded {
            Some(self.file_content())
        } else {
            None
        }
    }

    /// Put `url` at the top of the history. Already listed means moved, not
    /// duplicated. An address that is not worth storing changes nothing.
    pub fn record_url_history(&mut self, file: &HistoryFile, url: &str) -> (r: Option<String>)
        ensures
            final(self)@ == old(self)@.record(file.contents(), url@),
            old(self)@.wf() ==> final(self)@.wf(),
            match r {
                Some(t) => sanitized(url@) is Some && final(self)@.to_write(file.contents()) == Some(
                    t@,
                ),
                None => sanitized(url@) is None || final(self)@.to_write(file.contents()) is None,
            },
    {
        proof {
            law_sanitized_is_storable(url@);
        }
        match sanitize_history_url(url) {
            Some(u) => self.merge_and_save(file, u.as_str(), true, None),
            None => None,
        }
    }

    /// Flip the bookmark of `url`, listing it first where the history does not
    /// have it yet. Returns the new state of the bookmark, and the text to
    /// write.
    pub fn toggle_bookmark(&mut self, file: &HistoryFile, url: &str) -> (r: (bool, Option<String>))
        ensures
            r.0 == old(self)@.toggles_on(file.contents(), url@),
            final(self)@ == old(self)@.toggle(file.contents(), url@),
            final(self)@.tidy(),
            old(self)@.wf() && storable(url@) ==> final(self)@.wf(),
            match r.1 {
                Some(t) => final(self)@.to_write(file.contents()) == Some(t@),
                None => final(self)@.to_write(file.contents()) is None,
            },
    {
        let on = match file.read() {
            Some((_, marks)) => !lists(&marks, url),
            None => !lists(&self.bookmarks, url),
        };
        let write = self.merge_and_save(file, url, false, Some(on));
        (on, write)
    }
}

// ---------------------------------------------------------------------------
// Laws
// ---------------------------------------------------------------------------

/// Whatever the file holds, a merge leaves each address once and every
/// bookmark on a listed address.
pub proof fn lemma_merge_tidy(
    s: HistoryState,
    disk: Option<(Seq<Seq<char>>, Set<Seq<char>>)>,
    target: Seq<char>,
    promote: bool,
    bookmark: Option<bool>,
)
    ensures
        s.merge(disk, target, promote, bookmark).tidy(),
        s.merged_urls(disk, target, promote).no_duplicates(),
        s.merged_urls(disk, target, promote).contains(target),
{
    let first: Seq<Seq<char>> = if promote {
        seq![target]
    } else {
        seq![]
    };
    let more: Seq<Seq<char>> = match disk {
        Some((urls, _)) => urls,
        None => seq![],
    };
    let all = dedup(first + s.urls + more);
    lemma_dedup(first + s.urls + more);
    let urls = s.merged_urls(disk, target, promote);
    if !all.contains(target) {
        assert(urls[0] == target);
        assert forall|i: int, j: int| 0 <= i < urls.len() && 0 <= j < urls.len() && i != j implies urls[i]
            != urls[j] by {
            if i > 0 {
                assert(urls[i] == all[i - 1]);
                assert(all.contains(urls[i]));
            }
            if j > 0 {
                assert(urls[j] == all[j - 1]);
                assert(all.contains(urls[j]));
            }
        }
    }
    lemma_capped(urls, s.merged_marks(disk, target, bookmark), s.cap);
}

/// Dropping duplicates leaves each address once and loses none.
pub proof fn lemma_dedup(s: Seq<Seq<char>>)
    ensures
        dedup(s).no_duplicates(),
        forall|u: Seq<char>| dedup(s).contains(u) <==> s.contains(u),
    decreases s.len(),
{
    if s.len() > 0 {
        let d = dedup(s.drop_last());
        lemma_dedup(s.drop_last());
        lemma_push_to_set(d, s.last());
        lemma_push_to_set(s.drop_last(), s.last());
        assert(s.drop_last().push(s.last()) =~= s);
        assert forall|u: Seq<char>| dedup(s).contains(u) <==> s.contains(u) by {
            assert(s.to_set().contains(u) == s.drop_last().to_set().insert(s.last()).contains(u));
            assert(d.push(s.last()).to_set().contains(u) == d.to_set().insert(s.last()).contains(u));
        }
    }
}

/// A bookmarked address is never dropped by the limit, nothing is added or
/// duplicated, and at most `cap` addresses without a bookmark stay.
pub proof fn lemma_capped(s: Seq<Seq<char>>, marks: Set<Seq<char>>, cap: nat)
    ensures
        forall|u: Seq<char>| capped(s, marks, cap).contains(u) ==> s.contains(u),
        forall|u: Seq<char>| s.contains(u) && marks.contains(u) ==> capped(s, marks, cap).contains(u),
        s.no_duplicates() ==> capped(s, marks, cap).no_duplicates(),
        unmarked(capped(s, marks, cap), marks) == if cap == 0 || unmarked(s, marks) <= cap {
            unmarked(s, marks)
        } else {
            cap
        },
        cap == 0 || unmarked(s, marks) <= cap ==> capped(s, marks, cap) == s,
    decreases s.len(),
{
    if s.len() > 0 {
        let r = s.drop_last();
        let k = capped(r, marks, cap);
        lemma_capped(r, marks, cap);
        lemma_push_to_set(k, s.last());
        lemma_push_to_set(r, s.last());
        assert(r.push(s.last()) =~= s);
        assert(k.push(s.last()).drop_last() =~= k);
        assert forall|u: Seq<char>| capped(s, marks, cap).contains(u) implies s.contains(u) by {
            assert(s.to_set().contains(u) == r.to_set().insert(s.last()).contains(u));
            assert(k.push(s.last()).to_set().contains(u) == k.to_set().insert(s.last()).contains(u));
        }
        assert forall|u: Seq<char>| s.contains(u) && marks.contains(u) implies capped(
            s,
            marks,
            cap,
        ).contains(u) by {
            assert(s.to_set().contains(u) == r.to_set().insert(s.last()).contains(u));
            assert(k.push(s.last()).to_set().contains(u) == k.to_set().insert(s.last()).contains(u));
        }
        if s.no_duplicates() {
            assert(r.no_duplicates());
            assert(!r.contains(s.last())) by {
                if r.contains(s.last()) {
                    let i = r.index_of(s.last());
                    assert(s[i] == s[s.len() - 1]);
                }
            }
            assert(capped(s, marks, cap).no_duplicates());
        }
    }
}

/// What the history stores is always safe as a row and as a line, and never
/// longer than the longest address: it is not empty, has no white space or
/// control character, no angle bracket and no leading star.
pub proof fn law_sanitized_is_storable(s: Seq<char>)
    ensures
        sanitized(s) matches Some(u) ==> storable(u),
{
    if let Some(u) = sanitized(s) {
        let t = text::trim_of(s);
        let a = text::replaced(t, '<', "%3C"@);
        let e = text::replaced(a, '>', "%3E"@);
        reveal_strlit("%3C");
        reveal_strlit("%3E");
        reveal_strlit("%2A");
        text::lemma_replaced(t, '<', "%3C"@);
        text::lemma_replaced(a, '>', "%3E"@);
        assert forall|i: int| 0 <= i < e.len() implies !text::white_space(#[trigger] e[i]) && !text::control(e[i])
            && e[i] != '<' && e[i] != '>' by {
            if "%3E"@.contains(e[i]) {
            } else {
                let j = a.index_of(e[i]);
                assert(a[j] == e[i]);
                if "%3C"@.contains(a[j]) {
                } else {
                    let k = t.index_of(a[j]);
                    assert(t[k] == a[j]);
                }
            }
        }
        if e[0] == '*' {
            assert forall|i: int| 0 <= i < u.len() implies !text::white_space(#[trigger] u[i]) && !text::control(
                u[i],
            ) && u[i] != '<' && u[i] != '>' by {
                if i >= 3 {
                    assert(u[i] == e[i - 2]);
                }
            }
        }
    }
}

proof fn lemma_trim_identity(u: Seq<char>)
    requires
        u.len() > 0,
        !text::white_space(u[0]),
        !text::white_space(u.last()),
    ensures
        text::trim_of(u) == u,
{
}

/// An address that can be stored is stored as it stands, so it is read back as
/// what it is.
pub proof fn law_a_storable_address_stays_as_it_is(u: Seq<char>)
    requires
        storable(u),
    ensures
        sanitized(u) == Some(u),
{
    lemma_trim_identity(u);
    assert(!u.contains('<'));
    assert(!u.contains('>'));
    text::lemma_replaced(u, '<', "%3C"@);
    text::lemma_replaced(u, '>', "%3E"@);
}

/// Storing an address that is stored already changes nothing.
pub proof fn law_sanitize_is_idempotent(s: Seq<char>)
    ensures
        sanitized(s) matches Some(u) ==> sanitized(u) == Some(u),
{
    law_sanitized_is_storable(s);
    if let Some(u) = sanitized(s) {
        law_a_storable_address_stays_as_it_is(u);
    }
}

/// A visit puts its address on top, whatever was listed before and whatever
/// the file holds.
pub proof fn law_record_puts_on_top(
    s: HistoryState,
    disk: Option<(Seq<Seq<char>>, Set<Seq<char>>)>,
    url: Seq<char>,
)
    ensures
        sanitized(url) matches Some(u) ==> s.record(disk, url).urls.len() > 0 && s.record(
            disk,
            url,
        ).urls[0] == u,
{
    if let Some(u) = sanitized(url) {
        let more: Seq<Seq<char>> = match disk {
            Some((urls, _)) => urls,
            None => seq![],
        };
        let all = seq![u] + s.urls + more;
        lemma_dedup(all);
        lemma_dedup_first(all);
        assert(all[0] == u);
        assert(all.contains(u));
        lemma_capped_first(s.merged_urls(disk, u, true), s.merged_marks(disk, u, None), s.cap);
    }
}

proof fn lemma_dedup_first(s: Seq<Seq<char>>)
    requires
        s.len() > 0,
    ensures
        dedup(s).len() > 0,
        dedup(s)[0] == s[0],
    decreases s.len(),
{
    if s.len() > 1 {
        lemma_dedup_first(s.drop_last());
    } else {
        assert(dedup(s.drop_last()) =~= seq![]);
    }
}

proof fn lemma_capped_first(s: Seq<Seq<char>>, marks: Set<Seq<char>>, cap: nat)
    requires
        s.len() > 0,
    ensures
        capped(s, marks, cap).len() > 0,
        capped(s, marks, cap)[0] == s[0],
    decreases s.len(),
{
    if s.len() > 1 {
        lemma_capped_first(s.drop_last(), marks, cap);
    } else {
        assert(capped(s.drop_last(), marks, cap) =~= seq![]);
        assert(unmarked(s.drop_last(), marks) == 0);
    }
}

/// No address is lost in a merge: what this browser lists and what the file
/// lists are all there before the limit applies.
pub proof fn law_merge_loses_nothing(
    s: HistoryState,
    disk: Option<(Seq<Seq<char>>, Set<Seq<char>>)>,
    target: Seq<char>,
    promote: bool,
    u: Seq<char>,
)
    requires
        s.urls.contains(u) || u == target || (disk matches Some(d) && d.0.contains(u)),
    ensures
        s.merged_urls(disk, target, promote).contains(u),
{
    let first: Seq<Seq<char>> = if promote {
        seq![target]
    } else {
        seq![]
    };
    let more: Seq<Seq<char>> = match disk {
        Some((urls, _)) => urls,
        None => seq![],
    };
    let base = first + s.urls + more;
    let all = dedup(base);
    lemma_dedup(base);
    lemma_merge_tidy(s, disk, target, promote, None);
    if u != target {
        if s.urls.contains(u) {
            assert(base[first.len() + s.urls.index_of(u)] == u);
        } else {
            assert(base[first.len() + s.urls.len() + more.index_of(u)] == u);
        }
        assert(base.contains(u));
        if !all.contains(target) {
            let k = all.index_of(u);
            assert((seq![target] + all)[k + 1] == u);
        }
    }
}

/// A bookmark is never dropped by the limit.
pub proof fn law_bookmarks_outlive_the_limit(
    s: HistoryState,
    disk: Option<(Seq<Seq<char>>, Set<Seq<char>>)>,
    target: Seq<char>,
    promote: bool,
    bookmark: Option<bool>,
    u: Seq<char>,
)
    requires
        s.merged_marks(disk, target, bookmark).contains(u),
        s.merged_urls(disk, target, promote).contains(u),
    ensures
        s.merge(disk, target, promote, bookmark).urls.contains(u),
        s.merge(disk, target, promote, bookmark).marks.contains(u),
{
    lemma_capped(
        s.merged_urls(disk, target, promote),
        s.merged_marks(disk, target, bookmark),
        s.cap,
    );
}

proof fn lemma_unmarked_intersect(s: Seq<Seq<char>>, marks: Set<Seq<char>>, all: Seq<Seq<char>>)
    requires
        forall|u: Seq<char>| s.contains(u) ==> all.contains(u),
    ensures
        unmarked(s, marks.intersect(all.to_set())) == unmarked(s, marks),
    decreases s.len(),
{
    if s.len() > 0 {
        let d = s.drop_last();
        assert forall|u: Seq<char>| d.contains(u) implies all.contains(u) by {
            assert(s[d.index_of(u)] == u);
        }
        lemma_unmarked_intersect(d, marks, all);
        assert(s[s.len() - 1] == s.last());
        assert(s.contains(s.last()));
    }
}

/// The limit holds, whatever the file holds: after a load, after a change of
/// the limit, and after every merge. It counts the addresses without a bookmark
/// only.
pub proof fn law_the_limit_holds(
    s: HistoryState,
    disk: Option<(Seq<Seq<char>>, Set<Seq<char>>)>,
    target: Seq<char>,
    promote: bool,
    bookmark: Option<bool>,
    cap: nat,
)
    ensures
        !s.loaded || s.within_limit() ==> s.load(disk).within_limit(),
        s.resize(cap).within_limit(),
        s.merge(disk, target, promote, bookmark).within_limit(),
{
    let (urls, marks) = match disk {
        Some(d) => d,
        None => (Seq::empty(), Set::empty()),
    };
    lemma_capped(dedup(urls), marks, s.cap);
    lemma_capped(s.urls, s.marks, cap);
    let all = s.merged_urls(disk, target, promote);
    let kept = s.merged_marks(disk, target, bookmark);
    lemma_capped(all, kept, s.cap);
    lemma_unmarked_intersect(capped(all, kept, s.cap), kept, capped(all, kept, s.cap));
}

/// The flags come from the file: what another browser unmarked stays
/// unmarked, whatever this one still remembers.
pub proof fn law_a_removed_bookmark_stays_removed(
    s: HistoryState,
    urls: Seq<Seq<char>>,
    marks: Set<Seq<char>>,
    target: Seq<char>,
    promote: bool,
    u: Seq<char>,
)
    requires
        !marks.contains(u),
    ensures
        !s.merge(Some((urls, marks)), target, promote, None).marks.contains(u),
        u != target ==> !s.merge(Some((urls, marks)), target, promote, Some(true)).marks.contains(u),
{
}

/// A file that could not be read is never written, and neither is any file
/// before it was asked for.
pub proof fn law_an_unread_file_is_never_written(
    s: HistoryState,
    disk: Option<(Seq<Seq<char>>, Set<Seq<char>>)>,
)
    requires
        disk is None || !s.loaded,
    ensures
        s.to_write(disk) is None,
{
}

proof fn lemma_dedup_identity(s: Seq<Seq<char>>)
    requires
        s.no_duplicates(),
    ensures
        dedup(s) == s,
    decreases s.len(),
{
    if s.len() > 0 {
        let d = s.drop_last();
        lemma_dedup_identity(d);
        assert(!d.contains(s.last())) by {
            if d.contains(s.last()) {
                assert(s[d.index_of(s.last())] == s[s.len() - 1]);
            }
        }
        assert(d.push(s.last()) =~= s);
    } else {
        assert(s =~= seq![]);
    }
}

proof fn lemma_dedup_absorbs(s: Seq<Seq<char>>, more: Seq<Seq<char>>)
    requires
        forall|u: Seq<char>| more.contains(u) ==> s.contains(u),
    ensures
        dedup(s + more) == dedup(s),
    decreases more.len(),
{
    if more.len() == 0 {
        assert(s + more =~= s);
    } else {
        let m = more.drop_last();
        assert forall|u: Seq<char>| m.contains(u) implies s.contains(u) by {
            assert(more[m.index_of(u)] == u);
        }
        lemma_dedup_absorbs(s, m);
        assert((s + more).drop_last() =~= s + m);
        lemma_dedup(s);
        assert(more[more.len() - 1] == more.last());
        assert(s.contains(more.last()));
    }
}

proof fn lemma_dedup_extends(s: Seq<Seq<char>>, more: Seq<Seq<char>>)
    requires
        s.no_duplicates(),
    ensures
        dedup(s + more).len() >= s.len(),
        dedup(s + more).take(s.len() as int) == s,
    decreases more.len(),
{
    if more.len() == 0 {
        assert(s + more =~= s);
        lemma_dedup_identity(s);
        assert(s.take(s.len() as int) =~= s);
    } else {
        let m = more.drop_last();
        lemma_dedup_extends(s, m);
        assert((s + more).drop_last() =~= s + m);
        let d = dedup(s + m);
        assert(d.push(more.last()).take(s.len() as int) =~= d.take(s.len() as int));
    }
}

/// Marking a listed address does not move it, and moves no other, whatever the
/// file holds: before the limit the list begins with what it was, and where the
/// file lists nothing new, it is what it was.
pub proof fn law_toggle_does_not_reorder(
    s: HistoryState,
    disk: Option<(Seq<Seq<char>>, Set<Seq<char>>)>,
    url: Seq<char>,
)
    requires
        s.wf(),
        s.urls.contains(url),
    ensures
        s.merged_urls(disk, url, false).len() >= s.urls.len(),
        s.merged_urls(disk, url, false).take(s.urls.len() as int) == s.urls,
        (disk matches Some(d) ==> forall|u: Seq<char>| d.0.contains(u) ==> s.urls.contains(u))
            ==> s.merged_urls(disk, url, false) == s.urls,
{
    let more: Seq<Seq<char>> = match disk {
        Some((urls, _)) => urls,
        None => seq![],
    };
    let none: Seq<Seq<char>> = seq![];
    assert(none + s.urls + more =~= s.urls + more);
    lemma_dedup_extends(s.urls, more);
    lemma_dedup(s.urls + more);
    assert((s.urls + more)[s.urls.index_of(url)] == url);
    assert((s.urls + more).contains(url));
    if disk matches Some(d) ==> forall|u: Seq<char>| d.0.contains(u) ==> s.urls.contains(u) {
        lemma_dedup_absorbs(s.urls, more);
        lemma_dedup_identity(s.urls);
    }
}

/// Bookmarking an address that is not listed adds a row for it at the top.
pub proof fn law_bookmarking_an_unlisted_address_adds_a_row(
    s: HistoryState,
    disk: Option<(Seq<Seq<char>>, Set<Seq<char>>)>,
    url: Seq<char>,
)
    requires
        !s.urls.contains(url),
        disk matches Some(d) ==> !d.0.contains(url),
        s.toggles_on(disk, url),
    ensures
        s.toggle(disk, url).urls.len() > 0,
        s.toggle(disk, url).urls[0] == url,
        s.toggle(disk, url).marks.contains(url),
{
    let more: Seq<Seq<char>> = match disk {
        Some((urls, _)) => urls,
        None => seq![],
    };
    let none: Seq<Seq<char>> = seq![];
    let base = none + s.urls + more;
    lemma_dedup(base);
    assert(!base.contains(url)) by {
        if base.contains(url) {
            let k = base.index_of(url);
            if k < s.urls.len() {
                assert(s.urls[k] == url);
            } else {
                assert(more[k - s.urls.len()] == url);
            }
        }
    }
    let urls = s.merged_urls(disk, url, false);
    assert(urls[0] == url);
    lemma_capped_first(urls, s.merged_marks(disk, url, Some(true)), s.cap);
    let kept = s.toggle(disk, url).urls;
    assert(kept.contains(url));
}

/// Toggling a listed address twice brings back the state there was, where the
/// file and the memory agree and the limit drops nothing without the mark.
pub proof fn law_toggling_twice_changes_nothing(s: HistoryState, url: Seq<char>)
    requires
        s.wf(),
        s.urls.contains(url),
        s.cap == 0 || unmarked(s.urls, s.marks.remove(url)) <= s.cap,
    ensures
        ({
            let once = s.toggle(Some((s.urls, s.marks)), url);
            once.toggle(Some((once.urls, once.marks)), url) == s
        }),
{
    let disk = Some((s.urls, s.marks));
    let once = s.toggle(disk, url);
    law_toggle_does_not_reorder(s, disk, url);
    let on = s.toggles_on(disk, url);
    let m = s.merged_marks(disk, url, Some(on));
    lemma_unmarked_monotone(s.urls, s.marks.remove(url), m);
    lemma_capped(s.urls, m, s.cap);
    assert(once.urls == s.urls);
    assert(once.marks =~= m);
    let disk2 = Some((once.urls, once.marks));
    law_toggle_does_not_reorder(once, disk2, url);
    assert(once.merged_marks(disk2, url, Some(!on)) =~= s.marks);
    lemma_unmarked_monotone(s.urls, s.marks.remove(url), s.marks);
    lemma_capped(s.urls, s.marks, s.cap);
    assert(s.marks.intersect(s.urls.to_set()) =~= s.marks);
    assert(once.toggle(disk2, url) =~= s);
}

proof fn lemma_unmarked_monotone(s: Seq<Seq<char>>, few: Set<Seq<char>>, many: Set<Seq<char>>)
    requires
        few.subset_of(many),
    ensures
        unmarked(s, many) <= unmarked(s, few),
    decreases s.len(),
{
    if s.len() > 0 {
        lemma_unmarked_monotone(s.drop_last(), few, many);
    }
}

// ---------------------------------------------------------------------------
// The file gives back what was written
// ---------------------------------------------------------------------------

/// The line of `u` without its line ending.
pub open spec fn bare_line(u: Seq<char>, marks: Set<Seq<char>>) -> Seq<char> {
    (if marks.contains(u) {
        seq!['*']
    } else {
        seq![]
    }) + u
}

proof fn lemma_bare_line(u: Seq<char>, marks: Set<Seq<char>>)
    requires
        storable(u),
    ensures
        line_entry(bare_line(u, marks)) == Some((u, marks.contains(u))),
        forall|i: int| 0 <= i < bare_line(u, marks).len() ==> !text::control(#[trigger] bare_line(u, marks)[i]),
{
    let b = bare_line(u, marks);
    if marks.contains(u) {
        assert(b.last() == u.last());
        assert(b.skip(1) =~= u);
        assert forall|i: int| 0 <= i < b.len() implies !text::control(#[trigger] b[i]) by {
            if i > 0 {
                assert(b[i] == u[i - 1]);
            }
        }
    } else {
        assert(b =~= u);
    }
    lemma_trim_identity(b);
    law_a_storable_address_stays_as_it_is(u);
    lemma_trim_identity(u);
}

proof fn lemma_upto_in_concat(a: Seq<char>, c: char, b: Seq<char>)
    requires
        !a.contains(c),
    ensures
        text::upto(a + seq![c] + b, c) == a.len(),
    decreases a.len(),
{
    let s = a + seq![c] + b;
    if a.len() > 0 {
        assert(s[0] == a[0]);
        assert(a.contains(a[0]));
        let a1 = a.skip(1);
        assert(!a1.contains(c)) by {
            if a1.contains(c) {
                assert(a[a1.index_of(c) + 1] == c);
            }
        }
        lemma_upto_in_concat(a1, c, b);
        assert(s.skip(1) =~= a1 + seq![c] + b);
    } else {
        assert(s[0] == c);
    }
}

proof fn lemma_lines_push(text: Seq<char>, rest: Seq<char>, line: Seq<char>)
    requires
        forall|i: int| 0 <= i < line.len() ==> !text::control(#[trigger] line[i]),
        text == line + seq!['\n'] + rest,
    ensures
        text::lines_of(text) == seq![line] + text::lines_of(rest),
{
    assert(!line.contains('\n'));
    lemma_upto_in_concat(line, '\n', rest);
    assert(text.take(line.len() as int) =~= line);
    assert(text.skip(line.len() as int + 1) =~= rest);
    if line.len() > 0 {
        assert(line[line.len() - 1] == line.last());
    }
}

proof fn lemma_file_text_front(urls: Seq<Seq<char>>, marks: Set<Seq<char>>)
    requires
        urls.len() > 0,
    ensures
        file_text(urls, marks) == file_line(urls[0], marks) + file_text(urls.skip(1), marks),
    decreases urls.len(),
{
    if urls.len() == 1 {
        assert(urls.drop_last() =~= seq![]);
        assert(urls.skip(1) =~= seq![]);
        assert(file_text(urls, marks) =~= file_line(urls[0], marks) + file_text(
            urls.skip(1),
            marks,
        ));
    } else {
        lemma_file_text_front(urls.drop_last(), marks);
        assert(urls.skip(1).drop_last() =~= urls.drop_last().skip(1));
        assert(urls.skip(1).last() == urls.last());
        assert(file_text(urls, marks) =~= file_line(urls[0], marks) + file_text(
            urls.skip(1),
            marks,
        ));
    }
}

proof fn lemma_file_lines(urls: Seq<Seq<char>>, marks: Set<Seq<char>>)
    requires
        forall|i: int| 0 <= i < urls.len() ==> storable(#[trigger] urls[i]),
    ensures
        text::lines_of(file_text(urls, marks)) == Seq::new(urls.len(), |i: int| bare_line(urls[i], marks)),
    decreases urls.len(),
{
    let want = Seq::new(urls.len(), |i: int| bare_line(urls[i], marks));
    if urls.len() == 0 {
        assert(text::lines_of(file_text(urls, marks)) =~= want);
    } else {
        let rest = urls.skip(1);
        lemma_file_text_front(urls, marks);
        lemma_bare_line(urls[0], marks);
        let line = bare_line(urls[0], marks);
        assert(file_line(urls[0], marks) =~= line + seq!['\n']);
        assert(file_text(urls, marks) =~= line + seq!['\n'] + file_text(rest, marks));
        lemma_lines_push(file_text(urls, marks), file_text(rest, marks), line);
        assert forall|i: int| 0 <= i < rest.len() implies storable(#[trigger] rest[i]) by {
            assert(rest[i] == urls[i + 1]);
        }
        lemma_file_lines(rest, marks);
        assert(text::lines_of(file_text(urls, marks)) =~= want);
    }
}

proof fn lemma_entries(urls: Seq<Seq<char>>, marks: Set<Seq<char>>)
    requires
        forall|i: int| 0 <= i < urls.len() ==> storable(#[trigger] urls[i]),
    ensures
        ({
            let ls = Seq::new(urls.len(), |i: int| bare_line(urls[i], marks));
            &&& entry_urls(ls) == urls
            &&& entry_marks(ls) == marks.intersect(urls.to_set())
        }),
    decreases urls.len(),
{
    let ls = Seq::new(urls.len(), |i: int| bare_line(urls[i], marks));
    if urls.len() == 0 {
        assert(entry_urls(ls) =~= urls);
        assert(entry_marks(ls) =~= marks.intersect(urls.to_set()));
    } else {
        let d = urls.drop_last();
        lemma_entries(d, marks);
        assert(ls.drop_last() =~= Seq::new(d.len(), |i: int| bare_line(d[i], marks)));
        lemma_bare_line(urls.last(), marks);
        assert(entry_urls(ls) =~= urls);
        lemma_push_to_set(d, urls.last());
        assert(d.push(urls.last()) =~= urls);
        assert(entry_marks(ls) =~= marks.intersect(urls.to_set()));
    }
}

/// The file gives back what was written: the same addresses in the same
/// order, and the same bookmarks.
pub proof fn law_the_file_gives_back_what_was_written(s: HistoryState)
    requires
        s.wf(),
    ensures
        entry_urls(text::lines_of(file_text(s.urls, s.marks))) == s.urls,
        entry_marks(text::lines_of(file_text(s.urls, s.marks))) == s.marks,
{
    assert forall|i: int| 0 <= i < s.urls.len() implies storable(#[trigger] s.urls[i]) by {
        assert(s.urls.contains(s.urls[i]));
    }
    lemma_file_lines(s.urls, s.marks);
    lemma_entries(s.urls, s.marks);
    assert(s.marks.intersect(s.urls.to_set()) =~= s.marks);
}

/// A history survives a restart: a new one that loads the written file holds
/// the same addresses and bookmarks, under the same limit.
pub proof fn law_the_history_survives_a_restart(s: HistoryState, fresh: HistoryState)
    requires
        s.wf(),
        s.within_limit(),
        !fresh.loaded,
        fresh.cap == s.cap,
    ensures
        ({
            let text = file_text(s.urls, s.marks);
            let disk = Some((entry_urls(text::lines_of(text)), entry_marks(text::lines_of(text))));
            fresh.load(disk) == HistoryState { loaded: true, ..s }
        }),
{
    law_the_file_gives_back_what_was_written(s);
    lemma_dedup_identity(s.urls);
    lemma_capped(s.urls, s.marks, s.cap);
}

proof fn lemma_entry_marks_listed(ls: Seq<Seq<char>>)
    ensures
        entry_marks(ls).subset_of(entry_urls(ls).to_set()),
    decreases ls.len(),
{
    if ls.len() > 0 {
        lemma_entry_marks_listed(ls.drop_last());
        match line_entry(ls.last()) {
            Some((u, _)) => {
                lemma_push_to_set(entry_urls(ls.drop_last()), u);
            },
            None => {},
        }
    }
}

proof fn lemma_load_tidy(s: HistoryState, file: HistoryFile)
    requires
        s.tidy(),
    ensures
        s.load(file.contents()).tidy(),
{
    if !s.loaded {
        match file.contents() {
            Some((urls, marks)) => {
                if let HistoryFile::Text(t) = file {
                    lemma_entry_marks_listed(text::lines_of(t@));
                }
                assert(marks.subset_of(urls.to_set()));
                lemma_dedup(urls);
                lemma_capped(dedup(urls), marks, s.cap);
                assert forall|u: Seq<char>| marks.contains(u) implies capped(
                    dedup(urls),
                    marks,
                    s.cap,
                ).to_set().contains(u) by {
                    assert(urls.to_set().contains(u));
                }
            },
            None => {
                lemma_dedup(Seq::empty());
                lemma_capped(dedup(Seq::empty()), Set::empty(), s.cap);
            },
        }
    }
}

proof fn lemma_entries_storable(ls: Seq<Seq<char>>)
    ensures
        all_storable(entry_urls(ls)),
    decreases ls.len(),
{
    if ls.len() > 0 {
        let r = entry_urls(ls.drop_last());
        lemma_entries_storable(ls.drop_last());
        if let Some((u, _)) = line_entry(ls.last()) {
            let t = text::trim_of(ls.last());
            law_sanitized_is_storable(t);
            law_sanitized_is_storable(t.skip(1));
            lemma_push_to_set(r, u);
            assert forall|v: Seq<char>| #[trigger] r.push(u).contains(v) implies storable(v) by {
                assert(r.push(u).to_set().contains(v) == r.to_set().insert(u).contains(v));
            }
        }
    }
}

proof fn lemma_file_storable(file: HistoryFile)
    ensures
        file.contents() matches Some((urls, _)) ==> all_storable(urls),
{
    if let HistoryFile::Text(t) = file {
        lemma_entries_storable(text::lines_of(t@));
    }
}

proof fn lemma_capped_storable(s: Seq<Seq<char>>, marks: Set<Seq<char>>, cap: nat)
    requires
        all_storable(s),
    ensures
        all_storable(capped(s, marks, cap)),
{
    lemma_capped(s, marks, cap);
    assert forall|u: Seq<char>| #[trigger] capped(s, marks, cap).contains(u) implies storable(u) by {
        assert(s.contains(u));
    }
}

/// Whatever the file holds, every address of the history can stand on a line
/// and on a row of its own, and is not too long to be read back: after a load,
/// after a change of the limit, and after every merge of such an address.
pub proof fn law_every_row_is_safe(
    s: HistoryState,
    file: HistoryFile,
    target: Seq<char>,
    promote: bool,
    bookmark: Option<bool>,
    cap: nat,
)
    requires
        all_storable(s.urls),
    ensures
        all_storable(s.load(file.contents()).urls),
        all_storable(s.resize(cap).urls),
        storable(target) ==> all_storable(
            s.merge(file.contents(), target, promote, bookmark).urls,
        ),
{
    let disk = file.contents();
    lemma_file_storable(file);
    let (urls, marks) = match disk {
        Some(d) => d,
        None => (Seq::empty(), Set::empty()),
    };
    lemma_dedup(urls);
    assert(all_storable(dedup(urls))) by {
        assert forall|u: Seq<char>| #[trigger] dedup(urls).contains(u) implies storable(u) by {
            assert(urls.contains(u));
        }
    }
    lemma_capped_storable(dedup(urls), marks, s.cap);
    lemma_capped_storable(s.urls, s.marks, cap);
    let first: Seq<Seq<char>> = if promote {
        seq![target]
    } else {
        seq![]
    };
    let all = first + s.urls + urls;
    lemma_dedup(all);
    let merged = s.merged_urls(disk, target, promote);
    if storable(target) {
        assert forall|u: Seq<char>| #[trigger] merged.contains(u) implies storable(u) by {
            if u != target {
                let k = merged.index_of(u);
                assert(dedup(all).contains(u)) by {
                    if !dedup(all).contains(target) {
                        assert(merged == seq![target] + dedup(all));
                        assert(dedup(all)[k - 1] == u);
                    }
                }
                assert(all.contains(u));
                let i = all.index_of(u);
                if i < first.len() {
                    assert(first[i] == u);
                } else if i < first.len() + s.urls.len() {
                    assert(s.urls[i - first.len()] == u);
                    assert(s.urls.contains(u));
                } else {
                    assert(urls[i - first.len() - s.urls.len()] == u);
                    assert(urls.contains(u));
                }
            }
        }
        lemma_capped_storable(merged, s.merged_marks(disk, target, bookmark), s.cap);
    }
}

/// An address is stored as it is, character for character, but for the three
/// that would not come back: each `<` and `>` and a leading star is written as
/// its percent code. So it is for the first character and for every further
/// one.
pub proof fn law_every_character_is_stored(t: Seq<char>, c: char)
    ensures
        encoded(seq![c]) == (if c == '<' {
            seq!['%', '3', 'C']
        } else if c == '>' {
            seq!['%', '3', 'E']
        } else if c == '*' {
            seq!['%', '2', 'A']
        } else {
            seq![c]
        }),
        t.len() > 0 ==> encoded(t.push(c)) == encoded(t) + (if c == '<' {
            seq!['%', '3', 'C']
        } else if c == '>' {
            seq!['%', '3', 'E']
        } else {
            seq![c]
        }),
{
    reveal_strlit("%3C");
    reveal_strlit("%3E");
    reveal_strlit("%2A");
    assert("%3C"@ =~= seq!['%', '3', 'C']);
    assert("%3E"@ =~= seq!['%', '3', 'E']);
    assert("%2A"@ =~= seq!['%', '2', 'A']);
    let none = Seq::<char>::empty();
    lemma_replaced_push(none, c, '<', "%3C"@);
    assert(none.push(c) =~= seq![c]);
    let one = text::replaced(seq![c], '<', "%3C"@);
    assert(text::replaced(none, '<', "%3C"@) =~= none);
    assert(text::replaced(none, '>', "%3E"@) =~= none);
    if c == '<' {
        assert(one =~= "%3C"@);
        text::lemma_replaced("%3C"@, '>', "%3E"@);
        assert(encoded(seq![c]) =~= seq!['%', '3', 'C']);
    } else {
        assert(one =~= seq![c]);
        lemma_replaced_push(none, c, '>', "%3E"@);
        if c == '>' {
            assert(encoded(seq![c]) =~= seq!['%', '3', 'E']);
        } else {
            assert(encoded(seq![c]) =~= (if c == '*' {
                seq!['%', '2', 'A']
            } else {
                seq![c]
            }));
        }
    }
    if t.len() > 0 {
        let a = text::replaced(t, '<', "%3C"@);
        let b = text::replaced(a, '>', "%3E"@);
        lemma_replaced_push(t, c, '<', "%3C"@);
        lemma_replaced_len(t, '<', "%3C"@);
        lemma_replaced_len(a, '>', "%3E"@);
        let more: Seq<char> = if c == '<' {
            "%3C"@
        } else {
            seq![c]
        };
        lemma_replaced_concat(a, more, '>', "%3E"@);
        text::lemma_replaced("%3C"@, '>', "%3E"@);
        lemma_replaced_push(none, c, '>', "%3E"@);
        let tail: Seq<char> = if c == '<' {
            seq!['%', '3', 'C']
        } else if c == '>' {
            seq!['%', '3', 'E']
        } else {
            seq![c]
        };
        assert(text::replaced(more, '>', "%3E"@) =~= tail);
        assert(a + more =~= text::replaced(t.push(c), '<', "%3C"@));
        let e = text::replaced(a + more, '>', "%3E"@);
        assert(e == b + tail);
        assert(e[0] == b[0]);
        assert(e.skip(1) =~= b.skip(1) + tail);
        assert(encoded(t.push(c)) =~= encoded(t) + tail);
    }
}

proof fn lemma_replaced_push(s: Seq<char>, c: char, from: char, by: Seq<char>)
    ensures
        text::replaced(s.push(c), from, by) == text::replaced(s, from, by) + (if c == from {
            by
        } else {
            seq![c]
        }),
{
    assert(s.push(c).drop_last() =~= s);
}

proof fn lemma_replaced_len(s: Seq<char>, from: char, by: Seq<char>)
    requires
        by.len() > 0,
    ensures
        text::replaced(s, from, by).len() >= s.len(),
    decreases s.len(),
{
    if s.len() > 0 {
        lemma_replaced_len(s.drop_last(), from, by);
    }
}

proof fn lemma_replaced_concat(a: Seq<char>, b: Seq<char>, from: char, by: Seq<char>)
    ensures
        text::replaced(a + b, from, by) == text::replaced(a, from, by) + text::replaced(
            b,
            from,
            by,
        ),
    decreases b.len(),
{
    if b.len() == 0 {
        assert(a + b =~= a);
        assert(text::replaced(a, from, by) + text::replaced(b, from, by) =~= text::replaced(
            a,
            from,
            by,
        ));
    } else {
        assert((a + b).drop_last() =~= a + b.drop_last());
        lemma_replaced_concat(a, b.drop_last(), from, by);
        assert(text::replaced(a + b, from, by) =~= text::replaced(a, from, by) + text::replaced(
            b,
            from,
            by,
        ));
    }
}

/// An address is stored wherever it can be: all that is turned away is nothing
/// at all, what holds white space or a control character, and what is too long.
pub proof fn law_an_address_is_stored_wherever_it_can_be(s: Seq<char>, i: int, j: int)
    requires
        text::only_blank_around(s, i, j),
        i < j,
        forall|k: int|
            i <= k < j ==> !text::white_space(#[trigger] s[k]) && !text::control(s[k]),
    ensures
        sanitized(s) == if utf8_len(encoded(s.subrange(i, j))) <= 4096 {
            Some(encoded(s.subrange(i, j)))
        } else {
            None
        },
{
    text::law_trimming_takes_only_white_space(s);
    let t = text::trim_of(s);
    let (a, b) = choose|a: int, b: int| #[trigger]
        text::only_blank_around(s, a, b) && t == s.subrange(a, b);
    if t.len() == 0 {
        assert(text::white_space(s[i]));
    }
    assert(t[0] == s[a] && t.last() == s[b - 1]);
    assert(a == i) by {
        if a < i {
            assert(text::white_space(s[a]));
        } else if i < a {
            assert(text::white_space(s[i]));
        }
    }
    assert(b == j) by {
        if j < b {
            assert(text::white_space(s[b - 1]));
        } else if b < j {
            assert(text::white_space(s[j - 1]));
        }
    }
    assert forall|k: int| 0 <= k < t.len() implies !text::control(#[trigger] t[k])
        && !text::white_space(t[k]) by {
        assert(t[k] == s[i + k]);
    }
}

/// Dropping duplicates keeps every address once, where it came first.
pub proof fn law_the_first_of_each_address_is_kept(s: Seq<Seq<char>>, u: Seq<char>)
    ensures
        dedup(s).no_duplicates(),
        dedup(s).contains(u) <==> s.contains(u),
        s.contains(u) ==> dedup(s.push(u)) == dedup(s),
        !s.contains(u) ==> dedup(s.push(u)) == dedup(s).push(u),
{
    lemma_dedup(s);
    assert(s.push(u).drop_last() =~= s);
}

/// The limit drops the oldest addresses without a bookmark, and those only:
/// what is kept is kept in order.
pub proof fn law_the_limit_drops_the_oldest(
    s: Seq<Seq<char>>,
    marks: Set<Seq<char>>,
    cap: nat,
    u: Seq<char>,
)
    ensures
        capped(s, marks, 0) == s,
        marks.contains(u) ==> capped(s.push(u), marks, cap) == capped(s, marks, cap).push(u),
        !marks.contains(u) && (cap == 0 || unmarked(s, marks) < cap) ==> capped(
            s.push(u),
            marks,
            cap,
        ) == capped(s, marks, cap).push(u),
        !marks.contains(u) && cap > 0 && unmarked(s, marks) >= cap ==> capped(
            s.push(u),
            marks,
            cap,
        ) == capped(s, marks, cap),
        unmarked(s.push(u), marks) == unmarked(s, marks) + (if marks.contains(u) {
            0nat
        } else {
            1nat
        }),
    decreases s.len(),
{
    assert(s.push(u).drop_last() =~= s);
    lemma_no_limit(s, marks);
}

proof fn lemma_no_limit(s: Seq<Seq<char>>, marks: Set<Seq<char>>)
    ensures
        capped(s, marks, 0) == s,
    decreases s.len(),
{
    if s.len() > 0 {
        lemma_no_limit(s.drop_last(), marks);
        assert(s.drop_last().push(s.last()) =~= s);
    } else {
        assert(capped(s, marks, 0) =~= s);
    }
}

/// A toggle changes the bookmark of its own address and of no other: set where
/// it was not, and gone where it was.
pub proof fn law_a_toggle_changes_one_bookmark(s: HistoryState, url: Seq<char>, other: Seq<char>)
    requires
        s.wf(),
        other != url,
    ensures
        s.toggle(None, url).marks.contains(url) == !s.marks.contains(url),
        s.toggle(None, url).marks.contains(other) == s.marks.contains(other),
        s.toggles_on(None, url) == !s.marks.contains(url),
{
    let on = s.toggles_on(None, url);
    if on {
        law_merge_loses_nothing(s, None, url, false, url);
        law_bookmarks_outlive_the_limit(s, None, url, false, Some(on), url);
    }
    if s.marks.contains(other) {
        assert(s.urls.to_set().contains(other));
        law_merge_loses_nothing(s, None, url, false, other);
        law_bookmarks_outlive_the_limit(s, None, url, false, Some(on), other);
    }
}

/// A visit leaves the bookmarks as they are.
pub proof fn law_a_visit_leaves_the_bookmarks(s: HistoryState, url: Seq<char>)
    requires
        s.wf(),
    ensures
        s.record(None, url).marks == s.marks,
{
    if let Some(u) = sanitized(url) {
        let t = s.record(None, url);
        assert forall|m: Seq<char>| t.marks.contains(m) == s.marks.contains(m) by {
            if s.marks.contains(m) {
                assert(s.urls.to_set().contains(m));
                law_merge_loses_nothing(s, None, u, true, m);
                law_bookmarks_outlive_the_limit(s, None, u, true, None, m);
            }
        }
        assert(t.marks =~= s.marks);
    }
}

proof fn lemma_dedup_moves_up(u: Seq<char>, urls: Seq<Seq<char>>)
    requires
        urls.no_duplicates(),
    ensures
        dedup(seq![u] + urls) == seq![u] + urls.filter(|x: Seq<char>| x != u),
    decreases urls.len(),
{
    reveal(Seq::filter);
    let keep = |x: Seq<char>| x != u;
    let all = seq![u] + urls;
    if urls.len() == 0 {
        assert(all.drop_last() =~= Seq::<Seq<char>>::empty());
        assert(dedup(all.drop_last()) =~= Seq::<Seq<char>>::empty());
        assert(dedup(all) =~= seq![u] + urls.filter(keep));
    } else {
        let d = urls.drop_last();
        lemma_dedup_moves_up(u, d);
        assert(all.drop_last() =~= seq![u] + d);
        let last = urls.last();
        let front = seq![u] + d.filter(keep);
        lemma_dedup(seq![u] + d);
        assert((seq![u] + d).contains(last) <==> last == u) by {
            if (seq![u] + d).contains(last) {
                let k = (seq![u] + d).index_of(last);
                if k > 0 {
                    assert(urls[k - 1] == urls[urls.len() - 1]);
                }
            }
            assert((seq![u] + d)[0] == u);
        }
        assert(dedup(all) =~= seq![u] + urls.filter(keep));
    }
}

/// A visit moves its address to the top and leaves the others in the order they
/// had. What the file lists beyond them comes behind them.
pub proof fn law_the_others_keep_their_order(
    s: HistoryState,
    disk: Seq<Seq<char>>,
    marks: Set<Seq<char>>,
    u: Seq<char>,
)
    requires
        s.urls.no_duplicates(),
    ensures
        s.merged_urls(None, u, true) == seq![u] + s.urls.filter(|x: Seq<char>| x != u),
        ({
            let own = s.merged_urls(None, u, true);
            let all = s.merged_urls(Some((disk, marks)), u, true);
            &&& all.len() >= own.len()
            &&& all.take(own.len() as int) == own
        }),
{
    let first: Seq<Seq<char>> = seq![u];
    let own = first + s.urls;
    lemma_dedup_moves_up(u, s.urls);
    assert(own + Seq::<Seq<char>>::empty() =~= own);
    lemma_dedup(own);
    lemma_dedup(own + disk);
    assert(own[0] == u);
    assert(own.contains(u));
    assert((own + disk)[0] == u);
    assert((own + disk).contains(u));
    lemma_dedup_grows(own, disk);
}

proof fn lemma_dedup_grows(a: Seq<Seq<char>>, b: Seq<Seq<char>>)
    ensures
        dedup(a + b).len() >= dedup(a).len(),
        dedup(a + b).take(dedup(a).len() as int) == dedup(a),
    decreases b.len(),
{
    let d = dedup(a);
    if b.len() == 0 {
        assert(a + b =~= a);
        assert(d.take(d.len() as int) =~= d);
    } else {
        lemma_dedup_grows(a, b.drop_last());
        assert((a + b).drop_last() =~= a + b.drop_last());
        let e = dedup(a + b.drop_last());
        assert(e.push(b.last()).take(d.len() as int) =~= e.take(d.len() as int));
    }
}

/// A history asks for its file once, and forgets nothing that it holds when it
/// is asked to again.
pub proof fn law_a_history_is_loaded_once(
    s: HistoryState,
    disk: Option<(Seq<Seq<char>>, Set<Seq<char>>)>,
)
    ensures
        s.load(disk).loaded,
        s.loaded ==> s.load(disk) == s,
        s.load(disk).cap == s.cap,
{
}

/// A line of the file says which address it is and whether it is bookmarked.
pub proof fn law_a_line_says_what_it_is(u: Seq<char>)
    requires
        storable(u),
    ensures
        line_entry(u) == Some((u, false)),
        line_entry(seq!['*'] + u) == Some((u, true)),
{
    law_a_storable_address_stays_as_it_is(u);
    let starred = seq!['*'] + u;
    assert(u[0] != '*');
    assert(!text::white_space(u.last()) && !text::white_space(u[0]));
    assert(text::trim_of(u) == u);
    assert(starred.last() == u.last());
    assert(text::trim_of(starred) == starred);
    assert(starred.skip(1) =~= u);
}

proof fn lemma_utf8_front(s: Seq<char>)
    requires
        s.len() > 0,
    ensures
        utf8_len(s) == utf8_width(s[0]) + utf8_len(s.drop_first()),
    decreases s.len(),
{
    if s.len() > 1 {
        lemma_utf8_front(s.drop_last());
        assert(s.drop_last().drop_first() =~= s.drop_first().drop_last());
    } else {
        assert(s.drop_last() =~= Seq::<char>::empty());
        assert(s.drop_first() =~= Seq::<char>::empty());
    }
}

/// The length that is limited is that of the address in UTF-8.
pub proof fn law_an_address_is_measured_in_bytes(s: Seq<char>)
    ensures
        utf8_len(s) == vstd::utf8::encode_utf8(s).len(),
    decreases s.len(),
{
    if s.len() > 0 {
        law_an_address_is_measured_in_bytes(s.drop_first());
        lemma_utf8_front(s);
        vstd::utf8::char_is_scalar(s[0]);
        vstd::utf8::char_u32_cast(s[0], s[0] as u32);
    }
}

/// A first run has nothing to lose and may write; a file that could not be read
/// is left alone.
pub proof fn law_a_first_run_may_write(s: HistoryState)
    ensures
        HistoryFile::Missing.contents() == Some((Seq::<Seq<char>>::empty(), Set::<Seq<char>>::empty())),
        s.loaded ==> s.to_write(HistoryFile::Missing.contents()) is Some,
        s.to_write(HistoryFile::Unknown.contents()) is None,
        !s.loaded ==> s.load(HistoryFile::Unknown.contents()).urls.len() == 0,
{
}

} // verus!
