//! The language versions that a page declares for itself.

use crate::outside;
use crate::outside::select_attributes;
use crate::text;
use crate::text::{
    ascii_lowercase, ascii_uppercase, chars_of, is_white_space, same_text, trim,
};
use vstd::prelude::*;
use vstd::slice::slice_subrange;

verus! {

/// What each language calls itself.
pub const LANGUAGE_NAMES: [(&'static str, &'static str); 30] = [
    ("bg", "Български"),
    ("cs", "Čeština"),
    ("da", "Dansk"),
    ("de", "Deutsch"),
    ("el", "Ελληνικά"),
    ("en", "English"),
    ("es", "Español"),
    ("et", "Eesti"),
    ("fi", "Suomi"),
    ("fr", "Français"),
    ("ga", "Gaeilge"),
    ("hr", "Hrvatski"),
    ("hu", "Magyar"),
    ("is", "Íslenska"),
    ("it", "Italiano"),
    ("lb", "Lëtzebuergesch"),
    ("lt", "Lietuvių"),
    ("lv", "Latviešu"),
    ("mt", "Malti"),
    ("nl", "Nederlands"),
    ("no", "Norsk"),
    ("pl", "Polski"),
    ("pt", "Português"),
    ("ro", "Română"),
    ("ru", "Русский"),
    ("sk", "Slovenčina"),
    ("sl", "Slovenščina"),
    ("sv", "Svenska"),
    ("tr", "Türkçe"),
    ("uk", "Українська"),
];

/// The first position of a hyphen or an underscore in `s`, or its length.
pub open spec fn subtag_end(s: Seq<char>) -> int
    decreases s.len(),
{
    if s.len() == 0 || s[0] == '-' || s[0] == '_' {
        0
    } else {
        1 + subtag_end(s.skip(1))
    }
}

/// The language of a code such as `nl-BE`, without its region: `nl`.
pub open spec fn primary(code: Seq<char>) -> Seq<char> {
    let t = text::trim_of(code);
    text::lowered(t.take(subtag_end(t)))
}

/// The primary subtag, in lower case: `nl-BE` and `nl` are one language.
pub fn primary_subtag(code: &str) -> (r: String)
    ensures
        r@ == primary(code@),
{
    let all = chars_of(code);
    let t = trim(all.as_slice());
    let mut i: usize = 0;
    assert(t@.skip(0) =~= t@);
    while i < t.len() && t[i] != '-' && t[i] != '_'
        invariant
            i <= t.len(),
            subtag_end(t@) == i + subtag_end(t@.skip(i as int)),
        decreases t.len() - i,
    {
        assert(t@.skip(i as int).skip(1) =~= t@.skip(i + 1));
        i = i + 1;
    }
    let s = slice_subrange(t, 0, i);
    assert(s@ =~= t@.take(i as int));
    ascii_lowercase(s)
}

/// The name of the language `code`, looked up from row `from` of the table on;
/// the bare code in upper case where the table has none.
pub open spec fn label_from(code: Seq<char>, from: int) -> Seq<char>
    decreases LANGUAGE_NAMES@.len() - from,
{
    if from < 0 || from >= LANGUAGE_NAMES@.len() {
        text::uppered(code)
    } else if LANGUAGE_NAMES@[from].0@ == code {
        LANGUAGE_NAMES@[from].1@
    } else {
        label_from(code, from + 1)
    }
}

/// What to call a language: its own name for itself, or the bare code.
pub fn language_label(code: &str) -> (r: String)
    ensures
        r@ == label_from(code@, 0),
{
    let mut i: usize = 0;
    while i < LANGUAGE_NAMES.len()
        invariant
            i <= LANGUAGE_NAMES@.len(),
            label_from(code@, 0) == label_from(code@, i as int),
        decreases LANGUAGE_NAMES@.len() - i,
    {
        if same_text(LANGUAGE_NAMES[i].0, code) {
            return LANGUAGE_NAMES[i].1.to_owned();
        }
        i = i + 1;
    }
    ascii_uppercase(chars_of(code).as_slice())
}

// ---------------------------------------------------------------------------
// Words of an attribute
// ---------------------------------------------------------------------------

/// A word of `s` stands between `i` and `j`: no white space in it, and white
/// space or an end around it.
pub open spec fn word_at(s: Seq<char>, i: int, j: int) -> bool {
    &&& 0 <= i < j <= s.len()
    &&& i == 0 || text::white_space(s[i - 1])
    &&& j == s.len() || text::white_space(s[j])
    &&& forall|k: int| i <= k < j ==> !text::white_space(#[trigger] s[k])
}

/// One of the words of `s`, in lower case, is `w`.
pub open spec fn has_word(s: Seq<char>, w: Seq<char>) -> bool {
    exists|i: int, j: int| #[trigger] word_at(s, i, j) && text::lowered(s.subrange(i, j)) == w
}

/// Whether one of the words of `s`, in lower case, is `w`.
pub fn contains_word(s: &[char], w: &str) -> (r: bool)
    ensures
        r == has_word(s@, w@),
{
    let mut i: usize = 0;
    while i < s.len()
        invariant
            i <= s.len(),
            forall|a: int, b: int|
                a < i && #[trigger] word_at(s@, a, b) ==> text::lowered(s@.subrange(a, b)) != w@,
        decreases s.len() - i,
    {
        if !is_white_space(s[i]) && (i == 0 || is_white_space(s[i - 1])) {
            let mut j: usize = i;
            while j < s.len() && !is_white_space(s[j])
                invariant
                    i <= j <= s.len(),
                    forall|k: int| i <= k < j ==> !text::white_space(#[trigger] s@[k]),
                decreases s.len() - j,
            {
                j = j + 1;
            }
            assert(i < j);
            let word = ascii_lowercase(slice_subrange(s, i, j));
            assert(word_at(s@, i as int, j as int));
            if same_text(word.as_str(), w) {
                return true;
            }
            assert forall|b: int| #[trigger] word_at(s@, i as int, b) implies b == j by {
                if b < j {
                    assert(text::white_space(s@[b]));
                } else if b > j {
                    assert(!text::white_space(s@[j as int]));
                }
            }
        }
        i = i + 1;
    }
    false
}

// ---------------------------------------------------------------------------
// Declared versions
// ---------------------------------------------------------------------------

/// One alternate version that a page names in its head.
pub struct Alternate {
    pub rel: String,
    pub hreflang: String,
    pub href: String,
}

/// One alternate version, as a value: `rel`, `hreflang` and `href`.
pub type Link = (Seq<char>, Seq<char>, Seq<char>);

/// The values of a list of alternates.
pub open spec fn links(v: Seq<Alternate>) -> Seq<Link> {
    Seq::new(v.len(), |i: int| (v[i].rel@, v[i].hreflang@, v[i].href@))
}

/// The language that the link adds to `codes`, if it adds one: it is an
/// alternate but no style sheet, names a language, leads somewhere, and that
/// language is not there yet.
pub open spec fn adds(codes: Seq<Seq<char>>, link: Link, url: Seq<char>) -> bool {
    let code = primary(link.1);
    &&& has_word(link.0, "alternate"@)
    &&& !has_word(link.0, "stylesheet"@)
    &&& code.len() > 0
    &&& code != "x"@
    &&& outside::resolved_href(link.2, url).len() > 0
    &&& !codes.contains(code)
}

/// The languages the links declare, and where each leads, in the order of the
/// page.
pub open spec fn alternates(all: Seq<Link>, url: Seq<char>) -> (Seq<Seq<char>>, Seq<Seq<char>>)
    decreases all.len(),
{
    if all.len() == 0 {
        (seq![], seq![])
    } else {
        let (codes, hrefs) = alternates(all.drop_last(), url);
        if adds(codes, all.last(), url) {
            (codes.push(primary(all.last().1)), hrefs.push(outside::resolved_href(all.last().2, url)))
        } else {
            (codes, hrefs)
        }
    }
}

/// The languages of a page: those its links declare, and the one it is
/// written in, which is the page itself.
pub open spec fn languages(all: Seq<Link>, current: Seq<char>, url: Seq<char>) -> (
    Seq<Seq<char>>,
    Seq<Seq<char>>,
) {
    let (codes, hrefs) = alternates(all, url);
    if current.len() > 0 && current != "x"@ && !codes.contains(current) {
        (codes.push(current), hrefs.push(url))
    } else {
        (codes, hrefs)
    }
}

/// What to call the language `code` on a page written in `current`.
pub open spec fn language_row(code: Seq<char>, current: Seq<char>, here: Seq<char>) -> Seq<char> {
    if code == current {
        label_from(code, 0) + " ("@ + here + ")"@
    } else {
        label_from(code, 0)
    }
}

/// The language versions as rows of a name and an address. `here` is the word
/// for the one being read. Fewer than two are no choice, and no rows.
pub open spec fn language_rows(
    all: Seq<Link>,
    current: Seq<char>,
    url: Seq<char>,
    here: Seq<char>,
) -> Seq<(Seq<char>, Seq<char>)> {
    let (codes, hrefs) = languages(all, current, url);
    if codes.len() < 2 {
        seq![]
    } else {
        Seq::new(codes.len(), |i: int| (language_row(codes[i], current, here), hrefs[i]))
    }
}

/// The values of a list of rows.
pub open spec fn rows(v: Seq<(String, String)>) -> Seq<(Seq<char>, Seq<char>)> {
    Seq::new(v.len(), |i: int| (v[i].0@, v[i].1@))
}

/// The language versions of a page whose links and language are given.
pub fn languages_of(
    all: &Vec<Alternate>,
    current: &str,
    url: &str,
    here: &str,
) -> (r: Vec<(String, String)>)
    ensures
        rows(r@) == language_rows(links(all@), current@, url@, here@),
{
    let ghost given = links(all@);
    let mut codes: Vec<String> = Vec::new();
    let mut hrefs: Vec<String> = Vec::new();
    assert(text::views(codes@) =~= seq![]);
    assert(text::views(hrefs@) =~= seq![]);
    let mut i: usize = 0;
    while i < all.len()
        invariant
            i <= all.len(),
            given == links(all@),
            codes@.len() == hrefs@.len(),
            (text::views(codes@), text::views(hrefs@)) == alternates(given.take(i as int), url@),
        decreases all.len() - i,
    {
        let link = &all[i];
        let ghost codes0 = codes@;
        let ghost hrefs0 = hrefs@;
        assert(given.take(i + 1).drop_last() =~= given.take(i as int));
        assert(given.take(i + 1).last() == (link.rel@, link.hreflang@, link.href@));
        let rel = chars_of(link.rel.as_str());
        if contains_word(rel.as_slice(), "alternate") && !contains_word(
            rel.as_slice(),
            "stylesheet",
        ) {
            let code = primary_subtag(link.hreflang.as_str());
            let href = sicompass_sdk::ffon::html_resolve_href(link.href.as_str(), url);
            if !code.as_str().is_empty() && !same_text(code.as_str(), "x")
                && !href.as_str().is_empty() && !crate::history::lists(&codes, code.as_str()) {
                codes.push(code);
                hrefs.push(href);
                assert(text::views(codes@) =~= text::views(codes0).push(primary(link.hreflang@)));
                assert(text::views(hrefs@) =~= text::views(hrefs0).push(
                    outside::resolved_href(link.href@, url@),
                ));
            }
        }
        i = i + 1;
    }
    assert(given.take(given.len() as int) =~= given);
    if !current.is_empty() && !same_text(current, "x") && !crate::history::lists(&codes, current) {
        let ghost codes0 = codes@;
        let ghost hrefs0 = hrefs@;
        codes.push(current.to_owned());
        hrefs.push(url.to_owned());
        assert(text::views(codes@) =~= text::views(codes0).push(current@));
        assert(text::views(hrefs@) =~= text::views(hrefs0).push(url@));
    }
    let ghost names = languages(given, current@, url@);
    assert(names == (text::views(codes@), text::views(hrefs@)));
    let mut r: Vec<(String, String)> = Vec::new();
    if codes.len() < 2 {
        assert(rows(r@) =~= seq![]);
        return r;
    }
    let mut k: usize = 0;
    while k < codes.len()
        invariant
            k <= codes.len(),
            codes@.len() == hrefs@.len(),
            names == (text::views(codes@), text::views(hrefs@)),
            rows(r@) == Seq::new(
                k as nat,
                |j: int| (language_row(names.0[j], current@, here@), names.1[j]),
            ),
        decreases codes.len() - k,
    {
        let mut label = language_label(codes[k].as_str());
        if same_text(codes[k].as_str(), current) {
            label.append(" (");
            label.append(here);
            label.append(")");
        }
        assert(label@ == language_row(names.0[k as int], current@, here@));
        let ghost before = r@;
        assert(names.1[k as int] == hrefs@[k as int]@);
        r.push((label, hrefs[k].clone()));
        assert(rows(r@) =~= rows(before).push((label@, names.1[k as int])));
        k = k + 1;
        assert(rows(r@) =~= Seq::new(
            k as nat,
            |j: int| (language_row(names.0[j], current@, here@), names.1[j]),
        ));
    }
    assert(rows(r@) =~= language_rows(given, current@, url@, here@));
    r
}

/// The attributes of a link that says "the same page, in that language".
pub const LINK_ATTRIBUTES: [&'static str; 3] = ["rel", "hreflang", "href"];

/// The attribute of a document that says what language it is written in.
pub const LANG_ATTRIBUTES: [&'static str; 1] = ["lang"];

/// The alternates among what the selector found; a missing attribute is empty.
pub open spec fn alternates_found(found: Option<Seq<Seq<Option<Seq<char>>>>>) -> Seq<Link> {
    match found {
        None => seq![],
        Some(all) => Seq::new(
            all.len(),
            |i: int| (or_empty(all[i][0]), or_empty(all[i][1]), or_empty(all[i][2])),
        ),
    }
}

pub open spec fn or_empty(o: Option<Seq<char>>) -> Seq<char> {
    match o {
        Some(t) => t,
        None => seq![],
    }
}

/// The language of the first element found; empty where it says none.
pub open spec fn language_found(found: Option<Seq<Seq<Option<Seq<char>>>>>) -> Seq<char> {
    match found {
        Some(all) => if all.len() > 0 && all[0][0] is Some {
            primary(all[0][0]->0)
        } else {
            seq![]
        },
        None => seq![],
    }
}

/// The links in the head of the document that name another version of it.
pub open spec fn page_links(html: Seq<char>) -> Seq<Link> {
    alternates_found(outside::selected(html, "head link[rel][hreflang][href]"@, LINK_ATTRIBUTES@))
}

/// The language the document says it is written in.
pub open spec fn page_language(html: Seq<char>) -> Seq<char> {
    language_found(outside::selected(html, "html"@, LANG_ATTRIBUTES@))
}

fn attribute(o: &Option<String>) -> (r: String)
    ensures
        r@ == or_empty(
            match *o {
                Some(t) => Some(t@),
                None => None,
            },
        ),
{
    match o {
        Some(t) => t.clone(),
        None => String::new(),
    }
}

fn read_links(html: &str) -> (r: Vec<Alternate>)
    ensures
        links(r@) == page_links(html@),
{
    let found = select_attributes(html, "head link[rel][hreflang][href]", LINK_ATTRIBUTES.as_slice());
    let mut r: Vec<Alternate> = Vec::new();
    match found {
        None => {
            assert(links(r@) =~= seq![]);
        },
        Some(all) => {
            let mut i: usize = 0;
            let ghost want = alternates_found(Some(outside::attributes(all@)));
            while i < all.len()
                invariant
                    i <= all.len(),
                    want == alternates_found(Some(outside::attributes(all@))),
                    forall|k: int| 0 <= k < all@.len() ==> (#[trigger] all@[k])@.len() == 3,
                    links(r@) == want.take(i as int),
                decreases all.len() - i,
            {
                let ghost before = r@;
                let row = &all[i];
                assert(outside::attributes(all@)[i as int].len() == 3);
                r.push(
                    Alternate {
                        rel: attribute(&row[0]),
                        hreflang: attribute(&row[1]),
                        href: attribute(&row[2]),
                    },
                );
                assert(links(r@) =~= links(before).push(want[i as int]));
                i = i + 1;
                assert(links(r@) =~= want.take(i as int));
            }
            assert(want.take(want.len() as int) =~= want);
        },
    }
    r
}

fn read_language(html: &str) -> (r: String)
    ensures
        r@ == page_language(html@),
{
    match select_attributes(html, "html", LANG_ATTRIBUTES.as_slice()) {
        Some(all) => {
            if all.len() > 0 {
                assert(outside::attributes(all@)[0].len() == 1);
                if let Some(lang) = &all[0][0] {
                    assert(outside::attributes(all@)[0][0] == Some(lang@));
                    return primary_subtag(lang.as_str());
                }
            }
            String::new()
        },
        None => String::new(),
    }
}

/// The message for the language version being read.
pub const LANGUAGE_CURRENT: &'static str = "webbrowser-language-current";

/// The language versions this page declares for itself, as rows of a name and
/// an address, in the order the page declares them.
///
/// They are read from the links in its head and from the language the
/// document says it is written in; the page being read is named in the
/// language of the user.
pub fn declared_languages(html: &str, url: &str) -> (r: Vec<(String, String)>)
    ensures
        exists|here: Seq<char>|
            outside::worded(LANGUAGE_CURRENT@, here) && rows(r@) == #[trigger] language_rows(
                page_links(html@),
                page_language(html@),
                url@,
                here,
            ),
{
    let here = sicompass_sdk::localize::t(LANGUAGE_CURRENT);
    let r = languages_of(
        &read_links(html),
        read_language(html).as_str(),
        url,
        here.as_str(),
    );
    assert(rows(r@) == language_rows(page_links(html@), page_language(html@), url@, here@));
    r
}

// ---------------------------------------------------------------------------
// Laws
// ---------------------------------------------------------------------------

/// A list of languages, each once, and an address for each.
pub open spec fn proper(codes: Seq<Seq<char>>, hrefs: Seq<Seq<char>>) -> bool {
    &&& codes.len() == hrefs.len()
    &&& codes.no_duplicates()
    &&& forall|i: int| 0 <= i < codes.len() ==> (#[trigger] codes[i]).len() > 0 && codes[i] != "x"@
}

proof fn lemma_proper_push(codes: Seq<Seq<char>>, hrefs: Seq<Seq<char>>, code: Seq<char>, href: Seq<char>)
    requires
        proper(codes, hrefs),
        !codes.contains(code),
        code.len() > 0,
        code != "x"@,
    ensures
        proper(codes.push(code), hrefs.push(href)),
{
    let now = codes.push(code);
    assert forall|i: int, j: int| 0 <= i < now.len() && 0 <= j < now.len() && i != j implies now[i]
        != now[j] by {
        if i < codes.len() {
            assert(codes.contains(codes[i]));
        }
        if j < codes.len() {
            assert(codes.contains(codes[j]));
        }
    }
}

proof fn lemma_alternates(all: Seq<Link>, url: Seq<char>)
    ensures
        proper(alternates(all, url).0, alternates(all, url).1),
    decreases all.len(),
{
    if all.len() > 0 {
        let (codes, hrefs) = alternates(all.drop_last(), url);
        lemma_alternates(all.drop_last(), url);
        if adds(codes, all.last(), url) {
            lemma_proper_push(
                codes,
                hrefs,
                primary(all.last().1),
                outside::resolved_href(all.last().2, url),
            );
        }
    }
}

/// Whatever a page declares, every language is listed once, however many
/// regions it comes in, and what is no language is not listed. The language
/// that the page is written in is among them, declared or not. And a page is
/// shown with at least two of them, or with none: one is no choice.
pub proof fn law_the_languages_of_a_page(
    all: Seq<Link>,
    current: Seq<char>,
    url: Seq<char>,
    here: Seq<char>,
)
    ensures
        proper(languages(all, current, url).0, languages(all, current, url).1),
        current.len() > 0 && current != "x"@ ==> languages(all, current, url).0.contains(current),
        language_rows(all, current, url, here).len() != 1,
{
    let (codes, hrefs) = alternates(all, url);
    lemma_alternates(all, url);
    if current.len() > 0 && current != "x"@ && !codes.contains(current) {
        lemma_proper_push(codes, hrefs, current, url);
        assert(codes.push(current)[codes.len() as int] == current);
    }
}

/// The link declares a version of the page in some language: it is an
/// alternate but no style sheet, it names a language, and it leads somewhere.
pub open spec fn declares(link: Link, url: Seq<char>) -> bool {
    &&& has_word(link.0, "alternate"@)
    &&& !has_word(link.0, "stylesheet"@)
    &&& primary(link.1).len() > 0
    &&& primary(link.1) != "x"@
    &&& outside::resolved_href(link.2, url).len() > 0
}

/// The link `k` is the first of `all` that declares the language `code`.
pub open spec fn declares_first(all: Seq<Link>, url: Seq<char>, k: int, code: Seq<char>) -> bool {
    &&& 0 <= k < all.len()
    &&& declares(all[k], url)
    &&& primary(all[k].1) == code
    &&& forall|j: int|
        0 <= j < k ==> !(declares(#[trigger] all[j], url) && primary(all[j].1) == code)
}

/// The first link that declares the language `code` leads to `href`.
pub open spec fn leads_to(all: Seq<Link>, url: Seq<char>, code: Seq<char>, href: Seq<char>) -> bool {
    exists|k: int| #[trigger]
        declares_first(all, url, k, code) && href == outside::resolved_href(all[k].2, url)
}

/// The links declare the languages `codes`, each where the first link that
/// names it leads, in the order of those links.
proof fn lemma_declared(all: Seq<Link>, url: Seq<char>)
    ensures
        ({
            let (codes, hrefs) = alternates(all, url);
            &&& forall|k: int|
                0 <= k < all.len() && declares(#[trigger] all[k], url) ==> codes.contains(
                    primary(all[k].1),
                )
            &&& forall|i: int|
                0 <= i < codes.len() ==> leads_to(all, url, #[trigger] codes[i], hrefs[i])
            &&& forall|i: int, j: int, a: int, b: int|
                0 <= i < j < codes.len() && #[trigger] declares_first(all, url, a, codes[i])
                    && #[trigger] declares_first(all, url, b, codes[j]) ==> a < b
        }),
    decreases all.len(),
{
    if all.len() > 0 {
        let d = all.drop_last();
        let n = d.len() as int;
        let last = all.last();
        let (codes0, hrefs0) = alternates(d, url);
        let (codes, hrefs) = alternates(all, url);
        lemma_declared(d, url);
        lemma_alternates(d, url);
        assert(adds(codes0, last, url) == (declares(last, url) && !codes0.contains(
            primary(last.1),
        )));
        assert forall|k: int, code: Seq<char>| k < n implies declares_first(d, url, k, code)
            == #[trigger] declares_first(all, url, k, code) by {
            if 0 <= k {
                assert(d[k] == all[k]);
            }
            if declares_first(d, url, k, code) {
                assert forall|j: int| 0 <= j < k implies !(declares(#[trigger] all[j], url) && primary(
                    all[j].1,
                ) == code) by {
                    assert(d[j] == all[j]);
                }
            }
            if declares_first(all, url, k, code) {
                assert forall|j: int| 0 <= j < k implies !(declares(#[trigger] d[j], url) && primary(
                    d[j].1,
                ) == code) by {
                    assert(d[j] == all[j]);
                }
            }
        }
        assert forall|k: int| 0 <= k < all.len() && declares(#[trigger] all[k], url) implies codes.contains(
            primary(all[k].1),
        ) by {
            let code = primary(all[k].1);
            if k < n {
                assert(d[k] == all[k]);
                let i = codes0.index_of(code);
                assert(codes[i] == code);
            } else if codes0.contains(code) {
                let i = codes0.index_of(code);
                assert(codes[i] == code);
            } else {
                assert(codes[codes0.len() as int] == code);
            }
        }
        assert forall|i: int| 0 <= i < codes.len() implies leads_to(
            all,
            url,
            #[trigger] codes[i],
            hrefs[i],
        ) by {
            if i < codes0.len() {
                assert(codes[i] == codes0[i]);
                assert(leads_to(d, url, codes0[i], hrefs0[i]));
                let k = choose|k: int| #[trigger]
                    declares_first(d, url, k, codes0[i]) && hrefs0[i] == outside::resolved_href(
                        d[k].2,
                        url,
                    );
                assert(declares_first(all, url, k, codes[i]));
                assert(d[k] == all[k]);
            } else {
                assert forall|j: int| 0 <= j < n implies !(declares(#[trigger] all[j], url) && primary(
                    all[j].1,
                ) == codes[i]) by {
                    assert(d[j] == all[j]);
                }
                assert(declares_first(all, url, n, codes[i]));
            }
        }
        assert forall|i: int, j: int, a: int, b: int|
            0 <= i < j < codes.len() && #[trigger] declares_first(all, url, a, codes[i])
                && #[trigger] declares_first(all, url, b, codes[j]) implies a < b by {
            assert(leads_to(d, url, codes0[i], hrefs0[i]));
            let k = choose|k: int| #[trigger]
                declares_first(d, url, k, codes0[i]) && hrefs0[i] == outside::resolved_href(
                    d[k].2,
                    url,
                );
            assert(declares_first(all, url, k, codes[i]));
            assert(a == k) by {
                if a < k {
                    assert(all[a] == all[a]);
                } else if k < a {
                    assert(all[k] == all[k]);
                }
            }
            if j < codes0.len() {
                assert(codes[j] == codes0[j]);
                assert(leads_to(d, url, codes0[j], hrefs0[j]));
                let m = choose|m: int| #[trigger]
                    declares_first(d, url, m, codes0[j]) && hrefs0[j] == outside::resolved_href(
                        d[m].2,
                        url,
                    );
                assert(declares_first(all, url, m, codes[j]));
                assert(b == m) by {
                    if b < m {
                        assert(all[b] == all[b]);
                    } else if m < b {
                        assert(all[m] == all[m]);
                    }
                }
                assert(declares_first(d, url, a, codes0[i]));
                assert(declares_first(d, url, b, codes0[j]));
            } else if b < n {
                assert(declares(all[b], url));
                assert(d[b] == all[b]);
            }
        }
    }
}

/// The list of languages is what the page declares: every language that a link
/// declares is there, and every one that is there leads where the first link
/// that declares it leads, in the order of those links. The language the page
/// is written in leads to the page itself where no link declares it.
pub proof fn law_the_list_is_what_the_page_declares(
    all: Seq<Link>,
    current: Seq<char>,
    url: Seq<char>,
)
    ensures
        ({
            let (codes, hrefs) = languages(all, current, url);
            &&& forall|k: int|
                0 <= k < all.len() && declares(#[trigger] all[k], url) ==> codes.contains(
                    primary(all[k].1),
                )
            &&& forall|i: int|
                0 <= i < codes.len() ==> {
                    ||| leads_to(all, url, #[trigger] codes[i], hrefs[i])
                    ||| codes[i] == current && hrefs[i] == url && i == codes.len() - 1
                }
            &&& forall|i: int, j: int, a: int, b: int|
                0 <= i < j < codes.len() && #[trigger] declares_first(all, url, a, codes[i])
                    && #[trigger] declares_first(all, url, b, codes[j]) ==> a < b
        }),
{
    lemma_declared(all, url);
    lemma_alternates(all, url);
    let (codes0, hrefs0) = alternates(all, url);
    let (codes, hrefs) = languages(all, current, url);
    if codes.len() > codes0.len() {
        let n = codes0.len() as int;
        assert forall|k: int| 0 <= k < all.len() && declares(#[trigger] all[k], url) implies codes.contains(
            primary(all[k].1),
        ) by {
            let i = codes0.index_of(primary(all[k].1));
            assert(codes[i] == primary(all[k].1));
        }
        assert forall|i: int| 0 <= i < codes.len() implies {
            ||| leads_to(all, url, #[trigger] codes[i], hrefs[i])
            ||| codes[i] == current && hrefs[i] == url && i == codes.len() - 1
        } by {
            if i < n {
                assert(leads_to(all, url, codes0[i], hrefs0[i]));
            }
        }
        assert forall|i: int, j: int, a: int, b: int|
            0 <= i < j < codes.len() && #[trigger] declares_first(all, url, a, codes[i])
                && #[trigger] declares_first(all, url, b, codes[j]) implies a < b by {
            assert(codes[i] == codes0[i]);
            if j < n {
                assert(codes[j] == codes0[j]);
            } else {
                assert(declares(all[b], url));
                assert(codes0.contains(primary(all[b].1)));
            }
        }
    }
}

/// The rows that the user gets name each language and lead to its version, in
/// the order of the list; the one being read is the one that is marked.
pub proof fn law_every_row_leads_to_its_language(
    all: Seq<Link>,
    current: Seq<char>,
    url: Seq<char>,
    here: Seq<char>,
    i: int,
)
    requires
        0 <= i < languages(all, current, url).0.len(),
        languages(all, current, url).0.len() >= 2,
    ensures
        ({
            let (codes, hrefs) = languages(all, current, url);
            let row = language_rows(all, current, url, here)[i];
            let name = label_from(codes[i], 0);
            &&& language_rows(all, current, url, here).len() == codes.len()
            &&& row.1 == hrefs[i]
            &&& codes[i] != current ==> row.0 == name
            &&& codes[i] == current ==> row.0 == name + " ("@ + here + ")"@
        }),
{
}

proof fn lemma_label(code: Seq<char>, from: int, k: int)
    requires
        0 <= from <= k < LANGUAGE_NAMES@.len(),
        LANGUAGE_NAMES@[k].0@ == code,
        forall|j: int| from <= j < k ==> (#[trigger] LANGUAGE_NAMES@[j]).0@ != code,
    ensures
        label_from(code, from) == LANGUAGE_NAMES@[k].1@,
    decreases k - from,
{
    if from < k {
        assert(LANGUAGE_NAMES@[from].0@ != code);
        lemma_label(code, from + 1, k);
    }
}

proof fn lemma_no_label(code: Seq<char>, from: int)
    requires
        0 <= from,
        forall|j: int|
            from <= j < LANGUAGE_NAMES@.len() ==> (#[trigger] LANGUAGE_NAMES@[j]).0@ != code,
    ensures
        label_from(code, from) == text::uppered(code),
    decreases LANGUAGE_NAMES@.len() - from,
{
    if from < LANGUAGE_NAMES@.len() {
        assert(LANGUAGE_NAMES@[from].0@ != code);
        lemma_no_label(code, from + 1);
    }
}

/// A language is called what it calls itself, where that is known, and by its
/// code where it is not.
pub proof fn law_a_language_is_called_what_it_calls_itself(code: Seq<char>, k: int)
    ensures
        0 <= k < LANGUAGE_NAMES@.len() && LANGUAGE_NAMES@[k].0@ == code && (forall|j: int|
            0 <= j < k ==> (#[trigger] LANGUAGE_NAMES@[j]).0@ != code) ==> label_from(code, 0)
            == LANGUAGE_NAMES@[k].1@,
        (forall|j: int|
            0 <= j < LANGUAGE_NAMES@.len() ==> (#[trigger] LANGUAGE_NAMES@[j]).0@ != code)
            ==> label_from(code, 0) == text::uppered(code),
{
    if 0 <= k < LANGUAGE_NAMES@.len() && LANGUAGE_NAMES@[k].0@ == code && (forall|j: int|
        0 <= j < k ==> (#[trigger] LANGUAGE_NAMES@[j]).0@ != code) {
        lemma_label(code, 0, k);
    }
    if forall|j: int|
        0 <= j < LANGUAGE_NAMES@.len() ==> (#[trigger] LANGUAGE_NAMES@[j]).0@ != code {
        lemma_no_label(code, 0);
    }
}

proof fn lemma_subtag_end(s: Seq<char>)
    ensures
        0 <= subtag_end(s) <= s.len(),
        forall|i: int| 0 <= i < subtag_end(s) ==> #[trigger] s[i] != '-' && s[i] != '_',
        subtag_end(s) < s.len() ==> s[subtag_end(s)] == '-' || s[subtag_end(s)] == '_',
    decreases s.len(),
{
    if s.len() > 0 && s[0] != '-' && s[0] != '_' {
        lemma_subtag_end(s.skip(1));
        assert forall|i: int| 0 <= i < subtag_end(s) implies #[trigger] s[i] != '-' && s[i] != '_' by {
            if i > 0 {
                assert(s[i] == s.skip(1)[i - 1]);
            }
        }
    }
}

/// The region of a language does not matter, nor does its case: `nl-BE`,
/// `nl_BE` and `NL` are `nl`.
pub proof fn law_the_region_does_not_matter(language: Seq<char>, sep: char, region: Seq<char>)
    requires
        language.len() > 0,
        forall|i: int|
            0 <= i < language.len() ==> #[trigger] language[i] != '-' && language[i] != '_'
                && !text::white_space(language[i]),
        sep == '-' || sep == '_',
        region.len() > 0,
        !text::white_space(region.last()),
    ensures
        primary(language) == text::lowered(language),
        primary(language + seq![sep] + region) == primary(language),
        primary(text::uppered(language)) == primary(language),
{
    let whole = language + seq![sep] + region;
    lemma_trimmed(language);
    lemma_trimmed(whole);
    lemma_subtag_end(language);
    lemma_subtag_end(whole);
    let n = language.len() as int;
    if subtag_end(whole) < n {
        assert(whole[subtag_end(whole)] == language[subtag_end(whole)]);
    }
    assert(whole[n] == sep);
    assert(whole.take(n) =~= language);
    assert(language.take(n) =~= language);
    let large = text::uppered(language);
    assert forall|i: int| 0 <= i < n implies #[trigger] large[i] != '-' && large[i] != '_'
        && !text::white_space(large[i]) && text::lower(large[i]) == text::lower(language[i]) by {
        assert(language[i] != '-');
        lemma_upper(language[i]);
    }
    lemma_trimmed(large);
    lemma_subtag_end(large);
    assert(large.take(n) =~= large);
    assert(text::lowered(large) =~= text::lowered(language));
}

proof fn lemma_upper(c: char)
    ensures
        text::lower(text::upper(c)) == text::lower(c),
        c != '-' && c != '_' && !text::white_space(c) ==> text::upper(c) != '-' && text::upper(c)
            != '_' && !text::white_space(text::upper(c)),
{
}

proof fn lemma_trimmed(s: Seq<char>)
    requires
        s.len() > 0,
        !text::white_space(s[0]),
        !text::white_space(s.last()),
    ensures
        text::trim_of(s) == s,
{
}

/// A word is found wherever it stands in a list of words, and in whatever case.
pub proof fn law_a_word_is_found_anywhere(front: Seq<char>, word: Seq<char>, back: Seq<char>)
    requires
        word.len() > 0,
        forall|i: int| 0 <= i < word.len() ==> !text::white_space(#[trigger] word[i]),
        front.len() == 0 || text::white_space(front.last()),
        back.len() == 0 || text::white_space(back[0]),
    ensures
        has_word(front + word + back, text::lowered(word)),
        has_word(Seq::<char>::empty(), word) == false,
{
    let s = front + word + back;
    let i = front.len() as int;
    let j = i + word.len();
    assert(s.subrange(i, j) =~= word);
    assert forall|k: int| i <= k < j implies !text::white_space(#[trigger] s[k]) by {
        assert(s[k] == word[k - i]);
    }
    if i > 0 {
        assert(s[i - 1] == front.last());
    }
    if j < s.len() {
        assert(s[j] == back[0]);
    }
    assert(word_at(s, i, j));
}

/// What a link says is read under the name that it says it by.
pub proof fn law_a_link_is_read_by_the_names_of_its_attributes(
    found: Seq<Seq<Option<Seq<char>>>>,
    i: int,
    k: int,
    said: Seq<char>,
)
    requires
        0 <= i < found.len(),
        0 <= k < 3,
        found[i][k] == Some(said),
    ensures
        alternates_found(Some(found)).len() == found.len(),
        LINK_ATTRIBUTES@[k]@ == "rel"@ ==> alternates_found(Some(found))[i].0 == said,
        LINK_ATTRIBUTES@[k]@ == "hreflang"@ ==> alternates_found(Some(found))[i].1 == said,
        LINK_ATTRIBUTES@[k]@ == "href"@ ==> alternates_found(Some(found))[i].2 == said,
        alternates_found(None).len() == 0,
{
    reveal_strlit("rel");
    reveal_strlit("hreflang");
    reveal_strlit("href");
    assert("rel"@.len() == 3 && "hreflang"@.len() == 8 && "href"@.len() == 4);
}

/// The language of a page is the one that its document names, without the
/// region; where it names none there is none.
pub proof fn law_the_language_is_the_one_the_document_names(
    found: Seq<Seq<Option<Seq<char>>>>,
    code: Seq<char>,
)
    ensures
        found.len() > 0 && found[0][0] == Some(code) ==> language_found(Some(found)) == primary(code),
        found.len() > 0 && found[0][0] is None ==> language_found(Some(found)).len() == 0,
        language_found(None).len() == 0,
{
}

/// A style sheet is no version of the page, whatever language it names, and
/// neither is a link that does not call itself an alternate.
pub proof fn law_a_style_sheet_is_no_version(all: Seq<Link>, link: Link, url: Seq<char>)
    requires
        has_word(link.0, "stylesheet"@) || !has_word(link.0, "alternate"@),
    ensures
        alternates(all.push(link), url) == alternates(all, url),
{
    assert(all.push(link).drop_last() =~= all);
}

} // verus!
