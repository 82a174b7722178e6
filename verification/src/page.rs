//! A loaded page, and how it is put before the reader.
//!
//! A bot check or a CAPTCHA is still a page: its content is never thrown away,
//! it is only announced by a line in front. The languages that a page declares
//! for itself come last.

use crate::forms;
use crate::forms::FormMap;
use crate::languages;
use crate::languages::declared_languages;
use crate::outside;
use crate::outside::render_html;
use crate::text;
use crate::text::{chars_of, holds, mentions_any};
use crate::tree;
use crate::tree::{ffon_text_len, Element, Section};
use vstd::prelude::*;

verus! {

/// Markers that identify a bot check, each with the name of who makes it.
pub const BOT_WALL_MARKERS: [(&'static str, &'static str); 14] = [
    ("sorry, you have been blocked", "Cloudflare"),
    ("cf-error-1010", "Cloudflare"),
    ("cf-error-1020", "Cloudflare"),
    ("attention required! | cloudflare", "Cloudflare"),
    ("checking your browser before accessing", "Cloudflare"),
    ("/cdn-cgi/challenge-platform/", "Cloudflare"),
    ("captcha-delivery.com", "DataDome"),
    ("geo.captcha-delivery", "DataDome"),
    ("_incapsula_resource", "Imperva"),
    ("incapsula incident id", "Imperva"),
    ("pardon our interruption", "Imperva"),
    ("px-captcha", "PerimeterX"),
    ("_px_captcha", "PerimeterX"),
    ("akam-sw.js", "Akamai"),
];

/// CAPTCHA widgets. They also sit on ordinary pages, so they only count where
/// the page has almost nothing else on it.
pub const CAPTCHA_MARKERS: [&'static str; 4] = ["hcaptcha", "recaptcha", "turnstile", "captcha"];

/// Below this many characters a page with a CAPTCHA widget is the challenge
/// itself.
pub const INTERSTITIAL_TEXT_LIMIT: usize = 800;

/// The notice for a page that is a CAPTCHA rather than what was asked for.
pub const CAPTCHA_NOTICE: &'static str =
    "This looks like a CAPTCHA or bot check rather than the page itself. Its own content is shown below.";

/// Who made the bot check that `haystack` is, looked up from row `from` on.
pub open spec fn bot_wall(haystack: Seq<char>, from: int) -> Option<Seq<char>>
    decreases BOT_WALL_MARKERS@.len() - from,
{
    if from < 0 || from >= BOT_WALL_MARKERS@.len() {
        None
    } else if text::occurs(haystack, BOT_WALL_MARKERS@[from].0@) {
        Some(BOT_WALL_MARKERS@[from].1@)
    } else {
        bot_wall(haystack, from + 1)
    }
}

/// The notice for a page with the lower-case source `haystack` and `len`
/// characters to read, if it is a bot check or a CAPTCHA.
pub open spec fn notice_for(haystack: Seq<char>, len: nat) -> Option<Seq<char>> {
    match bot_wall(haystack, 0) {
        Some(vendor) => Some(
            "Bot check ("@ + vendor + "). The page it returned is shown below."@,
        ),
        None => if len < INTERSTITIAL_TEXT_LIMIT && text::mentions(haystack, CAPTCHA_MARKERS@) {
            Some(CAPTCHA_NOTICE@)
        } else {
            None
        },
    }
}

/// The notice for a page whose lower-case source is given.
pub fn notice_in(haystack: &str, elements: &Vec<Element>) -> (r: Option<String>)
    ensures
        text::maybe(r) == notice_for(haystack@, tree::texts_len(tree::nodes(elements@))),
{
    let hay = chars_of(haystack);
    let mut i: usize = 0;
    while i < BOT_WALL_MARKERS.len()
        invariant
            i <= BOT_WALL_MARKERS@.len(),
            hay@ == haystack@,
            bot_wall(haystack@, 0) == bot_wall(haystack@, i as int),
        decreases BOT_WALL_MARKERS@.len() - i,
    {
        if holds(hay.as_slice(), chars_of(BOT_WALL_MARKERS[i].0).as_slice()) {
            let mut r = "Bot check (".to_owned();
            r.append(BOT_WALL_MARKERS[i].1);
            r.append("). The page it returned is shown below.");
            return Some(r);
        }
        i = i + 1;
    }
    if ffon_text_len(elements) < INTERSTITIAL_TEXT_LIMIT && mentions_any(
        hay.as_slice(),
        CAPTCHA_MARKERS.as_slice(),
    ) {
        return Some(CAPTCHA_NOTICE.to_owned());
    }
    None
}

/// A line of notice where `html` is a bot check or a CAPTCHA rather than the
/// page that was asked for.
pub fn challenge_notice(html: &str, elements: &Vec<Element>) -> (r: Option<String>)
    ensures
        text::maybe(r) == notice_for(
            outside::lowercase(html@),
            tree::texts_len(tree::nodes(elements@)),
        ),
{
    notice_in(html.to_lowercase().as_str(), elements)
}

/// A page as the loader got it: the source, and what the loader learned on the
/// way.
#[derive(Debug)]
pub struct PageLoad {
    pub html: String,
    pub notices: Vec<String>,
}

impl PageLoad {
    /// A page with nothing to say about it.
    pub fn plain(html: String) -> (r: PageLoad)
        ensures
            r.html@ == html@,
            r.notices@.len() == 0,
    {
        PageLoad { html, notices: Vec::new() }
    }
}

/// A text as a line of the tree.
pub open spec fn line_nodes(s: Seq<Seq<char>>) -> Seq<tree::Node> {
    Seq::new(s.len(), |i: int| tree::Node::Str(s[i]))
}

/// The section that lists the language versions.
pub open spec fn language_section(
    rows: Seq<(Seq<char>, Seq<char>)>,
    title: Seq<char>,
) -> Seq<tree::Node> {
    if rows.len() == 0 {
        seq![]
    } else {
        seq![
            tree::Node::Obj(
                title,
                Seq::new(
                    rows.len(),
                    |i: int|
                        tree::Node::Obj(
                            rows[i].0 + " <link>"@ + rows[i].1 + "</link>"@,
                            Seq::empty(),
                        ),
                ),
            ),
        ]
    }
}

/// The page as the reader gets it: the notices of the loader, then what the
/// content itself gives away, the content, and the language versions.
pub open spec fn page_nodes(
    notices: Seq<Seq<char>>,
    challenge: Option<Seq<char>>,
    content: Seq<tree::Node>,
    rows: Seq<(Seq<char>, Seq<char>)>,
    title: Seq<char>,
) -> Seq<tree::Node> {
    line_nodes(notices) + (match challenge {
        Some(t) => seq![tree::Node::Str(t)],
        None => seq![],
    }) + content + language_section(rows, title)
}

/// Put a page together from its parts.
pub fn assemble(
    notices: &Vec<String>,
    challenge: Option<String>,
    content: Vec<Element>,
    rows: &Vec<(String, String)>,
    title: &str,
) -> (r: Vec<Element>)
    ensures
        tree::nodes(r@) == page_nodes(
            text::views(notices@),
            text::maybe(challenge),
            tree::nodes(content@),
            languages::rows(rows@),
            title@,
        ),
{
    let ghost told = text::views(notices@);
    let mut r: Vec<Element> = Vec::new();
    let mut i: usize = 0;
    assert(tree::nodes(r@) =~= line_nodes(told.take(0)));
    while i < notices.len()
        invariant
            i <= notices.len(),
            told == text::views(notices@),
            tree::nodes(r@) == line_nodes(told.take(i as int)),
        decreases notices.len() - i,
    {
        let ghost before = r@;
        r.push(Element::new_str(notices[i].as_str()));
        assert(tree::nodes(r@) =~= tree::nodes(before).push(tree::Node::Str(told[i as int])));
        i = i + 1;
        assert(tree::nodes(r@) =~= line_nodes(told.take(i as int)));
    }
    assert(told.take(told.len() as int) =~= told);
    let ghost first = line_nodes(told);
    let ghost second: Seq<tree::Node> = match text::maybe(challenge) {
        Some(t) => seq![tree::Node::Str(t)],
        None => seq![],
    };
    if let Some(t) = challenge {
        r.push(Element::Str(t));
    }
    assert(tree::nodes(r@) =~= first + second);
    let ghost third = tree::nodes(content@);
    let mut content = content;
    r.append(&mut content);
    assert(tree::nodes(r@) =~= first + second + third);
    let ghost given = languages::rows(rows@);
    if rows.len() > 0 {
        let ghost want = Seq::new(
            given.len(),
            |i: int|
                tree::Node::Obj(given[i].0 + " <link>"@ + given[i].1 + "</link>"@, Seq::empty()),
        );
        let mut children: Vec<Element> = Vec::new();
        let mut k: usize = 0;
        while k < rows.len()
            invariant
                k <= rows.len(),
                given == languages::rows(rows@),
                want == Seq::new(
                    given.len(),
                    |i: int|
                        tree::Node::Obj(
                            given[i].0 + " <link>"@ + given[i].1 + "</link>"@,
                            Seq::empty(),
                        ),
                ),
                tree::nodes(children@) == want.take(k as int),
            decreases rows.len() - k,
        {
            let ghost before = children@;
            let mut key = rows[k].0.clone();
            key.append(" <link>");
            key.append(rows[k].1.as_str());
            key.append("</link>");
            children.push(Element::new_obj(key.as_str()));
            assert(tree::nodes(children@) =~= tree::nodes(before).push(want[k as int]));
            k = k + 1;
            assert(tree::nodes(children@) =~= want.take(k as int));
        }
        assert(want.take(want.len() as int) =~= want);
        let section = Section { key: title.to_owned(), children };
        proof {
            tree::lemma_section(section);
        }
        let ghost before = r@;
        r.push(Element::Obj(section));
        assert(tree::nodes(r@) =~= tree::nodes(before) + language_section(given, title@));
    } else {
        assert(language_section(given, title@) =~= seq![]);
        assert(tree::nodes(r@) =~= first + second + third + language_section(given, title@));
    }
    r
}

/// The page with the translated words `title` and `here` in it.
pub open spec fn rendered(
    html: Seq<char>,
    notices: Seq<Seq<char>>,
    url: Seq<char>,
    title: Seq<char>,
    here: Seq<char>,
) -> Seq<tree::Node> {
    let content = outside::html_page(html, url).0;
    page_nodes(
        notices,
        notice_for(outside::lowercase(html), tree::texts_len(content)),
        content,
        languages::language_rows(
            languages::page_links(html),
            languages::page_language(html),
            url,
            here,
        ),
        title,
    )
}

/// The message for the title of the section that lists the language versions.
pub const LANGUAGES_TITLE: &'static str = "webbrowser-languages";

/// `nodes` is the page that `load`, read from `url`, is put before the reader
/// as, with its translated words in the language of the user.
pub open spec fn renders(nodes: Seq<tree::Node>, load: PageLoad, url: Seq<char>) -> bool {
    exists|title: Seq<char>, here: Seq<char>|
        outside::worded(LANGUAGES_TITLE@, title) && outside::worded(
            languages::LANGUAGE_CURRENT@,
            here,
        ) && nodes == #[trigger] rendered(load.html@, text::views(load.notices@), url, title, here)
}

/// Render a loaded page: every notice as a leading line, and the language
/// versions the page declares as a trailing section. The title of that
/// section and the word for the language being read are in the language of
/// the user.
pub fn page_to_ffon_with_forms(load: &PageLoad, url: &str) -> (r: (Vec<Element>, FormMap))
    ensures
        renders(tree::nodes(r.0@), *load, url@),
        r.1.wf(),
        r.1@ == outside::html_page(load.html@, url@).1,
{
    let (elements, forms) = render_html(load.html.as_str(), url);
    let challenge = challenge_notice(load.html.as_str(), &elements);
    let rows = declared_languages(load.html.as_str(), url);
    let title = sicompass_sdk::localize::t(LANGUAGES_TITLE);
    let ghost here = choose|here: Seq<char>|
        outside::worded(languages::LANGUAGE_CURRENT@, here) && languages::rows(rows@) == #[trigger] languages::language_rows(
            languages::page_links(load.html@),
            languages::page_language(load.html@),
            url@,
            here,
        );
    let r = assemble(&load.notices, challenge, elements, &rows, title.as_str());
    assert(tree::nodes(r@) == rendered(
        load.html@,
        text::views(load.notices@),
        url@,
        title@,
        here,
    ));
    (r, forms)
}

/// Nothing of a page is thrown away: whatever is announced in front of it and
/// whatever follows it, its own content stands there, whole and in order, behind
/// the notices and before the language versions, which come last.
pub proof fn law_the_content_is_all_there(
    notices: Seq<Seq<char>>,
    challenge: Option<Seq<char>>,
    content: Seq<tree::Node>,
    rows: Seq<(Seq<char>, Seq<char>)>,
    title: Seq<char>,
)
    ensures
        ({
            let page = page_nodes(notices, challenge, content, rows, title);
            let front = notices.len() + (if challenge is Some {
                1int
            } else {
                0
            });
            let end = front + content.len();
            &&& forall|i: int|
                0 <= i < notices.len() ==> #[trigger] page[i] == tree::Node::Str(notices[i])
            &&& page.subrange(front, end) == content
            &&& page.skip(end) == language_section(rows, title)
        }),
{
    let page = page_nodes(notices, challenge, content, rows, title);
    let front = notices.len() + (if challenge is Some {
        1int
    } else {
        0
    });
    let end = front + content.len();
    assert(page.subrange(front, end) =~= content);
    assert(page.skip(end) =~= language_section(rows, title));
}

proof fn lemma_bot_wall(haystack: Seq<char>, from: int)
    requires
        0 <= from,
    ensures
        match bot_wall(haystack, from) {
            Some(vendor) => exists|k: int|
                from <= k < BOT_WALL_MARKERS@.len() && vendor == BOT_WALL_MARKERS@[k].1@
                    && #[trigger] text::occurs(haystack, BOT_WALL_MARKERS@[k].0@),
            None => forall|k: int|
                from <= k < BOT_WALL_MARKERS@.len() ==> !text::occurs(
                    haystack,
                    #[trigger] BOT_WALL_MARKERS@[k].0@,
                ),
        },
    decreases BOT_WALL_MARKERS@.len() - from,
{
    if from < BOT_WALL_MARKERS@.len() {
        if !text::occurs(haystack, BOT_WALL_MARKERS@[from].0@) {
            lemma_bot_wall(haystack, from + 1);
        }
    }
}

/// A bot check is announced by the name of who makes it, wherever one of its
/// marks stands in the source and however much there is to read. A CAPTCHA
/// widget is announced on a page with almost nothing else on it. Nothing else
/// is announced.
pub proof fn law_a_bot_check_is_announced(haystack: Seq<char>, len: nat)
    ensures
        match notice_for(haystack, len) {
            Some(notice) => {
                ||| exists|k: int|
                    0 <= k < BOT_WALL_MARKERS@.len() && #[trigger] text::occurs(
                        haystack,
                        BOT_WALL_MARKERS@[k].0@,
                    ) && notice == "Bot check ("@ + BOT_WALL_MARKERS@[k].1@
                        + "). The page it returned is shown below."@
                ||| len < 800 && notice == CAPTCHA_NOTICE@ && exists|k: int|
                    0 <= k < CAPTCHA_MARKERS@.len() && text::occurs(
                        haystack,
                        #[trigger] CAPTCHA_MARKERS@[k]@,
                    )
            },
            None => {
                &&& forall|k: int|
                    0 <= k < BOT_WALL_MARKERS@.len() ==> !text::occurs(
                        haystack,
                        #[trigger] BOT_WALL_MARKERS@[k].0@,
                    )
                &&& len < 800 ==> forall|k: int|
                    0 <= k < CAPTCHA_MARKERS@.len() ==> !text::occurs(
                        haystack,
                        #[trigger] CAPTCHA_MARKERS@[k]@,
                    )
            },
        },
{
    lemma_bot_wall(haystack, 0);
}

/// A page is put before the reader whole: the notices of the loader in front,
/// one line each and in order, then all of its own content in order, and at
/// most one section behind it.
pub proof fn law_a_page_is_put_before_the_reader_whole(
    nodes: Seq<tree::Node>,
    load: PageLoad,
    url: Seq<char>,
)
    requires
        renders(nodes, load, url),
    ensures
        ({
            let content = outside::html_page(load.html@, url).0;
            let told = load.notices@.len();
            &&& nodes.len() >= told + content.len()
            &&& forall|i: int|
                0 <= i < told ==> #[trigger] nodes[i] == tree::Node::Str(load.notices@[i]@)
            &&& exists|from: int|
                told <= from <= told + 1 && #[trigger] nodes.subrange(from, from + content.len())
                    == content && from + content.len() <= nodes.len() <= from + content.len() + 1
        }),
{
    let (title, here) = choose|title: Seq<char>, here: Seq<char>|
        outside::worded(LANGUAGES_TITLE@, title) && outside::worded(
            languages::LANGUAGE_CURRENT@,
            here,
        ) && nodes == #[trigger] rendered(load.html@, text::views(load.notices@), url, title, here);
    let content = outside::html_page(load.html@, url).0;
    let notices = text::views(load.notices@);
    let challenge = notice_for(outside::lowercase(load.html@), tree::texts_len(content));
    let rows = languages::language_rows(
        languages::page_links(load.html@),
        languages::page_language(load.html@),
        url,
        here,
    );
    law_the_content_is_all_there(notices, challenge, content, rows, title);
    let from = notices.len() + (if challenge is Some {
        1int
    } else {
        0
    });
    assert forall|i: int| 0 <= i < load.notices@.len() implies #[trigger] nodes[i] == tree::Node::Str(
        load.notices@[i]@,
    ) by {
        assert(notices[i] == load.notices@[i]@);
    }
    assert(nodes.subrange(from, from + content.len()) == content);
}

/// Every language version is listed with its name and leads where it is
/// declared, in order; with nothing to choose from there is no section.
pub proof fn law_every_version_leads_where_it_is_declared(
    rows: Seq<(Seq<char>, Seq<char>)>,
    title: Seq<char>,
    i: int,
)
    requires
        0 <= i < rows.len(),
    ensures
        language_section(rows, title).len() == 1,
        language_section(Seq::<(Seq<char>, Seq<char>)>::empty(), title).len() == 0,
        language_section(rows, title)[0] matches tree::Node::Obj(t, kids) && t == title
            && kids.len() == rows.len() && (kids[i] matches tree::Node::Obj(key, below)
            && below.len() == 0 && text::begins(key, rows[i].0) && key.skip(
            rows[i].0.len() as int,
        ) == " <link>"@ + rows[i].1 + "</link>"@),
{
    let key = rows[i].0 + " <link>"@ + rows[i].1 + "</link>"@;
    assert(key.subrange(0, rows[i].0.len() as int) =~= rows[i].0);
    assert(key.skip(rows[i].0.len() as int) =~= " <link>"@ + rows[i].1 + "</link>"@);
}

/// Behind the content stands one line for each language version that the page
/// declares, read in the language that the page says it is in.
pub proof fn law_the_languages_stand_behind_the_content(
    nodes: Seq<tree::Node>,
    load: PageLoad,
    url: Seq<char>,
)
    requires
        renders(nodes, load, url),
    ensures
        exists|here: Seq<char>| #[trigger]
            outside::worded("webbrowser-language-current"@, here) && {
                let rows = languages::language_rows(
                    languages::page_links(load.html@),
                    languages::page_language(load.html@),
                    url,
                    here,
                );
                rows.len() > 0 ==> (nodes.len() > 0 && (nodes.last() matches tree::Node::Obj(_, kids)
                    && kids.len() == rows.len() && forall|i: int|
                    0 <= i < rows.len() ==> #[trigger] kids[i] == tree::Node::Obj(
                        rows[i].0 + " <link>"@ + rows[i].1 + "</link>"@,
                        Seq::empty(),
                    )))
            },
{
    let (title, here) = choose|title: Seq<char>, here: Seq<char>|
        outside::worded(LANGUAGES_TITLE@, title) && outside::worded(
            languages::LANGUAGE_CURRENT@,
            here,
        ) && nodes == #[trigger] rendered(load.html@, text::views(load.notices@), url, title, here);
    assert(outside::worded("webbrowser-language-current"@, here));
}

} // verus!
