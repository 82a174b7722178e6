//! The step that asks a cookie question: the script that finds the choices in
//! the page, the page that offers them, and the order of the attempts.

use crate::consent;
use crate::consent::{
    google_consent_or_fallback, html_has_consent_wall, html_has_inline_consent_banner,
    is_consent_wall_str, GoogleConsent, ACCEPT_KEYWORDS, BANNER_SELECTORS, CMP_REJECT_SELECTORS,
    CMP_SELECTORS, CONSENT_DEBRIS, CONSENT_VENDOR_SCRIPTS, REJECT_KEYWORDS, SETTINGS_KEYWORDS,
};
use crate::forms;
use crate::forms::js_quote;
use crate::json;
use crate::outside;
use crate::outside::debug_quote;
use crate::page::PageLoad;
use crate::text;
use crate::text::chars_of;
use vstd::prelude::*;

verus! {

/// What the id of a choice's button begins with.
pub const CONSENT_BUTTON_PREFIX: &'static str = "sic-consent-";

/// The key of the line that introduces the step.
pub const CONSENT_NOTICE_KEY: &'static str = "webbrowser-step-consent";

/// The key of the line in front of a wall that offered no choice.
pub const CONSENT_UNRECOGNISED_KEY: &'static str = "webbrowser-consent-unrecognised";

// ---------------------------------------------------------------------------
// The script
// ---------------------------------------------------------------------------

/// The views of a list of texts.
pub open spec fn texts(items: Seq<&str>) -> Seq<Seq<char>> {
    Seq::new(items.len(), |i: int| items[i]@)
}

/// The texts `items`, each as a JSON string.
pub open spec fn quoted_items(items: Seq<Seq<char>>) -> Seq<Seq<char>> {
    Seq::new(items.len(), |i: int| forms::js_quoted(items[i]))
}

/// The texts `items` as a JSON array.
pub open spec fn array_js(items: Seq<Seq<char>>) -> Seq<char> {
    "["@ + text::joined(quoted_items(items), ","@) + "]"@
}

/// Write a list of texts as a JSON array for use in a script.
pub fn js_array(items: &[&str]) -> (r: String)
    ensures
        r@ == array_js(texts(items@)),
{
    let ghost want = quoted_items(texts(items@));
    let mut body = String::new();
    let mut i: usize = 0;
    while i < items.len()
        invariant
            i <= items.len(),
            want == quoted_items(texts(items@)),
            body@ == text::joined(want.take(i as int), ","@),
        decreases items.len() - i,
    {
        assert(want.take(i + 1).drop_last() =~= want.take(i as int));
        if i > 0 {
            body.append(",");
        }
        body.append(js_quote(items[i]).as_str());
        i = i + 1;
    }
    assert(want.take(want.len() as int) =~= want);
    let mut r = "[".to_owned();
    r.append(body.as_str());
    r.append("]");
    r
}

proof fn lemma_joined_front(parts: Seq<Seq<char>>, sep: Seq<char>)
    requires
        parts.len() > 1,
    ensures
        text::joined(parts, sep) == parts[0] + sep + text::joined(parts.skip(1), sep),
    decreases parts.len(),
{
    let d = parts.drop_last();
    assert(parts.skip(1).drop_last() =~= d.skip(1));
    if parts.len() == 2 {
        assert(text::joined(d, sep) == parts[0]);
        assert(text::joined(parts.skip(1), sep) == parts[1]);
    } else {
        lemma_joined_front(d, sep);
        assert(text::joined(parts, sep) =~= parts[0] + sep + text::joined(parts.skip(1), sep));
    }
}

proof fn lemma_items_read_back(items: Seq<Seq<char>>, rest: Seq<char>)
    requires
        items.len() > 0,
    ensures
        json::items_read(text::joined(quoted_items(items), ","@) + seq![']'] + rest) == Some(
            (items, rest),
        ),
    decreases items.len(),
{
    reveal_strlit(",");
    let quoted = quoted_items(items);
    let s = text::joined(quoted, ","@) + seq![']'] + rest;
    let body = forms::js_body(items[0]);
    let more = items.skip(1);
    if items.len() == 1 {
        let tail = seq![']'] + rest;
        assert(quoted[0] == forms::js_quoted(items[0]));
        assert(s =~= seq!['"'] + (body + seq!['"'] + tail));
        assert(s.skip(1) =~= body + seq!['"'] + tail);
        forms::law_a_quoted_text_reads_back(items[0], tail);
        assert(json::skip_blanks(tail) == tail);
        assert(tail.skip(1) =~= rest);
        assert(items =~= seq![items[0]]);
    } else {
        let next = text::joined(quoted_items(more), ","@) + seq![']'] + rest;
        let tail = seq![','] + next;
        lemma_joined_front(quoted, ","@);
        assert(quoted.skip(1) =~= quoted_items(more));
        assert(","@ =~= seq![',']);
        assert(s =~= seq!['"'] + (body + seq!['"'] + tail));
        assert(s.skip(1) =~= body + seq!['"'] + tail);
        forms::law_a_quoted_text_reads_back(items[0], tail);
        assert(json::skip_blanks(tail) == tail);
        assert(tail.skip(1) =~= next);
        lemma_items_read_back(more, rest);
        assert(seq![items[0]] + more =~= items);
    }
}

/// Reading a written array as JSON gives its texts back: the same ones, in the
/// same order, whatever they hold.
pub proof fn law_an_array_reads_back(items: Seq<Seq<char>>)
    ensures
        json::strings_of(array_js(items)) == Some(items),
{
    reveal_strlit("[");
    reveal_strlit("]");
    let s = array_js(items);
    let body = text::joined(quoted_items(items), ","@);
    assert(s[0] == '[');
    assert(json::skip_blanks(s) == s);
    assert("]"@ =~= seq![']']);
    if items.len() == 0 {
        assert(body =~= seq![]);
        assert(s.skip(1) =~= seq![']']);
        assert(json::skip_blanks(s.skip(1)) == s.skip(1));
        assert(s.skip(1).skip(1) =~= seq![]);
        assert(items =~= Seq::empty());
    } else {
        assert(s.skip(1) =~= body + seq![']'] + Seq::<char>::empty());
        lemma_items_read_back(items, Seq::empty());
        lemma_joined_first(quoted_items(items), ","@);
        assert(quoted_items(items)[0] == forms::js_quoted(items[0]));
        assert(s.skip(1)[0] == '"');
        assert(json::skip_blanks(s.skip(1)) == s.skip(1));
    }
}

proof fn lemma_joined_first(parts: Seq<Seq<char>>, sep: Seq<char>)
    requires
        parts.len() > 0,
        parts[0].len() > 0,
    ensures
        text::joined(parts, sep).len() > 0,
        text::joined(parts, sep)[0] == parts[0][0],
{
    if parts.len() > 1 {
        lemma_joined_front(parts, sep);
    }
}

pub const GATE_OPEN: &'static str = r##"(function() {
    const SELS   = "##;

pub const GATE_CMP: &'static str = r##";
    const CMP    = "##;

pub const GATE_CMPREJ: &'static str = r##";
    const CMPREJ = "##;

pub const GATE_DEBRIS: &'static str = r##";
    const DEBRIS = "##;

pub const GATE_REJ: &'static str = r##";
    const REJ    = "##;

pub const GATE_ACC: &'static str = r##";
    const ACC    = "##;

pub const GATE_SET: &'static str = r##";
    const SET    = "##;

pub const GATE_VENDORS: &'static str = r##";
    const VENDORS = "##;

pub const GATE_GOOGLE: &'static str = r##";
    const GOOGLE = "##;

pub const GATE_IS_WALL: &'static str = r##";
    const IS_WALL = "##;

pub const GATE_REBUILD: &'static str = r##";
    const REBUILD = "##;

pub const GATE_ACCEPT: &'static str = r##";
    const L = {accept: "##;

pub const GATE_REJECT: &'static str = r##", reject: "##;

pub const GATE_ID: &'static str = r##"};
    const CONSENT_ID = "##;

pub const GATE_BODY: &'static str = r##";
    const SRC_MARK = 'data-sic-consent-src';
    const VISIBLE = 'display:block !important;visibility:visible !important;';

    const textOf = el => ((el.innerText || el.textContent || '').replace(/\s+/g, ' ').trim());
    const visible = el => { try { return el.getClientRects().length > 0; } catch (e) { return false; } };

    // Idempotent: a second settle on the same page must not stack another copy
    // of the choices.  A deliberate retry does the opposite — it tears the
    // previous set down and rebuilds, because a CMP can render its buttons a
    // beat apart and an early scan would otherwise lock in a partial list.
    const existing = document.querySelectorAll('button[id^="' + CONSENT_ID + '"]');
    if (existing.length) {
        if (!REBUILD) {
            return {gated: true, labels: Array.from(existing).map(b => b.textContent)};
        }
        for (const btn of existing) { const f = btn.closest('form'); if (f) f.remove(); else btn.remove(); }
    }

    // Off-screen vendor scaffolding goes regardless of what we find: it is
    // never content, and the prune deliberately keeps hidden subtrees that
    // contain buttons.  Anything actually on screen is left alone, so a
    // preference centre the user has opened stays readable.
    let marked = false;
    for (const sel of DEBRIS) {
        let els = [];
        try { els = document.querySelectorAll(sel); } catch (e) { continue; }
        for (const el of els) if (!visible(el)) { el.setAttribute(SRC_MARK, ''); marked = true; }
    }

    const choices = [];
    if (GOOGLE) {
        // Google ignores programmatic clicks on its own accept button, even
        // trusted CDP mouse events. Writing SOCS is what actually takes effect.
"##;

/// The two choices of Google's wall, and what each writes.
pub const GATE_SOCS: &'static str = r##"        const setSocs = v => function () {
            document.cookie = 'SOCS=' + v + ';domain=' + GOOGLE.domain +
                ';path=/;max-age=' + GOOGLE.maxAge + ';secure;samesite=lax';
            location.reload();
        };
        choices.push({label: L.reject, kind: 'reject', run: setSocs(GOOGLE.reject)});
        choices.push({label: L.accept, kind: 'accept', run: setSocs(GOOGLE.accept)});
"##;

pub const GATE_FIND: &'static str = r##"    } else {
        let container = null;
        for (const sel of SELS) {
            try { const el = document.querySelector(sel); if (el) { container = el; break; } } catch (e) {}
        }
        // On a wall the whole page *is* the CMP, so there is no container to
        // find and scanning the document is safe — there is nothing else on it.
        const root = container || (IS_WALL ? document : null);
        if (root) {
            const seen = new Set();
            const scan = r => {
                let els = [];
                try { els = r.querySelectorAll('button, a, [role="button"], input[type="submit"]'); } catch (e) { return; }
                for (const el of els) {
                    if (seen.has(el) || !visible(el)) continue;
                    const label = (el.tagName === 'INPUT' ? (el.value || '') : textOf(el));
                    const t = label.toLowerCase();
                    // A consent button says a few words. Anything longer is prose.
                    if (!t || t.length > 60) continue;
                    const matchesAny = list => list.some(s => {
                        try { return el.matches(s); } catch (e) { return false; }
                    });
                    let kind = null;
                    // The vendor's own id first: it survives translation, which
                    // a keyword list never fully does.
                    if (matchesAny(CMPREJ)) kind = 'reject';
                    else if (REJ.some(k => t.includes(k))) kind = 'reject';
                    else if (SET.some(k => t.includes(k))) continue;   // opens a panel, decides nothing
                    else if (ACC.some(k => t.includes(k))) kind = 'accept';
                    else if (matchesAny(CMP)) kind = 'accept';
                    if (!kind) continue;
                    seen.add(el);
                    choices.push({label: label, kind: kind, el: el});
                }
            };
            scan(root);
            if (container && container.shadowRoot) scan(container.shadowRoot);
            if (container) { container.setAttribute(SRC_MARK, ''); marked = true; }
        }
        if (!choices.length) {
            // DPG Media (hln.be, vtm.be, ad.nl, …) publishes the site's own
            // consent callback inline, before its external consent.js loads.
            try {
                const u = window.cmpProperties && window.cmpProperties.siteUrl;
                if (u && u.length) choices.push({label: L.accept, kind: 'accept', href: u});
            } catch (e) {}
        }
    }

    if (!choices.length) {
        // Nothing to answer *yet*: a tag manager may still be injecting the
        // vendor's banner, which is worth one more look. bpost loads OneTrust
        // this way, and it lands a beat after the page otherwise settles.
        const coming = VENDORS.some(v => {
            try { return !!document.querySelector('script[src*="' + v + '"]'); } catch (e) { return false; }
        });
        return {gated: false, labels: [], marked: marked, pending: coming};
    }

    // Refusing is the choice a user has to go looking for on the real web, so
    // it goes first here. Stable within each group, i.e. the site's own order.
    const ordered = choices.filter(c => c.kind === 'reject').concat(choices.filter(c => c.kind !== 'reject'));
    ordered.forEach((c, i) => { c.id = CONSENT_ID + i; });
    insert(ordered);
    // A banner that has offered only one button so far is probably mid-render:
    // worth one more look, so refusing does not go missing.
    return {gated: true, labels: ordered.map(c => c.label), marked: true, pending: ordered.length < 2};

    // One single-button form per choice, prepended to <body> so they are
    // document.forms[0..n-1] — the indices FFON derives from the step page have
    // to match the ones `document.forms[n]` yields here at click time.
    function insert(list) {
        const frag = document.createDocumentFragment();
        for (const c of list) {
            const form = document.createElement('form');
            form.setAttribute('onsubmit', 'return false');
            form.style.cssText = VISIBLE;
            const btn = document.createElement('button');
            btn.type = 'button';
            btn.id = c.id;
            btn.textContent = c.label;
            btn.style.cssText = VISIBLE;
            btn.addEventListener('click', function () {
                const run = c.run, href = c.href, el = c.el;
                // The step is answered, so it stops existing. Without this the
                // next settle would find our own buttons still standing and
                // offer the same step forever — a CMP that hides its banner in
                // place (OneTrust) never navigates to clear them for us.
                for (const b of document.querySelectorAll('button[id^="' + CONSENT_ID + '"]')) {
                    const f = b.closest('form');
                    if (f) f.remove(); else b.remove();
                }
                if (run) run();
                else if (href) window.location.href = href;
                else if (el) el.click();
            });
            form.appendChild(btn);
            frag.appendChild(form);
        }
        document.body.insertBefore(frag, document.body.firstChild);
    }
})()"##;

/// The consent values as a script object.
pub open spec fn google_js(google: Option<consent::Consent>) -> Seq<char> {
    match google {
        Some(g) => "{domain:"@ + outside::debug_quoted(g.domain) + ",accept:"@
            + outside::debug_quoted(g.accept) + ",reject:"@ + outside::debug_quoted(g.reject)
            + ",maxAge:"@ + outside::debug_quoted(g.max_age) + "}"@,
        None => "null"@,
    }
}

pub open spec fn truth(b: bool) -> Seq<char> {
    if b {
        "true"@
    } else {
        "false"@
    }
}

/// The view of consent values that may be missing.
pub open spec fn maybe_consent(google: Option<GoogleConsent>) -> Option<consent::Consent> {
    match google {
        Some(g) => Some(g@),
        None => None,
    }
}

/// The script that finds the cookie decision and turns it into forms, with the
/// names of the two choices.
pub open spec fn gate_js(
    google: Option<consent::Consent>,
    is_wall: bool,
    rebuild: bool,
    accept: Seq<char>,
    reject: Seq<char>,
) -> Seq<char> {
    GATE_OPEN@ + array_js(texts(BANNER_SELECTORS@)) + GATE_CMP@ + array_js(texts(CMP_SELECTORS@)) + GATE_CMPREJ@
        + array_js(texts(CMP_REJECT_SELECTORS@)) + GATE_DEBRIS@ + array_js(texts(CONSENT_DEBRIS@)) + GATE_REJ@
        + array_js(texts(REJECT_KEYWORDS@)) + GATE_ACC@ + array_js(texts(ACCEPT_KEYWORDS@)) + GATE_SET@ + array_js(texts(SETTINGS_KEYWORDS@)) + GATE_VENDORS@ + array_js(texts(CONSENT_VENDOR_SCRIPTS@)) + GATE_GOOGLE@ + google_js(google)
        + GATE_IS_WALL@ + truth(is_wall) + GATE_REBUILD@ + truth(rebuild) + GATE_ACCEPT@
        + outside::debug_quoted(accept) + GATE_REJECT@ + outside::debug_quoted(reject) + GATE_ID@
        + outside::debug_quoted(CONSENT_BUTTON_PREFIX@) + GATE_BODY@ + GATE_SOCS@ + GATE_FIND@
}

/// The message for the name of the choice that accepts everything.
pub const ACCEPT_ALL_KEY: &'static str = "webbrowser-consent-accept-all";

/// The message for the name of the choice that rejects everything.
pub const REJECT_ALL_KEY: &'static str = "webbrowser-consent-reject-all";

/// `js` is that script, with the names of the two choices in the language of
/// the user.
pub open spec fn is_gate_js(
    js: Seq<char>,
    google: Option<consent::Consent>,
    is_wall: bool,
    rebuild: bool,
) -> bool {
    exists|accept: Seq<char>, reject: Seq<char>|
        outside::worded(ACCEPT_ALL_KEY@, accept) && outside::worded(REJECT_ALL_KEY@, reject) && js
            == #[trigger] gate_js(google, is_wall, rebuild, accept, reject)
}

fn write_google(google: &Option<GoogleConsent>) -> (r: String)
    ensures
        r@ == google_js(maybe_consent(*google)),
{
    match google {
        Some(g) => {
            let mut r = "{domain:".to_owned();
            r.append(debug_quote(g.domain.as_str()).as_str());
            r.append(",accept:");
            r.append(debug_quote(g.accept.as_str()).as_str());
            r.append(",reject:");
            r.append(debug_quote(g.reject.as_str()).as_str());
            r.append(",maxAge:");
            r.append(debug_quote(g.max_age.as_str()).as_str());
            r.append("}");
            r
        },
        None => "null".to_owned(),
    }
}

fn write_truth(b: bool) -> (r: &'static str)
    ensures
        r@ == truth(b),
{
    if b {
        "true"
    } else {
        "false"
    }
}

/// Build the script with the names of the two choices given.
pub fn gate_js_with(
    google: &Option<GoogleConsent>,
    is_wall: bool,
    rebuild: bool,
    accept: &str,
    reject: &str,
) -> (r: String)
    ensures
        r@ == gate_js(maybe_consent(*google), is_wall, rebuild, accept@, reject@),
{
    let mut r = GATE_OPEN.to_owned();
    r.append(js_array(BANNER_SELECTORS.as_slice()).as_str());
    r.append(GATE_CMP);
    r.append(js_array(CMP_SELECTORS.as_slice()).as_str());
    r.append(GATE_CMPREJ);
    r.append(js_array(CMP_REJECT_SELECTORS.as_slice()).as_str());
    r.append(GATE_DEBRIS);
    r.append(js_array(CONSENT_DEBRIS.as_slice()).as_str());
    r.append(GATE_REJ);
    r.append(js_array(REJECT_KEYWORDS.as_slice()).as_str());
    r.append(GATE_ACC);
    r.append(js_array(ACCEPT_KEYWORDS.as_slice()).as_str());
    r.append(GATE_SET);
    r.append(js_array(SETTINGS_KEYWORDS.as_slice()).as_str());
    r.append(GATE_VENDORS);
    r.append(js_array(CONSENT_VENDOR_SCRIPTS.as_slice()).as_str());
    r.append(GATE_GOOGLE);
    r.append(write_google(google).as_str());
    r.append(GATE_IS_WALL);
    r.append(write_truth(is_wall));
    r.append(GATE_REBUILD);
    r.append(write_truth(rebuild));
    r.append(GATE_ACCEPT);
    r.append(debug_quote(accept).as_str());
    r.append(GATE_REJECT);
    r.append(debug_quote(reject).as_str());
    r.append(GATE_ID);
    r.append(debug_quote(CONSENT_BUTTON_PREFIX).as_str());
    r.append(GATE_BODY);
    r.append(GATE_SOCS);
    r.append(GATE_FIND);
    r
}

/// Build the script that finds the cookie decision and turns it into forms.
pub fn gate_surface_js(google: &Option<GoogleConsent>, is_wall: bool, rebuild: bool) -> (r: String)
    ensures
        is_gate_js(r@, maybe_consent(*google), is_wall, rebuild),
{
    let accept = sicompass_sdk::localize::t(ACCEPT_ALL_KEY);
    let reject = sicompass_sdk::localize::t(REJECT_ALL_KEY);
    let r = gate_js_with(google, is_wall, rebuild, accept.as_str(), reject.as_str());
    assert(r@ == gate_js(maybe_consent(*google), is_wall, rebuild, accept@, reject@));
    r
}

/// The script that reads the ids of the choices back out of the page.
pub const GATE_IDS_JS: &'static str =
    r#"Array.from(document.querySelectorAll('button[id^="sic-consent-"]')).map(b => b.id)"#;

// ---------------------------------------------------------------------------
// The page of choices
// ---------------------------------------------------------------------------

/// How `c` is written in a document.
pub open spec fn html_escaped_char(c: char) -> Seq<char> {
    if c == '&' {
        "&amp;"@
    } else if c == '<' {
        "&lt;"@
    } else if c == '>' {
        "&gt;"@
    } else if c == '"' {
        "&quot;"@
    } else {
        seq![c]
    }
}

/// How `s` is written in a document.
pub open spec fn html_escaped(s: Seq<char>) -> Seq<char>
    decreases s.len(),
{
    if s.len() == 0 {
        seq![]
    } else {
        html_escaped(s.drop_last()) + html_escaped_char(s.last())
    }
}

/// Escape a text for use in a document, as content or in a quoted attribute.
pub fn html_escape(s: &str) -> (r: String)
    ensures
        r@ == html_escaped(s@),
{
    let all = chars_of(s);
    let mut r = String::new();
    let mut i: usize = 0;
    while i < all.len()
        invariant
            i <= all.len(),
            r@ == html_escaped(all@.take(i as int)),
        decreases all.len() - i,
    {
        assert(all@.take(i + 1).drop_last() =~= all@.take(i as int));
        let c: char = all[i];
        let ghost before = r@;
        if c == '&' {
            r.append("&amp;");
        } else if c == '<' {
            r.append("&lt;");
        } else if c == '>' {
            r.append("&gt;");
        } else if c == '"' {
            r.append("&quot;");
        } else {
            r.push(c);
            assert(r@ =~= before + seq![c]);
        }
        i = i + 1;
    }
    assert(all@.take(all@.len() as int) =~= all@);
    r
}

/// Whatever a label holds, it opens no tag and closes no attribute.
pub proof fn law_an_escaped_text_is_inert(s: Seq<char>)
    ensures
        forall|i: int|
            0 <= i < html_escaped(s).len() ==> #[trigger] html_escaped(s)[i] != '<' && html_escaped(
                s,
            )[i] != '>' && html_escaped(s)[i] != '"',
    decreases s.len(),
{
    if s.len() > 0 {
        let d = s.drop_last();
        law_an_escaped_text_is_inert(d);
        reveal_strlit("&amp;");
        reveal_strlit("&lt;");
        reveal_strlit("&gt;");
        reveal_strlit("&quot;");
        assert forall|i: int| 0 <= i < html_escaped(s).len() implies #[trigger] html_escaped(s)[i]
            != '<' && html_escaped(s)[i] != '>' && html_escaped(s)[i] != '"' by {
            let n = html_escaped(d).len();
            if i < n {
                assert(html_escaped(s)[i] == html_escaped(d)[i]);
            } else {
                assert(html_escaped(s)[i] == html_escaped_char(s.last())[i - n]);
            }
        }
    }
}

/// What a document says where `s` is written, with the four characters that
/// are written as entities read back, from the left.
pub open spec fn html_decoded(s: Seq<char>) -> Seq<char>
    decreases s.len(),
{
    proof {
        reveal_strlit("&amp;");
        reveal_strlit("&lt;");
        reveal_strlit("&gt;");
        reveal_strlit("&quot;");
    }
    if s.len() == 0 {
        seq![]
    } else if text::begins(s, "&amp;"@) {
        seq!['&'] + html_decoded(s.skip(5))
    } else if text::begins(s, "&lt;"@) {
        seq!['<'] + html_decoded(s.skip(4))
    } else if text::begins(s, "&gt;"@) {
        seq!['>'] + html_decoded(s.skip(4))
    } else if text::begins(s, "&quot;"@) {
        seq!['"'] + html_decoded(s.skip(6))
    } else {
        seq![s[0]] + html_decoded(s.skip(1))
    }
}

/// One of the four entities stands in `s` at `i`.
pub open spec fn entity_at(s: Seq<char>, i: int) -> bool {
    ||| text::occurs_at(s, "&amp;"@, i)
    ||| text::occurs_at(s, "&lt;"@, i)
    ||| text::occurs_at(s, "&gt;"@, i)
    ||| text::occurs_at(s, "&quot;"@, i)
}

proof fn lemma_html_escaped_front(s: Seq<char>)
    requires
        s.len() > 0,
    ensures
        html_escaped(s) == html_escaped_char(s[0]) + html_escaped(s.skip(1)),
    decreases s.len(),
{
    if s.len() == 1 {
        assert(s.drop_last() =~= seq![]);
        assert(s.skip(1) =~= seq![]);
        assert(html_escaped(s) =~= html_escaped_char(s[0]) + html_escaped(s.skip(1)));
    } else {
        lemma_html_escaped_front(s.drop_last());
        assert(s.drop_last().skip(1) =~= s.skip(1).drop_last());
        assert(html_escaped(s) =~= html_escaped_char(s[0]) + html_escaped(s.skip(1)));
    }
}

/// Decoding an escaped text gives that text back, whatever it holds: an
/// ampersand in it always begins one of the four entities.
pub proof fn law_an_escaped_text_decodes(s: Seq<char>)
    ensures
        html_decoded(html_escaped(s)) == s,
        forall|i: int|
            0 <= i < html_escaped(s).len() && #[trigger] html_escaped(s)[i] == '&' ==> entity_at(
                html_escaped(s),
                i,
            ),
    decreases s.len(),
{
    if s.len() == 0 {
        assert(s =~= seq![]);
    } else {
        reveal_strlit("&amp;");
        reveal_strlit("&lt;");
        reveal_strlit("&gt;");
        reveal_strlit("&quot;");
        let rest = s.skip(1);
        let e = html_escaped_char(s[0]);
        let all = html_escaped(s);
        let tail = html_escaped(rest);
        lemma_html_escaped_front(s);
        law_an_escaped_text_decodes(rest);
        assert(all.skip(e.len() as int) =~= tail);
        assert(all.subrange(0, e.len() as int) =~= e);
        assert(all[0] == e[0]);
        assert(seq![s[0]] + rest =~= s);
        lemma_decodes_first(s[0], all, tail);
        assert forall|i: int| 0 <= i < all.len() && #[trigger] all[i] == '&' implies entity_at(
            all,
            i,
        ) by {
            let n = e.len() as int;
            if i < n {
                assert(all[i] == e[i]);
                assert(i == 0);
                assert(text::occurs_at(all, e, 0));
            } else {
                assert(all[i] == tail[i - n]);
                assert(entity_at(tail, i - n));
                lemma_entity_shifts(all, e, tail, i - n);
            }
        }
    }
}

proof fn lemma_decodes_first(c: char, all: Seq<char>, tail: Seq<char>)
    requires
        all == html_escaped_char(c) + tail,
    ensures
        html_decoded(all) == seq![c] + html_decoded(tail),
{
    reveal_strlit("&amp;");
    reveal_strlit("&lt;");
    reveal_strlit("&gt;");
    reveal_strlit("&quot;");
    let e = html_escaped_char(c);
    assert(all.skip(e.len() as int) =~= tail);
    assert(all.subrange(0, e.len() as int) =~= e);
    assert(all[0] == e[0]);
    if e.len() > 1 {
        assert(text::occurs_at(all, e, 0));
        assert(all[1] == e[1]);
        lemma_not_begins(all, "&amp;"@);
        lemma_not_begins(all, "&lt;"@);
        lemma_not_begins(all, "&gt;"@);
    } else {
        assert(all[0] == c && c != '&');
        lemma_not_begins(all, "&amp;"@);
        lemma_not_begins(all, "&lt;"@);
        lemma_not_begins(all, "&gt;"@);
        lemma_not_begins(all, "&quot;"@);
    }
}

proof fn lemma_not_begins(s: Seq<char>, p: Seq<char>)
    requires
        p.len() > 1,
    ensures
        text::begins(s, p) ==> s[0] == p[0] && s[1] == p[1],
{
    if text::begins(s, p) {
        assert(s.subrange(0, p.len() as int)[0] == p[0]);
        assert(s.subrange(0, p.len() as int)[1] == p[1]);
    }
}

proof fn lemma_entity_shifts(all: Seq<char>, e: Seq<char>, tail: Seq<char>, i: int)
    requires
        all == e + tail,
        entity_at(tail, i),
    ensures
        entity_at(all, e.len() + i),
{
    lemma_occurs_shifts(all, e, tail, "&amp;"@, i);
    lemma_occurs_shifts(all, e, tail, "&lt;"@, i);
    lemma_occurs_shifts(all, e, tail, "&gt;"@, i);
    lemma_occurs_shifts(all, e, tail, "&quot;"@, i);
}

proof fn lemma_occurs_shifts(
    all: Seq<char>,
    e: Seq<char>,
    tail: Seq<char>,
    p: Seq<char>,
    i: int,
)
    requires
        all == e + tail,
    ensures
        text::occurs_at(tail, p, i) ==> text::occurs_at(all, p, e.len() + i),
{
    if text::occurs_at(tail, p, i) {
        let at = e.len() + i;
        assert(all.subrange(at, at + p.len()) =~= tail.subrange(i, i + p.len()));
    }
}

/// One choice: a form with a single button.
pub open spec fn choice_html(label: Seq<char>, id: Seq<char>) -> Seq<char> {
    "<form><button type=\"button\" id=\""@ + html_escaped(id) + "\">"@ + html_escaped(label)
        + "</button></form>"@
}

/// The choices, in order.
pub open spec fn choices_html(labels: Seq<Seq<char>>, ids: Seq<Seq<char>>) -> Seq<char>
    decreases labels.len(),
{
    if labels.len() == 0 || ids.len() == 0 {
        seq![]
    } else {
        choices_html(labels.drop_last(), ids.drop_last()) + choice_html(labels.last(), ids.last())
    }
}

/// The shorter of two lengths.
pub open spec fn shorter(a: nat, b: nat) -> nat {
    if a < b {
        a
    } else {
        b
    }
}

/// The page of a gate: nothing but the choices, as many as have both a label
/// and an id.
pub open spec fn gate_html(labels: Seq<Seq<char>>, ids: Seq<Seq<char>>) -> Seq<char> {
    let n = shorter(labels.len(), ids.len());
    "<!DOCTYPE html><html><body>"@ + choices_html(labels.take(n as int), ids.take(n as int))
        + "</body></html>"@
}

/// Render a gate as a page that holds nothing but the choices, in the order in
/// which their forms stand in the live page.
pub fn gate_page_html(labels: &Vec<String>, ids: &Vec<String>) -> (r: String)
    ensures
        r@ == gate_html(text::views(labels@), text::views(ids@)),
{
    let ghost l = text::views(labels@);
    let ghost d = text::views(ids@);
    let mut body = String::new();
    let mut i: usize = 0;
    while i < labels.len() && i < ids.len()
        invariant
            i <= labels.len(),
            i <= ids.len(),
            l == text::views(labels@),
            d == text::views(ids@),
            body@ == choices_html(l.take(i as int), d.take(i as int)),
        decreases labels.len() - i,
    {
        assert(l.take(i + 1).drop_last() =~= l.take(i as int));
        assert(d.take(i + 1).drop_last() =~= d.take(i as int));
        let mut choice = "<form><button type=\"button\" id=\"".to_owned();
        choice.append(html_escape(ids[i].as_str()).as_str());
        choice.append("\">");
        choice.append(html_escape(labels[i].as_str()).as_str());
        choice.append("</button></form>");
        body.append(choice.as_str());
        i = i + 1;
    }
    let mut r = "<!DOCTYPE html><html><body>".to_owned();
    r.append(body.as_str());
    r.append("</body></html>");
    r
}

// ---------------------------------------------------------------------------
// The order of the attempts
// ---------------------------------------------------------------------------

/// What the script found in the page.
#[derive(Debug)]
pub struct GateReport {
    /// The page is showing a cookie decision that was turned into choices.
    pub gated: bool,
    /// The labels of the choices, in the order of their forms.
    pub labels: Vec<String>,
    /// Something was marked to be left out, so the page is worth reading again.
    pub marked: bool,
    /// The page may still be putting choices on screen.
    pub pending: bool,
}

impl GateReport {
    /// What a page reports that does not answer: nothing found.
    pub fn nothing() -> (r: GateReport)
        ensures
            !r.gated,
            r.labels@.len() == 0,
            !r.marked,
            !r.pending,
    {
        GateReport { gated: false, labels: Vec::new(), marked: false, pending: false }
    }
}

/// What to do next to get past a gate.
#[derive(Debug)]
pub enum GateAction {
    /// Run the script, after a pause where `wait` is set, and hand back its
    /// report.
    Surface { js: String, wait: bool },
    /// Read the ids of the choices back out of the page.
    ReadIds,
    /// Read the page again.
    Serialise,
    /// The page to render, and whether it is a gate.
    Done { load: PageLoad, surfaced: bool },
}

/// Getting past a gate, as a value.
pub struct GateState {
    /// The page as it was first read.
    pub html: Seq<char>,
    /// The page is a consent wall.
    pub is_wall: bool,
    /// The values of Google's wall, where it is one.
    pub google: Option<consent::Consent>,
    /// How often the script has been run again.
    pub attempt: nat,
    /// The labels of the last report.
    pub labels: Seq<Seq<char>>,
    /// Whether the last report marked something.
    pub marked: bool,
}

/// How often the script is run again at most.
pub const GATE_RETRIES: u32 = 3;

/// The page comes with one notice, the message `key`.
pub open spec fn says(load: PageLoad, key: Seq<char>) -> bool {
    load.notices@.len() == 1 && outside::worded(key, load.notices@[0]@)
}

impl GateState {
    /// A vendor's banner stands in the page as it was first read.
    pub open spec fn has_banner(self) -> bool {
        text::mentions(self.html, consent::BANNER_MARKERS@)
    }

    /// Whether another look is worth it after a report: choices may still be
    /// coming, or a banner is there whose choices were not found.
    pub open spec fn looks_again(self, labels: Seq<Seq<char>>, pending: bool) -> bool {
        self.attempt < GATE_RETRIES && (pending || (labels.len() == 0 && !self.is_wall
            && self.has_banner()))
    }

    /// The state when a page has been read.
    pub open spec fn begin(url: Seq<char>, html: Seq<char>) -> GateState {
        let walled = text::mentions(html, consent::WALL_MARKERS@);
        GateState {
            html,
            is_wall: text::mentions(url, consent::WALL_URLS@) || walled,
            google: if walled {
                Some(consent::google_or_fallback(html))
            } else {
                None
            },
            attempt: 0,
            labels: Seq::empty(),
            marked: false,
        }
    }

    /// `action` runs the script of this state.
    pub open spec fn surfaces(self, action: GateAction, rebuild: bool) -> bool {
        &&& action matches GateAction::Surface { js, wait }
        &&& wait == rebuild
        &&& is_gate_js(js@, self.google, self.is_wall, rebuild)
    }

    /// `action` hands over `html`, which is no gate: with a line of notice
    /// where it is a wall that offered no choice.
    pub open spec fn hands_over(self, action: GateAction, html: Seq<char>) -> bool {
        &&& action matches GateAction::Done { load, surfaced }
        &&& !surfaced
        &&& load.html@ == html
        &&& if self.is_wall && text::mentions(html, consent::WALL_MARKERS@) {
            says(load, CONSENT_UNRECOGNISED_KEY@)
        } else {
            load.notices@.len() == 0
        }
    }

    /// `action` goes on without a gate: the page is read again where something
    /// moved, and handed over as it is where nothing did.
    pub open spec fn leaves(self, action: GateAction) -> bool {
        if self.marked || self.has_banner() {
            action is Serialise
        } else {
            self.hands_over(action, self.html)
        }
    }
}

/// Getting past whatever a site asks before it shows its content.
pub struct Gates {
    html: String,
    is_wall: bool,
    google: Option<GoogleConsent>,
    attempt: u32,
    labels: Vec<String>,
    marked: bool,
}

impl View for Gates {
    type V = GateState;

    closed spec fn view(&self) -> GateState {
        GateState {
            html: self.html@,
            is_wall: self.is_wall,
            google: maybe_consent(self.google),
            attempt: self.attempt as nat,
            labels: text::views(self.labels@),
            marked: self.marked,
        }
    }
}

impl Gates {
    /// A page has been read. With `prune` off nothing is looked for: that is
    /// the way out where a gate is seen on a page that has none.
    pub fn start(prune: bool, current_url: &str, html: String) -> (r: (Gates, GateAction))
        ensures
            r.0@ == GateState::begin(current_url@, html@),
            prune ==> r.0@.surfaces(r.1, false),
            !prune ==> (r.1 matches GateAction::Done { load, surfaced } && !surfaced && load.html@
                == html@ && load.notices@.len() == 0),
    {
        let walled = html_has_consent_wall(html.as_str());
        let is_wall = is_consent_wall_str(current_url) || walled;
        let google = if walled {
            Some(google_consent_or_fallback(html.as_str()))
        } else {
            None
        };
        let action = if prune {
            GateAction::Surface { js: gate_surface_js(&google, is_wall, false), wait: false }
        } else {
            GateAction::Done { load: PageLoad::plain(html.clone()), surfaced: false }
        };
        let gates = Gates { html, is_wall, google, attempt: 0, labels: Vec::new(), marked: false };
        assert(text::views(gates.labels@) =~= Seq::empty());
        (gates, action)
    }

    fn finish(&self, html: String) -> (r: GateAction)
        ensures
            self@.hands_over(r, html@),
    {
        if self.is_wall && html_has_consent_wall(html.as_str()) {
            let mut notices: Vec<String> = Vec::new();
            notices.push(sicompass_sdk::localize::t(CONSENT_UNRECOGNISED_KEY));
            GateAction::Done { load: PageLoad { html, notices }, surfaced: false }
        } else {
            GateAction::Done { load: PageLoad::plain(html), surfaced: false }
        }
    }

    fn leave(&self) -> (r: GateAction)
        ensures
            self@.leaves(r),
    {
        if self.marked || html_has_inline_consent_banner(self.html.as_str()) {
            GateAction::Serialise
        } else {
            self.finish(self.html.clone())
        }
    }

    /// The script has reported.
    pub fn on_report(&mut self, report: GateReport) -> (r: GateAction)
        ensures
            ({
                let labels = text::views(report.labels@);
                let seen = GateState { labels, marked: report.marked, ..old(self)@ };
                if old(self)@.looks_again(labels, report.pending) {
                    final(self)@ == GateState { attempt: old(self)@.attempt + 1, ..seen }
                        && final(self)@.surfaces(r, true)
                } else {
                    final(self)@ == seen && if report.gated {
                        r is ReadIds
                    } else {
                        final(self)@.leaves(r)
                    }
                }
            }),
    {
        let again = self.attempt < GATE_RETRIES && (report.pending || (report.labels.len() == 0
            && !self.is_wall && html_has_inline_consent_banner(self.html.as_str())));
        self.labels = report.labels;
        self.marked = report.marked;
        if again {
            self.attempt = self.attempt + 1;
            GateAction::Surface {
                js: gate_surface_js(&self.google, self.is_wall, true),
                wait: true,
            }
        } else if report.gated {
            GateAction::ReadIds
        } else {
            self.leave()
        }
    }

    /// The ids of the choices have been read. The step is only offered where
    /// every label has its id.
    pub fn on_ids(&self, ids: &Vec<String>) -> (r: GateAction)
        ensures
            if ids@.len() == self@.labels.len() {
                r matches GateAction::Done { load, surfaced } && surfaced && load.html@ == gate_html(
                    self@.labels,
                    text::views(ids@),
                ) && says(load, CONSENT_NOTICE_KEY@)
            } else {
                self@.leaves(r)
            },
    {
        if ids.len() == self.labels.len() {
            let mut notices: Vec<String> = Vec::new();
            notices.push(sicompass_sdk::localize::t(CONSENT_NOTICE_KEY));
            let html = gate_page_html(&self.labels, ids);
            GateAction::Done { load: PageLoad { html, notices }, surfaced: true }
        } else {
            self.leave()
        }
    }

    /// The page has been read again, or could not be.
    pub fn on_html(&self, html: Option<String>) -> (r: GateAction)
        ensures
            self@.hands_over(
                r,
                match html {
                    Some(t) => t@,
                    None => self@.html,
                },
            ),
    {
        match html {
            Some(t) => self.finish(t),
            None => self.finish(self.html.clone()),
        }
    }
}

/// The script runs at most four times, whatever the page reports: every
/// further run uses one of the retries up, and without one there is no other.
pub proof fn law_the_attempts_are_bounded(
    s: GateState,
    labels: Seq<Seq<char>>,
    pending: bool,
)
    requires
        s.attempt <= GATE_RETRIES,
    ensures
        s.looks_again(labels, pending) ==> s.attempt + 1 <= GATE_RETRIES,
        s.attempt == GATE_RETRIES ==> !s.looks_again(labels, pending),
{
}

/// `s` holds, right behind `declaration`, an array of the texts `items`.
pub open spec fn gives_array(
    s: Seq<char>,
    declaration: Seq<char>,
    items: Seq<Seq<char>>,
) -> bool {
    exists|i: int| #[trigger]
        text::occurs_at(s, declaration, i) && (json::array_read(s.skip(i + declaration.len()))
            matches Some((got, _)) && got == items)
}

/// `s` holds, right behind `declaration`, a record that says each of `fields`.
pub open spec fn gives_record(
    s: Seq<char>,
    declaration: Seq<char>,
    fields: Seq<(Seq<char>, Seq<char>)>,
) -> bool {
    exists|i: int| #[trigger]
        text::occurs_at(s, declaration, i) && (json::record_read(s.skip(i + declaration.len()))
            matches Some(got) && got.len() == fields.len() && forall|k: int|
            0 <= k < fields.len() ==> json::says_of(
                got,
                (#[trigger] fields[k]).0,
                fields[k].1,
            ))
}

/// `{:?}` writes `s` as a string that reads back as `s`. So it does wherever
/// it needs no escape that only Rust has.
pub open spec fn reads_back(s: Seq<char>) -> bool {
    json::string_of(outside::debug_quoted(s)) == Some(s)
}

/// The last piece of the front of a text stands there, and so does what comes
/// before it.
pub proof fn lemma_last_piece(js: Seq<char>, front: Seq<char>, piece: Seq<char>)
    requires
        text::begins(js, front + piece),
    ensures
        text::begins(js, front),
        text::occurs_at(js, piece, front.len() as int),
{
    let n = front.len() as int;
    let both = front + piece;
    assert(js.subrange(0, both.len() as int) == both);
    assert forall|i: int| 0 <= i < both.len() implies js[i] == both[i] by {
        assert(js.subrange(0, both.len() as int)[i] == js[i]);
    }
    assert(js.subrange(0, n) =~= front);
    assert(js.subrange(n, n + piece.len()) =~= piece);
}

/// A piece of a piece.
pub proof fn lemma_within(js: Seq<char>, piece: Seq<char>, at: int, part: Seq<char>)
    requires
        text::occurs_at(js, piece, at),
        piece.len() >= part.len(),
        piece.skip(piece.len() - part.len()) == part,
    ensures
        text::occurs_at(js, part, at + piece.len() - part.len()),
{
    let from = at + piece.len() - part.len();
    assert forall|i: int| 0 <= i < part.len() implies js[from + i] == part[i] by {
        assert(js.subrange(at, at + piece.len())[piece.len() - part.len() + i] == js[from + i]);
        assert(piece.skip(piece.len() - part.len())[i] == part[i]);
    }
    assert(js.subrange(from, from + part.len()) =~= part);
}

/// What follows a piece of a text.
pub proof fn lemma_rest(js: Seq<char>, piece: Seq<char>, at: int)
    requires
        text::occurs_at(js, piece, at),
    ensures
        js.skip(at) == piece + js.skip(at + piece.len()),
{
    assert forall|i: int| 0 <= i < piece.len() implies js[at + i] == piece[i] by {
        assert(js.subrange(at, at + piece.len())[i] == js[at + i]);
    }
    assert(js.skip(at) =~= piece + js.skip(at + piece.len()));
}

proof fn lemma_array_reads(items: Seq<Seq<char>>, rest: Seq<char>)
    ensures
        json::array_read(array_js(items) + rest) == Some((items, rest)),
{
    reveal_strlit("[");
    reveal_strlit("]");
    let body = text::joined(quoted_items(items), ","@);
    let s = array_js(items) + rest;
    assert("]"@ =~= seq![']']);
    assert(s[0] == '[');
    if items.len() == 0 {
        assert(body =~= seq![]);
        assert(s[1] == ']');
        assert(s.skip(2) =~= rest);
        assert(items =~= Seq::empty());
    } else {
        assert(s.skip(1) =~= body + seq![']'] + rest);
        lemma_joined_first(quoted_items(items), ","@);
        assert(quoted_items(items)[0] == forms::js_quoted(items[0]));
        assert(s[1] == body[0]);
        lemma_items_read_back(items, rest);
    }
}

proof fn lemma_declares_array(
    js: Seq<char>,
    glue: Seq<char>,
    at: int,
    declaration: Seq<char>,
    items: Seq<Seq<char>>,
)
    requires
        text::occurs_at(js, glue, at),
        text::occurs_at(js, array_js(items), at + glue.len()),
        glue.len() >= declaration.len(),
        glue.skip(glue.len() - declaration.len()) =~= declaration,
    ensures
        gives_array(js, declaration, items),
{
    lemma_within(js, glue, at, declaration);
    let i = at + glue.len() - declaration.len();
    lemma_rest(js, array_js(items), at + glue.len());
    lemma_array_reads(items, js.skip(at + glue.len() + array_js(items).len()));
    assert(text::occurs_at(js, declaration, i));
}

/// The members of the record that is written for Google's consent values.
pub open spec fn google_fields(g: consent::Consent) -> Seq<(Seq<char>, Seq<char>)> {
    seq![
        ("domain"@, g.domain),
        ("accept"@, g.accept),
        ("reject"@, g.reject),
        ("maxAge"@, g.max_age),
    ]
}

/// The names of the record are bare words.
proof fn lemma_google_names()
    ensures
        forms::is_bare("domain"@),
        forms::is_bare("accept"@),
        forms::is_bare("reject"@),
        forms::is_bare("maxAge"@),
{
    reveal_strlit("domain");
    reveal_strlit("accept");
    reveal_strlit("reject");
    reveal_strlit("maxAge");
}

/// One member of a record, and the others behind it.
proof fn lemma_member_reads(
    name: Seq<char>,
    value: Seq<char>,
    others: Seq<char>,
    more: Seq<(Seq<char>, Seq<char>)>,
    end: Seq<char>,
)
    requires
        forms::is_bare(name),
        reads_back(value),
        json::fields_read(others) == Some((more, end)),
    ensures
        json::fields_read(
            name + seq![':'] + Seq::<char>::empty() + outside::debug_quoted(value) + (seq![',']
                + others),
        ) == Some((seq![(name, value)] + more, end)),
{
    let t = seq![','] + others;
    assert(t[0] == ',');
    assert(t.skip(1) =~= others);
    json::lemma_field_reads(name, Seq::empty(), outside::debug_quoted(value), value, t);
}

proof fn lemma_last_member_reads(name: Seq<char>, value: Seq<char>, rest: Seq<char>)
    requires
        forms::is_bare(name),
        reads_back(value),
    ensures
        json::fields_read(
            name + seq![':'] + Seq::<char>::empty() + outside::debug_quoted(value) + (seq!['}']
                + rest),
        ) == Some((seq![(name, value)], rest)),
{
    let t = seq!['}'] + rest;
    assert(t[0] == '}');
    assert(t.skip(1) =~= rest);
    json::lemma_field_reads(name, Seq::empty(), outside::debug_quoted(value), value, t);
}

proof fn lemma_google_reads(g: consent::Consent, rest: Seq<char>)
    requires
        reads_back(g.domain),
        reads_back(g.accept),
        reads_back(g.reject),
        reads_back(g.max_age),
    ensures
        json::record_read(google_js(Some(g)) + rest) == Some(google_fields(g)),
{
    let d = outside::debug_quoted(g.domain);
    let a = outside::debug_quoted(g.accept);
    let j = outside::debug_quoted(g.reject);
    let m = outside::debug_quoted(g.max_age);
    let none = Seq::<char>::empty();
    let f4 = "maxAge"@ + seq![':'] + none + m + (seq!['}'] + rest);
    let f3 = "reject"@ + seq![':'] + none + j + (seq![','] + f4);
    let f2 = "accept"@ + seq![':'] + none + a + (seq![','] + f3);
    let f1 = "domain"@ + seq![':'] + none + d + (seq![','] + f2);
    let m4: Seq<(Seq<char>, Seq<char>)> = seq![("maxAge"@, g.max_age)];
    let m3 = seq![("reject"@, g.reject)] + m4;
    let m2 = seq![("accept"@, g.accept)] + m3;
    let m1 = seq![("domain"@, g.domain)] + m2;
    lemma_google_names();
    lemma_last_member_reads("maxAge"@, g.max_age, rest);
    lemma_member_reads("reject"@, g.reject, f4, m4, rest);
    lemma_member_reads("accept"@, g.accept, f3, m3, rest);
    lemma_member_reads("domain"@, g.domain, f2, m2, rest);
    lemma_google_text(g, rest);
    let s = google_js(Some(g)) + rest;
    assert(s == seq!['{'] + f1);
    assert(s[0] == '{');
    assert(s.skip(1) =~= f1);
    assert(m1 =~= google_fields(g));
}

/// The record, piece by piece from the right.
proof fn lemma_google_text(g: consent::Consent, rest: Seq<char>)
    ensures
        google_js(Some(g)) + rest == seq!['{'] + ("domain"@ + seq![':'] + Seq::<char>::empty()
            + outside::debug_quoted(g.domain) + (seq![','] + ("accept"@ + seq![':'] + Seq::<
            char,
        >::empty() + outside::debug_quoted(g.accept) + (seq![','] + ("reject"@ + seq![':'] + Seq::<
            char,
        >::empty() + outside::debug_quoted(g.reject) + (seq![','] + ("maxAge"@ + seq![':'] + Seq::<
            char,
        >::empty() + outside::debug_quoted(g.max_age) + (seq!['}'] + rest)))))))),
{
    reveal_strlit("{domain:");
    reveal_strlit(",accept:");
    reveal_strlit(",reject:");
    reveal_strlit(",maxAge:");
    reveal_strlit("}");
    reveal_strlit("domain");
    reveal_strlit("accept");
    reveal_strlit("reject");
    reveal_strlit("maxAge");
    let d = outside::debug_quoted(g.domain);
    let a = outside::debug_quoted(g.accept);
    let j = outside::debug_quoted(g.reject);
    let m = outside::debug_quoted(g.max_age);
    let none = Seq::<char>::empty();
    assert("{domain:"@ =~= seq!['{'] + "domain"@ + seq![':']);
    assert(",accept:"@ =~= seq![','] + "accept"@ + seq![':']);
    assert(",reject:"@ =~= seq![','] + "reject"@ + seq![':']);
    assert(",maxAge:"@ =~= seq![','] + "maxAge"@ + seq![':']);
    let t4 = seq!['}'] + rest;
    let f4 = "maxAge"@ + seq![':'] + none + m + t4;
    let t3 = seq![','] + f4;
    let f3 = "reject"@ + seq![':'] + none + j + t3;
    let t2 = seq![','] + f3;
    let f2 = "accept"@ + seq![':'] + none + a + t2;
    let t1 = seq![','] + f2;
    assert(",maxAge:"@ + m + "}"@ + rest =~= t3);
    let r3 = ",reject:"@ + j + t3;
    assert(r3 =~= t2);
    let r2 = ",accept:"@ + a + t2;
    assert(r2 =~= t1);
    let g1 = "{domain:"@ + d;
    let g2 = g1 + ",accept:"@ + a;
    let g3 = g2 + ",reject:"@ + j;
    assert(google_js(Some(g)) + rest =~= g3 + (",maxAge:"@ + m + "}"@ + rest));
    assert(g3 + t3 =~= g2 + r3);
    assert(g2 + t2 =~= g1 + r2);
    assert(g1 + t1 =~= seq!['{'] + ("domain"@ + seq![':'] + none + d + t1));
}

/// The two choices are never exchanged: read back, the record of Google's wall
/// says of each value what the wall said of it, under its own name and once.
pub proof fn law_the_values_of_the_wall_read_back(g: consent::Consent)
    ensures
        reads_back(g.domain) && reads_back(g.accept) && reads_back(g.reject) && reads_back(
            g.max_age,
        ) ==> {
            &&& json::record_read(google_js(Some(g))) matches Some(fields)
            &&& fields.len() == 4
            &&& json::says_of(fields, "domain"@, g.domain)
            &&& json::says_of(fields, "accept"@, g.accept)
            &&& json::says_of(fields, "reject"@, g.reject)
            &&& json::says_of(fields, "maxAge"@, g.max_age)
        },
        json::record_read(google_js(None)) is None,
{
    reveal_strlit("null");
    if reads_back(g.domain) && reads_back(g.accept) && reads_back(g.reject) && reads_back(g.max_age) {
        let none = Seq::<char>::empty();
        lemma_google_reads(g, none);
        assert(google_js(Some(g)) + none =~= google_js(Some(g)));
        lemma_google_fields(g);
    }
}

proof fn lemma_google_fields(g: consent::Consent)
    ensures
        forall|k: int|
            0 <= k < 4 ==> json::says_of(
                google_fields(g),
                (#[trigger] google_fields(g)[k]).0,
                google_fields(g)[k].1,
            ),
        json::says_of(google_fields(g), "domain"@, g.domain),
        json::says_of(google_fields(g), "accept"@, g.accept),
        json::says_of(google_fields(g), "reject"@, g.reject),
        json::says_of(google_fields(g), "maxAge"@, g.max_age),
{
    reveal_strlit("domain");
    reveal_strlit("accept");
    reveal_strlit("reject");
    reveal_strlit("maxAge");
    let f = google_fields(g);
    assert("domain"@[0] == 'd' && "accept"@[0] == 'a' && "reject"@[0] == 'r' && "maxAge"@[0] == 'm');
    assert(f[0] == ("domain"@, g.domain) && f[1] == ("accept"@, g.accept) && f[2] == (
        "reject"@,
        g.reject,
    ) && f[3] == ("maxAge"@, g.max_age));
}

/// The names of the two choices, as the script has them.
proof fn lemma_labels_read(js: Seq<char>, at: int, accept: Seq<char>, reject: Seq<char>)
    requires
        reads_back(accept),
        reads_back(reject),
        text::occurs_at(js, GATE_ACCEPT@, at),
        text::occurs_at(js, outside::debug_quoted(accept), at + GATE_ACCEPT@.len()),
        text::occurs_at(
            js,
            GATE_REJECT@,
            at + GATE_ACCEPT@.len() + outside::debug_quoted(accept).len(),
        ),
        text::occurs_at(
            js,
            outside::debug_quoted(reject),
            at + GATE_ACCEPT@.len() + outside::debug_quoted(accept).len() + GATE_REJECT@.len(),
        ),
        text::occurs_at(
            js,
            GATE_ID@,
            at + GATE_ACCEPT@.len() + outside::debug_quoted(accept).len() + GATE_REJECT@.len()
                + outside::debug_quoted(reject).len(),
        ),
    ensures
        gives_record(js, "const L = "@, seq![("accept"@, accept), ("reject"@, reject)]),
{
    reveal_strlit(";\n    const L = {accept: ");
    reveal_strlit(", reject: ");
    reveal_strlit("};\n    const CONSENT_ID = ");
    reveal_strlit("const L = ");
    reveal_strlit("accept");
    reveal_strlit("reject");
    let a = outside::debug_quoted(accept);
    let j = outside::debug_quoted(reject);
    let p1 = at + GATE_ACCEPT@.len();
    let p2 = p1 + a.len();
    let p3 = p2 + GATE_REJECT@.len();
    let p4 = p3 + j.len();
    lemma_rest(js, GATE_ACCEPT@, at);
    lemma_rest(js, a, p1);
    lemma_rest(js, GATE_REJECT@, p2);
    lemma_rest(js, j, p3);
    lemma_rest(js, GATE_ID@, p4);
    let gap: Seq<char> = seq![' '];
    let end = js.skip(p4);
    assert(end[0] == '}');
    json::lemma_field_reads("reject"@, gap, j, reject, end);
    let second = js.skip(p2);
    assert(GATE_REJECT@ =~= seq![',', ' '] + "reject"@ + seq![':'] + gap);
    let inner = "reject"@ + seq![':'] + gap + j + end;
    assert(second.skip(1) =~= seq![' '] + inner);
    assert((seq![' '] + inner).skip(1) =~= inner);
    assert((seq![' '] + inner)[0] == ' ');
    assert(inner[0] == "reject"@[0]);
    assert(json::skip_blanks(inner) == inner);
    assert(json::skip_blanks(seq![' '] + inner) == inner);
    assert(json::fields_read(seq![' '] + inner) == json::fields_read(inner));
    json::lemma_field_reads("accept"@, gap, a, accept, second);
    let open = at + 6 + 10;
    assert(js.skip(open) =~= GATE_ACCEPT@.skip(16) + js.skip(p1));
    assert(GATE_ACCEPT@.skip(16) =~= seq!['{'] + "accept"@ + seq![':'] + gap);
    let body = "accept"@ + seq![':'] + gap + a + second;
    assert(js.skip(open) =~= seq!['{'] + body);
    assert(js.skip(open).skip(1) =~= body);
    let got: Seq<(Seq<char>, Seq<char>)> = seq![("accept"@, accept)] + seq![("reject"@, reject)];
    assert(json::record_read(js.skip(open)) == Some(got));
    assert("accept"@[0] == 'a' && "reject"@[0] == 'r');
    assert(got[0] == ("accept"@, accept) && got[1] == ("reject"@, reject));
    assert(json::says_of(got, "accept"@, accept));
    assert(json::says_of(got, "reject"@, reject));
    assert(GATE_ACCEPT@.subrange(6, 16) =~= "const L = "@);
    assert(js.subrange(at + 6, open) =~= js.skip(at).subrange(6, 16));
    assert(js.skip(at).subrange(6, 16) =~= GATE_ACCEPT@.subrange(6, 16));
    assert(text::occurs_at(js, "const L = "@, at + 6));
}

/// Where each piece of the script stands.
#[verifier::rlimit(60)]
proof fn lemma_gate_pieces(
    google: Option<consent::Consent>,
    is_wall: bool,
    rebuild: bool,
    accept: Seq<char>,
    reject: Seq<char>,
) -> (at: Seq<int>)
    ensures
        at.len() == 31,
        text::occurs_at(gate_js(google, is_wall, rebuild, accept, reject), GATE_OPEN@, at[0]),
        text::occurs_at(gate_js(google, is_wall, rebuild, accept, reject), array_js(texts(BANNER_SELECTORS@)), at[1]),
        text::occurs_at(gate_js(google, is_wall, rebuild, accept, reject), GATE_CMP@, at[2]),
        text::occurs_at(gate_js(google, is_wall, rebuild, accept, reject), array_js(texts(CMP_SELECTORS@)), at[3]),
        text::occurs_at(gate_js(google, is_wall, rebuild, accept, reject), GATE_CMPREJ@, at[4]),
        text::occurs_at(gate_js(google, is_wall, rebuild, accept, reject), array_js(texts(CMP_REJECT_SELECTORS@)), at[5]),
        text::occurs_at(gate_js(google, is_wall, rebuild, accept, reject), GATE_DEBRIS@, at[6]),
        text::occurs_at(gate_js(google, is_wall, rebuild, accept, reject), array_js(texts(CONSENT_DEBRIS@)), at[7]),
        text::occurs_at(gate_js(google, is_wall, rebuild, accept, reject), GATE_REJ@, at[8]),
        text::occurs_at(gate_js(google, is_wall, rebuild, accept, reject), array_js(texts(REJECT_KEYWORDS@)), at[9]),
        text::occurs_at(gate_js(google, is_wall, rebuild, accept, reject), GATE_ACC@, at[10]),
        text::occurs_at(gate_js(google, is_wall, rebuild, accept, reject), array_js(texts(ACCEPT_KEYWORDS@)), at[11]),
        text::occurs_at(gate_js(google, is_wall, rebuild, accept, reject), GATE_SET@, at[12]),
        text::occurs_at(gate_js(google, is_wall, rebuild, accept, reject), array_js(texts(SETTINGS_KEYWORDS@)), at[13]),
        text::occurs_at(gate_js(google, is_wall, rebuild, accept, reject), GATE_VENDORS@, at[14]),
        text::occurs_at(gate_js(google, is_wall, rebuild, accept, reject), array_js(texts(CONSENT_VENDOR_SCRIPTS@)), at[15]),
        text::occurs_at(gate_js(google, is_wall, rebuild, accept, reject), GATE_GOOGLE@, at[16]),
        text::occurs_at(gate_js(google, is_wall, rebuild, accept, reject), google_js(google), at[17]),
        text::occurs_at(gate_js(google, is_wall, rebuild, accept, reject), GATE_IS_WALL@, at[18]),
        text::occurs_at(gate_js(google, is_wall, rebuild, accept, reject), truth(is_wall), at[19]),
        text::occurs_at(gate_js(google, is_wall, rebuild, accept, reject), GATE_REBUILD@, at[20]),
        text::occurs_at(gate_js(google, is_wall, rebuild, accept, reject), truth(rebuild), at[21]),
        text::occurs_at(gate_js(google, is_wall, rebuild, accept, reject), GATE_ACCEPT@, at[22]),
        text::occurs_at(gate_js(google, is_wall, rebuild, accept, reject), outside::debug_quoted(accept), at[23]),
        text::occurs_at(gate_js(google, is_wall, rebuild, accept, reject), GATE_REJECT@, at[24]),
        text::occurs_at(gate_js(google, is_wall, rebuild, accept, reject), outside::debug_quoted(reject), at[25]),
        text::occurs_at(gate_js(google, is_wall, rebuild, accept, reject), GATE_ID@, at[26]),
        text::occurs_at(gate_js(google, is_wall, rebuild, accept, reject), outside::debug_quoted(CONSENT_BUTTON_PREFIX@), at[27]),
        text::occurs_at(gate_js(google, is_wall, rebuild, accept, reject), GATE_BODY@, at[28]),
        text::occurs_at(gate_js(google, is_wall, rebuild, accept, reject), GATE_SOCS@, at[29]),
        text::occurs_at(gate_js(google, is_wall, rebuild, accept, reject), GATE_FIND@, at[30]),
        at[1] == at[0] + GATE_OPEN@.len(),
        at[2] == at[1] + array_js(texts(BANNER_SELECTORS@)).len(),
        at[3] == at[2] + GATE_CMP@.len(),
        at[4] == at[3] + array_js(texts(CMP_SELECTORS@)).len(),
        at[5] == at[4] + GATE_CMPREJ@.len(),
        at[6] == at[5] + array_js(texts(CMP_REJECT_SELECTORS@)).len(),
        at[7] == at[6] + GATE_DEBRIS@.len(),
        at[8] == at[7] + array_js(texts(CONSENT_DEBRIS@)).len(),
        at[9] == at[8] + GATE_REJ@.len(),
        at[10] == at[9] + array_js(texts(REJECT_KEYWORDS@)).len(),
        at[11] == at[10] + GATE_ACC@.len(),
        at[12] == at[11] + array_js(texts(ACCEPT_KEYWORDS@)).len(),
        at[13] == at[12] + GATE_SET@.len(),
        at[14] == at[13] + array_js(texts(SETTINGS_KEYWORDS@)).len(),
        at[15] == at[14] + GATE_VENDORS@.len(),
        at[16] == at[15] + array_js(texts(CONSENT_VENDOR_SCRIPTS@)).len(),
        at[17] == at[16] + GATE_GOOGLE@.len(),
        at[18] == at[17] + google_js(google).len(),
        at[19] == at[18] + GATE_IS_WALL@.len(),
        at[20] == at[19] + truth(is_wall).len(),
        at[21] == at[20] + GATE_REBUILD@.len(),
        at[22] == at[21] + truth(rebuild).len(),
        at[23] == at[22] + GATE_ACCEPT@.len(),
        at[24] == at[23] + outside::debug_quoted(accept).len(),
        at[25] == at[24] + GATE_REJECT@.len(),
        at[26] == at[25] + outside::debug_quoted(reject).len(),
        at[27] == at[26] + GATE_ID@.len(),
        at[28] == at[27] + outside::debug_quoted(CONSENT_BUTTON_PREFIX@).len(),
        at[29] == at[28] + GATE_BODY@.len(),
        at[30] == at[29] + GATE_SOCS@.len(),
{
    let js = gate_js(google, is_wall, rebuild, accept, reject);
    let s0 = GATE_OPEN@;
    let s1 = s0 + array_js(texts(BANNER_SELECTORS@));
    let s2 = s1 + GATE_CMP@;
    let s3 = s2 + array_js(texts(CMP_SELECTORS@));
    let s4 = s3 + GATE_CMPREJ@;
    let s5 = s4 + array_js(texts(CMP_REJECT_SELECTORS@));
    let s6 = s5 + GATE_DEBRIS@;
    let s7 = s6 + array_js(texts(CONSENT_DEBRIS@));
    let s8 = s7 + GATE_REJ@;
    let s9 = s8 + array_js(texts(REJECT_KEYWORDS@));
    let s10 = s9 + GATE_ACC@;
    let s11 = s10 + array_js(texts(ACCEPT_KEYWORDS@));
    let s12 = s11 + GATE_SET@;
    let s13 = s12 + array_js(texts(SETTINGS_KEYWORDS@));
    let s14 = s13 + GATE_VENDORS@;
    let s15 = s14 + array_js(texts(CONSENT_VENDOR_SCRIPTS@));
    let s16 = s15 + GATE_GOOGLE@;
    let s17 = s16 + google_js(google);
    let s18 = s17 + GATE_IS_WALL@;
    let s19 = s18 + truth(is_wall);
    let s20 = s19 + GATE_REBUILD@;
    let s21 = s20 + truth(rebuild);
    let s22 = s21 + GATE_ACCEPT@;
    let s23 = s22 + outside::debug_quoted(accept);
    let s24 = s23 + GATE_REJECT@;
    let s25 = s24 + outside::debug_quoted(reject);
    let s26 = s25 + GATE_ID@;
    let s27 = s26 + outside::debug_quoted(CONSENT_BUTTON_PREFIX@);
    let s28 = s27 + GATE_BODY@;
    let s29 = s28 + GATE_SOCS@;
    let s30 = s29 + GATE_FIND@;
    assert(js == s30);
    assert(js.subrange(0, js.len() as int) =~= js);
    lemma_last_piece(js, s29, GATE_FIND@);
    lemma_last_piece(js, s28, GATE_SOCS@);
    lemma_last_piece(js, s27, GATE_BODY@);
    lemma_last_piece(js, s26, outside::debug_quoted(CONSENT_BUTTON_PREFIX@));
    lemma_last_piece(js, s25, GATE_ID@);
    lemma_last_piece(js, s24, outside::debug_quoted(reject));
    lemma_last_piece(js, s23, GATE_REJECT@);
    lemma_last_piece(js, s22, outside::debug_quoted(accept));
    lemma_last_piece(js, s21, GATE_ACCEPT@);
    lemma_last_piece(js, s20, truth(rebuild));
    lemma_last_piece(js, s19, GATE_REBUILD@);
    lemma_last_piece(js, s18, truth(is_wall));
    lemma_last_piece(js, s17, GATE_IS_WALL@);
    lemma_last_piece(js, s16, google_js(google));
    lemma_last_piece(js, s15, GATE_GOOGLE@);
    lemma_last_piece(js, s14, array_js(texts(CONSENT_VENDOR_SCRIPTS@)));
    lemma_last_piece(js, s13, GATE_VENDORS@);
    lemma_last_piece(js, s12, array_js(texts(SETTINGS_KEYWORDS@)));
    lemma_last_piece(js, s11, GATE_SET@);
    lemma_last_piece(js, s10, array_js(texts(ACCEPT_KEYWORDS@)));
    lemma_last_piece(js, s9, GATE_ACC@);
    lemma_last_piece(js, s8, array_js(texts(REJECT_KEYWORDS@)));
    lemma_last_piece(js, s7, GATE_REJ@);
    lemma_last_piece(js, s6, array_js(texts(CONSENT_DEBRIS@)));
    lemma_last_piece(js, s5, GATE_DEBRIS@);
    lemma_last_piece(js, s4, array_js(texts(CMP_REJECT_SELECTORS@)));
    lemma_last_piece(js, s3, GATE_CMPREJ@);
    lemma_last_piece(js, s2, array_js(texts(CMP_SELECTORS@)));
    lemma_last_piece(js, s1, GATE_CMP@);
    lemma_last_piece(js, s0, array_js(texts(BANNER_SELECTORS@)));
    let at: Seq<int> = seq![
        0int,
        s0.len() as int,
        s1.len() as int,
        s2.len() as int,
        s3.len() as int,
        s4.len() as int,
        s5.len() as int,
        s6.len() as int,
        s7.len() as int,
        s8.len() as int,
        s9.len() as int,
        s10.len() as int,
        s11.len() as int,
        s12.len() as int,
        s13.len() as int,
        s14.len() as int,
        s15.len() as int,
        s16.len() as int,
        s17.len() as int,
        s18.len() as int,
        s19.len() as int,
        s20.len() as int,
        s21.len() as int,
        s22.len() as int,
        s23.len() as int,
        s24.len() as int,
        s25.len() as int,
        s26.len() as int,
        s27.len() as int,
        s28.len() as int,
        s29.len() as int,
    ];
    at
}

proof fn lemma_glue_banner_selectors()
    ensures
        GATE_OPEN@.len() >= "const SELS   = "@.len(),
        GATE_OPEN@.skip(GATE_OPEN@.len() - "const SELS   = "@.len()) == "const SELS   = "@,
{
    reveal_strlit("(function() {\n    const SELS   = ");
    reveal_strlit("const SELS   = ");
    assert(GATE_OPEN@.skip(GATE_OPEN@.len() - "const SELS   = "@.len()) =~= "const SELS   = "@);
}

proof fn lemma_glue_cmp_selectors()
    ensures
        GATE_CMP@.len() >= "const CMP    = "@.len(),
        GATE_CMP@.skip(GATE_CMP@.len() - "const CMP    = "@.len()) == "const CMP    = "@,
{
    reveal_strlit(";\n    const CMP    = ");
    reveal_strlit("const CMP    = ");
    assert(GATE_CMP@.skip(GATE_CMP@.len() - "const CMP    = "@.len()) =~= "const CMP    = "@);
}

proof fn lemma_glue_cmp_reject_selectors()
    ensures
        GATE_CMPREJ@.len() >= "const CMPREJ = "@.len(),
        GATE_CMPREJ@.skip(GATE_CMPREJ@.len() - "const CMPREJ = "@.len()) == "const CMPREJ = "@,
{
    reveal_strlit(";\n    const CMPREJ = ");
    reveal_strlit("const CMPREJ = ");
    assert(GATE_CMPREJ@.skip(GATE_CMPREJ@.len() - "const CMPREJ = "@.len()) =~= "const CMPREJ = "@);
}

proof fn lemma_glue_consent_debris()
    ensures
        GATE_DEBRIS@.len() >= "const DEBRIS = "@.len(),
        GATE_DEBRIS@.skip(GATE_DEBRIS@.len() - "const DEBRIS = "@.len()) == "const DEBRIS = "@,
{
    reveal_strlit(";\n    const DEBRIS = ");
    reveal_strlit("const DEBRIS = ");
    assert(GATE_DEBRIS@.skip(GATE_DEBRIS@.len() - "const DEBRIS = "@.len()) =~= "const DEBRIS = "@);
}

proof fn lemma_glue_reject_keywords()
    ensures
        GATE_REJ@.len() >= "const REJ    = "@.len(),
        GATE_REJ@.skip(GATE_REJ@.len() - "const REJ    = "@.len()) == "const REJ    = "@,
{
    reveal_strlit(";\n    const REJ    = ");
    reveal_strlit("const REJ    = ");
    assert(GATE_REJ@.skip(GATE_REJ@.len() - "const REJ    = "@.len()) =~= "const REJ    = "@);
}

proof fn lemma_glue_accept_keywords()
    ensures
        GATE_ACC@.len() >= "const ACC    = "@.len(),
        GATE_ACC@.skip(GATE_ACC@.len() - "const ACC    = "@.len()) == "const ACC    = "@,
{
    reveal_strlit(";\n    const ACC    = ");
    reveal_strlit("const ACC    = ");
    assert(GATE_ACC@.skip(GATE_ACC@.len() - "const ACC    = "@.len()) =~= "const ACC    = "@);
}

proof fn lemma_glue_settings_keywords()
    ensures
        GATE_SET@.len() >= "const SET    = "@.len(),
        GATE_SET@.skip(GATE_SET@.len() - "const SET    = "@.len()) == "const SET    = "@,
{
    reveal_strlit(";\n    const SET    = ");
    reveal_strlit("const SET    = ");
    assert(GATE_SET@.skip(GATE_SET@.len() - "const SET    = "@.len()) =~= "const SET    = "@);
}

proof fn lemma_glue_consent_vendor_scripts()
    ensures
        GATE_VENDORS@.len() >= "const VENDORS = "@.len(),
        GATE_VENDORS@.skip(GATE_VENDORS@.len() - "const VENDORS = "@.len()) == "const VENDORS = "@,
{
    reveal_strlit(";\n    const VENDORS = ");
    reveal_strlit("const VENDORS = ");
    assert(GATE_VENDORS@.skip(GATE_VENDORS@.len() - "const VENDORS = "@.len()) =~= "const VENDORS = "@);
}

/// The script that finds the choices is told the selectors and the words for
/// each kind of button under the right name: what refuses is never taken for
/// what accepts.
pub proof fn law_the_script_knows_the_buttons(
    google: Option<consent::Consent>,
    is_wall: bool,
    rebuild: bool,
    accept: Seq<char>,
    reject: Seq<char>,
)
    ensures
        gives_array(gate_js(google, is_wall, rebuild, accept, reject), "const SELS   = "@, texts(BANNER_SELECTORS@)),
        gives_array(gate_js(google, is_wall, rebuild, accept, reject), "const CMP    = "@, texts(CMP_SELECTORS@)),
        gives_array(gate_js(google, is_wall, rebuild, accept, reject), "const CMPREJ = "@, texts(CMP_REJECT_SELECTORS@)),
        gives_array(gate_js(google, is_wall, rebuild, accept, reject), "const DEBRIS = "@, texts(CONSENT_DEBRIS@)),
        gives_array(gate_js(google, is_wall, rebuild, accept, reject), "const REJ    = "@, texts(REJECT_KEYWORDS@)),
        gives_array(gate_js(google, is_wall, rebuild, accept, reject), "const ACC    = "@, texts(ACCEPT_KEYWORDS@)),
        gives_array(gate_js(google, is_wall, rebuild, accept, reject), "const SET    = "@, texts(SETTINGS_KEYWORDS@)),
        gives_array(gate_js(google, is_wall, rebuild, accept, reject), "const VENDORS = "@, texts(CONSENT_VENDOR_SCRIPTS@)),
{
    let js = gate_js(google, is_wall, rebuild, accept, reject);
    let at = lemma_gate_pieces(google, is_wall, rebuild, accept, reject);
    lemma_glue_banner_selectors();
    lemma_declares_array(js, GATE_OPEN@, at[0], "const SELS   = "@, texts(BANNER_SELECTORS@));
    lemma_glue_cmp_selectors();
    lemma_declares_array(js, GATE_CMP@, at[2], "const CMP    = "@, texts(CMP_SELECTORS@));
    lemma_glue_cmp_reject_selectors();
    lemma_declares_array(js, GATE_CMPREJ@, at[4], "const CMPREJ = "@, texts(CMP_REJECT_SELECTORS@));
    lemma_glue_consent_debris();
    lemma_declares_array(js, GATE_DEBRIS@, at[6], "const DEBRIS = "@, texts(CONSENT_DEBRIS@));
    lemma_glue_reject_keywords();
    lemma_declares_array(js, GATE_REJ@, at[8], "const REJ    = "@, texts(REJECT_KEYWORDS@));
    lemma_glue_accept_keywords();
    lemma_declares_array(js, GATE_ACC@, at[10], "const ACC    = "@, texts(ACCEPT_KEYWORDS@));
    lemma_glue_settings_keywords();
    lemma_declares_array(js, GATE_SET@, at[12], "const SET    = "@, texts(SETTINGS_KEYWORDS@));
    lemma_glue_consent_vendor_scripts();
    lemma_declares_array(js, GATE_VENDORS@, at[14], "const VENDORS = "@, texts(CONSENT_VENDOR_SCRIPTS@));
}

proof fn lemma_glue_google()
    ensures
        GATE_GOOGLE@.len() == 21,
        "const GOOGLE = "@.len() == 15,
        GATE_GOOGLE@.skip(6) == "const GOOGLE = "@,
{
    reveal_strlit(";\n    const GOOGLE = ");
    reveal_strlit("const GOOGLE = ");
    assert(GATE_GOOGLE@.skip(6) =~= "const GOOGLE = "@);
}

/// The script that finds the choices is told what Google's wall says, each
/// value under its own name: what the choice to reject writes is what the wall
/// says rejects, and the same of the choice to accept. On any other page it is
/// told that there is no such wall.
pub proof fn law_the_script_knows_the_wall(
    google: Option<consent::Consent>,
    is_wall: bool,
    rebuild: bool,
    accept: Seq<char>,
    reject: Seq<char>,
)
    ensures
        google matches Some(g) ==> (reads_back(g.domain) && reads_back(g.accept) && reads_back(
            g.reject,
        ) && reads_back(g.max_age) ==> gives_record(
            gate_js(google, is_wall, rebuild, accept, reject),
            "const GOOGLE = "@,
            seq![
                ("domain"@, g.domain),
                ("accept"@, g.accept),
                ("reject"@, g.reject),
                ("maxAge"@, g.max_age),
            ],
        )),
        google is None ==> text::occurs(
            gate_js(google, is_wall, rebuild, accept, reject),
            "const GOOGLE = null;"@,
        ),
{
    let js = gate_js(google, is_wall, rebuild, accept, reject);
    let at = lemma_gate_pieces(google, is_wall, rebuild, accept, reject);
    if google is Some {
        lemma_declares_google(js, google, at[16]);
    } else {
        lemma_declares_no_google(js, at[16]);
    }
}

proof fn lemma_declares_google(js: Seq<char>, google: Option<consent::Consent>, at: int)
    requires
        google is Some,
        text::occurs_at(js, GATE_GOOGLE@, at),
        text::occurs_at(js, google_js(google), at + GATE_GOOGLE@.len()),
    ensures
        google matches Some(g) ==> (reads_back(g.domain) && reads_back(g.accept) && reads_back(
            g.reject,
        ) && reads_back(g.max_age) ==> gives_record(
            js,
            "const GOOGLE = "@,
            seq![
                ("domain"@, g.domain),
                ("accept"@, g.accept),
                ("reject"@, g.reject),
                ("maxAge"@, g.max_age),
            ],
        )),
{
    let g = google->0;
    if reads_back(g.domain) && reads_back(g.accept) && reads_back(g.reject) && reads_back(g.max_age) {
        lemma_glue_google();
        lemma_within(js, GATE_GOOGLE@, at, "const GOOGLE = "@);
        let from = at + GATE_GOOGLE@.len();
        lemma_rest(js, google_js(google), from);
        lemma_google_reads(g, js.skip(from + google_js(google).len()));
        lemma_google_fields(g);
        let fields = google_fields(g);
        assert(json::record_read(js.skip(at + 21)) == Some(fields));
        assert(text::occurs_at(js, "const GOOGLE = "@, at + 6));
        assert(gives_record(js, "const GOOGLE = "@, fields));
    }
}

proof fn lemma_declares_no_google(js: Seq<char>, at: int)
    requires
        text::occurs_at(js, GATE_GOOGLE@, at),
        text::occurs_at(js, google_js(None), at + GATE_GOOGLE@.len()),
        text::occurs_at(js, GATE_IS_WALL@, at + GATE_GOOGLE@.len() + google_js(None).len()),
    ensures
        text::occurs(js, "const GOOGLE = null;"@),
{
    lemma_glue_google();
    lemma_next_statement();
    lemma_switch(js, GATE_GOOGLE@, google_js(None), GATE_IS_WALL@, at);
    reveal_strlit("null");
    reveal_strlit("const GOOGLE = null;");
    reveal_strlit("const GOOGLE = ");
    assert("const GOOGLE = "@ + "null"@ + seq![';'] =~= "const GOOGLE = null;"@);
}

proof fn lemma_next_statement()
    ensures
        GATE_IS_WALL@.len() == 22,
        GATE_REBUILD@.len() == 22,
        GATE_ACCEPT@.len() > 0,
        GATE_IS_WALL@[0] == ';' && GATE_REBUILD@[0] == ';' && GATE_ACCEPT@[0] == ';',
        GATE_IS_WALL@.skip(6) == "const IS_WALL = "@,
        GATE_REBUILD@.skip(6) == "const REBUILD = "@,
{
    reveal_strlit(";\n    const IS_WALL = ");
    reveal_strlit(";\n    const REBUILD = ");
    reveal_strlit(";\n    const L = {accept: ");
    reveal_strlit("const IS_WALL = ");
    reveal_strlit("const REBUILD = ");
    assert(GATE_IS_WALL@.skip(6) =~= "const IS_WALL = "@);
    assert(GATE_REBUILD@.skip(6) =~= "const REBUILD = "@);
}

/// The script that finds the choices is told what each of the two choices is
/// called, and whether the page is a wall and the choices are to be built
/// again.
pub proof fn law_the_script_knows_the_choices(
    google: Option<consent::Consent>,
    is_wall: bool,
    rebuild: bool,
    accept: Seq<char>,
    reject: Seq<char>,
)
    ensures
        reads_back(accept) && reads_back(reject) ==> gives_record(
            gate_js(google, is_wall, rebuild, accept, reject),
            "const L = "@,
            seq![("accept"@, accept), ("reject"@, reject)],
        ),
        text::occurs(
            gate_js(google, is_wall, rebuild, accept, reject),
            "const IS_WALL = "@ + (if is_wall {
                "true"@
            } else {
                "false"@
            }) + seq![';'],
        ),
        text::occurs(
            gate_js(google, is_wall, rebuild, accept, reject),
            "const REBUILD = "@ + (if rebuild {
                "true"@
            } else {
                "false"@
            }) + seq![';'],
        ),
{
    let js = gate_js(google, is_wall, rebuild, accept, reject);
    let at = lemma_gate_pieces(google, is_wall, rebuild, accept, reject);
    lemma_next_statement();
    lemma_switch(js, GATE_IS_WALL@, truth(is_wall), GATE_REBUILD@, at[18]);
    lemma_switch(js, GATE_REBUILD@, truth(rebuild), GATE_ACCEPT@, at[20]);
    if reads_back(accept) && reads_back(reject) {
        lemma_labels_read(js, at[22], accept, reject);
    }
}

proof fn lemma_switch(js: Seq<char>, glue: Seq<char>, value: Seq<char>, next: Seq<char>, at: int)
    requires
        text::occurs_at(js, glue, at),
        text::occurs_at(js, value, at + glue.len()),
        text::occurs_at(js, next, at + glue.len() + value.len()),
        glue.len() > 6,
        next.len() > 0 && next[0] == ';',
    ensures
        text::occurs(js, glue.skip(6) + value + seq![';']),
{
    lemma_rest(js, glue, at);
    lemma_rest(js, value, at + glue.len());
    lemma_rest(js, next, at + glue.len() + value.len());
    let p = glue.skip(6) + value + seq![';'];
    let tail = js.skip(at + glue.len() + value.len());
    assert(tail[0] == ';');
    assert(js.skip(at) =~= glue + (value + tail));
    assert(js.subrange(at + 6, at + 6 + p.len()) =~= js.skip(at).subrange(6, 6 + p.len() as int));
    assert(js.skip(at).subrange(6, 6 + p.len() as int) =~= p);
    assert(text::occurs_at(js, p, at + 6));
}

/// A choice says what it is, whatever its name and its id hold: the id stands
/// in the quotes behind `id=`, and the name is the text of the button.
pub proof fn law_a_choice_says_what_it_is(label: Seq<char>, id: Seq<char>)
    ensures
        ({
            let html = choice_html(label, id);
            let open = "<form><button type=\"button\" id=\""@;
            let close = "</button></form>"@;
            let quote = text::find_from(html, "\">"@, open.len() as int);
            &&& text::begins(html, open)
            &&& quote is Some
            &&& html_decoded(html.subrange(open.len() as int, quote->0)) == id
            &&& text::ends(html, close)
            &&& html_decoded(html.subrange(quote->0 + 2, html.len() - close.len())) == label
            &&& forall|i: int|
                quote->0 + 2 <= i < html.len() - close.len() ==> #[trigger] html[i] != '<'
        }),
{
    let open = "<form><button type=\"button\" id=\""@;
    let close = "</button></form>"@;
    let html = choice_html(label, id);
    let a = html_escaped(id);
    let b = html_escaped(label);
    reveal_strlit("\">");
    let n = open.len() as int;
    let m = n + a.len();
    law_an_escaped_text_is_inert(id);
    law_an_escaped_text_is_inert(label);
    law_an_escaped_text_decodes(id);
    law_an_escaped_text_decodes(label);
    assert(html.subrange(0, n) =~= open);
    assert(html.subrange(n, m) =~= a);
    assert(html.subrange(m, m + 2) =~= "\">"@);
    assert(html.subrange(m + 2, html.len() - close.len()) =~= b);
    assert(html.subrange(html.len() - close.len(), html.len() as int) =~= close);
    text::lemma_find_from(html, "\">"@, n);
    assert(text::occurs_at(html, "\">"@, m));
    assert forall|i: int| n <= i < m implies !text::occurs_at(html, "\">"@, i) by {
        if text::occurs_at(html, "\">"@, i) {
            assert(html.subrange(i, i + 2)[0] == '"');
            assert(html[i] == a[i - n]);
        }
    }
    assert forall|i: int| m + 2 <= i < html.len() - close.len() implies #[trigger] html[i] != '<' by {
        assert(html[i] == b[i - m - 2]);
    }
}

proof fn lemma_choice_stands(labels: Seq<Seq<char>>, ids: Seq<Seq<char>>, i: int)
    requires
        labels.len() == ids.len(),
        0 <= i < labels.len(),
    ensures
        text::occurs_at(
            choices_html(labels, ids),
            choice_html(labels[i], ids[i]),
            choices_html(labels.take(i), ids.take(i)).len() as int,
        ),
    decreases labels.len(),
{
    let front = choices_html(labels.drop_last(), ids.drop_last());
    let last = choice_html(labels.last(), ids.last());
    let all = choices_html(labels, ids);
    if i == labels.len() - 1 {
        assert(labels.take(i) =~= labels.drop_last());
        assert(ids.take(i) =~= ids.drop_last());
        assert(all.subrange(front.len() as int, front.len() as int + last.len()) =~= last);
    } else {
        lemma_choice_stands(labels.drop_last(), ids.drop_last(), i);
        assert(labels.drop_last().take(i) =~= labels.take(i));
        assert(ids.drop_last().take(i) =~= ids.take(i));
        let at = choices_html(labels.take(i), ids.take(i)).len() as int;
        let one = choice_html(labels[i], ids[i]);
        assert(all.subrange(at, at + one.len()) =~= front.subrange(at, at + one.len()));
    }
}

/// The page of a gate offers every choice, each with its own id, in the order
/// they were found, and nothing else stands between them.
pub proof fn law_every_choice_is_offered(labels: Seq<Seq<char>>, ids: Seq<Seq<char>>, i: int)
    requires
        labels.len() == ids.len(),
        0 <= i < labels.len(),
    ensures
        ({
            let before = gate_html(labels.take(i), ids.take(i));
            let at = before.len() - "</body></html>"@.len();
            &&& text::occurs_at(gate_html(labels, ids), choice_html(labels[i], ids[i]), at)
            &&& gate_html(labels, ids).take(at) == before.take(at)
        }),
        gate_html(Seq::<Seq<char>>::empty(), Seq::<Seq<char>>::empty())
            == "<!DOCTYPE html><html><body></body></html>"@,
{
    let head = "<!DOCTYPE html><html><body>"@;
    let foot = "</body></html>"@;
    reveal_strlit("<!DOCTYPE html><html><body>");
    reveal_strlit("</body></html>");
    reveal_strlit("<!DOCTYPE html><html><body></body></html>");
    let none = Seq::<Seq<char>>::empty();
    assert(none.take(0) =~= none);
    assert(gate_html(none, none) =~= "<!DOCTYPE html><html><body></body></html>"@);
    let all = choices_html(labels, ids);
    let part = choices_html(labels.take(i), ids.take(i));
    let one = choice_html(labels[i], ids[i]);
    lemma_choice_stands(labels, ids, i);
    lemma_choices_front(labels, ids, i);
    assert(labels.take(labels.len() as int) =~= labels);
    assert(ids.take(ids.len() as int) =~= ids);
    assert(labels.take(i).take(i) =~= labels.take(i));
    assert(ids.take(i).take(i) =~= ids.take(i));
    let page = gate_html(labels, ids);
    let before = gate_html(labels.take(i), ids.take(i));
    let at = before.len() - foot.len();
    assert(at == head.len() + part.len());
    assert(page =~= head + all + foot);
    assert(page.subrange(at, at + one.len()) =~= all.subrange(
        part.len() as int,
        part.len() as int + one.len(),
    ));
    assert(page.take(at) =~= head + all.take(part.len() as int));
    assert(before.take(at) =~= head + part);
}

proof fn lemma_choices_front(labels: Seq<Seq<char>>, ids: Seq<Seq<char>>, i: int)
    requires
        labels.len() == ids.len(),
        0 <= i <= labels.len(),
    ensures
        choices_html(labels.take(i), ids.take(i)).len() <= choices_html(labels, ids).len(),
        choices_html(labels, ids).take(choices_html(labels.take(i), ids.take(i)).len() as int)
            == choices_html(labels.take(i), ids.take(i)),
    decreases labels.len() - i,
{
    let part = choices_html(labels.take(i), ids.take(i));
    if i == labels.len() {
        assert(labels.take(i) =~= labels);
        assert(ids.take(i) =~= ids);
        assert(part.take(part.len() as int) =~= part);
    } else {
        lemma_choices_front(labels, ids, i + 1);
        let more = choices_html(labels.take(i + 1), ids.take(i + 1));
        assert(labels.take(i + 1).drop_last() =~= labels.take(i));
        assert(ids.take(i + 1).drop_last() =~= ids.take(i));
        let all = choices_html(labels, ids);
        assert(more.take(part.len() as int) =~= part);
        assert(all.take(part.len() as int) =~= all.take(more.len() as int).take(part.len() as int));
    }
}

/// A page is looked at again as long as it says that choices are coming and a
/// retry is left; it is not where the choices are there and no more are coming.
pub proof fn law_a_page_is_looked_at_again_while_choices_come(
    s: GateState,
    labels: Seq<Seq<char>>,
    pending: bool,
)
    ensures
        pending && s.attempt < 3 ==> s.looks_again(labels, pending),
        labels.len() > 0 && !pending ==> !s.looks_again(labels, pending),
        s.is_wall && !pending ==> !s.looks_again(labels, pending),
{
}

/// What is known of a page when it has been read: it is a wall where its
/// address or its source says so, Google's values are read where its source
/// says that it is Google's wall and nowhere else, and the page itself is kept.
pub proof fn law_a_wall_is_known_by_its_address_or_its_source(url: Seq<char>, html: Seq<char>, i: int)
    ensures
        GateState::begin(url, html).html == html,
        GateState::begin(url, html).attempt == 0,
        0 <= i < consent::WALL_MARKERS@.len() && text::occurs(html, consent::WALL_MARKERS@[i]@)
            ==> GateState::begin(url, html).is_wall && GateState::begin(url, html).google == Some(
            consent::google_or_fallback(html),
        ),
        0 <= i < consent::WALL_URLS@.len() && text::occurs(url, consent::WALL_URLS@[i]@)
            ==> GateState::begin(url, html).is_wall,
        (forall|k: int|
            0 <= k < consent::WALL_MARKERS@.len() ==> !text::occurs(
                html,
                #[trigger] consent::WALL_MARKERS@[k]@,
            )) ==> GateState::begin(url, html).google is None,
{
}

/// Whatever comes of a gate, the page is not lost: it is handed over as it was
/// read, and a line in front says so where it is a wall that offered no choice.
pub proof fn law_the_page_is_handed_over_whole(s: GateState, action: GateAction, html: Seq<char>)
    requires
        s.hands_over(action, html),
    ensures
        action matches GateAction::Done { load, surfaced } && !surfaced && load.html@ == html
            && load.notices@.len() <= 1 && (load.notices@.len() == 1 ==> s.is_wall && outside::worded(
            "webbrowser-consent-unrecognised"@,
            load.notices@[0]@,
        )),
        s.is_wall && text::occurs(html, "consent.google.com/save"@) ==> (
        action matches GateAction::Done { load, surfaced } && load.notices@.len() == 1),
{
    assert(consent::WALL_MARKERS@[0]@ == "consent.google.com/save"@);
}

/// What the choices of Google's wall do.
proof fn lemma_socs_text()
    ensures
        GATE_SOCS@.len() >= 320,
        GATE_SOCS@.subrange(243, 320) == "choices.push({label: L.reject, kind: 'reject', run: setSocs(GOOGLE.reject)});"@,
        "choices.push({label: L.reject, kind: 'reject', run: setSocs(GOOGLE.reject)});"@.len() == 77,
        GATE_SOCS@.len() >= 406,
        GATE_SOCS@.subrange(329, 406) == "choices.push({label: L.accept, kind: 'accept', run: setSocs(GOOGLE.accept)});"@,
        "choices.push({label: L.accept, kind: 'accept', run: setSocs(GOOGLE.accept)});"@.len() == 77,
        GATE_SOCS@.len() >= 113,
        GATE_SOCS@.subrange(55, 113) == "document.cookie = 'SOCS=' + v + ';domain=' + GOOGLE.domain"@,
        "document.cookie = 'SOCS=' + v + ';domain=' + GOOGLE.domain"@.len() == 58,
{
    reveal_strlit(r##"        const setSocs = v => function () {
            document.cookie = 'SOCS=' + v + ';domain=' + GOOGLE.domain +
                ';path=/;max-age=' + GOOGLE.maxAge + ';secure;samesite=lax';
            location.reload();
        };
        choices.push({label: L.reject, kind: 'reject', run: setSocs(GOOGLE.reject)});
        choices.push({label: L.accept, kind: 'accept', run: setSocs(GOOGLE.accept)});
"##);
    reveal_strlit("choices.push({label: L.reject, kind: 'reject', run: setSocs(GOOGLE.reject)});");
    assert(GATE_SOCS@.subrange(243, 320) =~= "choices.push({label: L.reject, kind: 'reject', run: setSocs(GOOGLE.reject)});"@);
    reveal_strlit("choices.push({label: L.accept, kind: 'accept', run: setSocs(GOOGLE.accept)});");
    assert(GATE_SOCS@.subrange(329, 406) =~= "choices.push({label: L.accept, kind: 'accept', run: setSocs(GOOGLE.accept)});"@);
    reveal_strlit("document.cookie = 'SOCS=' + v + ';domain=' + GOOGLE.domain");
    assert(GATE_SOCS@.subrange(55, 113) =~= "document.cookie = 'SOCS=' + v + ';domain=' + GOOGLE.domain"@);
}

proof fn lemma_inside(js: Seq<char>, piece: Seq<char>, at: int, from: int, part: Seq<char>)
    requires
        text::occurs_at(js, piece, at),
        0 <= from,
        from + part.len() <= piece.len(),
        piece.subrange(from, from + part.len()) == part,
    ensures
        text::occurs(js, part),
{
    lemma_rest(js, piece, at);
    let k = at + from;
    let n = part.len() as int;
    assert(js.subrange(k, k + n) =~= js.skip(at).subrange(from, from + n));
    assert(js.skip(at).subrange(from, from + n) =~= piece.subrange(from, from + n));
    assert(text::occurs_at(js, part, k));
}

/// On Google's wall each choice does what it is called: the one that is named
/// for rejecting writes what rejects, and the one that is named for accepting
/// writes what accepts.
pub proof fn law_a_choice_does_what_it_is_called(
    google: Option<consent::Consent>,
    is_wall: bool,
    rebuild: bool,
    accept: Seq<char>,
    reject: Seq<char>,
)
    ensures
        text::occurs(
            gate_js(google, is_wall, rebuild, accept, reject),
            "choices.push({label: L.reject, kind: 'reject', run: setSocs(GOOGLE.reject)});"@,
        ),
        text::occurs(
            gate_js(google, is_wall, rebuild, accept, reject),
            "choices.push({label: L.accept, kind: 'accept', run: setSocs(GOOGLE.accept)});"@,
        ),
        text::occurs(
            gate_js(google, is_wall, rebuild, accept, reject),
            "document.cookie = 'SOCS=' + v + ';domain=' + GOOGLE.domain"@,
        ),
{
    let js = gate_js(google, is_wall, rebuild, accept, reject);
    let at = lemma_gate_pieces(google, is_wall, rebuild, accept, reject);
    lemma_socs_text();
    lemma_inside(js, GATE_SOCS@, at[29], 243, "choices.push({label: L.reject, kind: 'reject', run: setSocs(GOOGLE.reject)});"@);
    lemma_inside(js, GATE_SOCS@, at[29], 329, "choices.push({label: L.accept, kind: 'accept', run: setSocs(GOOGLE.accept)});"@);
    lemma_inside(js, GATE_SOCS@, at[29], 55, "document.cookie = 'SOCS=' + v + ';domain=' + GOOGLE.domain"@);
}

/// Without a gate the page is read again where something moved in it, and
/// handed over as it was where nothing did.
pub proof fn law_a_page_is_read_again_where_something_moved(s: GateState, action: GateAction, k: int)
    requires
        s.leaves(action),
    ensures
        s.marked ==> action is Serialise,
        0 <= k < consent::BANNER_MARKERS@.len() && text::occurs(s.html, consent::BANNER_MARKERS@[k]@)
            ==> action is Serialise,
        !s.marked && (forall|j: int|
            0 <= j < consent::BANNER_MARKERS@.len() ==> !text::occurs(
                s.html,
                #[trigger] consent::BANNER_MARKERS@[j]@,
            )) ==> (action matches GateAction::Done { load, surfaced } && !surfaced && load.html@
            == s.html),
{
}

/// A line of notice stands before a page only where the page is a wall and
/// still asks for the choice.
pub proof fn law_only_a_wall_that_still_asks_is_announced(
    s: GateState,
    action: GateAction,
    html: Seq<char>,
)
    requires
        s.hands_over(action, html),
    ensures
        action matches GateAction::Done { load, .. } && (load.notices@.len() == 1 <==> s.is_wall && (
        text::occurs(html, "consent.google.com/save"@) || text::occurs(
            html,
            "consent.youtube.com/save"@,
        ))),
{
    assert(consent::WALL_MARKERS@[0]@ == "consent.google.com/save"@);
    assert(consent::WALL_MARKERS@[1]@ == "consent.youtube.com/save"@);
}

/// The script that is run on a page is told what the wall of that page says.
pub proof fn law_the_script_of_a_page_knows_its_wall(s: GateState, action: GateAction, rebuild: bool)
    requires
        s.surfaces(action, rebuild),
    ensures
        action matches GateAction::Surface { js, wait } && wait == rebuild && (s.google matches Some(g)
            ==> (reads_back(g.domain) && reads_back(g.accept) && reads_back(g.reject) && reads_back(
            g.max_age,
        ) ==> gives_record(
            js@,
            "const GOOGLE = "@,
            seq![
                ("domain"@, g.domain),
                ("accept"@, g.accept),
                ("reject"@, g.reject),
                ("maxAge"@, g.max_age),
            ],
        ))) && (s.google is None ==> text::occurs(js@, "const GOOGLE = null;"@)),
{
    if let GateAction::Surface { js, wait } = action {
        let (accept, reject) = choose|accept: Seq<char>, reject: Seq<char>|
            outside::worded(ACCEPT_ALL_KEY@, accept) && outside::worded(REJECT_ALL_KEY@, reject)
                && js@ == #[trigger] gate_js(s.google, s.is_wall, rebuild, accept, reject);
        law_the_script_knows_the_wall(s.google, s.is_wall, rebuild, accept, reject);
    }
}

} // verus!
