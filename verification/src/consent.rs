//! The cookie gate: the decision a site puts in front of its content.
//!
//! A cookie banner sits between the reader and the page, so it is answered as
//! a page of its own: the list of choices, and nothing else. Every choice is a
//! form with a single button, whose press forwards to the real control.

use crate::outside;
use crate::text;
use crate::text::{
    chars_of, code_point, find_at, index_upto, mentions_any, text_of, trim, trim_start,
};
use vstd::prelude::*;
use vstd::slice::slice_subrange;

verus! {

/// Selectors for the "accept all" buttons of consent vendors.
pub const CMP_SELECTORS: [&'static str; 27] = [
    r#"button[data-testid="pur-accept-button"]"#,
    r#"button[data-testid="pur-all-accept-button"]"#,
    r#"button[class*="pur-accept"]"#,
    "#onetrust-accept-btn-handler",
    "button.onetrust-close-btn-handler.accept-btn",
    "#didomi-notice-agree-button",
    "#truste-consent-button",
    ".trustarc-agree-btn",
    r#"button[title="Accept All"]"#,
    ".message-button.accept-all",
    "button.sp_choice_type_11",
    "button.qc-cmp2-summary-buttons button:last-child",
    "#CybotCookiebotDialogBodyLevelButtonLevelOptinAllowAll",
    "#CybotCookiebotDialogBodyButtonAccept",
    "#coi-banner-accept",
    r#"button[data-testid="uc-accept-all-button"]"#,
    r#"[data-role="accept-all"]"#,
    r#"[data-testid="accept-all"]"#,
    r#"button[id*="accept-all"]"#,
    r#"button[class*="accept-all"]"#,
    r#"button[class*="acceptAll"]"#,
    r#"button[id*="accept"][id*="all"]"#,
    r#"button[class*="AcceptAll"]"#,
    r#"[data-cy*="accept-all"]"#,
    r#"[aria-label*="accept all" i]"#,
    r#"[aria-label*="Alles accepteren" i]"#,
    r#"[aria-label*="akzeptieren" i]"#,
];

/// Selectors for the "reject all" buttons of consent vendors. An id survives
/// translation, which a list of words never fully does.
pub const CMP_REJECT_SELECTORS: [&'static str; 12] = [
    "#onetrust-reject-all-handler",
    ".ot-pc-refuse-all-handler",
    "#didomi-notice-disagree-button",
    "#CybotCookiebotDialogBodyButtonDecline",
    "#CybotCookiebotDialogBodyLevelButtonLevelOptinDeclineAll",
    r#"button[data-testid="uc-deny-all-button"]"#,
    "button.sp_choice_type_REJECT_ALL",
    "#declineButton",
    "button.qc-cmp2-summary-buttons button:first-child",
    r#"button[id*="reject-all"]"#,
    r#"button[class*="reject-all"]"#,
    r#"[aria-label*="reject all" i]"#,
];

/// What the text of a refusing button says.
pub const REJECT_KEYWORDS: [&'static str; 18] = [
    "reject",
    "decline",
    "refuse",
    "weiger",
    "afwijz",
    "niet akkoord",
    "refuser",
    "continuer sans accepter",
    "ablehnen",
    "rifiuta",
    "rechazar",
    "only necessary",
    "essential only",
    "only essential",
    "alleen noodzakelijke",
    "alleen essenti",
    "nur notwendige",
    "nur erforderliche",
];

/// What the text of a button says that only opens a panel of preferences.
pub const SETTINGS_KEYWORDS: [&'static str; 8] = [
    "manage",
    "settings",
    "instellingen",
    "personnaliser",
    "preferences",
    "voorkeuren",
    "einstellungen",
    "paramètres",
];

/// What the text of an accepting button says, in six languages.
pub const ACCEPT_KEYWORDS: [&'static str; 26] = [
    "accept all",
    "allow all",
    "agree and continue",
    "i accept",
    "got it",
    "alles accepteren",
    "accepteer alles",
    "akkoord",
    "ja, ik accepteer",
    "ik ga akkoord",
    "alles toestaan",
    "tout accepter",
    "j'accepte",
    "accepter et fermer",
    "continuer et accepter",
    "alle akzeptieren",
    "alles annehmen",
    "zustimmen",
    "einverstanden",
    "akzeptieren und weiter",
    "accetta tutto",
    "accetto",
    "acconsento",
    "aceptar todo",
    "acepto",
    "aceptar y continuar",
];

/// What consent vendors leave parked in a page and is never content.
pub const CONSENT_DEBRIS: [&'static str; 13] = [
    "#onetrust-consent-sdk",
    "#onetrust-pc-sdk",
    ".onetrust-pc-dark-filter",
    "#didomi-host",
    "#CybotCookiebotDialog",
    "#CybotCookiebotDialogBodyUnderlay",
    "#usercentrics-root",
    "#truste-consent-track",
    ".qc-cmp2-container",
    "#coi-banner-wrapper",
    "#cookiescript_injected",
    "#axeptio_overlay",
    "#cmpwrapper",
];

/// Hosts of scripts that mean that a banner is coming.
pub const CONSENT_VENDOR_SCRIPTS: [&'static str; 12] = [
    "cookielaw.org",
    "onetrust.com",
    "cookiebot.com",
    "didomi.io",
    "usercentrics.eu",
    "trustarc.com",
    "quantcast.com",
    "cookiescript.com",
    "axept.io",
    "consentmanager.net",
    "cookieinformation.com",
    "sourcepoint.mgr.consensu.org",
];

/// What in the source gives a banner away.
pub const BANNER_MARKERS: [&'static str; 12] = [
    "onetrust-banner-sdk",
    "didomi-notice",
    "CybotCookiebotDialog",
    "usercentrics-root",
    "truste_popframe",
    "qc-cmp2-container",
    "coi-banner-wrapper",
    "sp_message_container",
    "cookiescript_injected",
    "axeptio_overlay",
    "cmpboxbtnyes",
    "cm-btn-accept-all",
];

/// Where each of these banners stands in the page.
pub const BANNER_SELECTORS: [&'static str; 12] = [
    "#onetrust-banner-sdk",
    "#didomi-notice",
    "#CybotCookiebotDialog",
    "#usercentrics-root",
    "#truste_popframe, #truste-consent-track",
    ".qc-cmp2-container",
    "#coi-banner-wrapper",
    r#"[id^="sp_message_container"]"#,
    "#cookiescript_injected",
    "#axeptio_overlay",
    "#cmpbox",
    ".klaro .cookie-modal, .klaro .cookie-notice",
];

/// Addresses of hosts that serve a consent page in place of the content.
pub const WALL_URLS: [&'static str; 7] = [
    "myprivacy.dpgmedia.be",
    "sp-prod.net",
    "privacy-mgmt.com",
    "/consent",
    "cookie-consent",
    "consent.",
    "cmp.",
];

/// What a consent wall served on an ordinary address submits to.
pub const WALL_MARKERS: [&'static str; 2] = ["consent.google.com/save", "consent.youtube.com/save"];

// ---------------------------------------------------------------------------
// What a button says
// ---------------------------------------------------------------------------

/// The lower-case text `lower` is that of a refusing or a settings button.
pub open spec fn refuses(lower: Seq<char>) -> bool {
    text::mentions(lower, REJECT_KEYWORDS@) || text::mentions(lower, SETTINGS_KEYWORDS@)
}

/// The lower-case text `lower` is that of an accepting button: one that says
/// nothing of refusing or settings.
pub open spec fn accepts(lower: Seq<char>) -> bool {
    !refuses(lower) && text::mentions(lower, ACCEPT_KEYWORDS@)
}

/// Whether a lower-case text is that of a refusing or a settings button.
pub fn lower_refuses(lower: &str) -> (r: bool)
    ensures
        r == refuses(lower@),
{
    let s = chars_of(lower);
    mentions_any(s.as_slice(), REJECT_KEYWORDS.as_slice()) || mentions_any(
        s.as_slice(),
        SETTINGS_KEYWORDS.as_slice(),
    )
}

/// Whether a lower-case text is that of an accepting button.
pub fn lower_accepts(lower: &str) -> (r: bool)
    ensures
        r == accepts(lower@),
{
    !lower_refuses(lower) && mentions_any(chars_of(lower).as_slice(), ACCEPT_KEYWORDS.as_slice())
}

/// Whether a button refuses or opens settings, and so must never be taken for
/// one that accepts.
pub fn is_reject_text(text: &str) -> (r: bool)
    ensures
        r == refuses(outside::lowercase(text@)),
        text::ascii(text@) ==> r == refuses(text::lowered(text@)),
{
    lower_refuses(text.to_lowercase().as_str())
}

/// Whether a button only opens a panel of preferences.
pub fn is_settings_text(text: &str) -> (r: bool)
    ensures
        r == text::mentions(outside::lowercase(text@), SETTINGS_KEYWORDS@),
        text::ascii(text@) ==> r == text::mentions(text::lowered(text@), SETTINGS_KEYWORDS@),
        r ==> refuses(outside::lowercase(text@)),
{
    mentions_any(chars_of(text.to_lowercase().as_str()).as_slice(), SETTINGS_KEYWORDS.as_slice())
}

/// Whether a button accepts everything.
pub fn is_accept_keyword(text: &str) -> (r: bool)
    ensures
        r == accepts(outside::lowercase(text@)),
        text::ascii(text@) ==> r == accepts(text::lowered(text@)),
{
    lower_accepts(text.to_lowercase().as_str())
}

/// A button that opens settings must never be taken for one that accepts, and
/// no button both accepts and refuses.
pub proof fn law_settings_and_refusals_never_accept(lower: Seq<char>)
    ensures
        text::mentions(lower, SETTINGS_KEYWORDS@) ==> refuses(lower),
        refuses(lower) ==> !accepts(lower),
{
}

/// The lower-case texts `a` and `b` are taken for the same.
pub open spec fn taken_alike(a: Seq<char>, b: Seq<char>) -> bool {
    &&& refuses(a) == refuses(b)
    &&& accepts(a) == accepts(b)
    &&& text::mentions(a, SETTINGS_KEYWORDS@) == text::mentions(b, SETTINGS_KEYWORDS@)
}

/// Case does not matter in what a button says in ASCII: in lower case or in
/// upper case it is still in ASCII, and is taken for the same.
pub proof fn law_case_does_not_matter(s: Seq<char>)
    requires
        text::ascii(s),
    ensures
        ({
            let small = text::lowered(s);
            let large = text::uppered(s);
            &&& text::ascii(small) && text::ascii(large)
            &&& taken_alike(text::lowered(small), text::lowered(s))
            &&& taken_alike(text::lowered(large), text::lowered(s))
        }),
{
    let small = text::lowered(s);
    let large = text::uppered(s);
    assert forall|i: int| 0 <= i < small.len() implies (#[trigger] small[i] as int) < 0x80 by {
        assert((s[i] as int) < 0x80);
    }
    assert forall|i: int| 0 <= i < large.len() implies (#[trigger] large[i] as int) < 0x80 by {
        assert((s[i] as int) < 0x80);
    }
    assert(text::lowered(small) =~= small);
    assert(text::lowered(large) =~= small);
}

/// Case does not matter in what a button says, in any language: two texts with
/// the same lower case are taken for the same, and so is a text and its lower
/// case wherever that is its own lower case.
pub proof fn law_the_lower_case_decides(s: Seq<char>, other: Seq<char>)
    ensures
        ({
            let lower = outside::lowercase(s);
            &&& outside::lowercase(other) == lower ==> taken_alike(outside::lowercase(other), lower)
            &&& outside::lowercase(lower) == lower ==> taken_alike(outside::lowercase(lower), lower)
        }),
{
}

/// There are refusals that open no settings: not every refusing button is a
/// settings button.
pub proof fn law_a_refusal_need_not_open_settings()
    ensures
        exists|lower: Seq<char>| #[trigger]
            refuses(lower) && !text::mentions(lower, SETTINGS_KEYWORDS@),
{
    let s = "reject"@;
    reveal_strlit("reject");
    reveal_strlit("manage");
    reveal_strlit("settings");
    reveal_strlit("instellingen");
    reveal_strlit("personnaliser");
    reveal_strlit("preferences");
    reveal_strlit("voorkeuren");
    reveal_strlit("einstellungen");
    reveal_strlit("paramètres");
    assert(s.subrange(0, 6) =~= s);
    assert(text::occurs_at(s, REJECT_KEYWORDS@[0]@, 0));
    assert(text::mentions(s, REJECT_KEYWORDS@));
    assert forall|k: int| 0 <= k < SETTINGS_KEYWORDS@.len() implies !text::occurs(
        s,
        #[trigger] SETTINGS_KEYWORDS@[k]@,
    ) by {
        let word = SETTINGS_KEYWORDS@[k]@;
        assert(word.len() >= 6 && word[0] != 'r');
        assert forall|i: int| !text::occurs_at(s, word, i) by {
            if text::occurs_at(s, word, i) {
                assert(s.subrange(i, i + word.len())[0] == word[0]);
            }
        }
    }
    assert(refuses(s));
}

// ---------------------------------------------------------------------------
// Walls and banners
// ---------------------------------------------------------------------------

/// Whether an address is that of a consent page served in place of the
/// content.
pub fn is_consent_wall_str(url: &str) -> (r: bool)
    ensures
        r == text::mentions(url@, WALL_URLS@),
{
    mentions_any(chars_of(url).as_slice(), WALL_URLS.as_slice())
}

/// Whether a page is a consent wall served on an ordinary address.
pub fn html_has_consent_wall(html: &str) -> (r: bool)
    ensures
        r == text::mentions(html@, WALL_MARKERS@),
{
    mentions_any(chars_of(html).as_slice(), WALL_MARKERS.as_slice())
}

/// Whether a page has a vendor's banner on top of its content.
pub fn html_has_inline_consent_banner(html: &str) -> (r: bool)
    ensures
        r == text::mentions(html@, BANNER_MARKERS@),
{
    mentions_any(chars_of(html).as_slice(), BANNER_MARKERS.as_slice())
}

// ---------------------------------------------------------------------------
// Values in an inline script
// ---------------------------------------------------------------------------

/// The first position of a semicolon or a line feed in `s`, or its length.
pub open spec fn statement_end(s: Seq<char>) -> int
    decreases s.len(),
{
    if s.len() == 0 || s[0] == ';' || s[0] == '\n' {
        0
    } else {
        1 + statement_end(s.skip(1))
    }
}

/// `s` up to the first `c`.
pub open spec fn until(s: Seq<char>, c: char) -> Seq<char> {
    s.take(text::upto(s, c))
}

/// The value assigned in `rest`, which follows the name of a variable: a text
/// in single or double quotes, or what stands before the end of the statement.
pub open spec fn assigned(rest: Seq<char>) -> Option<Seq<char>> {
    let t = text::trim_start_of(rest);
    if t.len() == 0 || t[0] != '=' {
        None
    } else {
        let b = text::trim_start_of(t.skip(1));
        if b.len() > 0 && b[0] == '\'' {
            Some(until(b.skip(1), '\''))
        } else if b.len() > 0 && b[0] == '"' {
            Some(until(b.skip(1), '"'))
        } else {
            Some(text::trim_of(b.take(statement_end(b))))
        }
    }
}

/// The value of the first assignment behind `needle`, at or after `base`, that
/// is not empty.
pub open spec fn var_from(html: Seq<char>, needle: Seq<char>, base: int) -> Option<Seq<char>>
    decreases html.len() - base,
    when needle.len() > 0 && base >= 0
{
    match text::find_from(html, needle, base) {
        None => None,
        Some(i) => if base <= i && i + needle.len() <= html.len() {
            let after = i + needle.len();
            match assigned(html.skip(after)) {
                Some(v) => if v.len() > 0 {
                    Some(v)
                } else {
                    var_from(html, needle, after)
                },
                None => var_from(html, needle, after),
            }
        } else {
            None
        },
    }
}

/// The value of the variable `name` in an inline script.
pub open spec fn var_value(html: Seq<char>, name: Seq<char>) -> Option<Seq<char>> {
    var_from(html, "var "@ + name, 0)
}

fn statement(s: &[char]) -> (r: &[char])
    ensures
        r@ == s@.take(statement_end(s@)),
{
    let mut i: usize = 0;
    assert(s@.skip(0) =~= s@);
    while i < s.len() && s[i] != ';' && s[i] != '\n'
        invariant
            i <= s.len(),
            statement_end(s@) == i + statement_end(s@.skip(i as int)),
        decreases s.len() - i,
    {
        assert(s@.skip(i as int).skip(1) =~= s@.skip(i + 1));
        i = i + 1;
    }
    let r = slice_subrange(s, 0, i);
    assert(r@ =~= s@.take(i as int));
    r
}

fn read_until(s: &[char], c: char) -> (r: &[char])
    ensures
        r@ == until(s@, c),
{
    let i: usize = index_upto(s, c);
    let r = slice_subrange(s, 0, i);
    assert(r@ =~= s@.take(i as int));
    r
}

fn read_assigned(rest: &[char]) -> (r: Option<String>)
    ensures
        text::maybe(r) == assigned(rest@),
{
    let t = trim_start(rest);
    if t.len() == 0 || t[0] != '=' {
        return None;
    }
    let tail = slice_subrange(t, 1, t.len());
    assert(tail@ =~= t@.skip(1));
    let b = trim_start(tail);
    if b.len() > 0 && (b[0] == '\'' || b[0] == '"') {
        let body = slice_subrange(b, 1, b.len());
        assert(body@ =~= b@.skip(1));
        return Some(text_of(read_until(body, b[0])));
    }
    Some(text_of(trim(statement(b))))
}

/// Read the value of a variable out of an inline script. A longer name that
/// only begins with `name` is passed over.
pub fn js_var(html: &str, name: &str) -> (r: Option<String>)
    ensures
        text::maybe(r) == var_value(html@, name@),
{
    let mut needle = "var ".to_owned();
    needle.append(name);
    let all = chars_of(html);
    let pattern = chars_of(needle.as_str());
    proof {
        reveal_strlit("var ");
    }
    let mut base: usize = 0;
    loop
        invariant
            base <= all.len(),
            all@ == html@,
            pattern@ == "var "@ + name@,
            pattern.len() > 0,
            var_value(html@, name@) == var_from(html@, pattern@, base as int),
        decreases all.len() - base,
    {
        match find_at(all.as_slice(), pattern.as_slice(), base) {
            None => {
                return None;
            },
            Some(i) => {
                proof {
                    text::lemma_find_from(all@, pattern@, base as int);
                }
                let after: usize = i + pattern.len();
                let rest = slice_subrange(all.as_slice(), after, all.len());
                assert(rest@ =~= all@.skip(after as int));
                if let Some(v) = read_assigned(rest) {
                    if !v.as_str().is_empty() {
                        return Some(v);
                    }
                }
                base = after;
            },
        }
    }
}

/// The consent values that Google publishes on its wall.
#[derive(Debug, PartialEq, Eq)]
pub struct GoogleConsent {
    pub domain: String,
    pub accept: String,
    pub reject: String,
    pub max_age: String,
}

/// The consent values, as texts: the domain, what accepts, what rejects, and
/// how long it holds.
pub struct Consent {
    pub domain: Seq<char>,
    pub accept: Seq<char>,
    pub reject: Seq<char>,
    pub max_age: Seq<char>,
}

impl View for GoogleConsent {
    type V = Consent;

    open spec fn view(&self) -> Consent {
        Consent {
            domain: self.domain@,
            accept: self.accept@,
            reject: self.reject@,
            max_age: self.max_age@,
        }
    }
}

/// What is written where the wall's own values cannot be read.
pub const GOOGLE_SOCS_FALLBACK: &'static str = "CAESHAgBEhIaAB";

/// How long a choice holds where the wall does not say, in seconds.
pub const GOOGLE_MAX_AGE: &'static str = "34128000";

/// `s` is a number in decimal.
pub open spec fn all_digits(s: Seq<char>) -> bool {
    s.len() > 0 && forall|i: int| 0 <= i < s.len() ==> text::ascii_digit(#[trigger] s[i])
}

/// The consent values on a wall, where it publishes them all.
pub open spec fn google_values(html: Seq<char>) -> Option<Consent> {
    match (
        var_value(html, "cookieDomain"@),
        var_value(html, "sCAS"@),
        var_value(html, "sCRS"@),
    ) {
        (Some(domain), Some(accept), Some(reject)) => if domain.len() > 0 && domain[0] == '.' {
            Some(
                Consent {
                    domain,
                    accept,
                    reject,
                    max_age: match var_value(html, "sL"@) {
                        Some(v) => if all_digits(v) {
                            v
                        } else {
                            GOOGLE_MAX_AGE@
                        },
                        None => GOOGLE_MAX_AGE@,
                    },
                },
            )
        } else {
            None
        },
        _ => None,
    }
}

fn is_number(s: &str) -> (r: bool)
    ensures
        r == all_digits(s@),
{
    let v = chars_of(s);
    if v.len() == 0 {
        return false;
    }
    let mut i: usize = 0;
    while i < v.len()
        invariant
            i <= v.len(),
            v@ == s@,
            forall|j: int| 0 <= j < i ==> text::ascii_digit(#[trigger] v@[j]),
        decreases v.len() - i,
    {
        let c: u32 = code_point(v[i]);
        if c < '0' as u32 || c > '9' as u32 {
            assert(!text::ascii_digit(s@[i as int]));
            return false;
        }
        i = i + 1;
    }
    true
}

/// Read the consent values from Google's wall.
pub fn google_consent_values(html: &str) -> (r: Option<GoogleConsent>)
    ensures
        match r {
            Some(c) => google_values(html@) == Some(c@),
            None => google_values(html@) is None,
        },
{
    let domain = match js_var(html, "cookieDomain") {
        Some(d) => d,
        None => {
            return None;
        },
    };
    let chars = chars_of(domain.as_str());
    if chars.len() == 0 || chars[0] != '.' {
        return None;
    }
    let accept = match js_var(html, "sCAS") {
        Some(v) => v,
        None => {
            return None;
        },
    };
    let reject = match js_var(html, "sCRS") {
        Some(v) => v,
        None => {
            return None;
        },
    };
    let max_age = match js_var(html, "sL") {
        Some(v) => if is_number(v.as_str()) {
            v
        } else {
            GOOGLE_MAX_AGE.to_owned()
        },
        None => GOOGLE_MAX_AGE.to_owned(),
    };
    Some(GoogleConsent { domain, accept, reject, max_age })
}

/// The values to offer where a wall's own cannot be read.
pub open spec fn google_or_fallback(html: Seq<char>) -> Consent {
    match google_values(html) {
        Some(c) => c,
        None => Consent {
            domain: ".google.com"@,
            accept: GOOGLE_SOCS_FALLBACK@,
            reject: GOOGLE_SOCS_FALLBACK@,
            max_age: GOOGLE_MAX_AGE@,
        },
    }
}

/// The consent values of Google's wall; where they cannot be read, both
/// choices are still offered.
pub fn google_consent_or_fallback(html: &str) -> (r: GoogleConsent)
    ensures
        r@ == google_or_fallback(html@),
{
    match google_consent_values(html) {
        Some(c) => c,
        None => GoogleConsent {
            domain: ".google.com".to_owned(),
            accept: GOOGLE_SOCS_FALLBACK.to_owned(),
            reject: GOOGLE_SOCS_FALLBACK.to_owned(),
            max_age: GOOGLE_MAX_AGE.to_owned(),
        },
    }
}

proof fn lemma_trim_start_gap(gap: Seq<char>, s: Seq<char>)
    requires
        forall|i: int| 0 <= i < gap.len() ==> text::white_space(#[trigger] gap[i]),
        s.len() > 0,
        !text::white_space(s[0]),
    ensures
        text::trim_start_of(gap + s) == s,
    decreases gap.len(),
{
    let t = gap + s;
    if gap.len() == 0 {
        assert(t =~= s);
    } else {
        assert(t[0] == gap[0]);
        assert(t.skip(1) =~= gap.skip(1) + s);
        assert forall|i: int| 0 <= i < gap.skip(1).len() implies text::white_space(
            #[trigger] gap.skip(1)[i],
        ) by {
            assert(gap.skip(1)[i] == gap[i + 1]);
        }
        lemma_trim_start_gap(gap.skip(1), s);
    }
}

proof fn lemma_until(v: Seq<char>, c: char, rest: Seq<char>)
    requires
        !v.contains(c),
    ensures
        until(v + seq![c] + rest, c) == v,
{
    let s = v + seq![c] + rest;
    text::lemma_upto(s, c);
    let n = text::upto(s, c);
    assert(s[v.len() as int] == c);
    if n < v.len() {
        assert(s[n] == v[n]);
        assert(v.contains(v[n]));
    }
    assert(s.take(n) =~= v);
}

/// What is assigned in quotes is read as it stands there, up to the closing
/// quote, whatever white space is around the sign.
proof fn lemma_assigned(before: Seq<char>, after: Seq<char>, q: char, v: Seq<char>, rest: Seq<char>)
    requires
        forall|i: int| 0 <= i < before.len() ==> text::white_space(#[trigger] before[i]),
        forall|i: int| 0 <= i < after.len() ==> text::white_space(#[trigger] after[i]),
        q == '\'' || q == '"',
        !v.contains(q),
    ensures
        assigned(before + (seq!['='] + (after + (seq![q] + (v + seq![q] + rest))))) == Some(v),
{
    let quoted = seq![q] + (v + seq![q] + rest);
    let sign = seq!['='] + (after + quoted);
    lemma_trim_start_gap(before, sign);
    assert(sign.skip(1) =~= after + quoted);
    lemma_trim_start_gap(after, quoted);
    assert(quoted[0] == q);
    assert(quoted.skip(1) =~= v + seq![q] + rest);
    lemma_until(v, q, rest);
}

/// A variable of an inline script is read as it is written: the first
/// assignment to it that has a value gives that value, character for character,
/// in single quotes and in double quotes, whatever stands around it.
pub proof fn law_a_variable_is_read_as_it_is_written(
    front: Seq<char>,
    name: Seq<char>,
    before: Seq<char>,
    after: Seq<char>,
    q: char,
    v: Seq<char>,
    rest: Seq<char>,
)
    requires
        forall|i: int| 0 <= i < before.len() ==> text::white_space(#[trigger] before[i]),
        forall|i: int| 0 <= i < after.len() ==> text::white_space(#[trigger] after[i]),
        q == '\'' || q == '"',
        v.len() > 0,
        !v.contains(q),
        forall|i: int|
            0 <= i < front.len() ==> !text::occurs_at(
                front + ("var "@ + name) + (before + (seq!['='] + (after + (seq![q] + (v + seq![q]
                    + rest))))),
                "var "@ + name,
                i,
            ),
    ensures
        var_value(
            front + ("var "@ + name) + (before + (seq!['='] + (after + (seq![q] + (v + seq![q]
                + rest))))),
            name,
        ) == Some(v),
{
    reveal_strlit("var ");
    let needle = "var "@ + name;
    let tail = before + (seq!['='] + (after + (seq![q] + (v + seq![q] + rest))));
    let html = front + needle + tail;
    let n = front.len() as int;
    assert(html.subrange(n, n + needle.len()) =~= needle);
    assert(text::occurs_at(html, needle, n));
    text::lemma_find_from(html, needle, 0);
    assert(text::find_from(html, needle, 0) == Some(n));
    assert(html.skip(n + needle.len()) =~= tail);
    lemma_assigned(before, after, q, v, rest);
}

/// The values of Google's wall are what the wall says: the one that accepts is
/// what it calls `sCAS`, and the one that rejects what it calls `sCRS`. They
/// are taken all or not at all.
pub proof fn law_the_values_are_what_the_wall_says(html: Seq<char>)
    ensures
        match google_values(html) {
            Some(c) => {
                &&& var_value(html, "cookieDomain"@) == Some(c.domain)
                &&& c.domain.len() > 0 && c.domain[0] == '.'
                &&& var_value(html, "sCAS"@) == Some(c.accept)
                &&& var_value(html, "sCRS"@) == Some(c.reject)
                &&& all_digits(c.max_age)
                &&& var_value(html, "sL"@) matches Some(v) ==> (all_digits(v) ==> c.max_age == v)
                &&& google_or_fallback(html) == c
            },
            None => {
                &&& {
                    ||| var_value(html, "cookieDomain"@) is None
                    ||| var_value(html, "sCAS"@) is None
                    ||| var_value(html, "sCRS"@) is None
                    ||| var_value(html, "cookieDomain"@) matches Some(d) && (d.len() == 0 || d[0]
                        != '.')
                }
                &&& google_or_fallback(html).accept.len() > 0
                &&& google_or_fallback(html).reject.len() > 0
                &&& google_or_fallback(html).domain == ".google.com"@
            },
        },
{
    reveal_strlit("34128000");
    reveal_strlit("CAESHAgBEhIaAB");
    assert(all_digits(GOOGLE_MAX_AGE@));
}

/// A text is taken for what it says: a word of refusal anywhere in it refuses,
/// and a word of acceptance accepts where nothing in it refuses.
pub proof fn law_a_word_anywhere_decides(front: Seq<char>, back: Seq<char>, k: int)
    ensures
        0 <= k < REJECT_KEYWORDS@.len() ==> refuses(front + REJECT_KEYWORDS@[k]@ + back),
        0 <= k < SETTINGS_KEYWORDS@.len() ==> refuses(front + SETTINGS_KEYWORDS@[k]@ + back),
        0 <= k < ACCEPT_KEYWORDS@.len() && !refuses(front + ACCEPT_KEYWORDS@[k]@ + back) ==> accepts(
            front + ACCEPT_KEYWORDS@[k]@ + back,
        ),
{
    if 0 <= k < REJECT_KEYWORDS@.len() {
        text::lemma_occurs(front, REJECT_KEYWORDS@[k]@, back);
    }
    if 0 <= k < SETTINGS_KEYWORDS@.len() {
        text::lemma_occurs(front, SETTINGS_KEYWORDS@[k]@, back);
    }
    if 0 <= k < ACCEPT_KEYWORDS@.len() {
        text::lemma_occurs(front, ACCEPT_KEYWORDS@[k]@, back);
    }
}

proof fn lemma_statement_end(v: Seq<char>, end: char, rest: Seq<char>)
    requires
        end == ';' || end == '\n',
        forall|i: int| 0 <= i < v.len() ==> #[trigger] v[i] != ';' && v[i] != '\n',
    ensures
        statement_end(v + seq![end] + rest) == v.len(),
    decreases v.len(),
{
    let s = v + seq![end] + rest;
    if v.len() == 0 {
        assert(s[0] == end);
    } else {
        assert(s[0] == v[0]);
        assert(s.skip(1) =~= v.skip(1) + seq![end] + rest);
        assert forall|i: int| 0 <= i < v.skip(1).len() implies #[trigger] v.skip(1)[i] != ';'
            && v.skip(1)[i] != '\n' by {
            assert(v.skip(1)[i] == v[i + 1]);
        }
        lemma_statement_end(v.skip(1), end, rest);
    }
}

/// A number that is assigned without quotes is read as it stands there, up to
/// the end of the statement.
pub proof fn law_a_bare_number_is_read_as_it_is_written(v: Seq<char>, end: char, rest: Seq<char>)
    requires
        all_digits(v),
        end == ';' || end == '\n',
    ensures
        assigned(seq!['='] + (v + seq![end] + rest)) == Some(v),
{
    let b = v + seq![end] + rest;
    let s = seq!['='] + b;
    assert(s[0] == '=');
    assert(text::trim_start_of(s) == s);
    assert(s.skip(1) =~= b);
    assert(b[0] == v[0]);
    assert(text::ascii_digit(v[0]));
    assert(text::trim_start_of(b) == b);
    assert forall|i: int| 0 <= i < v.len() implies #[trigger] v[i] != ';' && v[i] != '\n' by {
        assert(text::ascii_digit(v[i]));
    }
    lemma_statement_end(v, end, rest);
    assert(b.take(v.len() as int) =~= v);
    assert(text::ascii_digit(v.last()));
    assert(text::trim_of(v) == v);
}

proof fn lemma_find_shift(html: Seq<char>, p: Seq<char>, k: int, base: int)
    requires
        0 <= k <= html.len(),
        0 <= base,
        p.len() > 0,
    ensures
        text::find_from(html, p, k + base) == (match text::find_from(html.skip(k), p, base) {
            Some(i) => Some(i + k),
            None => None::<int>,
        }),
    decreases html.len() + 1 - k - base,
{
    let t = html.skip(k);
    if k + base + p.len() <= html.len() {
        assert(t.subrange(base, base + p.len()) =~= html.subrange(k + base, k + base + p.len()));
        if !text::occurs_at(t, p, base) {
            lemma_find_shift(html, p, k, base + 1);
        }
    }
}

proof fn lemma_var_shift(html: Seq<char>, needle: Seq<char>, k: int, base: int)
    requires
        0 <= k <= html.len(),
        0 <= base,
        needle.len() > 0,
    ensures
        var_from(html, needle, k + base) == var_from(html.skip(k), needle, base),
    decreases html.len() - k - base,
{
    let t = html.skip(k);
    lemma_find_shift(html, needle, k, base);
    text::lemma_find_from(t, needle, base);
    if let Some(i) = text::find_from(t, needle, base) {
        let after = i + needle.len();
        assert(html.skip(k + after) =~= t.skip(after));
        lemma_var_shift(html, needle, k, after);
    }
}

/// A name that only begins like the one asked for is another variable: it is
/// passed over, and what is read is what stands behind it.
pub proof fn law_another_variable_is_passed_over(front: Seq<char>, name: Seq<char>, tail: Seq<char>)
    requires
        tail.len() > 0 ==> tail[0] != '=' && !text::white_space(tail[0]),
        forall|i: int|
            0 <= i < front.len() ==> !text::occurs_at(
                front + ("var "@ + name) + tail,
                "var "@ + name,
                i,
            ),
    ensures
        var_value(front + ("var "@ + name) + tail, name) == var_value(tail, name),
{
    reveal_strlit("var ");
    let needle = "var "@ + name;
    let html = front + needle + tail;
    let n = front.len() as int;
    assert(html.subrange(n, n + needle.len()) =~= needle);
    assert(text::occurs_at(html, needle, n));
    text::lemma_find_from(html, needle, 0);
    assert(text::find_from(html, needle, 0) == Some(n));
    assert(html.skip(n + needle.len()) =~= tail);
    assert(text::trim_start_of(tail) == tail);
    lemma_var_shift(html, needle, n + needle.len(), 0);
}

} // verus!
