//! The forms of a page: which control a line stands for, and the scripts that
//! fill and submit it.

use crate::json;
use crate::table;
use crate::table::Table;
use crate::text;
use crate::text::{chars_of, code_point, comes_before, decimal_text, stands_at, text_of};
use vstd::prelude::*;
use vstd::slice::slice_subrange;

verus! {

/// The kind of a form control.
#[derive(Debug, PartialEq, Eq)]
pub enum ControlKind {
    TextInput,
    Textarea,
    Checkbox,
    RadioOption { group: String, value: String },
    Submit,
    Select,
}

/// How to find a form control in the live page.
#[derive(Debug, PartialEq, Eq)]
pub struct FormControl {
    /// A selector for the control, within its form.
    pub css_selector: String,
    pub kind: ControlKind,
    /// The number of the form in document order, from one; zero for a control
    /// outside any form.
    pub form_index: usize,
    /// The position among the controls that match the selector.
    pub match_index: usize,
}

/// The kind of a form control, as a value.
pub enum Kind {
    TextInput,
    Textarea,
    Checkbox,
    RadioOption(Seq<char>, Seq<char>),
    Submit,
    Select,
}

/// A form control, as a value.
pub struct Control {
    pub css_selector: Seq<char>,
    pub kind: Kind,
    pub form_index: nat,
    pub match_index: nat,
}

impl View for ControlKind {
    type V = Kind;

    open spec fn view(&self) -> Kind {
        match self {
            ControlKind::TextInput => Kind::TextInput,
            ControlKind::Textarea => Kind::Textarea,
            ControlKind::Checkbox => Kind::Checkbox,
            ControlKind::RadioOption { group, value } => Kind::RadioOption(group@, value@),
            ControlKind::Submit => Kind::Submit,
            ControlKind::Select => Kind::Select,
        }
    }
}

impl View for FormControl {
    type V = Control;

    open spec fn view(&self) -> Control {
        Control {
            css_selector: self.css_selector@,
            kind: self.kind@,
            form_index: self.form_index as nat,
            match_index: self.match_index as nat,
        }
    }
}

/// The controls of a page, by the path of the line that stands for each.
pub type FormMap = Table<FormControl>;

/// The values the user typed, by the path of the field.
pub type FieldValues = Table<String>;

// ---------------------------------------------------------------------------
// The path of a form field
// ---------------------------------------------------------------------------

/// `s` without its leading slashes.
pub open spec fn without_slashes(s: Seq<char>) -> Seq<char>
    decreases s.len(),
{
    if s.len() > 0 && s[0] == '/' {
        without_slashes(s.skip(1))
    } else {
        s
    }
}

/// A segment of the path `t` that names a form starts at `i`.
pub open spec fn form_at(t: Seq<char>, i: int) -> bool {
    &&& 0 <= i && i + 5 < t.len()
    &&& i == 0 || t[i - 1] == '/'
    &&& text::occurs_at(t, "form_"@, i)
    &&& text::ascii_digit(t[i + 5])
}

/// The first position at or after `from` where such a segment starts.
pub open spec fn first_form(t: Seq<char>, from: int) -> Option<int>
    decreases t.len() - from,
{
    if from < 0 || from >= t.len() {
        None
    } else if form_at(t, from) {
        Some(from)
    } else {
        first_form(t, from + 1)
    }
}

/// The form-relative part of a path: everything from the first segment that
/// names a form.
pub open spec fn form_key(path: Seq<char>) -> Option<Seq<char>> {
    let t = without_slashes(path);
    match first_form(t, 0) {
        Some(i) => Some(t.skip(i)),
        None => None,
    }
}

/// Extract the form-relative key from a full path: `form_1/email` from
/// `/https://example.com/form_1/email`.
pub fn extract_form_key(path: &str) -> (r: Option<String>)
    ensures
        match r {
            Some(k) => form_key(path@) == Some(k@),
            None => form_key(path@) is None,
        },
{
    let all = chars_of(path);
    let mut start: usize = 0;
    assert(all@.skip(0) =~= all@);
    while start < all.len() && all[start] == '/'
        invariant
            start <= all.len(),
            without_slashes(all@) == without_slashes(all@.skip(start as int)),
        decreases all.len() - start,
    {
        assert(all@.skip(start as int).skip(1) =~= all@.skip(start + 1));
        start = start + 1;
    }
    let t = slice_subrange(all.as_slice(), start, all.len());
    assert(t@ =~= without_slashes(path@));
    let form = chars_of("form_");
    proof {
        reveal_strlit("form_");
    }
    let mut i: usize = 0;
    while i < t.len()
        invariant
            i <= t.len(),
            form@ == "form_"@,
            form@.len() == 5,
            t@ == without_slashes(path@),
            first_form(t@, 0) == first_form(t@, i as int),
        decreases t.len() - i,
    {
        if (i == 0 || t[i - 1] == '/') && stands_at(t, form.as_slice(), i) && t.len() - i > 5 {
            let c: u32 = code_point(t[i + 5]);
            if '0' as u32 <= c && c <= '9' as u32 {
                let key = slice_subrange(t, i, t.len());
                assert(key@ =~= t@.skip(i as int));
                return Some(text_of(key));
            }
        }
        i = i + 1;
    }
    None
}

// ---------------------------------------------------------------------------
// Scripts
// ---------------------------------------------------------------------------

/// The hexadecimal digit that counts `n`.
pub open spec fn hex_digit(n: int) -> char {
    if n < 10 {
        (n + '0' as int) as char
    } else {
        (n - 10 + 'a' as int) as char
    }
}

/// How `c` is written inside a JSON string.
pub open spec fn js_escaped(c: char) -> Seq<char> {
    if c == '\\' {
        seq!['\\', '\\']
    } else if c == '"' {
        seq!['\\', '"']
    } else if c == '\n' {
        seq!['\\', 'n']
    } else if c == '\r' {
        seq!['\\', 'r']
    } else if (c as int) < 0x20 {
        seq!['\\', 'u', '0', '0', hex_digit(c as int / 16), hex_digit(c as int % 16)]
    } else {
        seq![c]
    }
}

/// `s` as it is written inside a JSON string.
pub open spec fn js_body(s: Seq<char>) -> Seq<char>
    decreases s.len(),
{
    if s.len() == 0 {
        seq![]
    } else {
        js_body(s.drop_last()) + js_escaped(s.last())
    }
}

/// `s` as a JSON string literal.
pub open spec fn js_quoted(s: Seq<char>) -> Seq<char> {
    seq!['"'] + js_body(s) + seq!['"']
}

fn hex_char(n: u32) -> (r: char)
    requires
        n < 16,
    ensures
        r == hex_digit(n as int),
{
    if n < 10 {
        (48u8 + n as u8) as char
    } else {
        (87u8 + n as u8) as char
    }
}

/// Wrap a text as a JSON string literal for use in a script.
pub fn js_quote(s: &str) -> (r: String)
    ensures
        r@ == js_quoted(s@),
{
    let all = chars_of(s);
    let mut r = String::new();
    r.push('"');
    let mut i: usize = 0;
    assert(r@ =~= seq!['"'] + js_body(all@.take(0)));
    while i < all.len()
        invariant
            i <= all.len(),
            r@ == seq!['"'] + js_body(all@.take(i as int)),
        decreases all.len() - i,
    {
        assert(all@.take(i + 1).drop_last() =~= all@.take(i as int));
        let ghost before = r@;
        let c: char = all[i];
        let code: u32 = code_point(c);
        if c == '\\' {
            r.push('\\');
            r.push('\\');
        } else if c == '"' {
            r.push('\\');
            r.push('"');
        } else if c == '\n' {
            r.push('\\');
            r.push('n');
        } else if c == '\r' {
            r.push('\\');
            r.push('r');
        } else if code < 0x20 {
            r.push('\\');
            r.push('u');
            r.push('0');
            r.push('0');
            r.push(hex_char(code / 16));
            r.push(hex_char(code % 16));
        } else {
            r.push(c);
        }
        assert(r@ =~= before + js_escaped(c));
        assert(r@ =~= seq!['"'] + js_body(all@.take(i + 1)));
        i = i + 1;
    }
    assert(all@.take(all@.len() as int) =~= all@);
    r.push('"');
    assert(r@ =~= js_quoted(s@));
    r
}

proof fn lemma_js_body_front(s: Seq<char>)
    requires
        s.len() > 0,
    ensures
        js_body(s) == js_escaped(s[0]) + js_body(s.skip(1)),
    decreases s.len(),
{
    if s.len() == 1 {
        assert(s.drop_last() =~= seq![]);
        assert(s.skip(1) =~= seq![]);
        assert(js_body(s) =~= js_escaped(s[0]) + js_body(s.skip(1)));
    } else {
        lemma_js_body_front(s.drop_last());
        assert(s.drop_last().skip(1) =~= s.skip(1).drop_last());
        assert(js_body(s) =~= js_escaped(s[0]) + js_body(s.skip(1)));
    }
}

proof fn lemma_escaped_reads_back(c: char, tail: Seq<char>)
    ensures
        json::char_read(js_escaped(c) + tail) == Some((c, tail)),
{
    let e = js_escaped(c);
    let t = e + tail;
    assert(t.skip(e.len() as int) =~= tail);
    assert(t[0] == e[0]);
    if e.len() == 2 {
        assert(t[1] == e[1]);
    } else if e.len() == 6 {
        let n = c as int;
        assert(t[1] == 'u');
        let u = t.skip(2);
        assert(u[0] == '0' && u[1] == '0' && u[2] == hex_digit(n / 16) && u[3] == hex_digit(n % 16));
        assert(json::hex_value(hex_digit(n / 16)) == Some(n / 16));
        assert(json::hex_value(hex_digit(n % 16)) == Some(n % 16));
        assert(json::unit(u) == Some(n));
    }
}

/// Reading a quoted text as JSON gives that text back, whatever it holds, and
/// goes on right behind it.
pub proof fn law_a_quoted_text_reads_back(s: Seq<char>, rest: Seq<char>)
    ensures
        json::string_read(js_body(s) + seq!['"'] + rest) == Some((s, rest)),
        json::string_of(js_quoted(s)) == Some(s),
{
    lemma_body_reads_back(s, rest);
    lemma_body_reads_back(s, seq![]);
    assert(js_quoted(s).skip(1) =~= js_body(s) + seq!['"'] + Seq::<char>::empty());
}

proof fn lemma_body_reads_back(s: Seq<char>, rest: Seq<char>)
    ensures
        json::string_read(js_body(s) + seq!['"'] + rest) == Some((s, rest)),
    decreases s.len(),
{
    let t = js_body(s) + seq!['"'] + rest;
    if s.len() == 0 {
        assert(t[0] == '"');
        assert(t.skip(1) =~= rest);
        assert(s =~= seq![]);
    } else {
        let tail = js_body(s.skip(1)) + seq!['"'] + rest;
        lemma_js_body_front(s);
        lemma_body_reads_back(s.skip(1), rest);
        assert(t =~= js_escaped(s[0]) + tail);
        lemma_escaped_reads_back(s[0], tail);
        assert(seq![s[0]] + s.skip(1) =~= s);
    }
}

/// Two texts that are quoted alike are the same.
pub proof fn law_quoting_tells_texts_apart(a: Seq<char>, b: Seq<char>)
    requires
        js_quoted(a) == js_quoted(b),
    ensures
        a == b,
{
    law_a_quoted_text_reads_back(a, seq![]);
    law_a_quoted_text_reads_back(b, seq![]);
}

proof fn lemma_escaped_is_one_line(c: char)
    ensures
        forall|k: int| 0 <= k < js_escaped(c).len() ==> (#[trigger] js_escaped(c)[k]) as int >= 0x20,
{
    if (c as int) < 0x20 {
        assert(hex_digit(c as int / 16) as int >= 0x20);
        assert(hex_digit(c as int % 16) as int >= 0x20);
    }
}

/// A quoted text holds no character below U+0020, so it never breaks the line
/// it stands on.
pub proof fn law_a_quoted_text_is_one_line(s: Seq<char>)
    ensures
        forall|i: int|
            0 <= i < js_quoted(s).len() ==> (#[trigger] js_quoted(s)[i]) as int >= 0x20,
    decreases s.len(),
{
    if s.len() > 0 {
        let d = s.drop_last();
        law_a_quoted_text_is_one_line(d);
        let b = js_body(d);
        let e = js_escaped(s.last());
        lemma_escaped_is_one_line(s.last());
        assert forall|i: int| 0 <= i < js_quoted(s).len() implies (#[trigger] js_quoted(
            s,
        )[i]) as int >= 0x20 by {
            if 1 <= i <= b.len() {
                assert(js_quoted(s)[i] == js_quoted(d)[i]);
            } else if b.len() < i <= b.len() + e.len() {
                assert(js_quoted(s)[i] == e[i - 1 - b.len()]);
            }
        }
    }
}

pub const FILL_OPEN: &'static str = r#"(() => {
            const root = "#;

pub const FILL_FIND: &'static str = r#";
            const el = root.querySelectorAll("#;

pub const FILL_NTH: &'static str = r#")["#;

pub const FILL_SET: &'static str = r#"];
            if (!el) return false;
            el.focus();
            const setter =
                Object.getOwnPropertyDescriptor(window.HTMLInputElement.prototype, 'value')?.set
                || Object.getOwnPropertyDescriptor(window.HTMLTextAreaElement.prototype, 'value')?.set;
            if (setter) { setter.call(el, "#;

pub const FILL_ASSIGN: &'static str = r#"); }
            else { el.value = "#;

pub const FILL_EVENTS: &'static str = r#"; }
            el.dispatchEvent(new Event('input',  { bubbles: true }));
            el.dispatchEvent(new Event('change', { bubbles: true }));
            "#;

pub const FILL_CLOSE: &'static str = r#"
            return true;
        })()"#;

/// Presses Enter in the control and submits the form it is in, if any.
pub const FILL_ENTER: &'static str = r#"el.dispatchEvent(new KeyboardEvent('keydown', {key:'Enter', code:'Enter', keyCode:13, which:13, bubbles:true}));
el.dispatchEvent(new KeyboardEvent('keyup',   {key:'Enter', code:'Enter', keyCode:13, which:13, bubbles:true}));
const f = el.closest('form'); if (f) { (f.requestSubmit ? f.requestSubmit() : f.submit()); }"#;

pub const CLICK_OPEN: &'static str = r#"(() => { const fi = "#;

pub const CLICK_FIND: &'static str = r#"; const root = fi > 0 ? (document.forms[fi-1] || document) : document; const el = root.querySelectorAll("#;

pub const CLICK_NTH: &'static str = r#")["#;

pub const CLICK_CLOSE: &'static str = r#"]; if (el) { el.click(); return true; } if (fi > 0 && document.forms[fi-1]) { document.forms[fi-1].submit(); return true; } return false; })()"#;

pub const REOPENED_OPEN: &'static str = r#"(() => { const el = document.querySelector("#;

pub const REOPENED_FORM: &'static str = r#"); if (el) { el.click(); return true; } const f = document.querySelector('form:nth-of-type("#;

pub const REOPENED_CLOSE: &'static str = r#")'); if (f) { f.submit(); return true; } return false; })()"#;

/// The script that fills a control.
///
/// The control is looked for in its form, or in the whole document where it
/// stands outside any form.
pub open spec fn fill_js(
    form_index: nat,
    match_index: nat,
    selector: Seq<char>,
    value: Seq<char>,
    submit: bool,
) -> Seq<char> {
    let root = if form_index > 0 {
        "(document.forms["@ + text::decimal((form_index - 1) as nat) + "] || document)"@
    } else {
        "document"@
    };
    FILL_OPEN@ + root + FILL_FIND@ + js_quoted(selector) + FILL_NTH@ + text::decimal(match_index)
        + FILL_SET@ + js_quoted(value) + FILL_ASSIGN@ + js_quoted(value) + FILL_EVENTS@ + (if submit {
        FILL_ENTER@
    } else {
        seq![]
    }) + FILL_CLOSE@
}

/// Build a script that sets a control's value and tells the page about it.
/// With `submit`, which is for a control outside any form, Enter is pressed
/// afterwards, since there is no button to press.
pub fn build_fill_js(
    form_index: usize,
    match_index: usize,
    selector: &str,
    value: &str,
    submit: bool,
) -> (r: String)
    ensures
        r@ == fill_js(form_index as nat, match_index as nat, selector@, value@, submit),
{
    let mut root: String;
    if form_index > 0 {
        root = "(document.forms[".to_owned();
        root.append(decimal_text((form_index - 1) as u64).as_str());
        root.append("] || document)");
    } else {
        root = "document".to_owned();
    }
    let quoted = js_quote(value);
    let mut r = FILL_OPEN.to_owned();
    r.append(root.as_str());
    r.append(FILL_FIND);
    r.append(js_quote(selector).as_str());
    r.append(FILL_NTH);
    r.append(decimal_text(match_index as u64).as_str());
    r.append(FILL_SET);
    r.append(quoted.as_str());
    r.append(FILL_ASSIGN);
    r.append(quoted.as_str());
    r.append(FILL_EVENTS);
    if submit {
        r.append(FILL_ENTER);
    }
    r.append(FILL_CLOSE);
    r
}

/// The script that presses a form's submit button in the reader's tab.
pub open spec fn click_js(form_n: nat, selector: Seq<char>, match_index: nat) -> Seq<char> {
    CLICK_OPEN@ + text::decimal(form_n) + CLICK_FIND@ + js_quoted(selector) + CLICK_NTH@
        + text::decimal(match_index) + CLICK_CLOSE@
}

/// Build the script that presses a form's submit button, or submits the form
/// itself where the button is not there.
pub fn build_click_js(form_n: usize, selector: &str, match_index: usize) -> (r: String)
    ensures
        r@ == click_js(form_n as nat, selector@, match_index as nat),
{
    let mut r = CLICK_OPEN.to_owned();
    r.append(decimal_text(form_n as u64).as_str());
    r.append(CLICK_FIND);
    r.append(js_quote(selector).as_str());
    r.append(CLICK_NTH);
    r.append(decimal_text(match_index as u64).as_str());
    r.append(CLICK_CLOSE);
    r
}

/// The script that presses a submit button in a page that was opened again.
pub open spec fn reopened_click_js(selector: Seq<char>, form_n: nat) -> Seq<char> {
    REOPENED_OPEN@ + js_quoted(selector) + REOPENED_FORM@ + text::decimal(form_n) + REOPENED_CLOSE@
}

/// Build the script that presses a submit button in a page that was opened
/// again.
pub fn build_reopened_click_js(selector: &str, form_n: usize) -> (r: String)
    ensures
        r@ == reopened_click_js(selector@, form_n as nat),
{
    let mut r = REOPENED_OPEN.to_owned();
    r.append(js_quote(selector).as_str());
    r.append(REOPENED_FORM);
    r.append(decimal_text(form_n as u64).as_str());
    r.append(REOPENED_CLOSE);
    r
}

// ---------------------------------------------------------------------------
// The submit button of a form
// ---------------------------------------------------------------------------

/// The beginning of the paths in form number `n`.
pub open spec fn form_prefix(n: nat) -> Seq<char> {
    "form_"@ + text::decimal(n) + "/"@
}

/// A submit button of form number `n`, under the path `key`.
pub open spec fn is_submit_of(forms: Map<Seq<char>, Control>, n: nat, key: Seq<char>) -> bool {
    &&& forms.dom().contains(key)
    &&& text::begins(key, form_prefix(n))
    &&& forms[key].kind == Kind::Submit
}

/// `selector` and `match_index` find a submit button of form number `n`, or
/// any submit button where the page lists none for that form.
pub open spec fn finds_submit(
    forms: Map<Seq<char>, Control>,
    n: nat,
    selector: Seq<char>,
    match_index: nat,
) -> bool {
    if exists|key: Seq<char>| is_submit_of(forms, n, key) {
        exists|key: Seq<char>| #[trigger]
            is_submit_of(forms, n, key) && forms[key].css_selector == selector && forms[key].match_index
                == match_index
    } else {
        selector == "[type=\"submit\"]"@ && match_index == 0
    }
}

/// Find the submit button of form number `form_n`. Where a form has several,
/// any of them may be the one.
pub fn find_submit(forms: &FormMap, form_n: usize) -> (r: (String, usize))
    requires
        forms.wf(),
    ensures
        finds_submit(forms@, form_n as nat, r.0@, r.1 as nat),
{
    let mut prefix = "form_".to_owned();
    prefix.append(decimal_text(form_n as u64).as_str());
    prefix.append("/");
    let head = chars_of(prefix.as_str());
    let mut i: usize = 0;
    while i < forms.entries.len()
        invariant
            i <= forms.entries.len(),
            forms.wf(),
            head@ == form_prefix(form_n as nat),
            forall|j: int|
                0 <= j < i ==> !(text::begins(#[trigger] forms.entries@[j].0@, head@)
                    && forms.entries@[j].1@.kind == Kind::Submit),
        decreases forms.entries.len() - i,
    {
        let entry = &forms.entries[i];
        if let ControlKind::Submit = entry.1.kind {
            if stands_at(chars_of(entry.0.as_str()).as_slice(), head.as_slice(), 0) {
                proof {
                    table::lemma_entry(*forms, i as int);
                    assert(is_submit_of(forms@, form_n as nat, entry.0@));
                }
                return (entry.1.css_selector.clone(), entry.1.match_index);
            }
        }
        i = i + 1;
    }
    proof {
        assert forall|key: Seq<char>| !is_submit_of(forms@, form_n as nat, key) by {
            if is_submit_of(forms@, form_n as nat, key) {
                let j = table::lemma_some_entry(*forms, key);
                table::lemma_entry(*forms, j);
                assert(forms.entries@[j].0@ == key);
            }
        }
        assert(""@.len() == 0) by {
            reveal_strlit("");
        }
    }
    (sicompass_sdk::ffon::html_submit_selector("", ""), 0)
}

// ---------------------------------------------------------------------------
// Typed values
// ---------------------------------------------------------------------------

/// A list of texts in strictly increasing order.
pub open spec fn ordered(s: Seq<Seq<char>>) -> bool {
    forall|i: int, j: int| 0 <= i < j < s.len() ==> text::precedes(#[trigger] s[i], #[trigger] s[j])
}

/// Insert `key` into an ordered list that does not have it.
fn insert_ordered(v: &mut Vec<String>, key: &str)
    requires
        ordered(text::views(old(v)@)),
        !text::views(old(v)@).contains(key@),
    ensures
        ordered(text::views(final(v)@)),
        forall|k: Seq<char>|
            text::views(final(v)@).contains(k) <==> text::views(old(v)@).contains(k) || k == key@,
{
    let ghost all = text::views(v@);
    let mut i: usize = 0;
    while i < v.len() && !comes_before(key, v[i].as_str())
        invariant
            i <= v.len(),
            all == text::views(v@),
            ordered(all),
            !all.contains(key@),
            forall|j: int| 0 <= j < i ==> text::precedes(#[trigger] all[j], key@),
        decreases v.len() - i,
    {
        proof {
            assert(all[i as int] == v@[i as int]@);
            text::lemma_precedes_total(key@, all[i as int]);
        }
        i = i + 1;
    }
    let ghost before = v@;
    v.insert(i, key.to_owned());
    proof {
        let now = text::views(v@);
        assert(now =~= all.insert(i as int, key@));
        assert forall|a: int, b: int| 0 <= a < b < now.len() implies text::precedes(
            #[trigger] now[a],
            #[trigger] now[b],
        ) by {
            if a < i && b > i {
                assert(now[a] == all[a] && now[b] == all[b - 1]);
            } else if a < i && b < i {
                assert(now[a] == all[a] && now[b] == all[b]);
            } else if a < i && b == i {
                assert(now[a] == all[a]);
            } else if a == i {
                assert(now[b] == all[b - 1]);
                assert(all[i as int] == before[i as int]@);
                if b > i + 1 {
                    assert(text::precedes(all[i as int], all[b - 1]));
                    text::lemma_precedes_transitive(key@, all[i as int], all[b - 1]);
                }
            } else {
                assert(now[a] == all[a - 1] && now[b] == all[b - 1]);
            }
        }
        assert forall|k: Seq<char>| now.contains(k) <==> all.contains(k) || k == key@ by {
            if all.contains(k) {
                let j = all.index_of(k);
                if j < i {
                    assert(now[j] == k);
                } else {
                    assert(now[j + 1] == k);
                }
            }
            if k == key@ {
                assert(now[i as int] == k);
            }
            if now.contains(k) {
                let j = now.index_of(k);
                if j < i {
                    assert(all[j] == k);
                } else if j > i {
                    assert(all[j - 1] == k);
                }
            }
        }
    }
}

/// Compare typed values against the forms of a page that was fetched again.
/// The error lists every field that is gone, in order.
pub fn check_form_drift(stored: &FieldValues, fresh: &FormMap) -> (r: Result<(), Vec<String>>)
    requires
        stored.wf(),
    ensures
        match r {
            Ok(_) => stored@.dom().subset_of(fresh@.dom()),
            Err(missing) => {
                &&& missing.len() > 0
                &&& ordered(text::views(missing@))
                &&& forall|k: Seq<char>|
                    text::views(missing@).contains(k) <==> stored@.dom().contains(k)
                        && !fresh@.dom().contains(k)
            },
        },
{
    let mut missing: Vec<String> = Vec::new();
    let mut i: usize = 0;
    while i < stored.entries.len()
        invariant
            i <= stored.entries.len(),
            stored.wf(),
            ordered(text::views(missing@)),
            forall|k: Seq<char>|
                text::views(missing@).contains(k) <==> !fresh@.dom().contains(k) && exists|j: int|
                    0 <= j < i && #[trigger] stored.entries@[j].0@ == k,
        decreases stored.entries.len() - i,
    {
        let key = &stored.entries[i].0;
        let ghost before = missing@;
        if !fresh.contains_key(key.as_str()) {
            assert(!text::views(missing@).contains(key@)) by {
                let all = table::rows(stored.entries@);
                assert(all[i as int].0 == key@);
                assert forall|j: int| 0 <= j < i implies #[trigger] stored.entries@[j].0@ != key@ by {
                    assert(all[j].0 == stored.entries@[j].0@);
                }
            }
            insert_ordered(&mut missing, key.as_str());
        }
        proof {
            assert forall|k: Seq<char>|
                text::views(missing@).contains(k) <==> !fresh@.dom().contains(k) && exists|j: int|
                    0 <= j < i + 1 && #[trigger] stored.entries@[j].0@ == k by {
                if exists|j: int| 0 <= j < i + 1 && #[trigger] stored.entries@[j].0@ == k {
                    let j = choose|j: int| 0 <= j < i + 1 && #[trigger] stored.entries@[j].0@ == k;
                    if j == i {
                        assert(k == key@);
                    }
                }
                if k == key@ {
                    assert(stored.entries@[i as int].0@ == k);
                }
            }
        }
        i = i + 1;
    }
    if missing.len() == 0 {
        proof {
            assert forall|k: Seq<char>| stored@.dom().contains(k) implies fresh@.dom().contains(k) by {
                let j = table::lemma_some_entry(*stored, k);
                assert(stored.entries@[j].0@ == k);
                assert(!text::views(missing@).contains(k));
            }
        }
        Ok(())
    } else {
        proof {
            assert forall|k: Seq<char>|
                text::views(missing@).contains(k) <==> stored@.dom().contains(k)
                    && !fresh@.dom().contains(k) by {
                if stored@.dom().contains(k) {
                    let j = table::lemma_some_entry(*stored, k);
                    assert(stored.entries@[j].0@ == k);
                }
                if exists|j: int| 0 <= j < i && #[trigger] stored.entries@[j].0@ == k {
                    let j = choose|j: int| 0 <= j < i && #[trigger] stored.entries@[j].0@ == k;
                    table::lemma_entry(*stored, j);
                }
            }
        }
        Err(missing)
    }
}

/// A copy of the typed values.
pub fn copy_values(values: &FieldValues) -> (r: FieldValues)
    ensures
        r@ == values@,
        values.wf() ==> r.wf(),
{
    let ghost all = table::rows(values.entries@);
    let mut entries: Vec<(String, String)> = Vec::new();
    let mut i: usize = 0;
    while i < values.entries.len()
        invariant
            i <= values.entries.len(),
            all == table::rows(values.entries@),
            table::rows(entries@) == all.take(i as int),
        decreases values.entries.len() - i,
    {
        let ghost before = entries@;
        entries.push((values.entries[i].0.clone(), values.entries[i].1.clone()));
        assert(table::rows(entries@) =~= table::rows(before).push(all[i as int]));
        i = i + 1;
        assert(table::rows(entries@) =~= all.take(i as int));
    }
    assert(all.take(all.len() as int) =~= all);
    Table { entries }
}

// ---------------------------------------------------------------------------
// Laws
// ---------------------------------------------------------------------------

proof fn lemma_without_slashes(s: Seq<char>) -> (n: int)
    ensures
        0 <= n <= s.len(),
        without_slashes(s) == s.skip(n),
        forall|i: int| 0 <= i < n ==> #[trigger] s[i] == '/',
    decreases s.len(),
{
    if s.len() > 0 && s[0] == '/' {
        let n = lemma_without_slashes(s.skip(1));
        assert(s.skip(1).skip(n) =~= s.skip(n + 1));
        assert forall|i: int| 0 <= i < n + 1 implies #[trigger] s[i] == '/' by {
            if i > 0 {
                assert(s[i] == s.skip(1)[i - 1]);
            }
        }
        n + 1
    } else {
        assert(s.skip(0) =~= s);
        0
    }
}

proof fn lemma_first_form(t: Seq<char>, from: int)
    requires
        0 <= from,
    ensures
        match first_form(t, from) {
            Some(i) => from <= i && form_at(t, i) && forall|j: int|
                from <= j < i ==> !#[trigger] form_at(t, j),
            None => forall|j: int| from <= j ==> !#[trigger] form_at(t, j),
        },
    decreases t.len() - from,
{
    if from < t.len() && !form_at(t, from) {
        lemma_first_form(t, from + 1);
    }
}

/// The piece of a path at `i` names a form: it is the beginning of a piece, and
/// goes on with `form_` and a digit.
pub open spec fn names_form(path: Seq<char>, i: int) -> bool {
    &&& 0 <= i
    &&& i + 6 <= path.len()
    &&& i == 0 || path[i - 1] == '/'
    &&& path.subrange(i, i + 5) == seq!['f', 'o', 'r', 'm', '_']
    &&& '0' as int <= path[i + 5] as int <= '9' as int
}

/// The key of a field is the end of its path, character for character, from the
/// first piece on that names a form; a path without such a piece has none.
pub proof fn law_a_field_is_the_end_of_its_path(path: Seq<char>)
    ensures
        match form_key(path) {
            Some(k) => exists|i: int| #[trigger]
                names_form(path, i) && k == path.skip(i) && forall|j: int|
                    0 <= j < i ==> !#[trigger] names_form(path, j),
            None => forall|i: int| !#[trigger] names_form(path, i),
        },
{
    reveal_strlit("form_");
    assert("form_"@ =~= seq!['f', 'o', 'r', 'm', '_']);
    let n = lemma_without_slashes(path);
    let t = path.skip(n);
    lemma_first_form(t, 0);
    assert forall|i: int| n <= i implies #[trigger] names_form(path, i) == form_at(t, i - n) by {
        if i + 6 <= path.len() {
            assert(path.subrange(i, i + 5) =~= t.subrange(i - n, i - n + 5));
            assert(t[i - n + 5] == path[i + 5]);
            if i > n {
                assert(t[i - n - 1] == path[i - 1]);
            } else if n > 0 {
                assert(path[n - 1] == '/');
            }
        }
    }
    assert forall|i: int| 0 <= i < n implies !#[trigger] names_form(path, i) by {
        if names_form(path, i) {
            assert(path.subrange(i, i + 5)[0] == path[i]);
        }
    }
    match form_key(path) {
        Some(k) => {
            let i = first_form(t, 0)->0;
            assert(names_form(path, n + i));
            assert(t.skip(i) =~= path.skip(n + i));
            assert forall|j: int| 0 <= j < n + i implies !#[trigger] names_form(path, j) by {
                if j >= n {
                    assert(!form_at(t, j - n));
                }
            }
        },
        None => {
            assert forall|i: int| !#[trigger] names_form(path, i) by {
                if i >= n {
                    assert(!form_at(t, i - n));
                }
            }
        },
    }
}

/// A name that can stand in a record without quotes.
pub open spec fn is_bare(name: Seq<char>) -> bool {
    name.len() > 0 && !json::blank(name[0]) && !name.contains(':')
}

/// `s` holds, right behind `before`, a string that says `said`.
pub open spec fn says_behind(s: Seq<char>, before: Seq<char>, said: Seq<char>) -> bool {
    exists|i: int| #[trigger]
        text::occurs_at(s, before, i) && {
            let rest = s.skip(i + before.len());
            &&& rest.len() > 0 && rest[0] == '"'
            &&& json::string_read(rest.skip(1)) matches Some((got, _))
            &&& got == said
        }
}

proof fn lemma_says_behind(
    s: Seq<char>,
    glue: Seq<char>,
    at: int,
    before: Seq<char>,
    said: Seq<char>,
)
    requires
        text::occurs_at(s, glue, at),
        text::occurs_at(s, js_quoted(said), at + glue.len()),
        glue.len() >= before.len(),
        glue.skip(glue.len() - before.len()) == before,
    ensures
        says_behind(s, before, said),
{
    crate::gate::lemma_within(s, glue, at, before);
    let i = at + glue.len() - before.len();
    let from = at + glue.len();
    crate::gate::lemma_rest(s, js_quoted(said), from);
    let tail = s.skip(from + js_quoted(said).len());
    let rest = s.skip(from);
    assert(rest[0] == '"');
    assert(rest.skip(1) =~= js_body(said) + seq!['"'] + tail);
    law_a_quoted_text_reads_back(said, tail);
    assert(text::occurs_at(s, before, i));
}

/// Two pieces that stand next to each other.
proof fn lemma_both(s: Seq<char>, a: Seq<char>, b: Seq<char>, at: int)
    requires
        text::occurs_at(s, a, at),
        text::occurs_at(s, b, at + a.len()),
    ensures
        text::occurs_at(s, a + b, at),
{
    crate::gate::lemma_rest(s, a, at);
    crate::gate::lemma_rest(s, b, at + a.len());
    let ab = a + b;
    assert(s.skip(at) =~= ab + s.skip(at + a.len() + b.len()));
    assert(s.subrange(at, at + ab.len()) =~= s.skip(at).subrange(0, ab.len() as int));
    assert(s.skip(at).subrange(0, ab.len() as int) =~= ab);
}

/// The beginning of a piece.
proof fn lemma_head(s: Seq<char>, a: Seq<char>, at: int, n: int)
    requires
        text::occurs_at(s, a, at),
        0 <= n <= a.len(),
    ensures
        text::occurs_at(s, a.take(n), at),
{
    crate::gate::lemma_rest(s, a, at);
    assert(s.subrange(at, at + n) =~= s.skip(at).subrange(0, n));
    assert(s.skip(at).subrange(0, n) =~= a.take(n));
}

/// What the document is asked for: the form by its number, or all of it for a
/// control outside any form. The numbers of a page begin at one, those of a
/// script at zero.
pub open spec fn root_of(form_index: nat) -> Seq<char> {
    if form_index > 0 {
        "(document.forms["@ + text::decimal((form_index - 1) as nat) + "] || document)"@
    } else {
        "document"@
    }
}

proof fn lemma_fill_pieces(
    form_index: nat,
    match_index: nat,
    selector: Seq<char>,
    value: Seq<char>,
    submit: bool,
) -> (at: Seq<int>)
    ensures
        ({
            let js = fill_js(form_index, match_index, selector, value, submit);
            let q = js_quoted(value);
            &&& at.len() == 12
            &&& text::occurs_at(js, FILL_OPEN@, at[0])
            &&& text::occurs_at(js, root_of(form_index), at[1])
            &&& text::occurs_at(js, FILL_FIND@, at[2])
            &&& text::occurs_at(js, js_quoted(selector), at[3])
            &&& text::occurs_at(js, FILL_NTH@, at[4])
            &&& text::occurs_at(js, text::decimal(match_index), at[5])
            &&& text::occurs_at(js, FILL_SET@, at[6])
            &&& text::occurs_at(js, q, at[7])
            &&& text::occurs_at(js, FILL_ASSIGN@, at[8])
            &&& text::occurs_at(js, q, at[9])
            &&& text::occurs_at(js, FILL_EVENTS@, at[10])
            &&& submit ==> text::occurs_at(js, FILL_ENTER@, at[11])
            &&& at[1] == at[0] + FILL_OPEN@.len()
            &&& at[2] == at[1] + root_of(form_index).len()
            &&& at[3] == at[2] + FILL_FIND@.len()
            &&& at[4] == at[3] + js_quoted(selector).len()
            &&& at[5] == at[4] + FILL_NTH@.len()
            &&& at[6] == at[5] + text::decimal(match_index).len()
            &&& at[7] == at[6] + FILL_SET@.len()
            &&& at[8] == at[7] + q.len()
            &&& at[9] == at[8] + FILL_ASSIGN@.len()
        }),
{
    let js = fill_js(form_index, match_index, selector, value, submit);
    let q = js_quoted(value);
    let enter: Seq<char> = if submit {
        FILL_ENTER@
    } else {
        seq![]
    };
    let s0 = FILL_OPEN@;
    let s1 = s0 + root_of(form_index);
    let s2 = s1 + FILL_FIND@;
    let s3 = s2 + js_quoted(selector);
    let s4 = s3 + FILL_NTH@;
    let s5 = s4 + text::decimal(match_index);
    let s6 = s5 + FILL_SET@;
    let s7 = s6 + q;
    let s8 = s7 + FILL_ASSIGN@;
    let s9 = s8 + q;
    let s10 = s9 + FILL_EVENTS@;
    let s11 = s10 + enter;
    let s12 = s11 + FILL_CLOSE@;
    assert(js == s12);
    assert(js.subrange(0, js.len() as int) =~= js);
    crate::gate::lemma_last_piece(js, s11, FILL_CLOSE@);
    crate::gate::lemma_last_piece(js, s10, enter);
    crate::gate::lemma_last_piece(js, s9, FILL_EVENTS@);
    crate::gate::lemma_last_piece(js, s8, q);
    crate::gate::lemma_last_piece(js, s7, FILL_ASSIGN@);
    crate::gate::lemma_last_piece(js, s6, q);
    crate::gate::lemma_last_piece(js, s5, FILL_SET@);
    crate::gate::lemma_last_piece(js, s4, text::decimal(match_index));
    crate::gate::lemma_last_piece(js, s3, FILL_NTH@);
    crate::gate::lemma_last_piece(js, s2, js_quoted(selector));
    crate::gate::lemma_last_piece(js, s1, FILL_FIND@);
    crate::gate::lemma_last_piece(js, s0, root_of(form_index));
    let at: Seq<int> = seq![
        0int,
        s0.len() as int,
        s1.len() as int,
        s2.len() as int,
        s3.len() as int,
        s4.len() as int,
        s5.len() as int,
        s6.len() as int,
        s7.len() as int,
        s8.len() as int,
        s9.len() as int,
        s10.len() as int,
    ];
    at
}

/// `s` asks for the control number `nth` of those that `selector` finds.
pub open spec fn asks_for(s: Seq<char>, selector: Seq<char>, nth: nat) -> bool {
    &&& says_behind(s, "root.querySelectorAll("@, selector)
    &&& text::occurs(s, js_quoted(selector) + ")["@ + text::decimal(nth) + "]"@)
}

proof fn lemma_asks_for(
    s: Seq<char>,
    glue: Seq<char>,
    at: int,
    selector: Seq<char>,
    nth: nat,
    behind: Seq<char>,
)
    requires
        text::occurs_at(s, glue, at),
        text::occurs_at(s, js_quoted(selector), at + glue.len()),
        text::occurs_at(s, ")["@, at + glue.len() + js_quoted(selector).len()),
        text::occurs_at(
            s,
            text::decimal(nth),
            at + glue.len() + js_quoted(selector).len() + ")["@.len(),
        ),
        text::occurs_at(
            s,
            behind,
            at + glue.len() + js_quoted(selector).len() + ")["@.len() + text::decimal(nth).len(),
        ),
        behind.len() > 0 && behind[0] == ']',
        glue.len() >= "root.querySelectorAll("@.len(),
        glue.skip(glue.len() - "root.querySelectorAll("@.len()) == "root.querySelectorAll("@,
    ensures
        asks_for(s, selector, nth),
{
    reveal_strlit("]");
    lemma_says_behind(s, glue, at, "root.querySelectorAll("@, selector);
    let p = at + glue.len();
    let q = js_quoted(selector);
    lemma_both(s, q, ")["@, p);
    lemma_both(s, q + ")["@, text::decimal(nth), p);
    let n = p + (q + ")["@ + text::decimal(nth)).len();
    lemma_head(s, behind, n, 1);
    assert(behind.take(1) =~= "]"@);
    lemma_both(s, q + ")["@ + text::decimal(nth), "]"@, p);
}

/// The script that fills a control asks for the right control, by its form, its
/// selector and its position, and gives it what was typed, whatever that holds.
/// Where it is to submit, it presses Enter.
pub proof fn law_a_script_fills_the_control_with_what_was_typed(
    form_index: nat,
    match_index: nat,
    selector: Seq<char>,
    value: Seq<char>,
    submit: bool,
)
    ensures
        ({
            let js = fill_js(form_index, match_index, selector, value, submit);
            &&& form_index == 0 ==> text::occurs(js, "const root = document;"@)
            &&& form_index > 0 ==> text::occurs(
                js,
                "const root = (document.forms["@ + text::decimal((form_index - 1) as nat)
                    + "] || document)"@,
            )
            &&& asks_for(js, selector, match_index)
            &&& says_behind(js, "setter.call(el, "@, value)
            &&& says_behind(js, "el.value = "@, value)
            &&& submit ==> text::occurs(js, "{key:'Enter'"@)
        }),
{
    let js = fill_js(form_index, match_index, selector, value, submit);
    let at = lemma_fill_pieces(form_index, match_index, selector, value, submit);
    lemma_fill_glue();
    lemma_asks_for(js, FILL_FIND@, at[2], selector, match_index, FILL_SET@);
    lemma_says_behind(js, FILL_SET@, at[6], "setter.call(el, "@, value);
    lemma_says_behind(js, FILL_ASSIGN@, at[8], "el.value = "@, value);
    crate::gate::lemma_within(js, FILL_OPEN@, at[0], "const root = "@);
    let r = at[1] - 13;
    lemma_both(js, "const root = "@, root_of(form_index), r);
    if form_index > 0 {
        lemma_root_text(form_index);
    } else {
        let whole = "const root = "@ + "document"@;
        lemma_head(js, FILL_FIND@, at[2], 1);
        lemma_both(js, whole, FILL_FIND@.take(1), r);
        lemma_root_text(form_index);
    }
    if submit {
        lemma_enter_text();
        crate::gate::lemma_rest(js, FILL_ENTER@, at[11]);
        let k = at[11] + 46;
        assert(js.subrange(k, k + 12) =~= js.skip(at[11]).subrange(46, 58));
        assert(js.skip(at[11]).subrange(46, 58) =~= FILL_ENTER@.subrange(46, 58));
        assert(text::occurs_at(js, "{key:'Enter'"@, k));
    }
}

proof fn lemma_root_text(form_index: nat)
    ensures
        form_index > 0 ==> "const root = "@ + root_of(form_index) == "const root = (document.forms["@
            + text::decimal((form_index - 1) as nat) + "] || document)"@,
        "const root = "@ + "document"@ + seq![';'] == "const root = document;"@,
{
    reveal_strlit("const root = ");
    reveal_strlit("document");
    reveal_strlit("const root = document;");
    reveal_strlit("(document.forms[");
    reveal_strlit("const root = (document.forms[");
    assert("const root = "@ + "document"@ + seq![';'] =~= "const root = document;"@);
    assert("const root = "@ + "(document.forms["@ =~= "const root = (document.forms["@);
    if form_index > 0 {
        assert("const root = "@ + root_of(form_index) =~= "const root = (document.forms["@
            + text::decimal((form_index - 1) as nat) + "] || document)"@);
    }
}

proof fn lemma_fill_glue()
    ensures
        "const root = "@.len() == 13,
        FILL_OPEN@.len() >= 13,
        FILL_OPEN@.skip(FILL_OPEN@.len() - "const root = "@.len()) == "const root = "@,
        FILL_FIND@.len() >= "root.querySelectorAll("@.len(),
        FILL_FIND@.skip(FILL_FIND@.len() - "root.querySelectorAll("@.len())
            == "root.querySelectorAll("@,
        FILL_FIND@.len() > 0 && FILL_FIND@.take(1) == seq![';'],
        FILL_SET@.len() > 0 && FILL_SET@[0] == ']',
        FILL_SET@.len() >= "setter.call(el, "@.len(),
        FILL_SET@.skip(FILL_SET@.len() - "setter.call(el, "@.len()) == "setter.call(el, "@,
        FILL_ASSIGN@.len() >= "el.value = "@.len(),
        FILL_ASSIGN@.skip(FILL_ASSIGN@.len() - "el.value = "@.len()) == "el.value = "@,
{
    reveal_strlit(r#"(() => {
            const root = "#);
    reveal_strlit(r#";
            const el = root.querySelectorAll("#);
    reveal_strlit(r#"];
            if (!el) return false;
            el.focus();
            const setter =
                Object.getOwnPropertyDescriptor(window.HTMLInputElement.prototype, 'value')?.set
                || Object.getOwnPropertyDescriptor(window.HTMLTextAreaElement.prototype, 'value')?.set;
            if (setter) { setter.call(el, "#);
    reveal_strlit(r#"); }
            else { el.value = "#);
    reveal_strlit("const root = ");
    reveal_strlit("root.querySelectorAll(");
    reveal_strlit("setter.call(el, ");
    reveal_strlit("el.value = ");
    assert(FILL_OPEN@.skip(FILL_OPEN@.len() - 13) =~= "const root = "@);
    assert(FILL_FIND@.skip(FILL_FIND@.len() - 22) =~= "root.querySelectorAll("@);
    assert(FILL_FIND@.take(1) =~= seq![';']);
    assert(FILL_SET@.skip(FILL_SET@.len() - 16) =~= "setter.call(el, "@);
    assert(FILL_ASSIGN@.skip(FILL_ASSIGN@.len() - 11) =~= "el.value = "@);
}

proof fn lemma_enter_text()
    ensures
        FILL_ENTER@.len() >= 58,
        FILL_ENTER@.subrange(46, 58) == "{key:'Enter'"@,
        "{key:'Enter'"@.len() == 12,
{
    reveal_strlit(r#"el.dispatchEvent(new KeyboardEvent('keydown', {key:'Enter', code:'Enter', keyCode:13, which:13, bubbles:true}));
el.dispatchEvent(new KeyboardEvent('keyup',   {key:'Enter', code:'Enter', keyCode:13, which:13, bubbles:true}));
const f = el.closest('form'); if (f) { (f.requestSubmit ? f.requestSubmit() : f.submit()); }"#);
    reveal_strlit("{key:'Enter'");
    assert(FILL_ENTER@.subrange(46, 58) =~= "{key:'Enter'"@);
}

/// The script that presses a submit button asks for the right button of the
/// right form.
pub proof fn law_a_script_presses_the_button_of_the_form(
    form_n: nat,
    selector: Seq<char>,
    match_index: nat,
)
    ensures
        text::occurs(
            click_js(form_n, selector, match_index),
            "const fi = "@ + text::decimal(form_n) + ";"@,
        ),
        asks_for(click_js(form_n, selector, match_index), selector, match_index),
        says_behind(reopened_click_js(selector, form_n), "document.querySelector("@, selector),
        text::occurs(
            reopened_click_js(selector, form_n),
            "form:nth-of-type("@ + text::decimal(form_n) + ")"@,
        ),
{
    lemma_click_glue();
    let js = click_js(form_n, selector, match_index);
    let s0 = CLICK_OPEN@;
    let s1 = s0 + text::decimal(form_n);
    let s2 = s1 + CLICK_FIND@;
    let s3 = s2 + js_quoted(selector);
    let s4 = s3 + CLICK_NTH@;
    let s5 = s4 + text::decimal(match_index);
    assert(js == s5 + CLICK_CLOSE@);
    assert(js.subrange(0, js.len() as int) =~= js);
    crate::gate::lemma_last_piece(js, s5, CLICK_CLOSE@);
    crate::gate::lemma_last_piece(js, s4, text::decimal(match_index));
    crate::gate::lemma_last_piece(js, s3, CLICK_NTH@);
    crate::gate::lemma_last_piece(js, s2, js_quoted(selector));
    crate::gate::lemma_last_piece(js, s1, CLICK_FIND@);
    crate::gate::lemma_last_piece(js, s0, text::decimal(form_n));
    lemma_asks_for(js, CLICK_FIND@, s1.len() as int, selector, match_index, CLICK_CLOSE@);
    crate::gate::lemma_within(js, CLICK_OPEN@, 0, "const fi = "@);
    let a = s0.len() - "const fi = "@.len();
    lemma_both(js, "const fi = "@, text::decimal(form_n), a);
    lemma_head(js, CLICK_FIND@, s1.len() as int, 1);
    lemma_both(js, "const fi = "@ + text::decimal(form_n), ";"@, a);
    let again = reopened_click_js(selector, form_n);
    let r0 = REOPENED_OPEN@;
    let r1 = r0 + js_quoted(selector);
    let r2 = r1 + REOPENED_FORM@;
    let r3 = r2 + text::decimal(form_n);
    assert(again == r3 + REOPENED_CLOSE@);
    assert(again.subrange(0, again.len() as int) =~= again);
    crate::gate::lemma_last_piece(again, r3, REOPENED_CLOSE@);
    crate::gate::lemma_last_piece(again, r2, text::decimal(form_n));
    crate::gate::lemma_last_piece(again, r1, REOPENED_FORM@);
    crate::gate::lemma_last_piece(again, r0, js_quoted(selector));
    lemma_says_behind(again, REOPENED_OPEN@, 0, "document.querySelector("@, selector);
    crate::gate::lemma_within(again, REOPENED_FORM@, r1.len() as int, "form:nth-of-type("@);
    let b = r2.len() - "form:nth-of-type("@.len();
    lemma_both(again, "form:nth-of-type("@, text::decimal(form_n), b);
    lemma_head(again, REOPENED_CLOSE@, r3.len() as int, 1);
    lemma_both(again, "form:nth-of-type("@ + text::decimal(form_n), ")"@, b);
}

proof fn lemma_click_glue()
    ensures
        CLICK_OPEN@.len() >= "const fi = "@.len(),
        CLICK_OPEN@.skip(CLICK_OPEN@.len() - "const fi = "@.len()) == "const fi = "@,
        CLICK_FIND@.len() > 0 && CLICK_FIND@.take(1) == ";"@,
        CLICK_FIND@.len() >= "root.querySelectorAll("@.len(),
        CLICK_FIND@.skip(CLICK_FIND@.len() - "root.querySelectorAll("@.len())
            == "root.querySelectorAll("@,
        CLICK_CLOSE@.len() > 0 && CLICK_CLOSE@[0] == ']',
        REOPENED_OPEN@.len() >= "document.querySelector("@.len(),
        REOPENED_OPEN@.skip(REOPENED_OPEN@.len() - "document.querySelector("@.len())
            == "document.querySelector("@,
        REOPENED_FORM@.len() >= "form:nth-of-type("@.len(),
        REOPENED_FORM@.skip(REOPENED_FORM@.len() - "form:nth-of-type("@.len())
            == "form:nth-of-type("@,
        REOPENED_CLOSE@.len() > 0 && REOPENED_CLOSE@.take(1) == ")"@,
{
    reveal_strlit(r#"(() => { const fi = "#);
    reveal_strlit(r#"; const root = fi > 0 ? (document.forms[fi-1] || document) : document; const el = root.querySelectorAll("#);
    reveal_strlit(r#"]; if (el) { el.click(); return true; } if (fi > 0 && document.forms[fi-1]) { document.forms[fi-1].submit(); return true; } return false; })()"#);
    reveal_strlit(r#"(() => { const el = document.querySelector("#);
    reveal_strlit(r#"); if (el) { el.click(); return true; } const f = document.querySelector('form:nth-of-type("#);
    reveal_strlit(r#")'); if (f) { f.submit(); return true; } return false; })()"#);
    reveal_strlit("const fi = ");
    reveal_strlit(";");
    reveal_strlit(")");
    reveal_strlit("root.querySelectorAll(");
    reveal_strlit("document.querySelector(");
    reveal_strlit("form:nth-of-type(");
    assert(CLICK_OPEN@.skip(CLICK_OPEN@.len() - 11) =~= "const fi = "@);
    assert(CLICK_FIND@.take(1) =~= ";"@);
    assert(CLICK_FIND@.skip(CLICK_FIND@.len() - 22) =~= "root.querySelectorAll("@);
    assert(REOPENED_OPEN@.skip(REOPENED_OPEN@.len() - 23) =~= "document.querySelector("@);
    assert(REOPENED_FORM@.skip(REOPENED_FORM@.len() - 17) =~= "form:nth-of-type("@);
    assert(REOPENED_CLOSE@.take(1) =~= ")"@);
}

/// Where a page lists no submit button for a form, whatever submits first is
/// pressed.
pub proof fn law_without_a_listed_button_the_first_is_pressed(
    forms: Map<Seq<char>, Control>,
    n: nat,
    selector: Seq<char>,
    match_index: nat,
)
    requires
        forall|key: Seq<char>| #[trigger]
            forms.dom().contains(key) && forms[key].kind == Kind::Submit ==> !text::begins(
                key,
                "form_"@ + text::decimal(n) + "/"@,
            ),
    ensures
        finds_submit(forms, n, selector, match_index) <==> selector == "[type=\"submit\"]"@
            && match_index == 0,
{
    assert forall|key: Seq<char>| !is_submit_of(forms, n, key) by {
    }
}

} // verus!
