//! Every call that leaves the library: functions of the standard library, of
//! the application's SDK, of the HTML selector engine and of the JSON reader,
//! each with what the library takes to be true of it.

use crate::forms::{ControlKind, FormControl, FormMap};
use crate::json::Json;
use crate::tree::{Element, Section};
use crate::{forms, json, text, tree};
use vstd::prelude::*;

verus! {

// ---------------------------------------------------------------------------
// Text
// ---------------------------------------------------------------------------

/// `String::push` appends one character.
pub assume_specification[ String::push ](s: &mut String, c: char)
    ensures
        final(s)@ == old(s)@.push(c),
;

/// What `str::to_lowercase` makes of a text.
pub uninterp spec fn lowercase(s: Seq<char>) -> Seq<char>;

/// `str::to_lowercase` gives the lower case of a text by the rules of
/// Unicode; of a text in ASCII only the letters A to Z change.
pub assume_specification[ str::to_lowercase ](s: &str) -> (r: String)
    ensures
        r@ == lowercase(s@),
        text::ascii(s@) ==> r@ == text::lowered(s@),
;

/// How `{:?}` writes a text.
pub uninterp spec fn debug_quoted(s: Seq<char>) -> Seq<char>;

/// `format!` with `{:?}` writes a text in double quotes, with escapes where
/// they are needed.
#[verifier::external_body]
pub(crate) fn debug_quote(s: &str) -> (r: String)
    ensures
        r@ == debug_quoted(s@),
{
    format!("{s:?}")
}

/// What `String::from_utf8_lossy` makes of bytes.
pub uninterp spec fn lossy(bytes: Seq<u8>) -> Seq<char>;

/// `String::from_utf8_lossy` reads bytes as UTF-8 and replaces what is not.
/// Valid UTF-8 comes back as it is.
#[verifier::external_body]
pub(crate) fn lossy_text(bytes: &[u8]) -> (r: String)
    ensures
        r@ == lossy(bytes@),
        vstd::utf8::valid_utf8(bytes@) ==> r@ == vstd::utf8::decode_utf8(bytes@),
{
    String::from_utf8_lossy(bytes).into_owned()
}

// ---------------------------------------------------------------------------
// The user's language
// ---------------------------------------------------------------------------

/// `words` is a text that `sicompass_sdk::localize::t` may give for the message
/// `key`: in one language or another, or the key itself. Two texts can both be.
pub uninterp spec fn worded(key: Seq<char>, words: Seq<char>) -> bool;

/// `sicompass_sdk::localize::t` gives the text for a message in the language
/// of the user, or the key itself. That language is a setting of the process,
/// so of the text no more is said than what message it is for.
pub assume_specification[ sicompass_sdk::localize::t ](key: &str) -> (r: String)
    ensures
        worded(key@, r@),
;

/// `words` is a text that `sicompass_sdk::localize::t_args` may give for the
/// message `key` with the argument `name` set to `value`. Two texts can both
/// be.
pub uninterp spec fn worded_with(
    key: Seq<char>,
    name: Seq<char>,
    value: Seq<char>,
    words: Seq<char>,
) -> bool;

/// `sicompass_sdk::localize::t_args` does the same for a message with one
/// named argument. Of the text no more is said than what message it is for,
/// and with what argument.
#[verifier::external_body]
pub(crate) fn translate_with(key: &str, name: &str, value: &str) -> (r: String)
    ensures
        worded_with(key@, name@, value@, r@),
{
    let mut args = sicompass_sdk::localize::Args::new();
    args.set(name.to_owned(), value.to_owned());
    sicompass_sdk::localize::t_args(key, &args)
}

// ---------------------------------------------------------------------------
// Documents
// ---------------------------------------------------------------------------

/// The attributes of a list of elements, as values.
pub open spec fn attributes(v: Seq<Vec<Option<String>>>) -> Seq<Seq<Option<Seq<char>>>> {
    Seq::new(
        v.len(),
        |i: int|
            Seq::new(
                v[i]@.len(),
                |k: int|
                    match v[i]@[k] {
                        Some(t) => Some(t@),
                        None => None,
                    },
            ),
    )
}

/// What `scraper` finds: the attributes `names` of each element of the
/// document `html` that `selector` matches, in the order the parser made them;
/// `None` where it does not take the selector.
pub uninterp spec fn selected(
    html: Seq<char>,
    selector: Seq<char>,
    names: Seq<&'static str>,
) -> Option<Seq<Seq<Option<Seq<char>>>>>;

/// `scraper::Html::parse_document` reads the document, `scraper::Selector::parse`
/// the selector, and `select` walks the elements that match; of each the
/// named attributes are read, in the order they are asked for. What comes
/// back depends on the arguments alone.
#[verifier::external_body]
pub(crate) fn select_attributes(html: &str, selector: &str, names: &[&'static str]) -> (r: Option<
    Vec<Vec<Option<String>>>,
>)
    ensures
        match r {
            Some(v) => selected(html@, selector@, names@) == Some(attributes(v@)) && forall|i: int|
                0 <= i < v@.len() ==> (#[trigger] v@[i])@.len() == names@.len(),
            None => selected(html@, selector@, names@) is None,
        },
{
    let selector = scraper::Selector::parse(selector).ok()?;
    let document = scraper::Html::parse_document(html);
    let rows = document.select(&selector).map(
        |e| names.iter().map(|n| e.value().attr(n).map(str::to_owned)).collect(),
    );
    Some(rows.collect())
}

/// What `html_resolve_href` makes of an address on a page.
pub uninterp spec fn resolved_href(href: Seq<char>, base_url: Seq<char>) -> Seq<char>;

/// `html_resolve_href` resolves an address against the page it stands on. An
/// empty one stays empty; a place on the page, and an address with a scheme,
/// a mail address or a telephone number among them, stay as they are.
pub assume_specification[ sicompass_sdk::ffon::html_resolve_href ](
    href: &str,
    base_url: &str,
) -> (r: String)
    ensures
        r@ == resolved_href(href@, base_url@),
        href@.len() == 0 ==> r@.len() == 0,
        text::begins(href@, "#"@) ==> r@ == href@,
        text::occurs(href@, "://"@) ==> r@ == href@,
        text::begins(href@, "mailto:"@) || text::begins(href@, "tel:"@) ==> r@ == href@,
;

/// The selector of a submit button with this name and this id.
pub open spec fn submit_selector(name: Seq<char>, id: Seq<char>) -> Seq<char> {
    if id.len() > 0 {
        "#"@ + id
    } else if name.len() > 0 {
        "[name=\""@ + name + "\"]"@
    } else {
        "[type=\"submit\"]"@
    }
}

/// `html_submit_selector` picks a button by its id, else by its name, else by
/// its type.
pub assume_specification[ sicompass_sdk::ffon::html_submit_selector ](
    name: &str,
    id: &str,
) -> (r: String)
    ensures
        r@ == submit_selector(name@, id@),
;

/// A node of the SDK's tree.
#[verifier::external_type_specification]
#[verifier::external_body]
pub struct ExFfonElement(sicompass_sdk::ffon::FfonElement);

/// A form control of the SDK.
#[verifier::external_type_specification]
#[verifier::external_body]
pub struct ExFormNode(sicompass_sdk::ffon::FormNode);

/// The node of the library for a node of the SDK's tree, variant for variant
/// and field for field.
#[verifier::external_body]
fn from_sdk(e: sicompass_sdk::ffon::FfonElement) -> (r: Element) {
    match e {
        sicompass_sdk::ffon::FfonElement::Str(s) => Element::Str(s),
        sicompass_sdk::ffon::FfonElement::Obj(o) => Element::Obj(
            Section { key: o.key, children: o.children.into_iter().map(from_sdk).collect() },
        ),
    }
}

/// The node of the SDK's tree for a node of the library.
#[verifier::external_body]
fn to_sdk(e: &Element) -> (r: sicompass_sdk::ffon::FfonElement) {
    match e {
        Element::Str(s) => sicompass_sdk::ffon::FfonElement::Str(s.clone()),
        Element::Obj(o) => sicompass_sdk::ffon::FfonElement::Obj(
            sicompass_sdk::ffon::FfonObject {
                key: o.key.clone(),
                children: o.children.iter().map(to_sdk).collect(),
            },
        ),
    }
}

/// The control of the library for a control of the SDK, field for field.
#[verifier::external_body]
fn control_from_sdk(n: sicompass_sdk::ffon::FormNode) -> (r: FormControl) {
    let kind = match n.kind {
        sicompass_sdk::ffon::FormNodeKind::TextInput => ControlKind::TextInput,
        sicompass_sdk::ffon::FormNodeKind::Textarea => ControlKind::Textarea,
        sicompass_sdk::ffon::FormNodeKind::Checkbox => ControlKind::Checkbox,
        sicompass_sdk::ffon::FormNodeKind::RadioOption { group, value } => {
            ControlKind::RadioOption { group, value }
        },
        sicompass_sdk::ffon::FormNodeKind::Submit => ControlKind::Submit,
        sicompass_sdk::ffon::FormNodeKind::Select => ControlKind::Select,
    };
    let (form_index, match_index) = (n.form_index, n.match_index);
    FormControl { css_selector: n.css_selector, kind, form_index, match_index }
}

/// What `html_to_ffon_with_forms` makes of a document: the reader's tree, and
/// the form controls by the path of their line.
pub uninterp spec fn html_page(html: Seq<char>, url: Seq<char>) -> (
    Seq<tree::Node>,
    Map<Seq<char>, forms::Control>,
);

/// `html_to_ffon_with_forms` turns a document into the reader's tree and its
/// form controls. Both depend on the arguments alone; the order in which the
/// controls are listed does not mean anything.
#[verifier::external_body]
pub(crate) fn render_html(html: &str, url: &str) -> (r: (Vec<Element>, FormMap))
    ensures
        (tree::nodes(r.0@), r.1@) == html_page(html@, url@),
        r.1.wf(),
{
    let (elements, forms) = sicompass_sdk::ffon::html_to_ffon_with_forms(html, url);
    let entries = forms.into_iter().map(|(k, n)| (k, control_from_sdk(n))).collect();
    (elements.into_iter().map(from_sdk).collect(), FormMap { entries })
}

// ---------------------------------------------------------------------------
// Tags in a line
// ---------------------------------------------------------------------------

/// The first position at or after `from` where `tag` stands in `s` without a
/// backslash in front.
pub open spec fn tag_at(s: Seq<char>, tag: Seq<char>, from: int) -> Option<int>
    decreases s.len() + 1 - from,
{
    if from < 0 || from + tag.len() > s.len() {
        None
    } else if text::occurs_at(s, tag, from) && (from == 0 || s[from - 1] != '\\') {
        Some(from)
    } else {
        tag_at(s, tag, from + 1)
    }
}

/// What stands between the first `open` without a backslash in front and the
/// first `close` behind it.
pub open spec fn between(s: Seq<char>, open: Seq<char>, close: Seq<char>) -> Option<Seq<char>> {
    match tag_at(s, open, 0) {
        Some(i) => match text::find_from(s, close, i + open.len()) {
            Some(j) => Some(s.subrange(i + open.len(), j)),
            None => None,
        },
        None => None,
    }
}

/// `extract_button_function_name` reads what stands in a line's button tag.
pub assume_specification[ sicompass_sdk::tags::extract_button_function_name ](
    line: &str,
) -> (r: Option<String>)
    ensures
        text::maybe(r) == between(line@, "<button>"@, "</button>"@),
;

/// `extract_link` reads what stands in a line's link tag.
pub assume_specification[ sicompass_sdk::tags::extract_link ](line: &str) -> (r: Option<String>)
    ensures
        text::maybe(r) == between(line@, "<link>"@, "</link>"@),
;

// ---------------------------------------------------------------------------
// JSON
// ---------------------------------------------------------------------------

/// A value of the JSON reader.
#[verifier::external_type_specification]
#[verifier::external_body]
pub struct ExValue(serde_json::Value);

/// The value of the library for a value of the JSON reader.
#[verifier::external_body]
fn json_from(v: serde_json::Value) -> (r: Json) {
    match v {
        serde_json::Value::Null => Json::Null,
        serde_json::Value::Bool(b) => Json::Bool(b),
        serde_json::Value::Number(n) => match (n.as_u64(), n.as_i64()) {
            (Some(u), _) => Json::Unsigned(u),
            (None, Some(i)) => Json::Negative(i),
            (None, None) => Json::Float(n.to_string()),
        },
        serde_json::Value::String(s) => Json::Str(s),
        serde_json::Value::Array(a) => Json::Array(a.into_iter().map(json_from).collect()),
        serde_json::Value::Object(o) => {
            Json::Object(o.into_iter().map(|(k, v)| (k, json_from(v))).collect())
        },
    }
}

/// The value of the JSON reader for a value of the library.
#[verifier::external_body]
fn json_to(j: &Json) -> (r: serde_json::Value) {
    match j {
        Json::Null => serde_json::Value::Null,
        Json::Bool(b) => serde_json::Value::from(*b),
        Json::Unsigned(n) => serde_json::Value::from(*n),
        Json::Negative(n) => serde_json::Value::from(*n),
        Json::Float(s) => serde_json::from_str::<serde_json::Number>(s).map(
            serde_json::Value::Number,
        ).unwrap_or_default(),
        Json::Str(s) => serde_json::Value::from(s.as_str()),
        Json::Array(a) => a.iter().map(json_to).collect(),
        Json::Object(o) => o.iter().map(|(k, v)| (k.clone(), json_to(v))).collect(),
    }
}

/// What `serde_json::from_slice` reads from bytes.
pub uninterp spec fn json_value(bytes: Seq<u8>) -> Option<json::JsonValue>;

/// `serde_json::from_slice` reads one JSON value, or nothing where the bytes
/// are not one.
#[verifier::external_body]
pub(crate) fn read_json(bytes: &[u8]) -> (r: Option<Json>)
    ensures
        match r {
            Some(j) => json_value(bytes@) == Some(j@),
            None => json_value(bytes@) is None,
        },
{
    serde_json::from_slice::<serde_json::Value>(bytes).ok().map(json_from)
}

/// What `serde_json::to_vec` writes for a value.
pub uninterp spec fn json_bytes(v: json::JsonValue) -> Seq<u8>;

/// `serde_json::to_vec` writes a value as JSON. Every control character in a
/// text is written as an escape, so no byte is zero.
#[verifier::external_body]
pub(crate) fn write_json(j: &Json) -> (r: Vec<u8>)
    ensures
        r@ == json_bytes(j@),
        forall|i: int| 0 <= i < r@.len() ==> #[trigger] r@[i] != 0,
{
    serde_json::to_vec(&json_to(j)).unwrap_or_default()
}

/// `serde_json::from_value` reads a text from a value that is one, and says
/// what is wrong with any other. Nothing is said of those words.
#[verifier::external_body]
pub(crate) fn json_text(j: &Json) -> (r: Result<String, String>)
    ensures
        match r {
            Ok(t) => j@ == json::JsonValue::Str(t@),
            Err(_) => !(j@ is Str),
        },
{
    serde_json::from_value::<String>(json_to(j)).map_err(|e| e.to_string())
}

/// What `to_json_string` writes for a tree.
pub uninterp spec fn tree_json(nodes: Seq<tree::Node>) -> Seq<char>;

/// `sicompass_sdk::ffon::to_json_string` writes a tree as JSON.
#[verifier::external_body]
pub(crate) fn write_tree(elements: &Vec<Element>) -> (r: String)
    ensures
        r@ == tree_json(tree::nodes(elements@)),
{
    let elements: Vec<sicompass_sdk::ffon::FfonElement> = elements.iter().map(to_sdk).collect();
    sicompass_sdk::ffon::to_json_string(&elements).unwrap_or_default()
}

/// What `parse_json` reads from a text; nothing where it is no tree.
pub uninterp spec fn json_tree(s: Seq<char>) -> Seq<tree::Node>;

/// `sicompass_sdk::ffon::parse_json` reads a tree from JSON. It gives back
/// what was written, as deep as the JSON reader goes: a section is two levels
/// of JSON, and the reader takes 127.
#[verifier::external_body]
pub(crate) fn read_tree(s: &str) -> (r: Vec<Element>)
    ensures
        tree::nodes(r@) == json_tree(s@),
        forall|nodes: Seq<tree::Node>|
            #[trigger] tree_json(nodes) == s@ && tree::nesting(nodes) <= 63 ==> tree::nodes(r@)
                == nodes,
{
    sicompass_sdk::ffon::parse_json(s).unwrap_or_default().into_iter().map(from_sdk).collect()
}

} // verus!
