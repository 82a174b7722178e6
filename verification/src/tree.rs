//! The reader's tree: a page as strings and named branches, and its forms.

use crate::text;
use crate::text::{chars_of, stands_at};
use vstd::prelude::*;

verus! {

/// A node of the reader's tree.
#[derive(Debug, PartialEq, Eq)]
pub enum Element {
    /// A line of text.
    Str(String),
    /// A named section.
    Obj(Section),
}

/// A named section and what is in it.
#[derive(Debug, PartialEq, Eq)]
pub struct Section {
    pub key: String,
    pub children: Vec<Element>,
}

/// A node of the reader's tree, as a value.
pub enum Node {
    Str(Seq<char>),
    Obj(Seq<char>, Seq<Node>),
}

/// The value of a node.
pub open spec fn node(e: Element) -> Node
    decreases e,
{
    match e {
        Element::Str(s) => Node::Str(s@),
        Element::Obj(o) => Node::Obj(
            o.key@,
            Seq::new(
                o.children@.len(),
                |i: int|
                    if 0 <= i < o.children@.len() {
                        node(o.children@[i])
                    } else {
                        arbitrary()
                    },
            ),
        ),
    }
}

/// The values of a list of nodes.
pub open spec fn nodes(v: Seq<Element>) -> Seq<Node> {
    Seq::new(v.len(), |i: int| node(v[i]))
}

impl View for Element {
    type V = Node;

    open spec fn view(&self) -> Node {
        node(*self)
    }
}

pub proof fn lemma_section(o: Section)
    ensures
        node(Element::Obj(o)) == Node::Obj(o.key@, nodes(o.children@)),
{
    let kids = node(Element::Obj(o))->Obj_1;
    assert(kids =~= nodes(o.children@));
}

impl Element {
    pub fn new_str(s: &str) -> (r: Element)
        ensures
            r@ == Node::Str(s@),
    {
        Element::Str(s.to_owned())
    }

    pub fn new_obj(key: &str) -> (r: Element)
        ensures
            r@ == Node::Obj(key@, Seq::empty()),
    {
        let o = Section { key: key.to_owned(), children: Vec::new() };
        proof {
            lemma_section(o);
            assert(nodes(o.children@) =~= Seq::empty());
        }
        Element::Obj(o)
    }

    /// A copy of the node.
    pub fn copy(&self) -> (r: Element)
        ensures
            r@ == self@,
        decreases self,
    {
        match self {
            Element::Str(s) => Element::Str(s.clone()),
            Element::Obj(o) => {
                let n = Section { key: o.key.clone(), children: copies(&o.children) };
                proof {
                    lemma_section(n);
                    lemma_section(*o);
                }
                Element::Obj(n)
            },
        }
    }
}

/// Copies of the nodes.
pub fn copies(v: &Vec<Element>) -> (r: Vec<Element>)
    ensures
        nodes(r@) == nodes(v@),
    decreases v,
{
    let mut r: Vec<Element> = Vec::new();
    let mut i: usize = 0;
    while i < v.len()
        invariant
            i <= v.len(),
            r@.len() == i,
            forall|j: int| 0 <= j < i ==> node(r@[j]) == node(#[trigger] v@[j]),
        decreases v.len() - i,
    {
        proof {
            vstd::std_specs::vec::axiom_vec_index_decreases(*v, i as int);
        }
        r.push(v[i].copy());
        i = i + 1;
    }
    assert(nodes(r@) =~= nodes(v@));
    r
}

// ---------------------------------------------------------------------------
// How much there is to read
// ---------------------------------------------------------------------------

/// The number of characters in a list of nodes, keys and lines alike.
pub open spec fn texts_len(s: Seq<Node>) -> nat
    decreases s,
{
    if s.len() == 0 {
        0
    } else {
        texts_len(s.drop_last()) + text_len(s.last())
    }
}

/// The number of characters in a node.
pub open spec fn text_len(e: Node) -> nat
    decreases e,
{
    match e {
        Node::Str(t) => t.len(),
        Node::Obj(key, kids) => key.len() + texts_len(kids),
    }
}

/// The number of characters of a rendered page, or the largest number there
/// is where it would not fit.
pub fn ffon_text_len(elements: &Vec<Element>) -> (r: usize)
    ensures
        r == if texts_len(nodes(elements@)) <= usize::MAX {
            texts_len(nodes(elements@))
        } else {
            usize::MAX as nat
        },
    decreases elements,
{
    let ghost all = nodes(elements@);
    let mut n: usize = 0;
    let mut i: usize = 0;
    while i < elements.len()
        invariant
            i <= elements.len(),
            all == nodes(elements@),
            n == if texts_len(all.take(i as int)) <= usize::MAX {
                texts_len(all.take(i as int))
            } else {
                usize::MAX as nat
            },
        decreases elements.len() - i,
    {
        assert(all.take(i + 1).drop_last() =~= all.take(i as int));
        assert(all[i as int] == node(elements@[i as int]));
        proof {
            vstd::std_specs::vec::axiom_vec_index_decreases(*elements, i as int);
        }
        match &elements[i] {
            Element::Str(t) => {
                n = n.saturating_add(t.as_str().unicode_len());
            },
            Element::Obj(o) => {
                proof {
                    lemma_section(*o);
                }
                n = n.saturating_add(o.key.as_str().unicode_len()).saturating_add(
                    ffon_text_len(&o.children),
                );
            },
        }
        assert(texts_len(all.take(i + 1)) == texts_len(all.take(i as int)) + text_len(all[i as int]));
        i = i + 1;
    }
    assert(all.take(all.len() as int) =~= all);
    n
}

/// How deep the sections of a list are nested.
pub open spec fn nesting(s: Seq<Node>) -> nat
    decreases s,
{
    if s.len() == 0 {
        0
    } else {
        let before = nesting(s.drop_last());
        let last = match s.last() {
            Node::Str(_) => 0,
            Node::Obj(_, kids) => 1 + nesting(kids),
        };
        if before < last {
            last
        } else {
            before
        }
    }
}

// ---------------------------------------------------------------------------
// Patching a form field
// ---------------------------------------------------------------------------

/// The first line of `kids`, at or after `from`, that begins with `prefix`.
pub open spec fn field_at(kids: Seq<Node>, prefix: Seq<char>, from: int) -> Option<int>
    decreases kids.len() - from,
{
    if from < 0 || from >= kids.len() {
        None
    } else if kids[from] matches Node::Str(t) && text::begins(t, prefix) {
        Some(from)
    } else {
        field_at(kids, prefix, from + 1)
    }
}

/// `s` with the first matching field replaced, searched from position `from`
/// on: a line that begins with `prefix`, in a section whose key ends with
/// `form`, sections before what is nested in them. `None` where there is none.
pub open spec fn patched(
    s: Seq<Node>,
    from: int,
    form: Seq<char>,
    prefix: Seq<char>,
    replacement: Seq<char>,
) -> Option<Seq<Node>>
    decreases s, s.len() - from,
{
    if from < 0 || from >= s.len() {
        None
    } else {
        match s[from] {
            Node::Str(_) => patched(s, from + 1, form, prefix, replacement),
            Node::Obj(key, kids) => {
                let here = if text::ends(key, form) {
                    field_at(kids, prefix, 0)
                } else {
                    None
                };
                match here {
                    Some(j) => Some(
                        s.update(from, Node::Obj(key, kids.update(j, Node::Str(replacement)))),
                    ),
                    None => match patched(kids, 0, form, prefix, replacement) {
                        Some(k) => Some(s.update(from, Node::Obj(key, k))),
                        None => patched(s, from + 1, form, prefix, replacement),
                    },
                }
            },
        }
    }
}

/// Find the first line of `kids` that begins with `prefix`.
fn find_field(kids: &Vec<Element>, prefix: &[char]) -> (r: Option<usize>)
    ensures
        match r {
            Some(j) => field_at(nodes(kids@), prefix@, 0) == Some(j as int) && j < kids.len(),
            None => field_at(nodes(kids@), prefix@, 0) is None,
        },
{
    let ghost all = nodes(kids@);
    let mut j: usize = 0;
    while j < kids.len()
        invariant
            j <= kids.len(),
            all == nodes(kids@),
            field_at(all, prefix@, 0) == field_at(all, prefix@, j as int),
        decreases kids.len() - j,
    {
        assert(all[j as int] == node(kids@[j as int]));
        if let Element::Str(t) = &kids[j] {
            if stands_at(chars_of(t.as_str()).as_slice(), prefix, 0) {
                return Some(j);
            }
        }
        j = j + 1;
    }
    None
}

/// Whether `s` ends with `p`.
fn ends_with(s: &str, p: &[char]) -> (r: bool)
    ensures
        r == text::ends(s@, p@),
{
    let c = chars_of(s);
    c.len() >= p.len() && stands_at(c.as_slice(), p, c.len() - p.len())
}

/// Replace the first matching field, searched in `elems` and what is nested in
/// it. Returns whether there was one.
fn patch_in(
    elems: &mut Vec<Element>,
    form_name: &[char],
    prefix: &[char],
    replacement: &str,
) -> (r: bool)
    ensures
        match patched(nodes(old(elems)@), 0, form_name@, prefix@, replacement@) {
            Some(s) => r && nodes(final(elems)@) == s,
            None => !r && nodes(final(elems)@) == nodes(old(elems)@),
        },
    decreases nodes(old(elems)@),
{
    let ghost all = nodes(elems@);
    let mut i: usize = 0;
    while i < elems.len()
        invariant
            i <= elems.len(),
            all == nodes(old(elems)@),
            all == nodes(elems@),
            patched(all, 0, form_name@, prefix@, replacement@) == patched(
                all,
                i as int,
                form_name@,
                prefix@,
                replacement@,
            ),
        decreases elems.len() - i,
    {
        assert(all[i as int] == node(elems@[i as int]));
        let ghost before = elems@;
        let found = match &mut elems[i] {
            Element::Str(_) => false,
            Element::Obj(obj) => {
                proof {
                    lemma_section(*obj);
                }
                let here = if ends_with(obj.key.as_str(), form_name) {
                    find_field(&obj.children, prefix)
                } else {
                    None
                };
                match here {
                    Some(j) => {
                        let ghost kids = obj.children@;
                        obj.children.set(j, Element::Str(replacement.to_owned()));
                        assert(nodes(obj.children@) =~= nodes(kids).update(
                            j as int,
                            Node::Str(replacement@),
                        ));
                        true
                    },
                    None => patch_in(
                        &mut obj.children,
                        form_name,
                        prefix,
                        replacement,
                    ),
                }
            },
        };
        proof {
            assert(forall|j: int| 0 <= j < before.len() && j != i ==> elems@[j] == before[j]);
            if let Element::Obj(o) = elems@[i as int] {
                lemma_section(o);
            }
        }
        if found {
            assert(nodes(elems@) =~= all.update(i as int, node(elems@[i as int])));
            return true;
        }
        assert(nodes(elems@) =~= all);
        i = i + 1;
    }
    false
}

/// Update the first field line whose label matches, inside the section whose
/// key names the form (exactly, or as a suffix, for keys that carry an id).
/// Returns whether there was one.
pub fn patch_form_field_in_tree(
    elems: &mut Vec<Element>,
    form_name: &str,
    prefix: &str,
    replacement: &str,
) -> (r: bool)
    ensures
        match patched(nodes(old(elems)@), 0, form_name@, prefix@, replacement@) {
            Some(s) => r && nodes(final(elems)@) == s,
            None => !r && nodes(final(elems)@) == nodes(old(elems)@),
        },
{
    patch_in(elems, chars_of(form_name).as_slice(), chars_of(prefix).as_slice(), replacement)
}

proof fn lemma_field_at(kids: Seq<Node>, prefix: Seq<char>, from: int)
    requires
        0 <= from,
    ensures
        match field_at(kids, prefix, from) {
            Some(j) => {
                &&& from <= j < kids.len()
                &&& kids[j] matches Node::Str(t) && text::begins(t, prefix)
                &&& forall|i: int|
                    from <= i < j ==> !(#[trigger] kids[i] matches Node::Str(t) && text::begins(
                        t,
                        prefix,
                    ))
            },
            None => forall|i: int|
                from <= i < kids.len() ==> !(#[trigger] kids[i] matches Node::Str(t)
                    && text::begins(t, prefix)),
        },
    decreases kids.len() - from,
{
    if from < kids.len() && !(kids[from] matches Node::Str(t) && text::begins(t, prefix)) {
        lemma_field_at(kids, prefix, from + 1);
    }
}

/// A patch changes one node at or behind `from`, and no line at this level.
proof fn lemma_patched(
    s: Seq<Node>,
    from: int,
    form: Seq<char>,
    prefix: Seq<char>,
    replacement: Seq<char>,
)
    requires
        0 <= from,
    ensures
        patched(s, from, form, prefix, replacement) matches Some(t) ==> {
            &&& t.len() == s.len()
            &&& forall|i: int| 0 <= i < from && i < s.len() ==> t[i] == s[i]
            &&& forall|i: int|
                0 <= i < s.len() ==> (if s[i] is Str {
                    #[trigger] t[i] == s[i]
                } else {
                    t[i] is Obj
                })
        },
    decreases s.len() - from,
{
    if from < s.len() {
        lemma_patched(s, from + 1, form, prefix, replacement);
    }
}

proof fn lemma_repatched(
    s: Seq<Node>,
    from: int,
    form: Seq<char>,
    prefix: Seq<char>,
    first: Seq<char>,
    second: Seq<char>,
)
    requires
        0 <= from,
        text::begins(first, prefix),
    ensures
        match patched(s, from, form, prefix, first) {
            Some(t) => {
                &&& patched(s, from, form, prefix, second) is Some
                &&& patched(t, from, form, prefix, second) == patched(s, from, form, prefix, second)
            },
            None => patched(s, from, form, prefix, second) is None,
        },
    decreases s, s.len() - from,
{
    if from < s.len() {
        match s[from] {
            Node::Str(_) => {
                lemma_repatched(s, from + 1, form, prefix, first, second);
                lemma_patched(s, from + 1, form, prefix, first);
            },
            Node::Obj(key, kids) => {
                let here = if text::ends(key, form) {
                    field_at(kids, prefix, 0)
                } else {
                    None
                };
                lemma_field_at(kids, prefix, 0);
                match here {
                    Some(j) => {
                        let now = kids.update(j, Node::Str(first));
                        let t = s.update(from, Node::Obj(key, now));
                        assert(patched(s, from, form, prefix, first) == Some(t));
                        lemma_field_at(now, prefix, 0);
                        assert(now[j] == Node::Str(first));
                        assert(field_at(now, prefix, 0) == Some(j)) by {
                            assert forall|i: int| 0 <= i < j implies !(#[trigger] now[i] matches Node::Str(u)
                                && text::begins(u, prefix)) by {
                                assert(now[i] == kids[i]);
                            }
                        }
                        assert(now.update(j, Node::Str(second)) =~= kids.update(
                            j,
                            Node::Str(second),
                        ));
                        assert(t[from] == Node::Obj(key, now));
                        assert(t.update(
                            from,
                            Node::Obj(key, now.update(j, Node::Str(second))),
                        ) =~= s.update(from, Node::Obj(key, kids.update(j, Node::Str(second)))));
                    },
                    None => {
                        lemma_repatched(kids, 0, form, prefix, first, second);
                        match patched(kids, 0, form, prefix, first) {
                            Some(k) => {
                                let t = s.update(from, Node::Obj(key, k));
                                assert(patched(s, from, form, prefix, first) == Some(t));
                                assert(t[from] == Node::Obj(key, k));
                                lemma_patched(kids, 0, form, prefix, first);
                                lemma_field_at(k, prefix, 0);
                                if text::ends(key, form) {
                                    assert(field_at(k, prefix, 0) is None) by {
                                        if let Some(j) = field_at(k, prefix, 0) {
                                            assert(k[j] is Str);
                                            assert(kids[j] is Str);
                                            assert(k[j] == kids[j]);
                                        }
                                    }
                                }
                                let last = patched(kids, 0, form, prefix, second)->0;
                                assert(t.update(from, Node::Obj(key, last)) =~= s.update(
                                    from,
                                    Node::Obj(key, last),
                                ));
                            },
                            None => {
                                lemma_repatched(s, from + 1, form, prefix, first, second);
                                lemma_patched(s, from + 1, form, prefix, first);
                            },
                        }
                    },
                }
            },
        }
    }
}

/// The newest value of a field wins: patching a field twice is patching it
/// with the second value.
pub proof fn law_the_newest_value_wins(
    s: Seq<Node>,
    form: Seq<char>,
    prefix: Seq<char>,
    first: Seq<char>,
    second: Seq<char>,
)
    requires
        text::begins(first, prefix),
    ensures
        match patched(s, 0, form, prefix, first) {
            Some(t) => {
                &&& patched(s, 0, form, prefix, second) is Some
                &&& patched(t, 0, form, prefix, second) == patched(s, 0, form, prefix, second)
            },
            None => patched(s, 0, form, prefix, second) is None,
        },
{
    lemma_repatched(s, 0, form, prefix, first, second);
}

/// What stands at one place of a tree: a line, or the key of a section, and
/// the key of the section that it stands in, if it stands in one.
pub struct Place {
    pub within: Option<Seq<char>>,
    pub text: Seq<char>,
    pub is_line: bool,
}

/// What stands in `s` where `path` leads to: a position in the list, then one
/// in the section there, and so on. `within` is the key of the section that
/// `s` is the content of.
pub open spec fn read_at(s: Seq<Node>, within: Option<Seq<char>>, path: Seq<int>) -> Option<Place>
    decreases path.len(),
{
    if path.len() == 0 || path[0] < 0 || path[0] >= s.len() {
        None
    } else {
        match s[path[0]] {
            Node::Str(t) => if path.len() == 1 {
                Some(Place { within, text: t, is_line: true })
            } else {
                None
            },
            Node::Obj(key, kids) => if path.len() == 1 {
                Some(Place { within, text: key, is_line: false })
            } else {
                read_at(kids, Some(key), path.skip(1))
            },
        }
    }
}

/// A line that begins with `prefix`, in a section whose key ends with `form`.
pub open spec fn is_field(p: Option<Place>, form: Seq<char>, prefix: Seq<char>) -> bool {
    &&& p matches Some(place)
    &&& place.is_line
    &&& text::begins(place.text, prefix)
    &&& place.within matches Some(key)
    &&& text::ends(key, form)
}

/// `a` comes before `b` when a tree is searched: what stands in a section
/// itself before what is nested in it, and in both the first one first.
pub open spec fn sooner(a: Seq<int>, b: Seq<int>) -> bool
    decreases a.len(),
{
    if a.len() == 0 || b.len() == 0 {
        false
    } else if a.len() == 1 && b.len() == 1 {
        a[0] < b[0]
    } else if a.len() == 1 || b.len() == 1 {
        a.len() == 1
    } else if a[0] != b[0] {
        a[0] < b[0]
    } else {
        sooner(a.skip(1), b.skip(1))
    }
}

/// `t` is `s` with the line at `path` replaced, and nothing else changed: a
/// line that begins with `prefix`, in a section whose key ends with `form`,
/// and the first one there is.
pub open spec fn refilled(
    s: Seq<Node>,
    t: Seq<Node>,
    within: Option<Seq<char>>,
    path: Seq<int>,
    form: Seq<char>,
    prefix: Seq<char>,
    replacement: Seq<char>,
) -> bool {
    &&& is_field(read_at(s, within, path), form, prefix)
    &&& read_at(t, within, path) matches Some(now) && now.is_line && now.text == replacement
        && now.within == read_at(s, within, path)->0.within
    &&& forall|other: Seq<int>|
        other != path ==> #[trigger] read_at(t, within, other) == read_at(s, within, other)
    &&& forall|other: Seq<int>|
        other != path && other.len() > 1 && is_field(
            #[trigger] read_at(s, within, other),
            form,
            prefix,
        ) ==> sooner(path, other)
}

/// What is patched at or behind `from`, among the sections of `s`.
proof fn lemma_refilled(
    s: Seq<Node>,
    from: int,
    within: Option<Seq<char>>,
    form: Seq<char>,
    prefix: Seq<char>,
    replacement: Seq<char>,
) -> (path: Seq<int>)
    requires
        0 <= from,
        forall|p: Seq<int>|
            p.len() > 1 && p[0] < from ==> !is_field(
                #[trigger] read_at(s, within, p),
                form,
                prefix,
            ),
    ensures
        match patched(s, from, form, prefix, replacement) {
            Some(t) => path.len() > 1 && refilled(s, t, within, path, form, prefix, replacement),
            None => forall|p: Seq<int>|
                p.len() > 1 ==> !is_field(#[trigger] read_at(s, within, p), form, prefix),
        },
    decreases s, s.len() - from,
{
    if from >= s.len() {
        seq![]
    } else {
        match s[from] {
            Node::Str(_) => {
                assert forall|p: Seq<int>| p.len() > 1 && p[0] < from + 1 implies !is_field(
                    #[trigger] read_at(s, within, p),
                    form,
                    prefix,
                ) by {
                }
                lemma_refilled(s, from + 1, within, form, prefix, replacement)
            },
            Node::Obj(key, kids) => {
                let here = if text::ends(key, form) {
                    field_at(kids, prefix, 0)
                } else {
                    None
                };
                lemma_field_at(kids, prefix, 0);
                match here {
                    Some(j) => {
                        let now = kids.update(j, Node::Str(replacement));
                        let t = s.update(from, Node::Obj(key, now));
                        let path: Seq<int> = seq![from, j];
                        assert(path.skip(1) =~= seq![j]);
                        assert(t[from] == Node::Obj(key, now));
                        assert forall|other: Seq<int>| other != path implies #[trigger] read_at(
                            t,
                            within,
                            other,
                        ) == read_at(s, within, other) by {
                            if other.len() > 1 && other[0] == from {
                                let o = other.skip(1);
                                if o.len() == 1 && o[0] == j {
                                    assert(other =~= path);
                                }
                                if o[0] == j && o.len() > 1 {
                                    assert(kids[j] is Str);
                                }
                                assert(read_at(now, Some(key), o) == read_at(kids, Some(key), o));
                            }
                        }
                        assert forall|other: Seq<int>|
                            other != path && other.len() > 1 && is_field(
                                #[trigger] read_at(s, within, other),
                                form,
                                prefix,
                            ) implies sooner(path, other) by {
                            if other[0] == from {
                                let o = other.skip(1);
                                assert(is_field(read_at(kids, Some(key), o), form, prefix));
                                if o.len() == 1 {
                                    if o[0] == j {
                                        assert(other =~= path);
                                    }
                                    assert(o[0] > j) by {
                                        if o[0] < j {
                                            assert(kids[o[0]] is Str);
                                        }
                                    }
                                }
                                assert(sooner(path.skip(1), o));
                            }
                        }
                        let last = path.skip(1);
                        assert(kids[j] is Str);
                        assert(read_at(kids, Some(key), last) == Some(
                            Place { within: Some(key), text: kids[j]->Str_0, is_line: true },
                        ));
                        assert(read_at(now, Some(key), last) == Some(
                            Place { within: Some(key), text: replacement, is_line: true },
                        ));
                        assert(refilled(s, t, within, path, form, prefix, replacement));
                        path
                    },
                    None => {
                        assert forall|p: Seq<int>| p.len() == 1 implies !is_field(
                            #[trigger] read_at(kids, Some(key), p),
                            form,
                            prefix,
                        ) by {
                            if is_field(read_at(kids, Some(key), p), form, prefix) {
                                assert(kids[p[0]] is Str);
                            }
                        }
                        assert forall|p: Seq<int>| p.len() > 1 && p[0] < 0 implies !is_field(
                            #[trigger] read_at(kids, Some(key), p),
                            form,
                            prefix,
                        ) by {
                        }
                        let inner = lemma_refilled(kids, 0, Some(key), form, prefix, replacement);
                        match patched(kids, 0, form, prefix, replacement) {
                            Some(k) => {
                                let t = s.update(from, Node::Obj(key, k));
                                let path = seq![from] + inner;
                                assert(path.skip(1) =~= inner);
                                assert(t[from] == Node::Obj(key, k));
                                assert forall|other: Seq<int>| other != path implies #[trigger] read_at(
                                    t,
                                    within,
                                    other,
                                ) == read_at(s, within, other) by {
                                    if other.len() > 1 && other[0] == from {
                                        let o = other.skip(1);
                                        if o == inner {
                                            assert(other =~= path);
                                        }
                                        assert(read_at(k, Some(key), o) == read_at(
                                            kids,
                                            Some(key),
                                            o,
                                        ));
                                    }
                                }
                                assert forall|other: Seq<int>|
                                    other != path && other.len() > 1 && is_field(
                                        #[trigger] read_at(s, within, other),
                                        form,
                                        prefix,
                                    ) implies sooner(path, other) by {
                                    if other[0] == from {
                                        let o = other.skip(1);
                                        if o == inner {
                                            assert(other =~= path);
                                        }
                                        assert(is_field(
                                            read_at(kids, Some(key), o),
                                            form,
                                            prefix,
                                        ));
                                        assert(sooner(inner, o));
                                    }
                                }
                                assert(read_at(s, within, path) == read_at(kids, Some(key), inner));
                                assert(read_at(t, within, path) == read_at(k, Some(key), inner));
                                assert(refilled(s, t, within, path, form, prefix, replacement));
                                path
                            },
                            None => {
                                assert forall|p: Seq<int>| p.len() > 1 && p[0] < from + 1 implies !is_field(
                                    #[trigger] read_at(s, within, p),
                                    form,
                                    prefix,
                                ) by {
                                    if p[0] == from {
                                        let o = p.skip(1);
                                        assert(!is_field(
                                            read_at(kids, Some(key), o),
                                            form,
                                            prefix,
                                        ));
                                    }
                                }
                                lemma_refilled(s, from + 1, within, form, prefix, replacement)
                            },
                        }
                    },
                }
            },
        }
    }
}

/// Filling in a field changes that field and nothing else: the line that is
/// replaced begins with the label, in a section whose key ends with the name of
/// the form, it is the first such line, it then reads as it was to, and every
/// other place of the tree is as it was. Where there is such a line, one is
/// replaced.
pub proof fn law_a_patch_changes_one_field_of_the_form(
    s: Seq<Node>,
    form: Seq<char>,
    prefix: Seq<char>,
    replacement: Seq<char>,
)
    ensures
        match patched(s, 0, form, prefix, replacement) {
            Some(t) => exists|path: Seq<int>| #[trigger]
                refilled(s, t, None, path, form, prefix, replacement),
            None => forall|path: Seq<int>|
                !is_field(#[trigger] read_at(s, None, path), form, prefix),
        },
{
    assert forall|p: Seq<int>| p.len() > 1 && p[0] < 0 implies !is_field(
        #[trigger] read_at(s, None, p),
        form,
        prefix,
    ) by {
    }
    let path = lemma_refilled(s, 0, None, form, prefix, replacement);
    if let Some(t) = patched(s, 0, form, prefix, replacement) {
        assert(refilled(s, t, None, path, form, prefix, replacement));
    } else {
        assert forall|p: Seq<int>| !is_field(#[trigger] read_at(s, None, p), form, prefix) by {
        }
    }
}

/// How much there is to read does not depend on how it is cut up: the lines
/// and the keys count for what they hold, and so do two lists put together.
pub proof fn law_the_text_of_a_tree_adds_up(a: Seq<Node>, b: Seq<Node>, line: Seq<char>)
    ensures
        texts_len(a + b) == texts_len(a) + texts_len(b),
        texts_len(seq![Node::Str(line)]) == line.len(),
        texts_len(seq![Node::Obj(line, a)]) == line.len() + texts_len(a),
    decreases b.len(),
{
    let one: Seq<Node> = seq![Node::Str(line)];
    let section: Seq<Node> = seq![Node::Obj(line, a)];
    assert(one.drop_last() =~= Seq::<Node>::empty());
    assert(section.drop_last() =~= Seq::<Node>::empty());
    assert(texts_len(Seq::<Node>::empty()) == 0);
    assert(one.last() == Node::Str(line));
    assert(section.last() == Node::Obj(line, a));
    assert(text_len(Node::Str(line)) == line.len());
    assert(text_len(Node::Obj(line, a)) == line.len() + texts_len(a));
    if b.len() == 0 {
        assert(a + b =~= a);
    } else {
        law_the_text_of_a_tree_adds_up(a, b.drop_last(), line);
        assert((a + b).drop_last() =~= a + b.drop_last());
    }
}

} // verus!
