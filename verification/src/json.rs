//! JSON values.

use crate::text::same_text;
use vstd::prelude::*;

verus! {

/// A JSON value. A number that is no integer of 64 bits is kept as it is
/// written.
#[derive(Debug, PartialEq, Eq)]
pub enum Json {
    Null,
    Bool(bool),
    Unsigned(u64),
    Negative(i64),
    Float(String),
    Str(String),
    Array(Vec<Json>),
    /// The members, each name once.
    Object(Vec<(String, Json)>),
}

/// A JSON value, as a value.
pub enum JsonValue {
    Null,
    Bool(bool),
    Unsigned(nat),
    Negative(int),
    Float(Seq<char>),
    Str(Seq<char>),
    Array(Seq<JsonValue>),
    Object(Seq<(Seq<char>, JsonValue)>),
}

/// The value of a JSON value.
pub open spec fn value(j: Json) -> JsonValue
    decreases j,
{
    match j {
        Json::Null => JsonValue::Null,
        Json::Bool(b) => JsonValue::Bool(b),
        Json::Unsigned(n) => JsonValue::Unsigned(n as nat),
        Json::Negative(n) => JsonValue::Negative(n as int),
        Json::Float(s) => JsonValue::Float(s@),
        Json::Str(s) => JsonValue::Str(s@),
        Json::Array(v) => JsonValue::Array(
            Seq::new(
                v@.len(),
                |i: int|
                    if 0 <= i < v@.len() {
                        value(v@[i])
                    } else {
                        arbitrary()
                    },
            ),
        ),
        Json::Object(v) => JsonValue::Object(
            Seq::new(
                v@.len(),
                |i: int|
                    if 0 <= i < v@.len() {
                        (v@[i].0@, value(v@[i].1))
                    } else {
                        arbitrary()
                    },
            ),
        ),
    }
}

impl View for Json {
    type V = JsonValue;

    open spec fn view(&self) -> JsonValue {
        value(*self)
    }
}

// ---------------------------------------------------------------------------
// Strings in a JSON text
// ---------------------------------------------------------------------------

/// The white space between the parts of a JSON text.
pub open spec fn blank(c: char) -> bool {
    c == ' ' || c == '\t' || c == '\n' || c == '\r'
}

/// `s` without its leading white space.
pub open spec fn skip_blanks(s: Seq<char>) -> Seq<char>
    decreases s.len(),
{
    if s.len() > 0 && blank(s[0]) {
        skip_blanks(s.skip(1))
    } else {
        s
    }
}

/// What the hexadecimal digit `c` counts.
pub open spec fn hex_value(c: char) -> Option<int> {
    if '0' as int <= c as int <= '9' as int {
        Some(c as int - '0' as int)
    } else if 'a' as int <= c as int <= 'f' as int {
        Some(c as int - 'a' as int + 10)
    } else if 'A' as int <= c as int <= 'F' as int {
        Some(c as int - 'A' as int + 10)
    } else {
        None
    }
}

/// The number that the first four characters of `s` write in hexadecimal.
pub open spec fn unit(s: Seq<char>) -> Option<int> {
    if s.len() < 4 {
        None
    } else {
        match (hex_value(s[0]), hex_value(s[1]), hex_value(s[2]), hex_value(s[3])) {
            (Some(a), Some(b), Some(c), Some(d)) => Some(((a * 16 + b) * 16 + c) * 16 + d),
            _ => None,
        }
    }
}

/// What a backslash and `c` stand for.
pub open spec fn short_escape(c: char) -> Option<char> {
    if c == '"' || c == '\\' || c == '/' {
        Some(c)
    } else if c == 'b' {
        Some(8 as char)
    } else if c == 'f' {
        Some(12 as char)
    } else if c == 'n' {
        Some('\n')
    } else if c == 'r' {
        Some('\r')
    } else if c == 't' {
        Some('\t')
    } else {
        None
    }
}

/// The first character of a JSON string that goes on with `s`, and what
/// follows it. No character below U+0020 stands there as it is, and one beyond
/// U+FFFF can be written as two units.
pub open spec fn char_read(s: Seq<char>) -> Option<(char, Seq<char>)> {
    if s.len() == 0 || (s[0] as int) < 0x20 || s[0] == '"' {
        None
    } else if s[0] != '\\' {
        Some((s[0], s.skip(1)))
    } else if s.len() < 2 {
        None
    } else if s[1] == 'u' {
        match unit(s.skip(2)) {
            Some(n) => if n < 0xD800 || n > 0xDFFF {
                Some((n as char, s.skip(6)))
            } else if n <= 0xDBFF && s.len() >= 12 && s[6] == '\\' && s[7] == 'u' {
                match unit(s.skip(8)) {
                    Some(m) => if 0xDC00 <= m <= 0xDFFF {
                        Some(
                            ((0x10000 + (n - 0xD800) * 0x400 + (m - 0xDC00)) as char, s.skip(12)),
                        )
                    } else {
                        None
                    },
                    None => None,
                }
            } else {
                None
            },
            None => None,
        }
    } else {
        match short_escape(s[1]) {
            Some(c) => Some((c, s.skip(2))),
            None => None,
        }
    }
}

/// What a JSON string says whose opening quote is right before `s`, and what
/// follows its closing quote.
pub open spec fn string_read(s: Seq<char>) -> Option<(Seq<char>, Seq<char>)>
    decreases s.len(),
{
    if s.len() > 0 && s[0] == '"' {
        Some((seq![], s.skip(1)))
    } else {
        match char_read(s) {
            Some((c, more)) => match string_read(more) {
                Some((t, rest)) => Some((seq![c] + t, rest)),
                None => None,
            },
            None => None,
        }
    }
}

/// What the JSON string `s` says.
pub open spec fn string_of(s: Seq<char>) -> Option<Seq<char>> {
    if s.len() == 0 || s[0] != '"' {
        None
    } else {
        match string_read(s.skip(1)) {
            Some((t, rest)) => if rest.len() == 0 {
                Some(t)
            } else {
                None
            },
            None => None,
        }
    }
}

/// Skipping white space leaves no more than there was.
pub proof fn lemma_skip_blanks_len(s: Seq<char>)
    ensures
        skip_blanks(s).len() <= s.len(),
    decreases s.len(),
{
    if s.len() > 0 && blank(s[0]) {
        lemma_skip_blanks_len(s.skip(1));
    }
}

/// Reading a string leaves less than there was.
pub proof fn lemma_string_read_len(s: Seq<char>)
    ensures
        string_read(s) matches Some((_, rest)) ==> rest.len() < s.len(),
    decreases s.len(),
{
    if !(s.len() > 0 && s[0] == '"') {
        if let Some((_, more)) = char_read(s) {
            lemma_string_read_len(more);
        }
    }
}

/// The strings of a JSON array that goes on with `s`, at least one, and what
/// follows its closing bracket.
pub open spec fn items_read(s: Seq<char>) -> Option<(Seq<Seq<char>>, Seq<char>)>
    decreases s.len(),
{
    proof {
        lemma_skip_blanks_len(s);
        lemma_string_read_len(skip_blanks(s).skip(1));
        if let Some((_, rest)) = string_read(skip_blanks(s).skip(1)) {
            lemma_skip_blanks_len(rest);
        }
    }
    let t = skip_blanks(s);
    if t.len() == 0 || t[0] != '"' {
        None
    } else {
        match string_read(t.skip(1)) {
            Some((item, rest)) => {
                let r = skip_blanks(rest);
                if r.len() > 0 && r[0] == ']' {
                    Some((seq![item], r.skip(1)))
                } else if r.len() > 0 && r[0] == ',' {
                    match items_read(r.skip(1)) {
                        Some((more, end)) => Some((seq![item] + more, end)),
                        None => None,
                    }
                } else {
                    None
                }
            },
            None => None,
        }
    }
}

/// What the strings of the JSON array `s` say.
pub open spec fn strings_of(s: Seq<char>) -> Option<Seq<Seq<char>>> {
    let t = skip_blanks(s);
    if t.len() == 0 || t[0] != '[' {
        None
    } else {
        let first = skip_blanks(t.skip(1));
        let read = if first.len() > 0 && first[0] == ']' {
            Some((Seq::empty(), first.skip(1)))
        } else {
            items_read(t.skip(1))
        };
        match read {
            Some((items, end)) => if skip_blanks(end).len() == 0 {
                Some(items)
            } else {
                None
            },
            None => None,
        }
    }
}

/// The strings of a JSON array that `s` begins with, and what follows it.
pub open spec fn array_read(s: Seq<char>) -> Option<(Seq<Seq<char>>, Seq<char>)> {
    if s.len() == 0 || s[0] != '[' {
        None
    } else if s.len() > 1 && s[1] == ']' {
        Some((Seq::empty(), s.skip(2)))
    } else {
        items_read(s.skip(1))
    }
}

/// The members of a script's record that goes on with `s`, each a bare name
/// and a string, at least one, and what follows its closing brace.
pub open spec fn fields_read(s: Seq<char>) -> Option<(Seq<(Seq<char>, Seq<char>)>, Seq<char>)>
    decreases s.len(),
{
    proof {
        let t = skip_blanks(s);
        let n = crate::text::upto(t, ':');
        lemma_skip_blanks_len(s);
        crate::text::lemma_upto(t, ':');
        if n < t.len() {
            let v = skip_blanks(t.skip(n + 1));
            lemma_skip_blanks_len(t.skip(n + 1));
            if v.len() > 0 {
                lemma_string_read_len(v.skip(1));
                if let Some((_, rest)) = string_read(v.skip(1)) {
                    lemma_skip_blanks_len(rest);
                }
            }
        }
    }
    let t = skip_blanks(s);
    let n = crate::text::upto(t, ':');
    if n >= t.len() {
        None
    } else {
        let v = skip_blanks(t.skip(n + 1));
        if v.len() == 0 || v[0] != '"' {
            None
        } else {
            match string_read(v.skip(1)) {
                Some((value, rest)) => {
                    let r = skip_blanks(rest);
                    if r.len() > 0 && r[0] == '}' {
                        Some((seq![(t.take(n), value)], r.skip(1)))
                    } else if r.len() > 0 && r[0] == ',' {
                        match fields_read(r.skip(1)) {
                            Some((more, end)) => Some((seq![(t.take(n), value)] + more, end)),
                            None => None,
                        }
                    } else {
                        None
                    }
                },
                None => None,
            }
        }
    }
}

/// The members of the record that `s` begins with.
pub open spec fn record_read(s: Seq<char>) -> Option<Seq<(Seq<char>, Seq<char>)>> {
    if s.len() == 0 || s[0] != '{' {
        None
    } else {
        match fields_read(s.skip(1)) {
            Some((fields, _)) => Some(fields),
            None => None,
        }
    }
}

/// `fields` says `value` of `name`, and says nothing else of it.
pub open spec fn says_of(
    fields: Seq<(Seq<char>, Seq<char>)>,
    name: Seq<char>,
    value: Seq<char>,
) -> bool {
    &&& fields.contains((name, value))
    &&& forall|i: int|
        0 <= i < fields.len() && (#[trigger] fields[i]).0 == name ==> fields[i].1 == value
}

/// What follows a character does not change how it is read.
proof fn lemma_char_read_goes_on(s: Seq<char>, more: Seq<char>)
    ensures
        char_read(s) matches Some((c, rest)) ==> char_read(s + more) == Some((c, rest + more)),
{
    if let Some((c, rest)) = char_read(s) {
        let t = s + more;
        assert(t[0] == s[0]);
        assert(t.skip(1) =~= s.skip(1) + more);
        if s[0] == '\\' {
            assert(t[1] == s[1]);
            assert(t.skip(2) =~= s.skip(2) + more);
            if s[1] == 'u' {
                let u = s.skip(2);
                let w = t.skip(2);
                assert(w[0] == u[0] && w[1] == u[1] && w[2] == u[2] && w[3] == u[3]);
                assert(t.skip(6) =~= s.skip(6) + more);
                let n = unit(u)->0;
                if !(n < 0xD800 || n > 0xDFFF) {
                    assert(t[6] == s[6] && t[7] == s[7]);
                    let x = s.skip(8);
                    let y = t.skip(8);
                    assert(y[0] == x[0] && y[1] == x[1] && y[2] == x[2] && y[3] == x[3]);
                    assert(t.skip(12) =~= s.skip(12) + more);
                }
            }
        }
    }
}

/// What follows a string does not change how it is read.
pub proof fn lemma_string_read_goes_on(s: Seq<char>, more: Seq<char>)
    ensures
        string_read(s) matches Some((t, rest)) ==> string_read(s + more) == Some((t, rest + more)),
    decreases s.len(),
{
    if s.len() > 0 && s[0] == '"' {
        assert((s + more)[0] == '"');
        assert((s + more).skip(1) =~= s.skip(1) + more);
    } else if let Some((c, rest)) = char_read(s) {
        lemma_char_read_goes_on(s, more);
        lemma_string_read_goes_on(rest, more);
        assert((s + more)[0] == s[0]);
    }
}

/// A name, a colon and a string at the head of what is left of a record.
pub proof fn lemma_field_reads(
    name: Seq<char>,
    gap: Seq<char>,
    quoted: Seq<char>,
    value: Seq<char>,
    rest: Seq<char>,
)
    requires
        name.len() > 0,
        !blank(name[0]),
        !name.contains(':'),
        gap.len() == 0 || gap == seq![' '],
        string_of(quoted) == Some(value),
        rest.len() > 0,
    ensures
        rest[0] == '}' ==> fields_read(name + seq![':'] + gap + quoted + rest) == Some(
            (seq![(name, value)], rest.skip(1)),
        ),
        rest[0] == ',' ==> match fields_read(rest.skip(1)) {
            Some((more, end)) => fields_read(name + seq![':'] + gap + quoted + rest) == Some(
                (seq![(name, value)] + more, end),
            ),
            None => true,
        },
{
    let head = name + seq![':'];
    let s = head + gap + quoted + rest;
    let n = name.len() as int;
    assert(s[0] == head[0] && head[0] == name[0]);
    assert(skip_blanks(s) == s);
    crate::text::lemma_upto(s, ':');
    assert(s[n] == ':');
    assert(crate::text::upto(s, ':') == n) by {
        let k = crate::text::upto(s, ':');
        if k < n {
            assert(s[k] == name[k]);
            assert(name.contains(name[k]));
        }
    }
    let tail = quoted + rest;
    assert(s.skip(n + 1) =~= gap + tail);
    assert(tail[0] == '"');
    assert(skip_blanks(tail) == tail);
    if gap.len() > 0 {
        assert((gap + tail)[0] == ' ');
        assert((gap + tail).skip(1) =~= tail);
        assert(skip_blanks(gap + tail) == skip_blanks(tail));
    } else {
        assert(gap + tail =~= tail);
    }
    lemma_string_read_goes_on(quoted.skip(1), rest);
    assert(tail.skip(1) =~= quoted.skip(1) + rest);
    let (_, left) = string_read(quoted.skip(1)).unwrap();
    assert(left + rest =~= rest);
    assert(s.take(n) =~= name);
    assert(rest[0] == '}' || rest[0] == ',' ==> skip_blanks(rest) == rest);
}

/// The values of a list.
pub open spec fn values(v: Seq<Json>) -> Seq<JsonValue> {
    Seq::new(v.len(), |i: int| value(v[i]))
}

/// The position of the first member with the name `key`, at or after `from`.
pub open spec fn member_at(m: Seq<(Seq<char>, JsonValue)>, key: Seq<char>, from: int) -> Option<int>
    decreases m.len() - from,
{
    if from < 0 || from >= m.len() {
        None
    } else if m[from].0 == key {
        Some(from)
    } else {
        member_at(m, key, from + 1)
    }
}

impl JsonValue {
    /// The member `key`, where the value is an object that has it.
    pub open spec fn member(self, key: Seq<char>) -> Option<JsonValue> {
        match self {
            JsonValue::Object(m) => match member_at(m, key, 0) {
                Some(i) => Some(m[i].1),
                None => None,
            },
            _ => None,
        }
    }

    /// The member `key`, or null.
    pub open spec fn at(self, key: Seq<char>) -> JsonValue {
        match self.member(key) {
            Some(v) => v,
            None => JsonValue::Null,
        }
    }
}

impl Json {
    /// The member `key`, where the value is an object that has it.
    pub fn get(&self, key: &str) -> (r: Option<&Json>)
        ensures
            match r {
                Some(j) => self@.member(key@) == Some(j@),
                None => self@.member(key@) is None,
            },
    {
        match self {
            Json::Object(v) => {
                let ghost m = self@->Object_0;
                let mut i: usize = 0;
                while i < v.len()
                    invariant
                        i <= v.len(),
                        m.len() == v@.len(),
                        forall|k: int|
                            0 <= k < v@.len() ==> #[trigger] m[k] == (v@[k].0@, value(v@[k].1)),
                        member_at(m, key@, 0) == member_at(m, key@, i as int),
                        self@ == JsonValue::Object(m),
                    decreases v.len() - i,
                {
                    assert(m[i as int] == (v@[i as int].0@, value(v@[i as int].1)));
                    if same_text(v[i].0.as_str(), key) {
                        return Some(&v[i].1);
                    }
                    i = i + 1;
                }
                None
            },
            _ => None,
        }
    }

    /// The text, where the value is one.
    pub fn as_text(&self) -> (r: Option<&str>)
        ensures
            match r {
                Some(t) => self@ == JsonValue::Str(t@),
                None => !(self@ is Str),
            },
    {
        match self {
            Json::Str(s) => Some(s.as_str()),
            _ => None,
        }
    }

    /// The text of the member `key`, where it is there and is a text.
    pub fn text_at(&self, key: &str) -> (r: Option<&str>)
        ensures
            match r {
                Some(t) => self@.at(key@) == JsonValue::Str(t@),
                None => !(self@.at(key@) is Str),
            },
    {
        match self.get(key) {
            Some(v) => v.as_text(),
            None => None,
        }
    }

    /// A copy of the value.
    pub fn copy(&self) -> (r: Json)
        ensures
            r@ == self@,
        decreases self,
    {
        match self {
            Json::Null => Json::Null,
            Json::Bool(b) => Json::Bool(*b),
            Json::Unsigned(n) => Json::Unsigned(*n),
            Json::Negative(n) => Json::Negative(*n),
            Json::Float(s) => Json::Float(s.clone()),
            Json::Str(s) => Json::Str(s.clone()),
            Json::Array(v) => {
                let r = Json::Array(copy_items(v));
                assert(r@->Array_0 =~= self@->Array_0);
                r
            },
            Json::Object(v) => {
                let r = Json::Object(copy_members(v));
                assert(r@->Object_0 =~= self@->Object_0);
                r
            },
        }
    }
}

fn copy_items(v: &Vec<Json>) -> (r: Vec<Json>)
    ensures
        r@.len() == v@.len(),
        forall|i: int| 0 <= i < v@.len() ==> value(r@[i]) == value(#[trigger] v@[i]),
    decreases v,
{
    let mut r: Vec<Json> = Vec::new();
    let mut i: usize = 0;
    while i < v.len()
        invariant
            i <= v.len(),
            r@.len() == i,
            forall|k: int| 0 <= k < i ==> value(r@[k]) == value(#[trigger] v@[k]),
        decreases v.len() - i,
    {
        proof {
            vstd::std_specs::vec::axiom_vec_index_decreases(*v, i as int);
        }
        r.push(v[i].copy());
        i = i + 1;
    }
    r
}

fn copy_members(v: &Vec<(String, Json)>) -> (r: Vec<(String, Json)>)
    ensures
        r@.len() == v@.len(),
        forall|i: int|
            0 <= i < v@.len() ==> r@[i].0@ == v@[i].0@ && value(r@[i].1) == value(
                (#[trigger] v@[i]).1,
            ),
    decreases v,
{
    let mut r: Vec<(String, Json)> = Vec::new();
    let mut i: usize = 0;
    while i < v.len()
        invariant
            i <= v.len(),
            r@.len() == i,
            forall|k: int|
                0 <= k < i ==> r@[k].0@ == v@[k].0@ && value(r@[k].1) == value((#[trigger] v@[k]).1),
        decreases v.len() - i,
    {
        proof {
            vstd::std_specs::vec::axiom_vec_index_decreases(*v, i as int);
        }
        r.push((v[i].0.clone(), v[i].1.copy()));
        i = i + 1;
    }
    r
}

/// A member of an object is the first of its name, and there is one wherever
/// the name stands.
pub proof fn law_a_member_is_the_first_of_its_name(
    m: Seq<(Seq<char>, JsonValue)>,
    key: Seq<char>,
    from: int,
)
    requires
        0 <= from,
    ensures
        match member_at(m, key, from) {
            Some(i) => from <= i < m.len() && m[i].0 == key && forall|j: int|
                from <= j < i ==> (#[trigger] m[j]).0 != key,
            None => forall|j: int| from <= j < m.len() ==> (#[trigger] m[j]).0 != key,
        },
    decreases m.len() - from,
{
    if from < m.len() && m[from].0 != key {
        law_a_member_is_the_first_of_its_name(m, key, from + 1);
    }
}

} // verus!
