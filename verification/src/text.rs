//! Text as sequences of characters.
//!
//! Every text of the library is specified by its view, a `Seq<char>`. The
//! executable side works on slices of characters, so that a position is an
//! index and a piece of a text is a sub-slice.

use vstd::prelude::*;
use vstd::slice::slice_subrange;

verus! {

/// The characters with the Unicode `White_Space` property.
pub open spec fn white_space(c: char) -> bool {
    ||| 0x9 <= c as int <= 0xD
    ||| c as int == 0x20
    ||| c as int == 0x85
    ||| c as int == 0xA0
    ||| c as int == 0x1680
    ||| 0x2000 <= c as int <= 0x200A
    ||| c as int == 0x2028
    ||| c as int == 0x2029
    ||| c as int == 0x202F
    ||| c as int == 0x205F
    ||| c as int == 0x3000
}

/// The characters in the Unicode general category `Cc`.
pub open spec fn control(c: char) -> bool {
    c as int <= 0x1F || 0x7F <= c as int <= 0x9F
}

pub open spec fn ascii_digit(c: char) -> bool {
    '0' as int <= c as int <= '9' as int
}

/// `p` stands in `s` at position `i`.
pub open spec fn occurs_at(s: Seq<char>, p: Seq<char>, i: int) -> bool {
    0 <= i && i + p.len() <= s.len() && s.subrange(i, i + p.len()) == p
}

/// `p` stands somewhere in `s`.
pub open spec fn occurs(s: Seq<char>, p: Seq<char>) -> bool {
    exists|i: int| occurs_at(s, p, i)
}

pub open spec fn begins(s: Seq<char>, p: Seq<char>) -> bool {
    occurs_at(s, p, 0)
}

pub open spec fn ends(s: Seq<char>, p: Seq<char>) -> bool {
    occurs_at(s, p, s.len() - p.len())
}

/// The first position at or after `from` where `p` stands in `s`.
pub open spec fn find_from(s: Seq<char>, p: Seq<char>, from: int) -> Option<int>
    decreases s.len() + 1 - from,
{
    if from < 0 || from + p.len() > s.len() {
        None
    } else if occurs_at(s, p, from) {
        Some(from)
    } else {
        find_from(s, p, from + 1)
    }
}

/// The first position where `c` stands in `s`, or the length of `s`.
pub open spec fn upto(s: Seq<char>, c: char) -> int
    decreases s.len(),
{
    if s.len() == 0 || s[0] == c {
        0
    } else {
        1 + upto(s.skip(1), c)
    }
}

/// `s` without its leading white space.
pub open spec fn trim_start_of(s: Seq<char>) -> Seq<char>
    decreases s.len(),
{
    if s.len() > 0 && white_space(s[0]) {
        trim_start_of(s.skip(1))
    } else {
        s
    }
}

/// `s` without its trailing white space.
pub open spec fn trim_end_of(s: Seq<char>) -> Seq<char>
    decreases s.len(),
{
    if s.len() > 0 && white_space(s.last()) {
        trim_end_of(s.drop_last())
    } else {
        s
    }
}

/// `s` without white space at either end.
pub open spec fn trim_of(s: Seq<char>) -> Seq<char> {
    trim_end_of(trim_start_of(s))
}

/// `s` with every `c` replaced by `by`.
pub open spec fn replaced(s: Seq<char>, c: char, by: Seq<char>) -> Seq<char>
    decreases s.len(),
{
    if s.len() == 0 {
        seq![]
    } else {
        replaced(s.drop_last(), c, by) + (if s.last() == c {
            by
        } else {
            seq![s.last()]
        })
    }
}

/// The pieces of `s` between the separators `c`; one piece when there is none.
pub open spec fn split_of(s: Seq<char>, c: char) -> Seq<Seq<char>>
    decreases s.len(),
{
    let i = upto(s, c);
    if i < 0 || i >= s.len() {
        seq![s]
    } else {
        seq![s.take(i)] + split_of(s.skip(i + 1), c)
    }
}

/// `parts` with `sep` between neighbours.
pub open spec fn joined(parts: Seq<Seq<char>>, sep: Seq<char>) -> Seq<char>
    decreases parts.len(),
{
    if parts.len() == 0 {
        seq![]
    } else if parts.len() == 1 {
        parts[0]
    } else {
        joined(parts.drop_last(), sep) + sep + parts.last()
    }
}

/// The decimal digits of `n`.
pub open spec fn decimal(n: nat) -> Seq<char>
    decreases n,
{
    if n < 10 {
        seq![(n + '0' as int) as char]
    } else {
        decimal(n / 10).push((n % 10 + '0' as int) as char)
    }
}

/// The views of a list of texts.
pub open spec fn views(v: Seq<String>) -> Seq<Seq<char>> {
    Seq::new(v.len(), |i: int| v[i]@)
}

/// The view of a text that may be missing.
pub open spec fn maybe(o: Option<String>) -> Option<Seq<char>> {
    match o {
        Some(t) => Some(t@),
        None => None,
    }
}

pub fn is_white_space(c: char) -> (r: bool)
    ensures
        r == white_space(c),
{
    let u: u32 = c as u32;
    (0x9 <= u && u <= 0xD) || u == 0x20 || u == 0x85 || u == 0xA0 || u == 0x1680 || (0x2000 <= u
        && u <= 0x200A) || u == 0x2028 || u == 0x2029 || u == 0x202F || u == 0x205F || u == 0x3000
}

pub fn is_control(c: char) -> (r: bool)
    ensures
        r == control(c),
{
    let u: u32 = c as u32;
    u <= 0x1F || (0x7F <= u && u <= 0x9F)
}

/// The scalar value of `c`.
pub fn code_point(c: char) -> (r: u32)
    ensures
        r == c as int,
{
    c as u32
}

/// The characters of `s`.
pub fn chars_of(s: &str) -> (r: Vec<char>)
    ensures
        r@ == s@,
{
    let mut r: Vec<char> = Vec::new();
    for c in it: s.chars()
        invariant
            it.seq() == s@,
            r@ == s@.take(it.index()),
    {
        r.push(c);
    }
    r
}

/// The text made of the characters `v`.
pub fn text_of(v: &[char]) -> (r: String)
    ensures
        r@ == v@,
{
    let mut r = String::new();
    let mut i: usize = 0;
    while i < v.len()
        invariant
            i <= v.len(),
            r@ == v@.take(i as int),
        decreases v.len() - i,
    {
        r.push(v[i]);
        i = i + 1;
    }
    r
}

/// Whether `p` stands in `s` at position `i`.
pub fn stands_at(s: &[char], p: &[char], i: usize) -> (r: bool)
    ensures
        r == occurs_at(s@, p@, i as int),
{
    if i > s.len() || s.len() - i < p.len() {
        return false;
    }
    let mut k: usize = 0;
    while k < p.len()
        invariant
            k <= p.len(),
            i + p.len() <= s.len(),
            forall|j: int| 0 <= j < k ==> s@[i + j] == p@[j],
        decreases p.len() - k,
    {
        if s[i + k] != p[k] {
            assert(s@.subrange(i as int, i + p.len())[k as int] != p@[k as int]);
            return false;
        }
        k = k + 1;
    }
    assert(s@.subrange(i as int, i + p.len()) =~= p@);
    true
}

/// The first position at or after `from` where `p` stands in `s`.
pub fn find_at(s: &[char], p: &[char], from: usize) -> (r: Option<usize>)
    ensures
        match r {
            Some(i) => find_from(s@, p@, from as int) == Some(i as int) && i + p.len() <= s.len(),
            None => find_from(s@, p@, from as int) is None,
        },
{
    let mut i: usize = from;
    while i <= s.len() && p.len() <= s.len() - i
        invariant
            from <= i,
            find_from(s@, p@, from as int) == find_from(s@, p@, i as int),
        decreases s.len() - i,
    {
        if stands_at(s, p, i) {
            return Some(i);
        }
        assert(p@.len() == 0 ==> s@.subrange(i as int, i as int) =~= p@);
        i = i + 1;
    }
    None
}

/// Whether `p` stands somewhere in `s`.
pub fn holds(s: &[char], p: &[char]) -> (r: bool)
    ensures
        r == occurs(s@, p@),
{
    match find_at(s, p, 0) {
        Some(i) => {
            proof {
                lemma_find_from(s@, p@, 0);
            }
            true
        },
        None => {
            proof {
                lemma_find_from(s@, p@, 0);
            }
            false
        },
    }
}

/// What `find_from` finds is the first occurrence, and it finds one whenever
/// there is one.
pub proof fn lemma_find_from(s: Seq<char>, p: Seq<char>, from: int)
    requires
        0 <= from,
    ensures
        match find_from(s, p, from) {
            Some(i) => from <= i && occurs_at(s, p, i) && forall|j: int|
                from <= j < i ==> !occurs_at(s, p, j),
            None => forall|j: int| from <= j ==> !occurs_at(s, p, j),
        },
    decreases s.len() + 1 - from,
{
    if from + p.len() <= s.len() && !occurs_at(s, p, from) {
        lemma_find_from(s, p, from + 1);
    }
}

/// Whether `s` mentions one of `words`.
pub open spec fn mentions(s: Seq<char>, words: Seq<&'static str>) -> bool {
    exists|i: int| 0 <= i < words.len() && occurs(s, #[trigger] words[i]@)
}

/// Whether `s` mentions one of `words`.
pub fn mentions_any(s: &[char], words: &[&'static str]) -> (r: bool)
    ensures
        r == mentions(s@, words@),
{
    let mut k: usize = 0;
    while k < words.len()
        invariant
            k <= words.len(),
            forall|i: int| 0 <= i < k ==> !occurs(s@, #[trigger] words@[i]@),
        decreases words.len() - k,
    {
        if holds(s, chars_of(words[k]).as_slice()) {
            assert(occurs(s@, words@[k as int]@));
            return true;
        }
        k = k + 1;
    }
    false
}

/// Whether two texts are the same.
pub fn same_text(a: &str, b: &str) -> (r: bool)
    ensures
        r == (a@ == b@),
{
    a.to_owned() == b.to_owned()
}

/// `s` without its leading white space.
pub fn trim_start(s: &[char]) -> (r: &[char])
    ensures
        r@ == trim_start_of(s@),
{
    let mut i: usize = 0;
    assert(s@.skip(0) =~= s@);
    while i < s.len() && is_white_space(s[i])
        invariant
            i <= s.len(),
            trim_start_of(s@) == trim_start_of(s@.skip(i as int)),
        decreases s.len() - i,
    {
        assert(s@.skip(i as int).skip(1) =~= s@.skip(i + 1));
        i = i + 1;
    }
    slice_subrange(s, i, s.len())
}

/// `s` without its trailing white space.
pub fn trim_end(s: &[char]) -> (r: &[char])
    ensures
        r@ == trim_end_of(s@),
{
    let mut i: usize = s.len();
    assert(s@.take(s@.len() as int) =~= s@);
    while i > 0 && is_white_space(s[i - 1])
        invariant
            i <= s.len(),
            trim_end_of(s@) == trim_end_of(s@.take(i as int)),
        decreases i,
    {
        assert(s@.take(i as int).drop_last() =~= s@.take(i - 1));
        i = i - 1;
    }
    slice_subrange(s, 0, i)
}

/// `s` without white space at either end.
pub fn trim(s: &[char]) -> (r: &[char])
    ensures
        r@ == trim_of(s@),
{
    trim_end(trim_start(s))
}

/// `s` with every `c` replaced by `by`.
pub fn replace_char(s: &[char], c: char, by: &str) -> (r: Vec<char>)
    ensures
        r@ == replaced(s@, c, by@),
{
    let by_chars = chars_of(by);
    let mut r: Vec<char> = Vec::new();
    let mut i: usize = 0;
    while i < s.len()
        invariant
            i <= s.len(),
            by_chars@ == by@,
            r@ == replaced(s@.take(i as int), c, by@),
        decreases s.len() - i,
    {
        assert(s@.take(i + 1).drop_last() =~= s@.take(i as int));
        if s[i] == c {
            push_all(&mut r, by_chars.as_slice());
        } else {
            r.push(s[i]);
        }
        i = i + 1;
    }
    assert(s@.take(s@.len() as int) =~= s@);
    r
}

/// What a replacement leaves: the characters of `s` other than `c`, and those
/// of `by`.
pub proof fn lemma_replaced(s: Seq<char>, c: char, by: Seq<char>)
    ensures
        forall|i: int|
            0 <= i < replaced(s, c, by).len() ==> by.contains(#[trigger] replaced(s, c, by)[i]) || (
            s.contains(replaced(s, c, by)[i]) && replaced(s, c, by)[i] != c),
        s.len() > 0 && by.len() > 0 ==> replaced(s, c, by).len() > 0,
        !s.contains(c) ==> replaced(s, c, by) == s,
    decreases s.len(),
{
    if s.len() > 0 {
        let d = s.drop_last();
        let rd = replaced(d, c, by);
        let r = replaced(s, c, by);
        lemma_replaced(d, c, by);
        assert forall|i: int| 0 <= i < r.len() implies by.contains(#[trigger] r[i]) || (s.contains(
            r[i],
        ) && r[i] != c) by {
            if i < rd.len() {
                assert(r[i] == rd[i]);
                if d.contains(rd[i]) {
                    let j = d.index_of(rd[i]);
                    assert(s[j] == rd[i]);
                }
            } else if s.last() == c {
                assert(r[i] == by[i - rd.len()]);
            } else {
                assert(r[i] == s[s.len() - 1]);
            }
        }
        if !s.contains(c) {
            assert(!d.contains(c)) by {
                if d.contains(c) {
                    assert(s[d.index_of(c)] == c);
                }
            }
            assert(s[s.len() - 1] != c);
            assert(r =~= s);
        }
    }
}

/// Append the characters `more` to `v`.
pub fn push_all(v: &mut Vec<char>, more: &[char])
    ensures
        final(v)@ == old(v)@ + more@,
{
    let ghost before = v@;
    let mut i: usize = 0;
    while i < more.len()
        invariant
            i <= more.len(),
            v@ == before + more@.take(i as int),
        decreases more.len() - i,
    {
        v.push(more[i]);
        i = i + 1;
        assert(before + more@.take(i as int) =~= (before + more@.take(i - 1)).push(more@[i - 1]));
    }
    assert(more@.take(more@.len() as int) =~= more@);
}

/// The first position of `c` in `s`, or the length of `s`.
pub fn index_upto(s: &[char], c: char) -> (r: usize)
    ensures
        r == upto(s@, c),
        r <= s.len(),
{
    let mut i: usize = 0;
    assert(s@.skip(0) =~= s@);
    while i < s.len() && s[i] != c
        invariant
            i <= s.len(),
            upto(s@, c) == i + upto(s@.skip(i as int), c),
        decreases s.len() - i,
    {
        assert(s@.skip(i as int).skip(1) =~= s@.skip(i + 1));
        i = i + 1;
    }
    i
}

/// What `upto` finds: the first position of `c`, or the end.
pub proof fn lemma_upto(s: Seq<char>, c: char)
    ensures
        0 <= upto(s, c) <= s.len(),
        forall|j: int| 0 <= j < upto(s, c) ==> s[j] != c,
        upto(s, c) < s.len() ==> s[upto(s, c)] == c,
    decreases s.len(),
{
    if s.len() > 0 && s[0] != c {
        lemma_upto(s.skip(1), c);
        assert forall|j: int| 0 <= j < upto(s, c) implies s[j] != c by {
            if j > 0 {
                assert(s[j] == s.skip(1)[j - 1]);
            }
        }
    }
}

/// The pieces of `s` between the separators `c`.
pub fn split(s: &[char], c: char) -> (r: Vec<String>)
    ensures
        views(r@) == split_of(s@, c),
{
    let mut r: Vec<String> = Vec::new();
    let mut from: usize = 0;
    assert(s@.skip(0) =~= s@);
    loop
        invariant
            from <= s.len(),
            split_of(s@, c) == views(r@) + split_of(s@.skip(from as int), c),
        decreases s.len() - from,
    {
        let rest = slice_subrange(s, from, s.len());
        assert(rest@ =~= s@.skip(from as int));
        let i: usize = index_upto(rest, c);
        let ghost before = r@;
        let piece = slice_subrange(rest, 0, i);
        r.push(text_of(piece));
        assert(views(r@) =~= views(before).push(piece@));
        assert(piece@ =~= rest@.take(i as int));
        if i == rest.len() {
            assert(piece@ =~= rest@);
            assert(views(r@) =~= views(before) + seq![rest@]);
            return r;
        }
        assert(rest@.skip(i + 1) =~= s@.skip(from + i + 1));
        assert(views(before) + (seq![piece@] + split_of(s@.skip(from + i + 1), c)) =~= views(r@)
            + split_of(s@.skip(from + i + 1), c));
        from = from + i + 1;
    }
}

/// `s` without one trailing carriage return.
pub open spec fn without_cr(s: Seq<char>) -> Seq<char> {
    if s.len() > 0 && s.last() == '\r' {
        s.drop_last()
    } else {
        s
    }
}

/// The lines of `s`, each without its line ending: a line feed, or a carriage
/// return and a line feed. Nothing follows a final line ending.
pub open spec fn lines_of(s: Seq<char>) -> Seq<Seq<char>>
    decreases s.len(),
{
    let i = upto(s, '\n');
    if s.len() == 0 {
        seq![]
    } else if i < 0 || i >= s.len() {
        seq![s]
    } else {
        seq![without_cr(s.take(i))] + lines_of(s.skip(i + 1))
    }
}

/// The lines of `s`.
pub fn lines(s: &[char]) -> (r: Vec<String>)
    ensures
        views(r@) == lines_of(s@),
{
    let mut r: Vec<String> = Vec::new();
    let mut from: usize = 0;
    assert(s@.skip(0) =~= s@);
    while from < s.len()
        invariant
            from <= s.len(),
            lines_of(s@) == views(r@) + lines_of(s@.skip(from as int)),
        decreases s.len() - from,
    {
        let rest = slice_subrange(s, from, s.len());
        assert(rest@ =~= s@.skip(from as int));
        let i: usize = index_upto(rest, '\n');
        let ghost before = r@;
        if i == rest.len() {
            r.push(text_of(rest));
            assert(views(r@) =~= views(before) + seq![rest@]);
            return r;
        }
        let end: usize = if i > 0 && rest[i - 1] == '\r' {
            i - 1
        } else {
            i
        };
        let line = slice_subrange(rest, 0, end);
        r.push(text_of(line));
        assert(line@ =~= without_cr(rest@.take(i as int)));
        assert(rest@.skip(i + 1) =~= s@.skip(from + i + 1));
        assert(views(r@) =~= views(before).push(line@));
        assert(views(before) + (seq![line@] + lines_of(s@.skip(from + i + 1))) =~= views(r@)
            + lines_of(s@.skip(from + i + 1)));
        from = from + i + 1;
    }
    assert(views(r@) + lines_of(s@.skip(from as int)) =~= views(r@));
    r
}

/// The texts `parts` with `sep` between neighbours.
pub fn join(parts: &[String], sep: &str) -> (r: String)
    ensures
        r@ == joined(views(parts@), sep@),
{
    let mut r = String::new();
    let mut i: usize = 0;
    while i < parts.len()
        invariant
            i <= parts.len(),
            r@ == joined(views(parts@).take(i as int), sep@),
        decreases parts.len() - i,
    {
        assert(views(parts@).take(i + 1).drop_last() =~= views(parts@).take(i as int));
        if i > 0 {
            r.append(sep);
        }
        r.append(parts[i].as_str());
        i = i + 1;
    }
    assert(views(parts@).take(parts@.len() as int) =~= views(parts@));
    r
}

/// `a` comes before `b` in the order of their characters.
pub open spec fn precedes(a: Seq<char>, b: Seq<char>) -> bool
    decreases a.len(),
{
    if b.len() == 0 {
        false
    } else if a.len() == 0 {
        true
    } else if a[0] != b[0] {
        (a[0] as int) < (b[0] as int)
    } else {
        precedes(a.skip(1), b.skip(1))
    }
}

/// Of two different texts one precedes the other.
pub proof fn lemma_precedes_total(a: Seq<char>, b: Seq<char>)
    ensures
        precedes(a, b) || a == b || precedes(b, a),
        !(precedes(a, b) && precedes(b, a)),
        precedes(a, b) ==> a != b,
    decreases a.len(),
{
    if a.len() > 0 && b.len() > 0 {
        lemma_precedes_total(a.skip(1), b.skip(1));
        if a[0] == b[0] && a.skip(1) == b.skip(1) {
            assert(a =~= seq![a[0]] + a.skip(1));
            assert(b =~= seq![b[0]] + b.skip(1));
        }
    } else if a.len() == 0 && b.len() == 0 {
        assert(a =~= b);
    }
}

pub proof fn lemma_precedes_transitive(a: Seq<char>, b: Seq<char>, c: Seq<char>)
    requires
        precedes(a, b),
        precedes(b, c),
    ensures
        precedes(a, c),
    decreases a.len(),
{
    if a.len() > 0 && a[0] == b[0] && b[0] == c[0] {
        lemma_precedes_transitive(a.skip(1), b.skip(1), c.skip(1));
    }
}

/// Whether `a` comes before `b`.
pub fn comes_before(a: &str, b: &str) -> (r: bool)
    ensures
        r == precedes(a@, b@),
{
    let x = chars_of(a);
    let y = chars_of(b);
    let mut i: usize = 0;
    assert(x@.skip(0) =~= x@);
    assert(y@.skip(0) =~= y@);
    while i < x.len() && i < y.len()
        invariant
            x@ == a@,
            y@ == b@,
            i <= x.len(),
            i <= y.len(),
            precedes(x@, y@) == precedes(x@.skip(i as int), y@.skip(i as int)),
        decreases x.len() - i,
    {
        assert(x@.skip(i as int).skip(1) =~= x@.skip(i + 1));
        assert(y@.skip(i as int).skip(1) =~= y@.skip(i + 1));
        if x[i] != y[i] {
            return code_point(x[i]) < code_point(y[i]);
        }
        i = i + 1;
    }
    i < y.len()
}

/// `c` in lower case, where it is an ASCII letter.
pub open spec fn lower(c: char) -> char {
    if 'A' as int <= c as int <= 'Z' as int {
        (c as int + 32) as char
    } else {
        c
    }
}

/// `c` in upper case, where it is an ASCII letter.
pub open spec fn upper(c: char) -> char {
    if 'a' as int <= c as int <= 'z' as int {
        (c as int - 32) as char
    } else {
        c
    }
}

/// Every character of `s` is in ASCII.
pub open spec fn ascii(s: Seq<char>) -> bool {
    forall|i: int| 0 <= i < s.len() ==> (#[trigger] s[i] as int) < 0x80
}

/// `s` with its ASCII letters in lower case.
pub open spec fn lowered(s: Seq<char>) -> Seq<char> {
    Seq::new(s.len(), |i: int| lower(s[i]))
}

/// `s` with its ASCII letters in upper case.
pub open spec fn uppered(s: Seq<char>) -> Seq<char> {
    Seq::new(s.len(), |i: int| upper(s[i]))
}

fn to_lower(c: char) -> (r: char)
    ensures
        r == lower(c),
{
    let u: u32 = code_point(c);
    if 'A' as u32 <= u && u <= 'Z' as u32 {
        (u as u8 + 32) as char
    } else {
        c
    }
}

fn to_upper(c: char) -> (r: char)
    ensures
        r == upper(c),
{
    let u: u32 = code_point(c);
    if 'a' as u32 <= u && u <= 'z' as u32 {
        (u as u8 - 32) as char
    } else {
        c
    }
}

/// `s` with its ASCII letters in lower case.
pub fn ascii_lowercase(s: &[char]) -> (r: String)
    ensures
        r@ == lowered(s@),
{
    let mut r = String::new();
    let mut i: usize = 0;
    while i < s.len()
        invariant
            i <= s.len(),
            r@ == lowered(s@.take(i as int)),
        decreases s.len() - i,
    {
        r.push(to_lower(s[i]));
        i = i + 1;
        assert(r@ =~= lowered(s@.take(i as int)));
    }
    assert(s@.take(s@.len() as int) =~= s@);
    r
}

/// `s` with its ASCII letters in upper case.
pub fn ascii_uppercase(s: &[char]) -> (r: String)
    ensures
        r@ == uppered(s@),
{
    let mut r = String::new();
    let mut i: usize = 0;
    while i < s.len()
        invariant
            i <= s.len(),
            r@ == uppered(s@.take(i as int)),
        decreases s.len() - i,
    {
        r.push(to_upper(s[i]));
        i = i + 1;
        assert(r@ =~= uppered(s@.take(i as int)));
    }
    assert(s@.take(s@.len() as int) =~= s@);
    r
}

/// One decimal digit.
fn digit_char(d: u64) -> (r: char)
    requires
        d < 10,
    ensures
        r as int == d + '0' as int,
{
    (48u8 + d as u8) as char
}

fn decimal_chars(n: u64) -> (r: Vec<char>)
    ensures
        r@ == decimal(n as nat),
    decreases n,
{
    let mut r: Vec<char> = if n < 10 {
        Vec::new()
    } else {
        decimal_chars(n / 10)
    };
    r.push(digit_char(n % 10));
    r
}

/// `n` in decimal.
pub fn decimal_text(n: u64) -> (r: String)
    ensures
        r@ == decimal(n as nat),
{
    text_of(decimal_chars(n).as_slice())
}

/// Why a text is not a number.
#[derive(Debug, Clone, Copy, PartialEq, Eq, Structural)]
pub enum NumberError {
    Empty,
    InvalidDigit,
    TooLarge,
}

/// The number that the digits `s` write, at most `max`, read left to right:
/// the first character that is no digit or digit that is one too many decides.
pub open spec fn digits_value(s: Seq<char>, max: nat) -> Result<nat, NumberError>
    decreases s.len(),
{
    if s.len() == 0 {
        Ok(0)
    } else {
        match digits_value(s.drop_last(), max) {
            Err(e) => Err(e),
            Ok(v) => if !ascii_digit(s.last()) {
                Err(NumberError::InvalidDigit)
            } else if v * 10 + (s.last() as int - '0' as int) > max {
                Err(NumberError::TooLarge)
            } else {
                Ok((v * 10 + (s.last() as int - '0' as int)) as nat)
            },
        }
    }
}

/// The unsigned number that `s` writes, with an optional plus sign in front.
pub open spec fn number_value(s: Seq<char>, max: nat) -> Result<nat, NumberError> {
    if s.len() == 0 {
        Err(NumberError::Empty)
    } else if s[0] == '+' && s.len() > 1 {
        digits_value(s.skip(1), max)
    } else {
        digits_value(s, max)
    }
}

proof fn lemma_digits_error(s: Seq<char>, k: int, max: nat)
    requires
        0 <= k <= s.len(),
        digits_value(s.take(k), max) is Err,
    ensures
        digits_value(s, max) == digits_value(s.take(k), max),
    decreases s.len() - k,
{
    if k < s.len() {
        assert(s.take(k + 1).drop_last() =~= s.take(k));
        lemma_digits_error(s, k + 1, max);
    } else {
        assert(s.take(k) =~= s);
    }
}

fn parse_digits(s: &[char], max: u64) -> (r: Result<u64, NumberError>)
    ensures
        match r {
            Ok(v) => digits_value(s@, max as nat) == Ok::<nat, NumberError>(v as nat),
            Err(e) => digits_value(s@, max as nat) == Err::<nat, NumberError>(e),
        },
{
    let mut v: u64 = 0;
    let mut i: usize = 0;
    while i < s.len()
        invariant
            i <= s.len(),
            v <= max,
            digits_value(s@.take(i as int), max as nat) == Ok::<nat, NumberError>(v as nat),
        decreases s.len() - i,
    {
        assert(s@.take(i + 1).drop_last() =~= s@.take(i as int));
        let c: u32 = code_point(s[i]);
        if c < '0' as u32 || c > '9' as u32 {
            proof {
                lemma_digits_error(s@, i + 1, max as nat);
            }
            return Err(NumberError::InvalidDigit);
        }
        let d: u64 = (c - '0' as u32) as u64;
        if d > max || v > (max - d) / 10 {
            proof {
                lemma_digits_error(s@, i + 1, max as nat);
            }
            return Err(NumberError::TooLarge);
        }
        v = v * 10 + d;
        i = i + 1;
    }
    assert(s@.take(s@.len() as int) =~= s@);
    Ok(v)
}

/// Read an unsigned number of at most `max`.
pub fn parse_number(s: &[char], max: u64) -> (r: Result<u64, NumberError>)
    ensures
        match r {
            Ok(v) => number_value(s@, max as nat) == Ok::<nat, NumberError>(v as nat),
            Err(e) => number_value(s@, max as nat) == Err::<nat, NumberError>(e),
        },
{
    if s.len() == 0 {
        return Err(NumberError::Empty);
    }
    if s[0] == '+' && s.len() > 1 {
        let rest = slice_subrange(s, 1, s.len());
        assert(rest@ =~= s@.skip(1));
        return parse_digits(rest, max);
    }
    parse_digits(s, max)
}

// ---------------------------------------------------------------------------
// Laws
// ---------------------------------------------------------------------------

/// All of `s` is white space but for what stands between `i` and `j`.
pub open spec fn only_blank_around(s: Seq<char>, i: int, j: int) -> bool {
    &&& 0 <= i <= j <= s.len()
    &&& forall|k: int| 0 <= k < i || j <= k < s.len() ==> white_space(#[trigger] s[k])
}

proof fn lemma_trim_start_piece(s: Seq<char>) -> (i: int)
    ensures
        0 <= i <= s.len(),
        trim_start_of(s) == s.skip(i),
        forall|k: int| 0 <= k < i ==> white_space(#[trigger] s[k]),
        i < s.len() ==> !white_space(s[i]),
    decreases s.len(),
{
    if s.len() > 0 && white_space(s[0]) {
        let i = lemma_trim_start_piece(s.skip(1));
        assert(s.skip(1).skip(i) =~= s.skip(i + 1));
        assert forall|k: int| 0 <= k < i + 1 implies white_space(#[trigger] s[k]) by {
            if k > 0 {
                assert(s[k] == s.skip(1)[k - 1]);
            }
        }
        if i + 1 < s.len() {
            assert(s[i + 1] == s.skip(1)[i]);
        }
        i + 1
    } else {
        assert(s.skip(0) =~= s);
        0
    }
}

proof fn lemma_trim_end_piece(s: Seq<char>) -> (j: int)
    ensures
        0 <= j <= s.len(),
        trim_end_of(s) == s.take(j),
        forall|k: int| j <= k < s.len() ==> white_space(#[trigger] s[k]),
        j > 0 ==> !white_space(s[j - 1]),
    decreases s.len(),
{
    if s.len() > 0 && white_space(s.last()) {
        let j = lemma_trim_end_piece(s.drop_last());
        assert(s.drop_last().take(j) =~= s.take(j));
        assert forall|k: int| j <= k < s.len() implies white_space(#[trigger] s[k]) by {
            if k < s.len() - 1 {
                assert(s[k] == s.drop_last()[k]);
            }
        }
        j
    } else {
        assert(s.take(s.len() as int) =~= s);
        s.len() as int
    }
}

/// Trimming takes white space away at both ends, all of it, and nothing else:
/// what is left is one piece of the text, as it stood there.
pub proof fn law_trimming_takes_only_white_space(s: Seq<char>)
    ensures
        exists|i: int, j: int| #[trigger]
            only_blank_around(s, i, j) && trim_of(s) == s.subrange(i, j),
        trim_of(s).len() > 0 ==> !white_space(trim_of(s)[0]) && !white_space(trim_of(s).last()),
        trim_of(s).len() == 0 <==> forall|k: int|
            0 <= k < s.len() ==> white_space(#[trigger] s[k]),
{
    let i = lemma_trim_start_piece(s);
    let t = s.skip(i);
    let j = lemma_trim_end_piece(t);
    assert(trim_of(s) =~= s.subrange(i, i + j));
    assert forall|k: int| 0 <= k < i || i + j <= k < s.len() implies white_space(
        #[trigger] s[k],
    ) by {
        if k >= i {
            assert(s[k] == t[k - i]);
        }
    }
    assert(only_blank_around(s, i, i + j));
    if j > 0 {
        assert(trim_of(s)[0] == s[i]);
        assert(trim_of(s).last() == t[j - 1]);
    }
}

proof fn lemma_decimal_reads_back(n: nat, max: nat)
    requires
        n <= max,
    ensures
        digits_value(decimal(n), max) == Ok::<nat, NumberError>(n),
        decimal(n).len() > 0,
        forall|i: int| 0 <= i < decimal(n).len() ==> ascii_digit(#[trigger] decimal(n)[i]),
    decreases n,
{
    let s = decimal(n);
    let d = (n % 10 + '0' as int) as char;
    assert(d as int == n % 10 + '0' as int);
    if n < 10 {
        assert(s.drop_last() =~= Seq::<char>::empty());
        assert(digits_value(Seq::<char>::empty(), max) == Ok::<nat, NumberError>(0));
        assert(s.last() == d);
    } else {
        lemma_decimal_reads_back(n / 10, max);
        assert(s.drop_last() =~= decimal(n / 10));
        assert(s.last() == d);
    }
}

/// A number that is written in decimal is read back as that number, and all
/// that is written are digits.
pub proof fn law_a_written_number_reads_back(n: nat, max: nat)
    requires
        n <= max,
    ensures
        number_value(decimal(n), max) == Ok::<nat, NumberError>(n),
        decimal(n).len() > 0,
        forall|i: int| 0 <= i < decimal(n).len() ==> ascii_digit(#[trigger] decimal(n)[i]),
{
    lemma_decimal_reads_back(n, max);
    assert(ascii_digit(decimal(n)[0]));
}

/// Joining puts every part there in full: the first one in front, then the
/// separator and the others.
pub proof fn lemma_joined_front(parts: Seq<Seq<char>>, sep: Seq<char>)
    requires
        parts.len() > 1,
    ensures
        joined(parts, sep) == parts[0] + sep + joined(parts.skip(1), sep),
    decreases parts.len(),
{
    let d = parts.drop_last();
    assert(parts.skip(1).drop_last() =~= d.skip(1));
    if parts.len() == 2 {
        assert(joined(d, sep) == parts[0]);
        assert(joined(parts.skip(1), sep) == parts[1]);
    } else {
        lemma_joined_front(d, sep);
        assert(joined(parts, sep) =~= parts[0] + sep + joined(parts.skip(1), sep));
    }
}

proof fn lemma_split_nonempty(s: Seq<char>, c: char)
    ensures
        split_of(s, c).len() > 0,
{
}

/// Splitting a text loses nothing: its pieces with the separators between them
/// are the text, and no piece holds a separator.
pub proof fn law_splitting_loses_nothing(s: Seq<char>, c: char)
    ensures
        joined(split_of(s, c), seq![c]) == s,
        forall|i: int|
            0 <= i < split_of(s, c).len() ==> !(#[trigger] split_of(s, c)[i]).contains(c),
    decreases s.len(),
{
    let i = upto(s, c);
    let parts = split_of(s, c);
    lemma_upto(s, c);
    if i < s.len() {
        let rest = split_of(s.skip(i + 1), c);
        law_splitting_loses_nothing(s.skip(i + 1), c);
        lemma_split_nonempty(s.skip(i + 1), c);
        assert(parts.skip(1) =~= rest);
        lemma_joined_front(parts, seq![c]);
        assert(s =~= s.take(i) + seq![c] + s.skip(i + 1));
        assert forall|k: int| 0 <= k < parts.len() implies !(#[trigger] parts[k]).contains(c) by {
            if k > 0 {
                assert(parts[k] == rest[k - 1]);
            } else if parts[0].contains(c) {
                let j = parts[0].index_of(c);
                assert(s[j] == c);
            }
        }
    } else {
        assert(parts =~= seq![s]);
        if s.contains(c) {
            let j = s.index_of(c);
            assert(s[j] == c);
        }
    }
}

/// A piece of a text stands in it.
pub proof fn lemma_occurs(front: Seq<char>, p: Seq<char>, back: Seq<char>)
    ensures
        occurs_at(front + p + back, p, front.len() as int),
        occurs(front + p + back, p),
{
    let n = front.len() as int;
    assert((front + p + back).subrange(n, n + p.len()) =~= p);
    assert(occurs_at(front + p + back, p, n));
}

/// The lines of a text are what stands between its line ends, in order: a line
/// that is ended, and then the lines behind it.
pub proof fn law_lines_are_what_stands_between_line_ends(line: Seq<char>, rest: Seq<char>)
    requires
        !line.contains('\n'),
    ensures
        lines_of(line + seq!['\n'] + rest) == seq![without_cr(line)] + lines_of(rest),
        line.len() > 0 ==> lines_of(line) == seq![line],
        lines_of(Seq::<char>::empty()).len() == 0,
{
    let s = line + seq!['\n'] + rest;
    lemma_upto(s, '\n');
    lemma_upto(line, '\n');
    let n = upto(s, '\n');
    assert(s[line.len() as int] == '\n');
    if n < line.len() {
        assert(s[n] == line[n]);
        assert(line.contains(line[n]));
    }
    assert(s.take(n) =~= line);
    assert(s.skip(n + 1) =~= rest);
    if upto(line, '\n') < line.len() {
        assert(line.contains(line[upto(line, '\n')]));
    }
}

/// What it means for a text to stand in another: at the front, at the end, or
/// anywhere.
pub proof fn law_where_a_text_stands(s: Seq<char>, p: Seq<char>, a: Seq<char>, b: Seq<char>)
    ensures
        begins(p + b, p),
        ends(a + p, p),
        occurs(a + p + b, p),
        begins(s, p) ==> s == p + s.skip(p.len() as int),
        ends(s, p) ==> s == s.take(s.len() - p.len()) + p,
        occurs(s, p) <==> exists|i: int|
            0 <= i <= s.len() - p.len() && #[trigger] s.subrange(i, i + p.len()) == p,
{
    lemma_occurs(a, p, b);
    assert((p + b).subrange(0, p.len() as int) =~= p);
    assert((a + p).subrange(a.len() as int, a.len() as int + p.len()) =~= p);
    if begins(s, p) {
        assert(s =~= s.subrange(0, p.len() as int) + s.skip(p.len() as int));
    }
    if ends(s, p) {
        let n = s.len() - p.len();
        assert(s =~= s.take(n) + s.subrange(n, n + p.len()));
    }
    if occurs(s, p) {
        let i = choose|i: int| occurs_at(s, p, i);
        assert(s.subrange(i, i + p.len()) == p);
    }
    if exists|i: int| 0 <= i <= s.len() - p.len() && #[trigger] s.subrange(i, i + p.len()) == p {
        let i = choose|i: int|
            0 <= i <= s.len() - p.len() && #[trigger] s.subrange(i, i + p.len()) == p;
        assert(occurs_at(s, p, i));
    }
}

proof fn lemma_digits_only(s: Seq<char>, max: nat)
    ensures
        digits_value(s, max) matches Ok(n) ==> (s.len() > 0 ==> n <= max) && forall|i: int|
            0 <= i < s.len() ==> ascii_digit(#[trigger] s[i]),
    decreases s.len(),
{
    if s.len() > 0 {
        lemma_digits_only(s.drop_last(), max);
        assert forall|i: int|
            0 <= i < s.len() && digits_value(s, max) is Ok implies ascii_digit(#[trigger] s[i]) by {
            if i < s.len() - 1 {
                assert(s[i] == s.drop_last()[i]);
            }
        }
    }
}

/// What is read as a number is written in digits, with a plus sign in front or
/// not, and is no larger than it may be.
pub proof fn law_a_number_is_written_in_digits(s: Seq<char>, max: nat)
    ensures
        number_value(s, max) matches Ok(n) ==> {
            &&& n <= max
            &&& s.len() > 0
            &&& s[0] == '+' || ascii_digit(s[0])
            &&& forall|i: int| 1 <= i < s.len() ==> ascii_digit(#[trigger] s[i])
        },
{
    if let Ok(n) = number_value(s, max) {
        if s[0] == '+' && s.len() > 1 {
            lemma_digits_only(s.skip(1), max);
            assert forall|i: int| 1 <= i < s.len() implies ascii_digit(#[trigger] s[i]) by {
                assert(s[i] == s.skip(1)[i - 1]);
            }
        } else {
            lemma_digits_only(s, max);
        }
    }
}

/// Upper and lower case are two ways to write the same letters: either undoes
/// the other, and no small letter is left in upper case, nor a capital in lower.
pub proof fn law_case_goes_both_ways(s: Seq<char>)
    ensures
        uppered(lowered(s)) == uppered(s),
        lowered(uppered(s)) == lowered(s),
        forall|i: int|
            0 <= i < s.len() ==> !('a' as int <= #[trigger] uppered(s)[i] as int <= 'z' as int),
        forall|i: int|
            0 <= i < s.len() ==> !('A' as int <= #[trigger] lowered(s)[i] as int <= 'Z' as int),
{
    assert(uppered(lowered(s)) =~= uppered(s));
    assert(lowered(uppered(s)) =~= lowered(s));
}

/// Texts are ordered as in a dictionary: by their first difference, and a text
/// comes before what only goes on behind it.
pub proof fn law_texts_are_ordered_by_their_first_difference(
    front: Seq<char>,
    a: Seq<char>,
    b: Seq<char>,
)
    ensures
        b.len() > 0 ==> precedes(front, front + b),
        a.len() > 0 && b.len() > 0 && (a[0] as int) < (b[0] as int) ==> precedes(
            front + a,
            front + b,
        ),
        !precedes(front, front),
    decreases front.len(),
{
    if front.len() == 0 {
        assert(front + a =~= a);
        assert(front + b =~= b);
    } else {
        law_texts_are_ordered_by_their_first_difference(front.skip(1), a, b);
        assert((front + a).skip(1) =~= front.skip(1) + a);
        assert((front + b).skip(1) =~= front.skip(1) + b);
    }
}

} // verus!
