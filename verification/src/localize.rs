//! The strings of the plugin, read from a bundle of messages.
//!
//! A bundle has one message per line, `id = text`, with `{ $name }` where an
//! argument goes. A missing message is its own id.

use crate::text;
use crate::text::{chars_of, find_at, lines, push_all, text_of, trim};
use vstd::prelude::*;
use vstd::slice::slice_subrange;

verus! {

/// Named arguments for a message.
#[derive(Debug, Clone)]
pub struct Args(Vec<(String, String)>);

impl View for Args {
    type V = Seq<(Seq<char>, Seq<char>)>;

    /// The names and the values, in the order they were set.
    closed spec fn view(&self) -> Seq<(Seq<char>, Seq<char>)> {
        Seq::new(self.0@.len(), |i: int| (self.0@[i].0@, self.0@[i].1@))
    }
}

impl Args {
    /// No arguments.
    pub fn new() -> (r: Args)
        ensures
            r@.len() == 0,
    {
        Args(Vec::new())
    }

    /// Add an argument.
    pub fn set(&mut self, name: &str, value: &str)
        ensures
            final(self)@ == old(self)@.push((name@, value@)),
    {
        self.0.push((name.to_owned(), value.to_owned()));
        assert(self@ =~= old(self)@.push((name@, value@)));
    }
}

impl Default for Args {
    fn default() -> (r: Args)
        ensures
            r@.len() == 0,
    {
        Args::new()
    }
}

/// The text of message `key` where `line` is that message.
pub open spec fn message_on(line: Seq<char>, key: Seq<char>) -> Option<Seq<char>> {
    match text::find_from(line, " = "@, 0) {
        Some(i) => if text::trim_of(line.take(i)) == key {
            Some(line.skip(i + 3))
        } else {
            None
        },
        None => None,
    }
}

/// The text of message `key`, on the first line from `from` on that has it.
pub open spec fn message_in(ls: Seq<Seq<char>>, key: Seq<char>, from: int) -> Option<Seq<char>>
    decreases ls.len() - from,
{
    if from < 0 || from >= ls.len() {
        None
    } else {
        match message_on(ls[from], key) {
            Some(t) => Some(t),
            None => message_in(ls, key, from + 1),
        }
    }
}

/// `s` with every `p` replaced by `by`, from the left, none inside another.
pub open spec fn substituted(s: Seq<char>, p: Seq<char>, by: Seq<char>) -> Seq<char>
    decreases s.len(),
{
    if p.len() == 0 {
        s
    } else {
        match text::find_from(s, p, 0) {
            Some(i) => if 0 <= i && i + p.len() <= s.len() {
                s.take(i) + by + substituted(s.skip(i + p.len()), p, by)
            } else {
                s
            },
            None => s,
        }
    }
}

/// Where the argument `name` goes in a message.
pub open spec fn placeable(name: Seq<char>) -> Seq<char> {
    "{ $"@ + name + " }"@
}

/// A message with its arguments put in, one after the other.
pub open spec fn filled(s: Seq<char>, args: Seq<(Seq<char>, Seq<char>)>) -> Seq<char>
    decreases args.len(),
{
    if args.len() == 0 {
        s
    } else {
        substituted(filled(s, args.drop_last()), placeable(args.last().0), args.last().1)
    }
}

/// The words for message `key`: from the bundle, or the key itself.
pub open spec fn words(
    bundle: Seq<char>,
    key: Seq<char>,
    args: Seq<(Seq<char>, Seq<char>)>,
) -> Seq<char> {
    match message_in(text::lines_of(bundle), key, 0) {
        Some(t) => filled(t, args),
        None => key,
    }
}

/// Replace every `p` in `s` by `by`.
fn substitute(s: &[char], p: &[char], by: &[char]) -> (r: Vec<char>)
    requires
        p@.len() > 0,
    ensures
        r@ == substituted(s@, p@, by@),
{
    let mut r: Vec<char> = Vec::new();
    let mut at: usize = 0;
    assert(s@.skip(0) =~= s@);
    assert(r@ + substituted(s@, p@, by@) =~= substituted(s@, p@, by@));
    while at <= s.len()
        invariant
            p@.len() > 0,
            at <= s.len() + 1,
            at <= s.len() ==> substituted(s@, p@, by@) == r@ + substituted(
                s@.skip(at as int),
                p@,
                by@,
            ),
            at > s.len() ==> substituted(s@, p@, by@) == r@,
        decreases s.len() + 1 - at,
    {
        let rest = slice_subrange(s, at, s.len());
        assert(rest@ =~= s@.skip(at as int));
        let ghost before = r@;
        match find_at(rest, p, 0) {
            Some(i) => {
                proof {
                    text::lemma_find_from(rest@, p@, 0);
                }
                push_all(&mut r, slice_subrange(rest, 0, i));
                push_all(&mut r, by);
                assert(rest@.subrange(0, i as int) =~= rest@.take(i as int));
                assert(rest@.skip(i + p@.len()) =~= s@.skip(at + i + p@.len()));
                assert(r@ + substituted(s@.skip(at + i + p@.len()), p@, by@) =~= before
                    + substituted(rest@, p@, by@));
                at = at + i + p.len();
            },
            None => {
                push_all(&mut r, rest);
                assert(r@ == before + substituted(rest@, p@, by@));
                return r;
            },
        }
    }
    r
}

/// The words for message `key`, without arguments.
pub fn t(bundle: &str, key: &str) -> (r: String)
    ensures
        r@ == words(bundle@, key@, seq![]),
{
    let args = Args::new();
    assert(args@ =~= seq![]);
    t_args(bundle, key, &args)
}

/// The words for message `key`, with its arguments put in.
pub fn t_args(bundle: &str, key: &str, args: &Args) -> (r: String)
    ensures
        r@ == words(bundle@, key@, args@),
{
    let ls = lines(chars_of(bundle).as_slice());
    let ghost all = text::lines_of(bundle@);
    let id = chars_of(key);
    let sep = chars_of(" = ");
    proof {
        reveal_strlit(" = ");
    }
    let mut i: usize = 0;
    while i < ls.len()
        invariant
            i <= ls.len(),
            text::views(ls@) == all,
            id@ == key@,
            sep@ == " = "@,
            sep@.len() == 3,
            all == text::lines_of(bundle@),
            message_in(all, key@, 0) == message_in(all, key@, i as int),
        decreases ls.len() - i,
    {
        let line = chars_of(ls[i].as_str());
        assert(all[i as int] == line@);
        if let Some(k) = find_at(line.as_slice(), sep.as_slice(), 0) {
            proof {
                text::lemma_find_from(line@, sep@, 0);
            }
            let name = slice_subrange(line.as_slice(), 0, k);
            assert(name@ =~= line@.take(k as int));
            if same_chars(trim(name), id.as_slice()) {
                let body = slice_subrange(line.as_slice(), k + 3, line.len());
                assert(body@ =~= line@.skip(k + 3));
                assert(message_in(all, key@, 0) == Some(body@));
                return fill(body, args);
            }
        }
        i = i + 1;
    }
    key.to_owned()
}

fn same_chars(a: &[char], b: &[char]) -> (r: bool)
    ensures
        r == (a@ == b@),
{
    if a.len() != b.len() {
        return false;
    }
    let mut i: usize = 0;
    while i < a.len()
        invariant
            i <= a.len(),
            a.len() == b.len(),
            a@.take(i as int) == b@.take(i as int),
        decreases a.len() - i,
    {
        if a[i] != b[i] {
            return false;
        }
        i = i + 1;
        assert(a@.take(i as int) =~= b@.take(i as int));
    }
    assert(a@.take(a@.len() as int) =~= a@);
    assert(b@.take(b@.len() as int) =~= b@);
    true
}

/// Put the arguments into a message.
fn fill(body: &[char], args: &Args) -> (r: String)
    ensures
        r@ == filled(body@, args@),
{
    let ghost all = args@;
    let mut out: Vec<char> = Vec::new();
    push_all(&mut out, body);
    let mut i: usize = 0;
    assert(out@ =~= filled(body@, all.take(0)));
    while i < args.0.len()
        invariant
            i <= args.0.len(),
            all == args@,
            out@ == filled(body@, all.take(i as int)),
        decreases args.0.len() - i,
    {
        assert(all.take(i + 1).drop_last() =~= all.take(i as int));
        let mut place = "{ $".to_owned();
        place.append(args.0[i].0.as_str());
        place.append(" }");
        let p = chars_of(place.as_str());
        assert(p@ == placeable(all[i as int].0));
        proof {
            reveal_strlit("{ $");
        }
        let by = chars_of(args.0[i].1.as_str());
        out = substitute(out.as_slice(), p.as_slice(), by.as_slice());
        i = i + 1;
    }
    assert(all.take(all.len() as int) =~= all);
    text_of(out.as_slice())
}

// ---------------------------------------------------------------------------
// Laws
// ---------------------------------------------------------------------------

/// A line of a bundle gives its message to the id in front of the sign, with
/// white space around it or not, and to no other.
pub proof fn law_a_line_gives_its_message(id: Seq<char>, body: Seq<char>, other: Seq<char>)
    requires
        id.len() > 0,
        forall|i: int| 0 <= i < id.len() ==> !text::white_space(#[trigger] id[i]),
        other != id,
    ensures
        message_on(id + " = "@ + body, id) == Some(body),
        message_on(id + " = "@ + body, other) is None,
{
    reveal_strlit(" = ");
    let line = id + " = "@ + body;
    let n = id.len() as int;
    assert(line.subrange(n, n + 3) =~= " = "@);
    assert(text::occurs_at(line, " = "@, n));
    text::lemma_find_from(line, " = "@, 0);
    assert forall|i: int| 0 <= i < n implies !text::occurs_at(line, " = "@, i) by {
        if text::occurs_at(line, " = "@, i) {
            assert(line.subrange(i, i + 3)[0] == ' ');
            assert(line[i] == id[i]);
        }
    }
    assert(text::find_from(line, " = "@, 0) == Some(n));
    assert(line.take(n) =~= id);
    assert(line.skip(n + 3) =~= body);
    assert(text::trim_of(id) == id);
}

/// The words of a message are those of the first line that has it; a message
/// that no line has is its own id.
pub proof fn law_a_missing_message_is_its_id(
    ls: Seq<Seq<char>>,
    key: Seq<char>,
    from: int,
)
    requires
        0 <= from,
    ensures
        match message_in(ls, key, from) {
            Some(t) => exists|i: int|
                from <= i < ls.len() && message_on(#[trigger] ls[i], key) == Some(t) && forall|j: int|
                    from <= j < i ==> message_on(#[trigger] ls[j], key) is None,
            None => forall|i: int|
                from <= i < ls.len() ==> message_on(#[trigger] ls[i], key) is None,
        },
    decreases ls.len() - from,
{
    if from < ls.len() {
        if message_on(ls[from], key) is None {
            law_a_missing_message_is_its_id(ls, key, from + 1);
        }
    }
}

/// What the words of a message come to.
pub proof fn law_the_words_of_a_message(
    bundle: Seq<char>,
    key: Seq<char>,
    args: Seq<(Seq<char>, Seq<char>)>,
)
    ensures
        message_in(text::lines_of(bundle), key, 0) is None ==> words(bundle, key, args) == key,
        message_in(text::lines_of(bundle), key, 0) matches Some(t) ==> words(bundle, key, seq![])
            == t,
{
}

/// An argument goes where its name stands, in full, and the rest of the message
/// stays as it is.
pub proof fn law_an_argument_goes_where_its_name_stands(
    front: Seq<char>,
    name: Seq<char>,
    value: Seq<char>,
    back: Seq<char>,
)
    requires
        forall|i: int| 0 <= i < front.len() ==> #[trigger] front[i] != '{',
        forall|i: int| 0 <= i < back.len() ==> #[trigger] back[i] != '{',
    ensures
        filled(front + ("{ $"@ + name + " }"@) + back, seq![(name, value)]) == front + value + back,
        filled(front, seq![(name, value)]) == front,
{
    reveal_strlit("{ $");
    let p = "{ $"@ + name + " }"@;
    assert(p[0] == '{');
    let args: Seq<(Seq<char>, Seq<char>)> = seq![(name, value)];
    assert(args.drop_last() =~= Seq::empty());
    assert(filled(front + p + back, args.drop_last()) == front + p + back);
    assert(filled(front, args.drop_last()) == front);
    lemma_one_place(front, p, value, back);
    lemma_nothing_to_fill(front, p, value);
}

proof fn lemma_first_brace(s: Seq<char>, p: Seq<char>, n: int)
    requires
        p.len() > 0 && p[0] == '{',
        text::occurs_at(s, p, n),
        forall|i: int| 0 <= i < n ==> #[trigger] s[i] != '{',
    ensures
        text::find_from(s, p, 0) == Some(n),
{
    text::lemma_find_from(s, p, 0);
    if let Some(i) = text::find_from(s, p, 0) {
        if i < n {
            assert(s.subrange(i, i + p.len())[0] == p[0]);
        }
    }
}

proof fn lemma_one_place(front: Seq<char>, p: Seq<char>, by: Seq<char>, back: Seq<char>)
    requires
        p.len() > 0 && p[0] == '{',
        forall|i: int| 0 <= i < front.len() ==> #[trigger] front[i] != '{',
        forall|i: int| 0 <= i < back.len() ==> #[trigger] back[i] != '{',
    ensures
        substituted(front + p + back, p, by) == front + by + back,
{
    let s = front + p + back;
    let n = front.len() as int;
    text::lemma_occurs(front, p, back);
    assert forall|i: int| 0 <= i < n implies #[trigger] s[i] != '{' by {
        assert(s[i] == front[i]);
    }
    lemma_first_brace(s, p, n);
    assert(s.take(n) =~= front);
    assert(s.skip(n + p.len()) =~= back);
    lemma_nothing_to_fill(back, p, by);
}

proof fn lemma_nothing_to_fill(s: Seq<char>, p: Seq<char>, by: Seq<char>)
    requires
        p.len() > 0 && p[0] == '{',
        forall|i: int| 0 <= i < s.len() ==> #[trigger] s[i] != '{',
    ensures
        substituted(s, p, by) == s,
{
    text::lemma_find_from(s, p, 0);
    if let Some(i) = text::find_from(s, p, 0) {
        assert(s.subrange(i, i + p.len())[0] == p[0]);
    }
}

} // verus!
