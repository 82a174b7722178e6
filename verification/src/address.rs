//! What the user types into the address bar.

use crate::text;
use crate::text::{chars_of, holds, text_of, trim};
use vstd::prelude::*;

verus! {

/// The address for what was typed: without white space around it, and with a
/// scheme; `None` where nothing was typed.
pub open spec fn normalized(input: Seq<char>) -> Option<Seq<char>> {
    let t = text::trim_of(input);
    if t.len() == 0 {
        None
    } else if text::occurs(t, "://"@) {
        Some(t)
    } else {
        Some("https://"@ + t)
    }
}

/// Make an address of what was typed: trim it, reject nothing at all, and put
/// `https://` in front where there is no scheme.
pub fn normalize_url_input(input: &str) -> (r: Option<String>)
    ensures
        text::maybe(r) == normalized(input@),
{
    let all = chars_of(input);
    let trimmed = trim(all.as_slice());
    if trimmed.len() == 0 {
        return None;
    }
    if holds(trimmed, chars_of("://").as_slice()) {
        Some(text_of(trimmed))
    } else {
        let mut r = "https://".to_owned();
        r.append(text_of(trimmed).as_str());
        Some(r)
    }
}

proof fn lemma_trim_start(s: Seq<char>)
    ensures
        text::trim_start_of(s).len() > 0 ==> !text::white_space(text::trim_start_of(s)[0]),
        s.len() > 0 && !text::white_space(s[0]) ==> text::trim_start_of(s) == s,
    decreases s.len(),
{
    if s.len() > 0 && text::white_space(s[0]) {
        lemma_trim_start(s.skip(1));
    }
}

proof fn lemma_trim_end(s: Seq<char>)
    ensures
        text::trim_end_of(s).len() > 0 ==> !text::white_space(text::trim_end_of(s).last())
            && text::trim_end_of(s)[0] == s[0],
        s.len() > 0 && !text::white_space(s.last()) ==> text::trim_end_of(s) == s,
    decreases s.len(),
{
    if s.len() > 0 && text::white_space(s.last()) {
        lemma_trim_end(s.drop_last());
    }
}

/// An address stays as it is when it is typed again.
pub proof fn law_an_address_is_normal(input: Seq<char>)
    ensures
        normalized(input) matches Some(u) ==> normalized(u) == Some(u),
{
    if let Some(u) = normalized(input) {
        let t = text::trim_of(input);
        lemma_trim_start(input);
        lemma_trim_end(text::trim_start_of(input));
        reveal_strlit("https://");
        reveal_strlit("://");
        if !text::occurs(t, "://"@) {
            assert(u.subrange(5, 8) =~= "://"@);
            assert(text::occurs_at(u, "://"@, 5));
        }
        lemma_trim_start(u);
        lemma_trim_end(u);
    }
}

/// What was typed is the address, character for character: nothing is made of
/// white space alone, what names a scheme is taken as it is, and whatever else
/// stands at the end of the address, with `https://` in front and nothing more.
pub proof fn law_what_was_typed_is_the_address(input: Seq<char>)
    ensures
        normalized(input) is None <==> forall|k: int|
            0 <= k < input.len() ==> text::white_space(#[trigger] input[k]),
        normalized(input) matches Some(u) ==> exists|i: int, j: int|
            {
                let typed = input.subrange(i, j);
                &&& #[trigger] text::only_blank_around(input, i, j)
                &&& typed.len() > 0
                &&& !text::white_space(input[i]) && !text::white_space(input[j - 1])
                &&& typed.len() <= u.len()
                &&& u.skip(u.len() - typed.len()) == typed
                &&& if text::occurs(typed, "://"@) {
                    u == typed
                } else {
                    u.take(u.len() - typed.len()) == "https://"@
                }
            },
{
    text::law_trimming_takes_only_white_space(input);
    if let Some(u) = normalized(input) {
        let t = text::trim_of(input);
        let (i, j) = choose|i: int, j: int| #[trigger]
            text::only_blank_around(input, i, j) && t == input.subrange(i, j);
        assert(t[0] == input[i]);
        assert(t.last() == input[j - 1]);
        assert(u.skip(u.len() - t.len()) =~= t);
        if !text::occurs(t, "://"@) {
            assert(u.take(u.len() - t.len()) =~= "https://"@);
        }
    }
}

} // verus!
