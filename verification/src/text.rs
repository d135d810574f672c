//! Reading the characters of a string, and rewriting line endings to CRLF.

use vstd::prelude::*;
use vstd::std_specs::iter::IteratorSpec;
use vstd::string::*;

verus! {

/// `String::push` appends exactly one character to the end of the string.
pub assume_specification[ String::push ](s: &mut String, c: char)
    ensures
        final(s)@ == old(s)@.push(c),
;

/// The characters of `text`, in order.
pub fn chars_of(text: &str) -> (chars: Vec<char>)
    ensures
        chars@ == text@,
{
    broadcast use group_string_axioms;

    let mut chars: Vec<char> = Vec::new();
    let mut it = text.chars();
    loop
        invariant
            it.obeys_prophetic_iter_laws(),
            it.decrease() is Some,
            chars@ + it.remaining() == text@,
        decreases it.decrease()->0,
    {
        match it.next() {
            Some(c) => {
                chars.push(c);
                assert(chars@ + it.remaining() =~= text@);
            },
            None => {
                assert(chars@ =~= text@);
                return chars;
            },
        }
    }
}

/// Whether the line feed at position `i` of `s` lacks a carriage return before it.
pub open spec fn bare_line_feed(s: Seq<char>, i: int) -> bool {
    s[i] == '\n' && (i == 0 || s[i - 1] != '\r')
}

/// `s` with a carriage return put before every line feed that lacks one.
pub open spec fn crlf_body(s: Seq<char>) -> Seq<char>
    decreases s.len(),
{
    if s.len() == 0 {
        Seq::empty()
    } else if bare_line_feed(s, s.len() - 1) {
        crlf_body(s.drop_last()).push('\r').push('\n')
    } else {
        crlf_body(s.drop_last()).push(s.last())
    }
}

/// Whether `s` ends with a line feed.
pub open spec fn ends_line(s: Seq<char>) -> bool {
    s.len() > 0 && s.last() == '\n'
}

/// A non-empty text with every line terminator rewritten to CRLF and a CRLF
/// appended where the text does not end its last line; the empty text stays
/// empty.
pub open spec fn crlf_lines(s: Seq<char>) -> Seq<char> {
    if s.len() == 0 {
        Seq::empty()
    } else {
        crlf_fixed(s)
    }
}

/// The normal form of a reply text: every line terminator is CRLF, and the
/// text ends with one. The empty text becomes a single CRLF.
pub open spec fn crlf_fixed(s: Seq<char>) -> Seq<char> {
    if ends_line(s) {
        crlf_body(s)
    } else {
        crlf_body(s).push('\r').push('\n')
    }
}

/// Every line feed of `t` directly follows a carriage return.
pub open spec fn line_feeds_follow_cr(t: Seq<char>) -> bool {
    forall|i: int| 0 <= i < t.len() && #[trigger] t[i] == '\n' ==> i > 0 && t[i - 1] == '\r'
}

/// Every line of `t` ends with CRLF, the last one included.
pub open spec fn crlf_terminated(t: Seq<char>) -> bool {
    &&& t.len() >= 2
    &&& t[t.len() - 2] == '\r'
    &&& t[t.len() - 1] == '\n'
    &&& line_feeds_follow_cr(t)
}

/// What `crlf_body` keeps and what it guarantees: the last character stays,
/// and no line feed is left without its carriage return.
pub proof fn lemma_crlf_body(s: Seq<char>)
    ensures
        line_feeds_follow_cr(crlf_body(s)),
        crlf_body(s).len() >= s.len(),
        s.len() > 0 ==> crlf_body(s).last() == s.last(),
    decreases s.len(),
{
    if s.len() > 0 {
        lemma_crlf_body(s.drop_last());
    }
}

/// The normal form of any text, whatever its line endings were, has every
/// line end with CRLF, the last one included.
pub proof fn lemma_crlf_fixed_terminated(s: Seq<char>)
    ensures
        crlf_terminated(crlf_fixed(s)),
{
    lemma_crlf_body(s);
    if s.len() > 0 {
        lemma_crlf_body(s.drop_last());
    }
}

/// A text in which every line feed follows a carriage return is left as it
/// is by `crlf_body`.
pub proof fn lemma_crlf_body_keeps(t: Seq<char>)
    requires
        line_feeds_follow_cr(t),
    ensures
        crlf_body(t) == t,
    decreases t.len(),
{
    if t.len() > 0 {
        lemma_crlf_body_keeps(t.drop_last());
        assert(t.drop_last().push(t.last()) =~= t);
    }
}

/// Normalisation is idempotent: a text whose lines all end with CRLF is its
/// own normal form.
pub proof fn lemma_crlf_fixed_keeps(t: Seq<char>)
    requires
        crlf_terminated(t),
    ensures
        crlf_fixed(t) == t,
{
    lemma_crlf_body_keeps(t);
}

/// Rewrites the line terminators of a non-empty text to CRLF and ends its last
/// line with one; an empty text has no lines and stays empty.
pub fn fix_str_crlf(text: &str) -> (fixed: String)
    ensures
        fixed@ == crlf_lines(text@),
{
    let chars = chars_of(text);
    let mut fixed = String::new();
    let mut i: usize = 0;
    while i < chars.len()
        invariant
            chars@ == text@,
            0 <= i <= chars.len(),
            fixed@ == crlf_body(text@.take(i as int)),
        decreases chars.len() - i,
    {
        let c = chars[i];
        proof {
            assert(text@.take(i + 1).drop_last() =~= text@.take(i as int));
        }
        if c == '\n' && (i == 0 || chars[i - 1] != '\r') {
            fixed.push('\r');
        }
        fixed.push(c);
        i += 1;
    }
    proof {
        assert(text@.take(i as int) =~= text@);
    }
    if i > 0 && chars[i - 1] != '\n' {
        fixed.push('\r');
        fixed.push('\n');
    }
    fixed
}

/// Puts `text` into its normal form in place: every line terminator becomes
/// CRLF, and the text ends with one.
pub fn fix_string_crlf(text: &mut String)
    ensures
        final(text)@ == crlf_fixed(old(text)@),
{
    if text.as_str().is_empty() {
        text.push('\r');
        text.push('\n');
        assert(crlf_body(old(text)@) =~= Seq::<char>::empty());
        assert(final(text)@ =~= crlf_fixed(old(text)@));
    } else {
        let fixed = fix_str_crlf(text.as_str());
        *text = fixed;
    }
}

} // verus!
