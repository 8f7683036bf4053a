//! Text as sequences of characters: substitution of one character and joining with a separator.

use vstd::prelude::*;

verus! {

/// `String::push` of the standard library appends one character to the end of the string and
/// leaves the rest as it was.
pub assume_specification[ std::string::String::push ](s: &mut std::string::String, ch: char)
    ensures
        final(s)@ == old(s)@.push(ch),
;

/// `text` with every occurrence of the character `from` replaced by `to`.
pub open spec fn substitute(text: Seq<char>, from: char, to: Seq<char>) -> Seq<char>
    decreases text.len(),
{
    if text.len() == 0 {
        Seq::empty()
    } else if text.last() == from {
        substitute(text.drop_last(), from, to) + to
    } else {
        substitute(text.drop_last(), from, to).push(text.last())
    }
}

/// The parts in order, with `separator` between each two neighbours and nowhere else.
pub open spec fn join(parts: Seq<Seq<char>>, separator: Seq<char>) -> Seq<char>
    decreases parts.len(),
{
    if parts.len() == 0 {
        Seq::empty()
    } else if parts.len() == 1 {
        parts[0]
    } else {
        join(parts.drop_last(), separator) + separator + parts.last()
    }
}

/// Joining one more part: the separator comes before it unless it is the first.
pub proof fn lemma_join_push(parts: Seq<Seq<char>>, separator: Seq<char>, part: Seq<char>)
    ensures
        join(parts.push(part), separator) == if parts.len() == 0 {
            part
        } else {
            join(parts, separator) + separator + part
        },
{
    assert(parts.push(part).drop_last() =~= parts);
}

/// Substitution works on each part of a text by itself.
pub proof fn lemma_substitute_concat(a: Seq<char>, b: Seq<char>, from: char, to: Seq<char>)
    ensures
        substitute(a + b, from, to) == substitute(a, from, to) + substitute(b, from, to),
    decreases b.len(),
{
    if b.len() == 0 {
        assert(a + b =~= a);
        assert(substitute(a, from, to) + substitute(b, from, to) =~= substitute(a, from, to));
    } else {
        assert((a + b).drop_last() =~= a + b.drop_last());
        lemma_substitute_concat(a, b.drop_last(), from, to);
        if b.last() == from {
            assert(substitute(a, from, to) + (substitute(b.drop_last(), from, to) + to) =~= (
            substitute(a, from, to) + substitute(b.drop_last(), from, to)) + to);
        } else {
            assert(substitute(a, from, to) + substitute(b.drop_last(), from, to).push(b.last())
                =~= (substitute(a, from, to) + substitute(b.drop_last(), from, to)).push(
                b.last(),
            ));
        }
    }
}

/// Substitution leaves a text without the character as it is.
pub proof fn lemma_substitute_absent(text: Seq<char>, from: char, to: Seq<char>)
    requires
        forall|i: int| 0 <= i < text.len() ==> text[i] != from,
    ensures
        substitute(text, from, to) == text,
    decreases text.len(),
{
    if text.len() > 0 {
        lemma_substitute_absent(text.drop_last(), from, to);
        assert(text.drop_last().push(text.last()) =~= text);
    }
}

/// A copy of `text` in which every occurrence of `from` is replaced by `to`.
pub fn replace_char(text: &str, from: char, to: &str) -> (r: String)
    ensures
        r@ == substitute(text@, from, to@),
{
    let mut out = String::new();
    let chars = text.chars();
    for c in iter: chars
        invariant
            iter.seq() == text@,
            out@ == substitute(text@.take(iter.index() as int), from, to@),
    {
        proof {
            assert(text@.take(iter.index() + 1).drop_last() == text@.take(iter.index() as int));
        }
        if c == from {
            out.append(to);
        } else {
            out.push(c);
        }
    }
    proof {
        assert(text@.take(text@.len() as int) == text@);
    }
    out
}

} // verus!
