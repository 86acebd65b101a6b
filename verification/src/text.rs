//! Program text as the readers see it: characters with their class.
use vstd::prelude::*;

verus! {

/// What a character is to the readers, beyond the character itself.
#[derive(Clone, Copy, Debug, PartialEq, Eq, Structural)]
pub enum CharClass {
    /// White space: it separates words.
    Space,
    /// A letter: it may stand in a name.
    Letter,
    /// Anything else.
    Other,
}

/// One character of a program text together with its class. The readers
/// work on glyphs, so that what they do is determined by plain values.
#[derive(Clone, Copy, Debug, PartialEq, Eq, Structural)]
pub struct Glyph {
    pub ch: char,
    pub class: CharClass,
}

/// Whether `c` has the Unicode property White_Space, as `char::is_whitespace`
/// reports it.
pub uninterp spec fn whitespace(c: char) -> bool;

/// Whether `c` has the Unicode property Alphabetic, as `char::is_alphabetic`
/// reports it.
pub uninterp spec fn alphabetic(c: char) -> bool;

/// `char::is_whitespace` of std: its answer depends on the character alone,
/// and [`whitespace`] is the name of that answer.
pub assume_specification[ char::is_whitespace ](c: char) -> (r: bool)
    ensures
        r == whitespace(c),
;

/// `char::is_alphabetic` of std: its answer depends on the character alone,
/// and [`alphabetic`] is the name of that answer.
pub assume_specification[ char::is_alphabetic ](c: char) -> (r: bool)
    ensures
        r == alphabetic(c),
;

/// `String::push` of std appends the character to the string.
pub assume_specification[ String::push ](s: &mut String, ch: char)
    ensures
        final(s)@ == old(s)@.push(ch),
;

/// The class of a character: white space first, then letters.
pub open spec fn class_of(c: char) -> CharClass {
    if whitespace(c) {
        CharClass::Space
    } else if alphabetic(c) {
        CharClass::Letter
    } else {
        CharClass::Other
    }
}

/// The glyph of a character.
pub open spec fn glyph_of(c: char) -> Glyph {
    Glyph { ch: c, class: class_of(c) }
}

/// The glyphs of a text, character by character.
pub open spec fn glyphs_of(text: Seq<char>) -> Seq<Glyph> {
    text.map_values(|c: char| glyph_of(c))
}

/// Classifies one character.
pub fn classify(c: char) -> (g: Glyph)
    ensures
        g == glyph_of(c),
{
    let class = if c.is_whitespace() {
        CharClass::Space
    } else if c.is_alphabetic() {
        CharClass::Letter
    } else {
        CharClass::Other
    };
    Glyph { ch: c, class }
}

/// Classifies every character of a text.
pub fn glyphs(text: &Vec<char>) -> (g: Vec<Glyph>)
    ensures
        g@ == glyphs_of(text@),
{
    let mut g: Vec<Glyph> = Vec::new();
    let mut i: usize = 0;
    while i < text.len()
        invariant
            i <= text.len(),
            g@ == glyphs_of(text@.take(i as int)),
        decreases text.len() - i,
    {
        g.push(classify(text[i]));
        i = i + 1;
        assert(g@ =~= glyphs_of(text@.take(i as int)));
    }
    assert(text@.take(i as int) =~= text@);
    g
}

/// The characters of a string slice.
pub fn chars_of(text: &str) -> (chars: Vec<char>)
    ensures
        chars@ == text@,
{
    let mut chars: Vec<char> = Vec::new();
    for c in it: text.chars()
        invariant
            chars@ == it.seq().take(it.index()),
    {
        chars.push(c);
    }
    chars
}

/// The string that the characters spell.
pub fn string_of(chars: &Vec<char>) -> (text: String)
    ensures
        text@ == chars@,
{
    let mut text = String::new();
    let mut i: usize = 0;
    while i < chars.len()
        invariant
            i <= chars.len(),
            text@ == chars@.take(i as int),
        decreases chars.len() - i,
    {
        text.push(chars[i]);
        i = i + 1;
        assert(text@ =~= chars@.take(i as int));
    }
    assert(chars@.take(i as int) =~= chars@);
    text
}

/// Whether the word is spelled as the literal is.
pub fn spells(word: &String, literal: &str) -> (same: bool)
    ensures
        same == (word@ == literal@),
{
    *word == String::from_str(literal)
}

/// What each string of a sequence spells.
pub open spec fn texts(strings: Seq<String>) -> Seq<Seq<char>> {
    strings.map_values(|s: String| s@)
}

/// The name under which a loop binds the number of the pass it is in.
pub open spec fn counter_name() -> Seq<char> {
    seq!['r', 'e', 'p', 'c', 'o', 'u', 'n', 't']
}

/// The text with a `:` put before every occurrence of the counter's name,
/// read from the left, so that the token reader takes the name for a
/// variable.
pub open spec fn marked(text: Seq<char>) -> Seq<char>
    decreases text.len(),
{
    if text.len() == 0 {
        text
    } else if counter_name().is_prefix_of(text) {
        seq![':'] + counter_name() + marked(text.skip(8))
    } else {
        seq![text[0]] + marked(text.skip(1))
    }
}

/// Whether the counter's name stands in `text` at position `at`.
fn counter_at(text: &Vec<char>, at: usize) -> (found: bool)
    requires
        at <= text.len(),
    ensures
        found == counter_name().is_prefix_of(text@.skip(at as int)),
{
    if text.len() - at < 8 {
        return false;
    }
    let found = text[at] == 'r' && text[at + 1] == 'e' && text[at + 2] == 'p' && text[at + 3]
        == 'c' && text[at + 4] == 'o' && text[at + 5] == 'u' && text[at + 6] == 'n' && text[at
        + 7] == 't';
    proof {
        let rest = text@.skip(at as int);
        let name = counter_name();
        if found {
            assert(rest.subrange(0, 8) =~= name);
        } else {
            if name.is_prefix_of(rest) {
                assert(rest.subrange(0, name.len() as int) == name);
                assert(rest[0] == name[0]);
                assert(rest[1] == name[1]);
                assert(rest[2] == name[2]);
                assert(rest[3] == name[3]);
                assert(rest[4] == name[4]);
                assert(rest[5] == name[5]);
                assert(rest[6] == name[6]);
                assert(rest[7] == name[7]);
            }
        }
    }
    found
}

/// Puts a `:` before every occurrence of the counter's name.
pub fn mark_counter(text: &Vec<char>) -> (out: Vec<char>)
    ensures
        out@ == marked(text@),
{
    let mut out: Vec<char> = Vec::new();
    let mut i: usize = 0;
    assert(text@.skip(0) =~= text@);
    assert(out@ + marked(text@) =~= marked(text@));
    while i < text.len()
        invariant
            i <= text.len(),
            out@ + marked(text@.skip(i as int)) == marked(text@),
        decreases text.len() - i,
    {
        let ghost rest = text@.skip(i as int);
        let ghost before = out@;
        if counter_at(text, i) {
            out.push(':');
            let mut k: usize = 0;
            while k < 8
                invariant
                    k <= 8,
                    i + 8 <= text.len(),
                    out@ == before + seq![':'] + text@.subrange(i as int, i + k),
                decreases 8 - k,
            {
                out.push(text[i + k]);
                k = k + 1;
                assert(out@ =~= before + seq![':'] + text@.subrange(i as int, i + k));
            }
            proof {
                assert(rest.subrange(0, 8) == counter_name());
                assert(text@.subrange(i as int, i + 8) =~= rest.subrange(0, 8));
                assert(rest.skip(8) =~= text@.skip(i + 8));
                assert(out@ + marked(text@.skip(i + 8)) =~= before + (seq![':'] + counter_name()
                    + marked(rest.skip(8))));
            }
            i = i + 8;
        } else {
            out.push(text[i]);
            proof {
                assert(rest.skip(1) =~= text@.skip(i + 1));
                assert(out@ + marked(text@.skip(i + 1)) =~= before + (seq![rest[0]] + marked(
                    rest.skip(1),
                )));
            }
            i = i + 1;
        }
    }
    assert(out@ + marked(text@.skip(i as int)) =~= out@);
    out
}

} // verus!
