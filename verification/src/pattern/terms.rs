//! Turning the body of one term into the text of an expression or into the
//! bytes of an anchor.

use crate::pattern::text::push_char;
use vstd::prelude::*;
use vstd::string::StringExecFns;

verus! {

/// Characters that carry a meaning in an expression and therefore need a
/// backslash in front to stand for themselves.
pub open spec fn is_meta_character(c: char) -> bool {
    c == '\\' || c == '.' || c == '+' || c == '*' || c == '?' || c == '(' || c == ')' || c == '|'
        || c == '[' || c == ']' || c == '{' || c == '}' || c == '^' || c == '$' || c == '#' || c
        == '&' || c == '-' || c == '~'
}

/// One character as a literal inside an expression.
pub open spec fn escaped(c: char) -> Seq<char> {
    if is_meta_character(c) {
        seq!['\\', c]
    } else {
        seq![c]
    }
}

/// Calls `regex::escape` on the one-character string `c`. That function copies
/// its input and puts a backslash before each meta character.
#[verifier::external_body]
pub(crate) fn escape_char(c: char) -> (literal: String)
    ensures
        literal@ == escaped(c),
{
    regex::escape(&c.to_string())
}

/// What follows every character of a fuzzy term: anything but a separator.
pub open spec fn gap() -> Seq<char> {
    seq!['[', '^', '/', ']', '*']
}

/// What a separator in a fuzzy term becomes: the separator, then anything.
pub open spec fn descend() -> Seq<char> {
    seq!['/', '.', '*']
}

/// The character a term holds at this place: after a backslash, `s` stands for
/// a space.
pub open spec fn unescaped(esc: bool, c: char) -> char {
    if esc && c == 's' {
        ' '
    } else {
        c
    }
}

/// Whether `c`, read in escape state `esc`, is a backslash that opens an
/// escape and so yields nothing by itself.
pub open spec fn opens_escape(esc: bool, c: char) -> bool {
    !esc && c == '\\'
}

/// One more character of a fuzzy term: the escape state after it, and what it
/// adds to the expression.
pub open spec fn fuzzy_step(esc: bool, c: char) -> (bool, Seq<char>) {
    if opens_escape(esc, c) {
        (true, Seq::<char>::empty())
    } else if unescaped(esc, c) == '/' {
        (false, descend())
    } else {
        (false, escaped(unescaped(esc, c)) + gap())
    }
}

/// The expression for a fuzzy term: every character followed by a gap, every
/// separator by anything. The first component is the escape state left over.
pub open spec fn fuzzy(esc: bool, text: Seq<char>) -> (bool, Seq<char>)
    decreases text.len(),
{
    if text.len() == 0 {
        (esc, Seq::<char>::empty())
    } else {
        let before = fuzzy(esc, text.drop_last());
        let step = fuzzy_step(before.0, text.last());
        (step.0, before.1 + step.1)
    }
}

/// The expression for the body of a regex term. A trailing backslash is held
/// back as escape state; a backslash held back earlier is put in front.
pub open spec fn verbatim(esc: bool, text: Seq<char>) -> (bool, Seq<char>) {
    let dangling = text.len() > 0 && text.last() == '\\';
    let body = if dangling {
        text.drop_last()
    } else {
        text
    };
    (
        dangling,
        if esc {
            seq!['\\'] + body
        } else {
            body
        },
    )
}

/// One more character of an anchor: the escape state after it, and the
/// characters it adds.
pub open spec fn literal_step(esc: bool, c: char) -> (bool, Seq<char>) {
    if opens_escape(esc, c) {
        (true, Seq::<char>::empty())
    } else {
        (false, seq![unescaped(esc, c)])
    }
}

/// The characters an anchor body stands for, with the escape state left over.
pub open spec fn literal(esc: bool, text: Seq<char>) -> (bool, Seq<char>)
    decreases text.len(),
{
    if text.len() == 0 {
        (esc, Seq::<char>::empty())
    } else {
        let before = literal(esc, text.drop_last());
        let step = literal_step(before.0, text.last());
        (step.0, before.1 + step.1)
    }
}

/// Builds the expression of a fuzzy term.
pub fn fuzzy_build(esc: bool, text: &[char]) -> (built: (bool, String))
    ensures
        built.0 == fuzzy(esc, text@).0,
        built.1@ == fuzzy(esc, text@).1,
{
    let mut state = esc;
    let mut out = String::new();
    let mut i: usize = 0;
    while i < text.len()
        invariant
            i <= text.len(),
            state == fuzzy(esc, text@.take(i as int)).0,
            out@ == fuzzy(esc, text@.take(i as int)).1,
        decreases text.len() - i,
    {
        let c = text[i];
        proof {
            assert(text@.take(i + 1).drop_last() =~= text@.take(i as int));
            assert(text@.take(i + 1).last() == c);
        }
        if state || c != '\\' {
            let plain = if state && c == 's' {
                ' '
            } else {
                c
            };
            state = false;
            if plain == '/' {
                proof {
                    reveal_strlit("/.*");
                    assert("/.*"@ =~= descend());
                }
                out.append("/.*");
            } else {
                let one = escape_char(plain);
                out.append(one.as_str());
                proof {
                    reveal_strlit("[^/]*");
                    assert("[^/]*"@ =~= gap());
                }
                out.append("[^/]*");
            }
        } else {
            state = true;
        }
        i += 1;
    }
    assert(text@.take(text.len() as int) =~= text@);
    (state, out)
}

/// Builds the expression of a regex term from its body.
pub fn regex_build(esc: bool, text: &[char]) -> (built: (bool, String))
    ensures
        built.0 == verbatim(esc, text@).0,
        built.1@ == verbatim(esc, text@).1,
{
    let n: usize = text.len();
    let dangling = n > 0 && text[n - 1] == '\\';
    let end: usize = if dangling {
        n - 1
    } else {
        n
    };
    let mut out = String::new();
    if esc {
        push_char(&mut out, '\\');
    }
    let ghost head = out@;
    let mut i: usize = 0;
    while i < end
        invariant
            i <= end <= text.len(),
            out@ == head + text@.take(i as int),
        decreases end - i,
    {
        push_char(&mut out, text[i]);
        assert(text@.take(i + 1) =~= text@.take(i as int).push(text@[i as int]));
        i += 1;
    }
    proof {
        if dangling {
            assert(text@.take(end as int) =~= text@.drop_last());
        } else {
            assert(text@.take(end as int) =~= text@);
        }
        if !esc {
            assert(head + text@.take(end as int) =~= text@.take(end as int));
        }
    }
    (dangling, out)
}

/// Reads the body of an anchor: the bytes it stands for, in UTF-8, and the
/// escape state left over.
pub fn unescape(esc: bool, text: &[char]) -> (read: (bool, Vec<u8>))
    ensures
        read.0 == literal(esc, text@).0,
        read.1@ == vstd::utf8::encode_utf8(literal(esc, text@).1),
{
    let mut state = esc;
    let mut out = String::new();
    let mut i: usize = 0;
    while i < text.len()
        invariant
            i <= text.len(),
            state == literal(esc, text@.take(i as int)).0,
            out@ == literal(esc, text@.take(i as int)).1,
        decreases text.len() - i,
    {
        let c = text[i];
        proof {
            assert(text@.take(i + 1).drop_last() =~= text@.take(i as int));
            assert(text@.take(i + 1).last() == c);
        }
        if state || c != '\\' {
            let plain = if state && c == 's' {
                ' '
            } else {
                c
            };
            state = false;
            push_char(&mut out, plain);
        } else {
            state = true;
        }
        i += 1;
    }
    assert(text@.take(text.len() as int) =~= text@);
    let bytes = vstd::slice::slice_to_vec(out.as_str().as_bytes());
    (state, bytes)
}

} // verus!
