//! The character-escaping passes that make text safe inside roff lines.
use vstd::prelude::*;
use crate::text::{is_ws, is_space_char, chars_of, string_of};

verus! {

/// The escape of one character: backslash, period, apostrophe and hyphen.
pub open spec fn base_escape(c: char) -> Seq<char> {
    if c == '\\' {
        seq!['\\', 'e']
    } else if c == '.' {
        seq!['\\', '.']
    } else if c == '\'' {
        seq!['\\', '\'']
    } else if c == '-' {
        seq!['\\', '-']
    } else {
        seq![c]
    }
}

/// The escape of one character in inline code: white space becomes a space.
pub open spec fn code_escape(c: char) -> Seq<char> {
    if is_ws(c) {
        seq![' ']
    } else {
        base_escape(c)
    }
}

/// The escape of one character in text: a newline becomes a space.
pub open spec fn line_escape(c: char) -> Seq<char> {
    if c == '\n' {
        seq![' ']
    } else {
        base_escape(c)
    }
}

/// The minimal sanitizer: each character through [`base_escape`].
pub open spec fn base_sanitize(s: Seq<char>) -> Seq<char>
    decreases s.len(),
{
    if s.len() == 0 {
        Seq::empty()
    } else {
        base_sanitize(s.drop_last()) + base_escape(s.last())
    }
}

/// The code-span sanitizer: each character through [`code_escape`].
pub open spec fn code_sanitize(s: Seq<char>) -> Seq<char>
    decreases s.len(),
{
    if s.len() == 0 {
        Seq::empty()
    } else {
        code_sanitize(s.drop_last()) + code_escape(s.last())
    }
}

/// The subsection-heading sanitizer: the minimal escape with newlines as spaces.
pub open spec fn heading_sanitize(s: Seq<char>) -> Seq<char>
    decreases s.len(),
{
    if s.len() == 0 {
        Seq::empty()
    } else {
        heading_sanitize(s.drop_last()) + line_escape(s.last())
    }
}

/// The first pass of the text sanitizer, with whether the last character read
/// was white space: each run of white space becomes one space.
pub open spec fn collapse_state(s: Seq<char>) -> (Seq<char>, bool)
    decreases s.len(),
{
    if s.len() == 0 {
        (Seq::empty(), false)
    } else {
        let (out, last_space) = collapse_state(s.drop_last());
        let c = s.last();
        if is_ws(c) {
            if last_space {
                (out, true)
            } else {
                (out + seq![' '], true)
            }
        } else {
            (out + base_escape(c), false)
        }
    }
}

pub open spec fn collapse(s: Seq<char>) -> Seq<char> {
    collapse_state(s).0
}

pub open spec fn italic(t: Seq<char>) -> Seq<char> {
    seq!['\\', 'f', 'I'] + t + seq!['\\', 'f', 'R']
}

pub open spec fn bold(t: Seq<char>) -> Seq<char> {
    seq!['\\', 'f', 'B'] + t + seq!['\\', 'f', 'R']
}

/// The angle-bracket pass after reading `s`: the text emitted, the text held
/// since the last `<`, and whether a `<` is open.
pub open spec fn angle_state(s: Seq<char>) -> (Seq<char>, Seq<char>, bool)
    decreases s.len(),
{
    if s.len() == 0 {
        (Seq::empty(), Seq::empty(), false)
    } else {
        let (out, buf, inside) = angle_state(s.drop_last());
        let c = s.last();
        if c == '<' {
            if inside {
                (out + seq!['<'] + buf, Seq::empty(), true)
            } else {
                (out, Seq::empty(), true)
            }
        } else if c == '>' && inside {
            (out + italic(buf), Seq::empty(), false)
        } else if inside {
            (out, buf.push(c), true)
        } else {
            (out.push(c), buf, false)
        }
    }
}

/// `<...>` spans become italic; an unclosed `<` is emitted as read.
pub open spec fn angle(s: Seq<char>) -> Seq<char> {
    let (out, buf, inside) = angle_state(s);
    if inside {
        out + seq!['<'] + buf
    } else {
        out
    }
}

/// The general text sanitizer.
pub open spec fn sanitize_spec(s: Seq<char>) -> Seq<char> {
    angle(collapse(s))
}

pub fn push_base_escape(out: &mut Vec<char>, c: char)
    ensures
        final(out)@ == old(out)@ + base_escape(c),
{
    if c == '\\' {
        out.push('\\');
        out.push('e');
    } else if c == '.' {
        out.push('\\');
        out.push('.');
    } else if c == '\'' {
        out.push('\\');
        out.push('\'');
    } else if c == '-' {
        out.push('\\');
        out.push('-');
    } else {
        out.push(c);
    }
    assert(out@ =~= old(out)@ + base_escape(c));
}

pub fn base_sanitize_chars(s: &Vec<char>) -> (r: Vec<char>)
    ensures
        r@ == base_sanitize(s@),
{
    let mut out: Vec<char> = Vec::new();
    let mut i: usize = 0;
    while i < s.len()
        invariant
            i <= s.len(),
            out@ == base_sanitize(s@.take(i as int)),
        decreases s.len() - i,
    {
        push_base_escape(&mut out, s[i]);
        assert(s@.take(i + 1).drop_last() =~= s@.take(i as int));
        i = i + 1;
    }
    assert(s@.take(i as int) =~= s@);
    out
}

pub fn code_sanitize_chars(s: &Vec<char>) -> (r: Vec<char>)
    ensures
        r@ == code_sanitize(s@),
{
    let mut out: Vec<char> = Vec::new();
    let mut i: usize = 0;
    while i < s.len()
        invariant
            i <= s.len(),
            out@ == code_sanitize(s@.take(i as int)),
        decreases s.len() - i,
    {
        let c = s[i];
        if is_space_char(c) {
            out.push(' ');
        } else {
            push_base_escape(&mut out, c);
        }
        assert(s@.take(i + 1).drop_last() =~= s@.take(i as int));
        i = i + 1;
    }
    assert(s@.take(i as int) =~= s@);
    out
}

pub fn heading_sanitize_chars(s: &Vec<char>) -> (r: Vec<char>)
    ensures
        r@ == heading_sanitize(s@),
{
    let mut out: Vec<char> = Vec::new();
    let mut i: usize = 0;
    while i < s.len()
        invariant
            i <= s.len(),
            out@ == heading_sanitize(s@.take(i as int)),
        decreases s.len() - i,
    {
        let c = s[i];
        if c == '\n' {
            out.push(' ');
        } else {
            push_base_escape(&mut out, c);
        }
        assert(s@.take(i + 1).drop_last() =~= s@.take(i as int));
        i = i + 1;
    }
    assert(s@.take(i as int) =~= s@);
    out
}

pub fn collapse_chars(s: &Vec<char>) -> (r: Vec<char>)
    ensures
        r@ == collapse(s@),
{
    let mut out: Vec<char> = Vec::new();
    let mut last_space = false;
    let mut i: usize = 0;
    while i < s.len()
        invariant
            i <= s.len(),
            (out@, last_space) == collapse_state(s@.take(i as int)),
        decreases s.len() - i,
    {
        let c = s[i];
        assert(s@.take(i + 1).drop_last() =~= s@.take(i as int));
        if is_space_char(c) {
            if !last_space {
                out.push(' ');
                last_space = true;
            }
        } else {
            push_base_escape(&mut out, c);
            last_space = false;
        }
        i = i + 1;
    }
    assert(s@.take(i as int) =~= s@);
    out
}

pub fn angle_chars(s: &Vec<char>) -> (r: Vec<char>)
    ensures
        r@ == angle(s@),
{
    let mut out: Vec<char> = Vec::new();
    let mut buf: Vec<char> = Vec::new();
    let mut inside = false;
    let mut i: usize = 0;
    while i < s.len()
        invariant
            i <= s.len(),
            (out@, buf@, inside) == angle_state(s@.take(i as int)),
        decreases s.len() - i,
    {
        let c = s[i];
        assert(s@.take(i + 1).drop_last() =~= s@.take(i as int));
        if c == '<' {
            if inside {
                out.push('<');
                crate::text::extend(&mut out, &buf);
            }
            buf = Vec::new();
            inside = true;
        } else if c == '>' && inside {
            out.push('\\');
            out.push('f');
            out.push('I');
            crate::text::extend(&mut out, &buf);
            out.push('\\');
            out.push('f');
            out.push('R');
            buf = Vec::new();
            inside = false;
        } else if inside {
            buf.push(c);
        } else {
            out.push(c);
        }
        i = i + 1;
    }
    assert(s@.take(i as int) =~= s@);
    if inside {
        out.push('<');
        crate::text::extend(&mut out, &buf);
    }
    out
}

pub fn sanitize_chars(s: &Vec<char>) -> (r: Vec<char>)
    ensures
        r@ == sanitize_spec(s@),
{
    let collapsed = collapse_chars(s);
    angle_chars(&collapsed)
}

/// The general text sanitizer: escapes, collapses white space, and turns
/// `<...>` spans into italics.
pub fn sanitize(text: &str) -> (r: String)
    ensures
        r@ == sanitize_spec(text@),
{
    let cs = chars_of(text);
    let out = sanitize_chars(&cs);
    string_of(&out)
}

} // verus!
