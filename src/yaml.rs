//! The YAML-to-Markdown transformer: a generic YAML node tree following the
//! manual schema becomes Markdown text.
use vstd::prelude::*;
use crate::error::MandateError;
use crate::text::{chars_of, extend, extend_str, is_space_char, is_ws, join, split_on, string_of};

verus! {

/// A generic YAML node. A mapping holds its entries in document order, with
/// distinct keys.
#[derive(Debug)]
pub enum YamlNode {
    Real(String),
    Integer(i64),
    Str(String),
    Boolean(bool),
    Array(Vec<YamlNode>),
    Hash(Vec<(YamlNode, YamlNode)>),
    Alias(usize),
    Null,
    BadValue,
}

// ----- numbers -----

pub open spec fn digit(d: nat) -> char {
    if d == 0 {
        '0'
    } else if d == 1 {
        '1'
    } else if d == 2 {
        '2'
    } else if d == 3 {
        '3'
    } else if d == 4 {
        '4'
    } else if d == 5 {
        '5'
    } else if d == 6 {
        '6'
    } else if d == 7 {
        '7'
    } else if d == 8 {
        '8'
    } else {
        '9'
    }
}

/// The decimal digits of `n`, most significant first.
pub open spec fn digits(n: nat) -> Seq<char>
    decreases n,
{
    if n < 10 {
        seq![digit(n)]
    } else {
        digits(n / 10).push(digit(n % 10))
    }
}

/// An integer in decimal, with a minus sign when negative.
pub open spec fn decimal(i: int) -> Seq<char> {
    if i < 0 {
        seq!['-'] + digits((-i) as nat)
    } else {
        digits(i as nat)
    }
}

fn digit_char(d: u64) -> (r: char)
    requires
        d < 10,
    ensures
        r == digit(d as nat),
{
    if d == 0 {
        '0'
    } else if d == 1 {
        '1'
    } else if d == 2 {
        '2'
    } else if d == 3 {
        '3'
    } else if d == 4 {
        '4'
    } else if d == 5 {
        '5'
    } else if d == 6 {
        '6'
    } else if d == 7 {
        '7'
    } else if d == 8 {
        '8'
    } else {
        '9'
    }
}

fn digits_of(n: u64) -> (r: Vec<char>)
    ensures
        r@ == digits(n as nat),
    decreases n,
{
    if n < 10 {
        let mut r: Vec<char> = Vec::new();
        r.push(digit_char(n));
        assert(r@ =~= seq![digit(n as nat)]);
        r
    } else {
        let mut r = digits_of(n / 10);
        r.push(digit_char(n % 10));
        r
    }
}

fn decimal_of(i: i64) -> (r: Vec<char>)
    ensures
        r@ == decimal(i as int),
{
    if i < 0 {
        let magnitude: u64 = if i == i64::MIN {
            9223372036854775808u64
        } else {
            (-i) as u64
        };
        let mut r: Vec<char> = Vec::new();
        r.push('-');
        let d = digits_of(magnitude);
        extend(&mut r, &d);
        assert(r@ =~= seq!['-'] + digits((-i) as nat));
        r
    } else {
        digits_of(i as u64)
    }
}

// ----- stringification -----

/// The name of a node's kind, as shape errors report it.
pub open spec fn kind_name(n: YamlNode) -> Seq<char> {
    match n {
        YamlNode::Null => "null"@,
        YamlNode::Boolean(_) => "bool"@,
        YamlNode::Integer(_) => "int"@,
        YamlNode::Real(_) => "float"@,
        YamlNode::Str(_) => "string"@,
        YamlNode::Array(_) => "sequence"@,
        YamlNode::Hash(_) => "mapping"@,
        YamlNode::Alias(_) => "alias"@,
        YamlNode::BadValue => "bad"@,
    }
}

pub fn yaml_type_name(value: &YamlNode) -> (r: &'static str)
    ensures
        r@ == kind_name(*value),
{
    match value {
        YamlNode::Null => "null",
        YamlNode::Boolean(_) => "bool",
        YamlNode::Integer(_) => "int",
        YamlNode::Real(_) => "float",
        YamlNode::Str(_) => "string",
        YamlNode::Array(_) => "sequence",
        YamlNode::Hash(_) => "mapping",
        YamlNode::Alias(_) => "alias",
        YamlNode::BadValue => "bad",
    }
}

/// A node as text: scalars as written, sequences bracketed and mappings
/// braced, items joined by ", ".
pub open spec fn value_text(n: YamlNode) -> Seq<char>
    decreases n,
{
    match n {
        YamlNode::Null => "null"@,
        YamlNode::Boolean(b) => if b {
            "true"@
        } else {
            "false"@
        },
        YamlNode::Integer(i) => decimal(i as int),
        YamlNode::Real(s) => s@,
        YamlNode::Str(s) => s@,
        YamlNode::Array(v) => "["@ + join(seq_parts(v), ", "@) + "]"@,
        YamlNode::Hash(m) => "{"@ + join(map_parts(m), ", "@) + "}"@,
        YamlNode::Alias(a) => "*"@ + decimal(a as int),
        YamlNode::BadValue => "!!badvalue"@,
    }
}

/// Appends `part`, after ", " unless it is the first of `k` parts.
fn push_joined(out: &mut Vec<char>, part: &Vec<char>, k: usize, Ghost(parts): Ghost<Seq<Seq<char>>>)
    requires
        parts.len() == k + 1,
        parts[k as int] == part@,
        old(out)@.len() >= 1,
        old(out)@.drop_first() == join(parts.take(k as int), ", "@),
    ensures
        final(out)@[0] == old(out)@[0],
        final(out)@.drop_first() == join(parts, ", "@),
        final(out)@.len() >= 1,
{
    let ghost before = out@;
    if k > 0 {
        extend_str(out, ", ");
    } else {
        assert(parts.take(0) =~= Seq::empty());
        assert(before.drop_first().len() == 0);
    }
    extend(out, part);
    assert(parts.take(k + 1) =~= parts);
    assert(parts.take(k + 1).drop_last() =~= parts.take(k as int));
    assert(out@.drop_first() =~= join(parts, ", "@)) by {
        if k > 0 {
            assert(out@.drop_first() =~= before.drop_first() + ", "@ + part@);
        } else {
            assert(out@.drop_first() =~= part@);
        }
    }
}

pub fn yaml_value_to_string(value: &YamlNode) -> (r: String)
    ensures
        r@ == value_text(*value),
{
    string_of(&value_chars(value))
}

/// The items of a sequence, each through [`value_text`].
pub open spec fn seq_parts(v: Vec<YamlNode>) -> Seq<Seq<char>>
    decreases v,
{
    Seq::new(
        v.len() as nat,
        |k: int|
            if 0 <= k < v.len() {
                value_text(v[k])
            } else {
                Seq::empty()
            },
    )
}

/// The entries of a mapping, each as `key: value`.
pub open spec fn map_parts(m: Vec<(YamlNode, YamlNode)>) -> Seq<Seq<char>>
    decreases m,
{
    Seq::new(
        m.len() as nat,
        |k: int|
            if 0 <= k < m.len() {
                value_text(m[k].0) + ": "@ + value_text(m[k].1)
            } else {
                Seq::empty()
            },
    )
}

fn value_chars(value: &YamlNode) -> (r: Vec<char>)
    ensures
        r@ == value_text(*value),
    decreases value, 1nat,
{
    match value {
        YamlNode::Null => chars_of("null"),
        YamlNode::Boolean(b) => if *b {
            chars_of("true")
        } else {
            chars_of("false")
        },
        YamlNode::Integer(i) => decimal_of(*i),
        YamlNode::Real(s) => chars_of(s.as_str()),
        YamlNode::Str(s) => chars_of(s.as_str()),
        YamlNode::Array(v) => {
            let mut out = chars_of("[");
            let inner = seq_chars(v);
            extend(&mut out, &inner);
            extend_str(&mut out, "]");
            out
        },
        YamlNode::Hash(m) => {
            let mut out = chars_of("{");
            let inner = map_chars(m);
            extend(&mut out, &inner);
            extend_str(&mut out, "}");
            out
        },
        YamlNode::Alias(a) => {
            let mut out = chars_of("*");
            let d = digits_of(*a as u64);
            extend(&mut out, &d);
            out
        },
        YamlNode::BadValue => chars_of("!!badvalue"),
    }
}

fn seq_chars(v: &Vec<YamlNode>) -> (r: Vec<char>)
    ensures
        r@ == join(seq_parts(*v), ", "@),
    decreases v, 0nat,
{
    let ghost parts = seq_parts(*v);
    let mut out: Vec<char> = Vec::new();
    out.push('[');
    assert(parts.take(0) =~= Seq::empty());
    let mut k: usize = 0;
    while k < v.len()
        invariant
            k <= v.len(),
            parts.len() == v.len(),
            forall|j: int| 0 <= j < v.len() ==> parts[j] == value_text(#[trigger] v[j]),
            out@.len() >= 1,
            out@.drop_first() == join(parts.take(k as int), ", "@),
        decreases v.len() - k,
    {
        let part = value_chars(&v[k]);
        assert(parts.take(k + 1).take(k as int) =~= parts.take(k as int));
        push_joined(&mut out, &part, k, Ghost(parts.take(k + 1)));
        k = k + 1;
    }
    assert(parts.take(k as int) =~= parts);
    crate::text::slice_chars(&out, 1, out.len())
}

fn map_chars(m: &Vec<(YamlNode, YamlNode)>) -> (r: Vec<char>)
    ensures
        r@ == join(map_parts(*m), ", "@),
    decreases m, 0nat,
{
    let ghost parts = map_parts(*m);
    let mut out: Vec<char> = Vec::new();
    out.push('{');
    assert(parts.take(0) =~= Seq::empty());
    let mut k: usize = 0;
    while k < m.len()
        invariant
            k <= m.len(),
            parts.len() == m.len(),
            forall|j: int|
                0 <= j < m.len() ==> parts[j] == value_text((#[trigger] m[j]).0) + ": "@
                    + value_text(m[j].1),
            out@.len() >= 1,
            out@.drop_first() == join(parts.take(k as int), ", "@),
        decreases m.len() - k,
    {
        let mut part = value_chars(&m[k].0);
        extend_str(&mut part, ": ");
        let right = value_chars(&m[k].1);
        extend(&mut part, &right);
        assert(part@ == parts[k as int]);
        assert(parts.take(k + 1).take(k as int) =~= parts.take(k as int));
        push_joined(&mut out, &part, k, Ghost(parts.take(k + 1)));
        k = k + 1;
    }
    assert(parts.take(k as int) =~= parts);
    crate::text::slice_chars(&out, 1, out.len())
}

// ----- mappings -----

/// The value of the first entry from `i` on whose key is the string `key`.
pub open spec fn find_key(m: Seq<(YamlNode, YamlNode)>, key: Seq<char>, i: int) -> Option<YamlNode>
    decreases m.len() - i,
{
    if i < 0 || i >= m.len() {
        None
    } else if m[i].0 matches YamlNode::Str(k) && k@ == key {
        Some(m[i].1)
    } else {
        find_key(m, key, i + 1)
    }
}

/// The value under the string key `key`.
pub open spec fn lookup(m: Seq<(YamlNode, YamlNode)>, key: Seq<char>) -> Option<YamlNode> {
    find_key(m, key, 0)
}

/// The message of a shape error: a field of the wrong kind.
pub open spec fn field_error(expected: Seq<char>, key: Seq<char>, found: YamlNode) -> Seq<char> {
    "expected "@ + expected + " for key '"@ + key + "', found "@ + kind_name(found)
}

/// The message of a shape error: a node that should be a mapping.
pub open spec fn mapping_error(context: Seq<char>) -> Seq<char> {
    "expected mapping for "@ + context
}

/// A string field: absent or null is `None`; anything but a string is a
/// shape error, with its message.
pub open spec fn get_string(m: Seq<(YamlNode, YamlNode)>, key: Seq<char>) -> Result<
    Option<Seq<char>>,
    Seq<char>,
> {
    match lookup(m, key) {
        None => Ok(None),
        Some(YamlNode::Null) => Ok(None),
        Some(YamlNode::Str(s)) => Ok(Some(s@)),
        Some(other) => Err(field_error("string"@, key, other)),
    }
}

/// A sequence field: absent or null is `None`; anything but a sequence is a
/// shape error, with its message.
pub open spec fn get_seq(m: Seq<(YamlNode, YamlNode)>, key: Seq<char>) -> Result<
    Option<Vec<YamlNode>>,
    Seq<char>,
> {
    match lookup(m, key) {
        None => Ok(None),
        Some(YamlNode::Null) => Ok(None),
        Some(YamlNode::Array(v)) => Ok(Some(v)),
        Some(other) => Err(field_error("sequence"@, key, other)),
    }
}

fn map_lookup<'a>(map: &'a Vec<(YamlNode, YamlNode)>, key: &str) -> (r: Option<&'a YamlNode>)
    ensures
        match lookup(map@, key@) {
            Some(n) => r matches Some(x) && *x == n,
            None => r is None,
        },
{
    let wanted = key.to_owned();
    let mut i: usize = 0;
    while i < map.len()
        invariant
            i <= map.len(),
            wanted@ == key@,
            lookup(map@, key@) == find_key(map@, key@, i as int),
        decreases map.len() - i,
    {
        match &map[i].0 {
            YamlNode::Str(k) => {
                if *k == wanted {
                    return Some(&map[i].1);
                }
            },
            _ => {},
        }
        i = i + 1;
    }
    None
}

fn shape_error(expected: &str, key: &str, found: &YamlNode) -> (r: MandateError)
    ensures
        r matches MandateError::Yaml(msg) && msg@ == field_error(expected@, key@, *found),
{
    let mut msg = "expected ".to_owned();
    msg.append(expected);
    msg.append(" for key '");
    msg.append(key);
    msg.append("', found ");
    msg.append(yaml_type_name(found));
    MandateError::Yaml(msg)
}

pub fn map_get_string(map: &Vec<(YamlNode, YamlNode)>, key: &str) -> (r: Result<
    Option<String>,
    MandateError,
>)
    ensures
        match get_string(map@, key@) {
            Ok(Some(s)) => r matches Ok(Some(x)) && x@ == s,
            Ok(None) => r matches Ok(None),
            Err(m) => r matches Err(MandateError::Yaml(msg)) && msg@ == m,
        },
{
    match map_lookup(map, key) {
        None => Ok(None),
        Some(YamlNode::Null) => Ok(None),
        Some(YamlNode::Str(value)) => Ok(Some(value.clone())),
        Some(other) => Err(shape_error("string", key, other)),
    }
}

pub fn map_get_sequence<'a>(map: &'a Vec<(YamlNode, YamlNode)>, key: &str) -> (r: Result<
    Option<&'a Vec<YamlNode>>,
    MandateError,
>)
    ensures
        match get_seq(map@, key@) {
            Ok(Some(v)) => r matches Ok(Some(x)) && *x == v,
            Ok(None) => r matches Ok(None),
            Err(m) => r matches Err(MandateError::Yaml(msg)) && msg@ == m,
        },
{
    match map_lookup(map, key) {
        None => Ok(None),
        Some(YamlNode::Null) => Ok(None),
        Some(YamlNode::Array(values)) => Ok(Some(values)),
        Some(other) => Err(shape_error("sequence", key, other)),
    }
}

pub fn ensure_mapping<'a>(value: &'a YamlNode, context: &str) -> (r: Result<
    &'a Vec<(YamlNode, YamlNode)>,
    MandateError,
>)
    ensures
        match *value {
            YamlNode::Hash(m) => r matches Ok(x) && *x == m,
            _ => r matches Err(MandateError::Yaml(msg)) && msg@ == mapping_error(context@),
        },
{
    match value {
        YamlNode::Hash(m) => Ok(m),
        _ => {
            let mut msg = "expected mapping for ".to_owned();
            msg.append(context);
            Err(MandateError::Yaml(msg))
        },
    }
}

// ----- body text -----

/// A line indented by exactly two spaces before a non-space character loses them.
pub open spec fn dedent_line(l: Seq<char>) -> Seq<char> {
    if l.len() >= 3 && l[0] == ' ' && l[1] == ' ' && !is_ws(l[2]) {
        l.skip(2)
    } else {
        l
    }
}

/// Body text with the two-space indentation of a YAML block scalar removed.
pub open spec fn dedent(s: Seq<char>) -> Seq<char> {
    join(split_on(s, '\n').map_values(|l: Seq<char>| dedent_line(l)), seq!['\n'])
}

fn dedent_line_chars(l: Vec<char>) -> (r: Vec<char>)
    ensures
        r@ == dedent_line(l@),
{
    if l.len() >= 3 && l[0] == ' ' && l[1] == ' ' && !is_space_char(l[2]) {
        let r = crate::text::slice_chars(&l, 2, l.len());
        assert(r@ =~= l@.skip(2));
        r
    } else {
        l
    }
}

spec fn dedented(ps: Seq<Seq<char>>) -> Seq<Seq<char>> {
    ps.map_values(|l: Seq<char>| dedent_line(l))
}

fn dedent_chars(s: &Vec<char>) -> (r: Vec<char>)
    ensures
        r@ == dedent(s@),
{
    let mut result: Vec<char> = Vec::new();
    let mut buf: Vec<char> = Vec::new();
    let mut count: usize = 0;
    let mut i: usize = 0;
    assert(s@.take(0) =~= Seq::empty());
    assert(dedented(split_on(Seq::empty(), '\n').drop_last()) =~= Seq::empty());
    while i < s.len()
        invariant
            i <= s.len(),
            count <= i,
            split_on(s@.take(i as int), '\n').len() == count + 1,
            buf@ == split_on(s@.take(i as int), '\n').last(),
            result@ == join(dedented(split_on(s@.take(i as int), '\n').drop_last()), seq!['\n']),
        decreases s.len() - i,
    {
        let ghost parts = split_on(s@.take(i as int), '\n');
        let ghost g = dedented(parts.drop_last());
        assert(s@.take(i + 1).drop_last() =~= s@.take(i as int));
        let c = s[i];
        if c == '\n' {
            let mut line: Vec<char> = Vec::new();
            std::mem::swap(&mut line, &mut buf);
            let line = dedent_line_chars(line);
            if count > 0 {
                result.push('\n');
            }
            extend(&mut result, &line);
            let ghost nparts = split_on(s@.take(i + 1), '\n');
            assert(nparts == parts.push(Seq::empty()));
            assert(nparts.drop_last() =~= parts);
            assert(parts =~= parts.drop_last().push(parts.last()));
            assert(dedented(nparts.drop_last()) =~= g.push(line@));
            assert(g.push(line@).drop_last() =~= g);
            assert(result@ =~= join(g.push(line@), seq!['\n']));
            count = count + 1;
        } else {
            buf.push(c);
            let ghost nparts = split_on(s@.take(i + 1), '\n');
            assert(nparts.drop_last() =~= parts.drop_last());
        }
        i = i + 1;
    }
    assert(s@.take(i as int) =~= s@);
    let ghost parts = split_on(s@, '\n');
    let ghost g = dedented(parts.drop_last());
    let last = dedent_line_chars(buf);
    if count > 0 {
        result.push('\n');
    }
    extend(&mut result, &last);
    assert(parts =~= parts.drop_last().push(parts.last()));
    assert(dedented(parts) =~= g.push(last@));
    assert(g.push(last@).drop_last() =~= g);
    assert(result@ =~= join(g.push(last@), seq!['\n']));
    result
}

/// Removes the two-space indentation of a YAML block scalar from each line.
pub fn dedent_body(body: &str) -> (r: String)
    ensures
        r@ == dedent(body@),
{
    string_of(&dedent_chars(&chars_of(body)))
}

// ----- the manual -----

/// What `str::to_uppercase` gives for a text.
pub uninterp spec fn upper_of(s: Seq<char>) -> Seq<char>;

/// Relies on `str::to_uppercase`: the upper-case mapping of a text depends on
/// its characters alone.
#[verifier::external_body]
fn uppercase(s: &str) -> (r: String)
    ensures
        r@ == upper_of(s@),
{
    s.to_uppercase()
}

pub open spec fn or_default(o: Option<Seq<char>>, d: Seq<char>) -> Seq<char> {
    match o {
        Some(s) => s,
        None => d,
    }
}

/// Concatenates results with `sep` between each two; the first shape error
/// met, in order, is the result's.
pub open spec fn cat(rs: Seq<Result<Seq<char>, Seq<char>>>, sep: Seq<char>) -> Result<
    Seq<char>,
    Seq<char>,
>
    decreases rs.len(),
{
    if rs.len() == 0 {
        Ok(Seq::empty())
    } else {
        match cat(rs.drop_last(), sep) {
            Err(m) => Err(m),
            Ok(a) => match rs.last() {
                Err(m) => Err(m),
                Ok(b) => Ok(
                    if rs.len() == 1 {
                        b
                    } else {
                        a + sep + b
                    },
                ),
            },
        }
    }
}

proof fn lemma_cat_stuck(rs: Seq<Result<Seq<char>, Seq<char>>>, sep: Seq<char>, i: int)
    requires
        0 <= i <= rs.len(),
        cat(rs.take(i), sep) is Err,
    ensures
        cat(rs, sep) == cat(rs.take(i), sep),
    decreases rs.len() - i,
{
    if i < rs.len() {
        assert(rs.take(i + 1).drop_last() =~= rs.take(i));
        lemma_cat_stuck(rs, sep, i + 1);
    } else {
        assert(rs.take(i) =~= rs);
    }
}

pub open spec fn outputs_text(o: Option<Vec<YamlNode>>) -> Seq<char> {
    match o {
        Some(v) => join(seq_parts(v), ", "@),
        None => Seq::empty(),
    }
}

/// One example: the program, the input, and the declared outputs; or the
/// first shape error, fields read in that order.
pub open spec fn example_md(ex: YamlNode) -> Result<Seq<char>, Seq<char>> {
    match ex {
        YamlNode::Hash(m) => match get_string(m@, "program"@) {
            Err(e) => Err(e),
            Ok(p) => match get_string(m@, "input"@) {
                Err(e) => Err(e),
                Ok(i) => match get_seq(m@, "output"@) {
                    Err(e) => Err(e),
                    Ok(o) => Ok(
                        "jq '"@ + or_default(p, Seq::empty()) + "'\n"@ + "   "@ + or_default(
                            i,
                            Seq::empty(),
                        ) + "\n"@ + "=> "@ + outputs_text(o) + "\n"@,
                    ),
                },
            },
        },
        _ => Err(mapping_error("example"@)),
    }
}

pub open spec fn examples_md(exs: Seq<YamlNode>) -> Result<Seq<char>, Seq<char>> {
    cat(exs.map_values(|e: YamlNode| example_md(e)), "\n"@)
}

/// One entry: a level-3 heading, its body, and its examples in a four-tilde
/// fence; or the first shape error.
pub open spec fn entry_md(e: YamlNode) -> Result<Seq<char>, Seq<char>> {
    match e {
        YamlNode::Hash(m) => match get_string(m@, "title"@) {
            Err(x) => Err(x),
            Ok(t) => match get_string(m@, "body"@) {
                Err(x) => Err(x),
                Ok(b) => match get_seq(m@, "examples"@) {
                    Err(x) => Err(x),
                    Ok(x) => {
                        let head = "### "@ + or_default(t, Seq::empty()) + "\n"@ + dedent(
                            or_default(b, "\n"@),
                        ) + "\n"@;
                        match x {
                            None => Ok(head),
                            Some(v) => match examples_md(v@) {
                                Ok(xs) => Ok(head + "~~~~\n"@ + xs + "~~~~\n"@),
                                Err(m2) => Err(m2),
                            },
                        }
                    },
                },
            },
        },
        _ => Err(mapping_error("entry"@)),
    }
}

pub open spec fn entries_md(es: Seq<YamlNode>) -> Result<Seq<char>, Seq<char>> {
    cat(es.map_values(|e: YamlNode| entry_md(e)), Seq::empty())
}

/// The rest of a section once its heading text is known: the level-2 heading,
/// the body, the entries; or the first shape error of the body and entries.
pub open spec fn section_with_heading(heading: Seq<char>, m: Seq<(YamlNode, YamlNode)>) -> Result<
    Seq<char>,
    Seq<char>,
> {
    match get_string(m, "body"@) {
        Err(x) => Err(x),
        Ok(b) => match get_seq(m, "entries"@) {
            Err(x) => Err(x),
            Ok(x) => {
                let head = "## "@ + heading + "\n"@ + dedent(or_default(b, "\n"@)) + "\n"@;
                match x {
                    None => Ok(head + "\n"@),
                    Some(v) => match entries_md(v@) {
                        Ok(es) => Ok(head + es + "\n"@),
                        Err(m2) => Err(m2),
                    },
                }
            },
        },
    }
}

/// One section: a level-2 heading with the title upper-cased, its body, its
/// entries; or the first shape error.
pub open spec fn section_md(sec: YamlNode) -> Result<Seq<char>, Seq<char>> {
    match sec {
        YamlNode::Hash(m) => match get_string(m@, "title"@) {
            Err(x) => Err(x),
            Ok(t) => section_with_heading(upper_of(or_default(t, Seq::empty())), m@),
        },
        _ => Err(mapping_error("sections item"@)),
    }
}

pub open spec fn sections_md(ss: Seq<YamlNode>) -> Result<Seq<char>, Seq<char>> {
    cat(ss.map_values(|s: YamlNode| section_md(s)), Seq::empty())
}

/// The Markdown of a manual: intro, body, sections, epilogue; or the first
/// shape error met, fields and sections read in that order.
pub open spec fn manual_md(root: YamlNode) -> Result<Seq<char>, Seq<char>> {
    match root {
        YamlNode::Hash(m) => match get_string(m@, "manpage_intro"@) {
            Err(x) => Err(x),
            Ok(intro) => match get_string(m@, "body"@) {
                Err(x) => Err(x),
                Ok(body) => match get_seq(m@, "sections"@) {
                    Err(x) => Err(x),
                    Ok(secs) => {
                        let head = or_default(intro, "\n"@) + dedent(or_default(body, "\n"@));
                        let mid = match secs {
                            None => Ok(Seq::empty()),
                            Some(v) => sections_md(v@),
                        };
                        match mid {
                            Err(x) => Err(x),
                            Ok(ss) => match get_string(m@, "manpage_epilogue"@) {
                                Err(x) => Err(x),
                                Ok(epilogue) => Ok(head + ss + or_default(epilogue, Seq::empty())),
                            },
                        }
                    },
                },
            },
        },
        _ => Err(mapping_error("manual root"@)),
    }
}

fn text_or(o: Option<String>, d: &str) -> (r: Vec<char>)
    ensures
        r@ == or_default(crate::document::opt_view(o), d@),
{
    match o {
        Some(s) => chars_of(s.as_str()),
        None => chars_of(d),
    }
}

fn example_chars(ex: &YamlNode) -> (r: Result<Vec<char>, MandateError>)
    ensures
        match example_md(*ex) {
            Ok(s) => r matches Ok(v) && v@ == s,
            Err(m) => r matches Err(MandateError::Yaml(msg)) && msg@ == m,
        },
{
    let m = match ensure_mapping(ex, "example") {
        Ok(m) => m,
        Err(e) => return Err(e),
    };
    let program = match map_get_string(m, "program") {
        Ok(p) => p,
        Err(e) => return Err(e),
    };
    let input = match map_get_string(m, "input") {
        Ok(i) => i,
        Err(e) => return Err(e),
    };
    let outputs = match map_get_sequence(m, "output") {
        Ok(o) => o,
        Err(e) => return Err(e),
    };
    let mut out = chars_of("jq '");
    extend(&mut out, &text_or(program, ""));
    extend_str(&mut out, "'\n");
    extend_str(&mut out, "   ");
    extend(&mut out, &text_or(input, ""));
    extend_str(&mut out, "\n");
    extend_str(&mut out, "=> ");
    match outputs {
        Some(v) => {
            let joined = seq_chars(v);
            extend(&mut out, &joined);
        },
        None => {
            proof {
                reveal_strlit("");
            }
        },
    }
    extend_str(&mut out, "\n");
    proof {
        reveal_strlit("");
    }
    Ok(out)
}

fn examples_chars(exs: &Vec<YamlNode>) -> (r: Result<Vec<char>, MandateError>)
    ensures
        match examples_md(exs@) {
            Ok(s) => r matches Ok(v) && v@ == s,
            Err(m) => r matches Err(MandateError::Yaml(msg)) && msg@ == m,
        },
{
    let ghost rs = exs@.map_values(|e: YamlNode| example_md(e));
    let mut out: Vec<char> = Vec::new();
    let mut i: usize = 0;
    assert(rs.take(0) =~= Seq::empty());
    proof {
        reveal_strlit("\n");
    }
    while i < exs.len()
        invariant
            i <= exs.len(),
            rs == exs@.map_values(|e: YamlNode| example_md(e)),
            cat(rs.take(i as int), "\n"@) == Ok::<Seq<char>, Seq<char>>(out@),
            "\n"@ == seq!['\n'],
        decreases exs.len() - i,
    {
        assert(rs.take(i + 1).drop_last() =~= rs.take(i as int));
        let ghost prev = out@;
        match example_chars(&exs[i]) {
            Ok(part) => {
                if i > 0 {
                    out.push('\n');
                }
                extend(&mut out, &part);
                assert(rs[i as int] == Ok::<Seq<char>, Seq<char>>(part@));
                assert(out@ =~= (if i == 0 {
                    part@
                } else {
                    prev + "\n"@ + part@
                }));
            },
            Err(e) => {
                proof {
                    lemma_cat_stuck(rs, "\n"@, i + 1);
                }
                return Err(e);
            },
        }
        i = i + 1;
    }
    assert(rs.take(i as int) =~= rs);
    Ok(out)
}

fn entry_chars(entry: &YamlNode) -> (r: Result<Vec<char>, MandateError>)
    ensures
        match entry_md(*entry) {
            Ok(s) => r matches Ok(v) && v@ == s,
            Err(m) => r matches Err(MandateError::Yaml(msg)) && msg@ == m,
        },
{
    let m = match ensure_mapping(entry, "entry") {
        Ok(m) => m,
        Err(e) => return Err(e),
    };
    let title = match map_get_string(m, "title") {
        Ok(t) => t,
        Err(e) => return Err(e),
    };
    let body = match map_get_string(m, "body") {
        Ok(b) => b,
        Err(e) => return Err(e),
    };
    let examples = match map_get_sequence(m, "examples") {
        Ok(x) => x,
        Err(e) => return Err(e),
    };
    let mut out = chars_of("### ");
    extend(&mut out, &text_or(title, ""));
    extend_str(&mut out, "\n");
    extend(&mut out, &dedent_chars(&text_or(body, "\n")));
    extend_str(&mut out, "\n");
    proof {
        reveal_strlit("");
    }
    match examples {
        Some(v) => {
            let xs = match examples_chars(v) {
                Ok(xs) => xs,
                Err(e) => return Err(e),
            };
            extend_str(&mut out, "~~~~\n");
            extend(&mut out, &xs);
            extend_str(&mut out, "~~~~\n");
        },
        None => {},
    }
    Ok(out)
}

fn entries_chars(es: &Vec<YamlNode>) -> (r: Result<Vec<char>, MandateError>)
    ensures
        match entries_md(es@) {
            Ok(s) => r matches Ok(v) && v@ == s,
            Err(m) => r matches Err(MandateError::Yaml(msg)) && msg@ == m,
        },
{
    let ghost rs = es@.map_values(|e: YamlNode| entry_md(e));
    let mut out: Vec<char> = Vec::new();
    let mut i: usize = 0;
    assert(rs.take(0) =~= Seq::empty());
    while i < es.len()
        invariant
            i <= es.len(),
            rs == es@.map_values(|e: YamlNode| entry_md(e)),
            cat(rs.take(i as int), Seq::empty()) == Ok::<Seq<char>, Seq<char>>(out@),
        decreases es.len() - i,
    {
        assert(rs.take(i + 1).drop_last() =~= rs.take(i as int));
        let ghost prev = out@;
        match entry_chars(&es[i]) {
            Ok(part) => {
                extend(&mut out, &part);
                assert(rs[i as int] == Ok::<Seq<char>, Seq<char>>(part@));
                assert(out@ =~= (if i == 0 {
                    part@
                } else {
                    prev + Seq::empty() + part@
                }));
            },
            Err(e) => {
                proof {
                    lemma_cat_stuck(rs, Seq::empty(), i + 1);
                }
                return Err(e);
            },
        }
        i = i + 1;
    }
    assert(rs.take(i as int) =~= rs);
    Ok(out)
}

fn section_chars(section: &YamlNode) -> (r: Result<Vec<char>, MandateError>)
    ensures
        match section_md(*section) {
            Ok(s) => r matches Ok(v) && v@ == s,
            Err(m) => r matches Err(MandateError::Yaml(msg)) && msg@ == m,
        },
{
    proof {
        reveal_strlit("");
    }
    let m = match ensure_mapping(section, "sections item") {
        Ok(m) => m,
        Err(e) => return Err(e),
    };
    let title = match map_get_string(m, "title") {
        Ok(t) => t,
        Err(e) => return Err(e),
    };
    let ghost t_spec = or_default(crate::document::opt_view(title), Seq::empty());
    let title = string_of(&text_or(title, ""));
    assert(title@ == t_spec);
    let upper = uppercase(title.as_str());
    section_rest_chars(upper.as_str(), m)
}

fn section_rest_chars(heading: &str, m: &Vec<(YamlNode, YamlNode)>) -> (r: Result<
    Vec<char>,
    MandateError,
>)
    ensures
        match section_with_heading(heading@, m@) {
            Ok(s) => r matches Ok(v) && v@ == s,
            Err(e) => r matches Err(MandateError::Yaml(msg)) && msg@ == e,
        },
{
    let body = match map_get_string(m, "body") {
        Ok(b) => b,
        Err(e) => return Err(e),
    };
    let entries = match map_get_sequence(m, "entries") {
        Ok(x) => x,
        Err(e) => return Err(e),
    };
    let ghost b_spec = or_default(crate::document::opt_view(body), "\n"@);
    let mut out = chars_of("## ");
    extend_str(&mut out, heading);
    extend_str(&mut out, "\n");
    extend(&mut out, &dedent_chars(&text_or(body, "\n")));
    extend_str(&mut out, "\n");
    assert(out@ == "## "@ + heading@ + "\n"@ + dedent(b_spec) + "\n"@);
    match entries {
        Some(v) => {
            let es = match entries_chars(v) {
                Ok(es) => es,
                Err(e) => return Err(e),
            };
            extend(&mut out, &es);
        },
        None => {},
    }
    extend_str(&mut out, "\n");
    Ok(out)
}

/// The Markdown of a section whose title has been upper-cased to `heading`:
/// the heading, the body and the entries, or the first shape error of the
/// body and entries.
pub fn section_markdown(heading: &str, section: &Vec<(YamlNode, YamlNode)>) -> (r: Result<
    String,
    MandateError,
>)
    ensures
        match section_with_heading(heading@, section@) {
            Ok(s) => r matches Ok(t) && t@ == s,
            Err(e) => r matches Err(MandateError::Yaml(msg)) && msg@ == e,
        },
{
    match section_rest_chars(heading, section) {
        Ok(v) => Ok(string_of(&v)),
        Err(e) => Err(e),
    }
}

fn sections_chars(ss: &Vec<YamlNode>) -> (r: Result<Vec<char>, MandateError>)
    ensures
        match sections_md(ss@) {
            Ok(s) => r matches Ok(v) && v@ == s,
            Err(m) => r matches Err(MandateError::Yaml(msg)) && msg@ == m,
        },
{
    let ghost rs = ss@.map_values(|s: YamlNode| section_md(s));
    let mut out: Vec<char> = Vec::new();
    let mut i: usize = 0;
    assert(rs.take(0) =~= Seq::empty());
    while i < ss.len()
        invariant
            i <= ss.len(),
            rs == ss@.map_values(|s: YamlNode| section_md(s)),
            cat(rs.take(i as int), Seq::empty()) == Ok::<Seq<char>, Seq<char>>(out@),
        decreases ss.len() - i,
    {
        assert(rs.take(i + 1).drop_last() =~= rs.take(i as int));
        let ghost prev = out@;
        match section_chars(&ss[i]) {
            Ok(part) => {
                extend(&mut out, &part);
                assert(rs[i as int] == Ok::<Seq<char>, Seq<char>>(part@));
                assert(out@ =~= (if i == 0 {
                    part@
                } else {
                    prev + Seq::empty() + part@
                }));
            },
            Err(e) => {
                proof {
                    lemma_cat_stuck(rs, Seq::empty(), i + 1);
                }
                return Err(e);
            },
        }
        i = i + 1;
    }
    assert(rs.take(i as int) =~= rs);
    Ok(out)
}

/// The Markdown text of a manual given as a YAML node tree.
pub fn manual_markdown(root: &YamlNode) -> (r: Result<String, MandateError>)
    ensures
        match manual_md(*root) {
            Ok(s) => r matches Ok(t) && t@ == s,
            Err(m) => r matches Err(MandateError::Yaml(msg)) && msg@ == m,
        },
{
    let m = match ensure_mapping(root, "manual root") {
        Ok(m) => m,
        Err(e) => return Err(e),
    };
    let intro = match map_get_string(m, "manpage_intro") {
        Ok(x) => x,
        Err(e) => return Err(e),
    };
    let body = match map_get_string(m, "body") {
        Ok(x) => x,
        Err(e) => return Err(e),
    };
    let sections = match map_get_sequence(m, "sections") {
        Ok(x) => x,
        Err(e) => return Err(e),
    };
    let mut out = text_or(intro, "\n");
    extend(&mut out, &dedent_chars(&text_or(body, "\n")));
    match sections {
        Some(v) => {
            let ss = match sections_chars(v) {
                Ok(ss) => ss,
                Err(e) => return Err(e),
            };
            extend(&mut out, &ss);
        },
        None => {},
    }
    let epilogue = match map_get_string(m, "manpage_epilogue") {
        Ok(x) => x,
        Err(e) => return Err(e),
    };
    extend(&mut out, &text_or(epilogue, ""));
    proof {
        reveal_strlit("");
    }
    Ok(string_of(&out))
}

// ----- loading -----

#[verifier::external_type_specification]
#[verifier::external_body]
pub struct ExYaml(yaml_rust::Yaml);

/// One level of a `yaml_rust` node: its kind and scalar, or its children.
pub enum YamlShape<'a> {
    Real(String),
    Integer(i64),
    Str(String),
    Boolean(bool),
    Array(Vec<&'a yaml_rust::Yaml>),
    Hash(Vec<(&'a yaml_rust::Yaml, &'a yaml_rust::Yaml)>),
    Alias(usize),
    Null,
    BadValue,
}

/// Relies on the variants of `yaml_rust::Yaml` and on iterating its mapping
/// type, which keeps insertion order: one level of a node.
#[verifier::external_body]
fn yaml_shape(y: &yaml_rust::Yaml) -> YamlShape<'_> {
    match y {
        yaml_rust::Yaml::Real(s) => YamlShape::Real(s.clone()),
        yaml_rust::Yaml::Integer(i) => YamlShape::Integer(*i),
        yaml_rust::Yaml::String(s) => YamlShape::Str(s.clone()),
        yaml_rust::Yaml::Boolean(b) => YamlShape::Boolean(*b),
        yaml_rust::Yaml::Array(v) => YamlShape::Array(v.iter().collect()),
        yaml_rust::Yaml::Hash(h) => YamlShape::Hash(h.iter().collect()),
        yaml_rust::Yaml::Alias(a) => YamlShape::Alias(*a),
        yaml_rust::Yaml::Null => YamlShape::Null,
        yaml_rust::Yaml::BadValue => YamlShape::BadValue,
    }
}

/// A `yaml_rust` node as a [`YamlNode`], down to `depth` levels; deeper
/// nodes read as bad values.
fn node_of(y: &yaml_rust::Yaml, depth: usize) -> YamlNode
    decreases depth,
{
    if depth == 0 {
        return YamlNode::BadValue;
    }
    match yaml_shape(y) {
        YamlShape::Real(s) => YamlNode::Real(s),
        YamlShape::Integer(i) => YamlNode::Integer(i),
        YamlShape::Str(s) => YamlNode::Str(s),
        YamlShape::Boolean(b) => YamlNode::Boolean(b),
        YamlShape::Array(items) => {
            let mut v: Vec<YamlNode> = Vec::new();
            let mut k: usize = 0;
            while k < items.len()
                invariant
                    k <= items.len(),
                    depth > 0,
                decreases items.len() - k,
            {
                v.push(node_of(items[k], depth - 1));
                k = k + 1;
            }
            YamlNode::Array(v)
        },
        YamlShape::Hash(entries) => {
            let mut v: Vec<(YamlNode, YamlNode)> = Vec::new();
            let mut k: usize = 0;
            while k < entries.len()
                invariant
                    k <= entries.len(),
                    depth > 0,
                decreases entries.len() - k,
            {
                let (key, value) = entries[k];
                let key = node_of(key, depth - 1);
                let value = node_of(value, depth - 1);
                v.push((key, value));
                k = k + 1;
            }
            YamlNode::Hash(v)
        },
        YamlShape::Alias(a) => YamlNode::Alias(a),
        YamlShape::Null => YamlNode::Null,
        YamlShape::BadValue => YamlNode::BadValue,
    }
}

/// A whole document as a [`YamlNode`]; a node tree held in memory is never
/// `usize::MAX` levels deep.
fn document_node(y: &yaml_rust::Yaml) -> YamlNode {
    node_of(y, usize::MAX)
}

/// The documents of a YAML text as `yaml_rust` loads them and
/// [`document_node`] converts them; where the text does not scan, the
/// scanner's error as its `Display` words it (its reason and position).
pub uninterp spec fn yaml_documents(text: Seq<char>) -> Result<Seq<YamlNode>, Seq<char>>;

/// Relies on `yaml_rust::YamlLoader::load_from_str`: the documents of a text,
/// or the scanner's error; both depend on the text alone.
#[verifier::external_body]
pub(crate) fn load_yaml(text: &str) -> (r: Result<Vec<YamlNode>, String>)
    ensures
        match r {
            Ok(docs) => yaml_documents(text@) == Ok::<Seq<YamlNode>, Seq<char>>(docs@),
            Err(m) => yaml_documents(text@) == Err::<Seq<YamlNode>, Seq<char>>(m@),
        },
{
    yaml_rust::YamlLoader::load_from_str(text)
        .map(|docs| docs.iter().map(document_node).collect())
        .map_err(|e| e.to_string())
}

/// The Markdown of a YAML text: its first document through [`manual_md`];
/// or the message of the first error: the scanner's, an empty text's, or a
/// shape error's.
pub open spec fn yaml_markdown(text: Seq<char>) -> Result<Seq<char>, Seq<char>> {
    match yaml_documents(text) {
        Ok(docs) => if docs.len() > 0 {
            manual_md(docs[0])
        } else {
            Err("empty yaml document"@)
        },
        Err(m) => Err(m),
    }
}

/// Converts a YAML manual description into Markdown.
pub fn convert_yaml_to_markdown(yaml: &str) -> (r: Result<String, MandateError>)
    ensures
        match yaml_markdown(yaml@) {
            Ok(s) => r matches Ok(t) && t@ == s,
            Err(m) => r matches Err(MandateError::Yaml(msg)) && msg@ == m,
        },
{
    let docs = match load_yaml(yaml) {
        Ok(docs) => docs,
        Err(msg) => return Err(MandateError::Yaml(msg)),
    };
    if docs.len() == 0 {
        proof {
            reveal_strlit("empty yaml document");
        }
        return Err(MandateError::Yaml("empty yaml document".to_owned()));
    }
    manual_markdown(&docs[0])
}

} // verus!
