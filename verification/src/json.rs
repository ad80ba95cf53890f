//! Pretty-printed JSON text, laid out as the `serde_json` pretty printer
//! lays it out: two-space indentation, `": "` after keys, one array
//! element or object member per line, and `[]` for an empty array.

use vstd::prelude::*;

use crate::text::{chars_of, lemma_listed_shift, listed_in_order, occurs_at, placed_at, push_char, push_spaces, spaces,
    strs};

verus! {

/// The lowercase hexadecimal digit for `d` (which should be below 16).
pub open spec fn hex_digit(d: int) -> char {
    if d < 10 {
        ((d + 48) as u32) as char
    } else {
        ((d + 87) as u32) as char
    }
}

/// How one character is written inside a JSON string: quote and
/// backslash are escaped, the control characters below U+0020 become
/// `\b \t \n \f \r` or `\u00XX`, everything else stands as it is.
pub open spec fn escape_char(c: char) -> Seq<char> {
    if c == '"' {
        seq!['\\', '"']
    } else if c == '\\' {
        seq!['\\', '\\']
    } else if c == '\n' {
        seq!['\\', 'n']
    } else if c == '\r' {
        seq!['\\', 'r']
    } else if c == '\t' {
        seq!['\\', 't']
    } else if c == '\x08' {
        seq!['\\', 'b']
    } else if c == '\x0c' {
        seq!['\\', 'f']
    } else if (c as int) < 32 {
        seq!['\\', 'u', '0', '0', hex_digit((c as int) / 16), hex_digit((c as int) % 16)]
    } else {
        seq![c]
    }
}

/// The escaped form of `s`.
pub open spec fn escape(s: Seq<char>) -> Seq<char>
    decreases s.len(),
{
    if s.len() == 0 {
        Seq::empty()
    } else {
        escape(s.drop_last()) + escape_char(s.last())
    }
}

/// `s` as a JSON string literal.
pub open spec fn quoted(s: Seq<char>) -> Seq<char> {
    seq!['"'] + escape(s) + seq!['"']
}

/// An optional string as a JSON value (`null` when absent).
pub open spec fn opt_quoted(o: Option<Seq<char>>) -> Seq<char> {
    match o {
        Some(s) => quoted(s),
        None => "null"@,
    }
}

/// The indentation of a line at nesting `level`.
pub open spec fn indent(level: nat) -> Seq<char> {
    spaces(2 * level)
}

/// The element lines of an array whose elements sit at nesting `level`;
/// `rendered` are the elements already written as JSON.
pub open spec fn array_body(rendered: Seq<Seq<char>>, level: nat) -> Seq<char>
    decreases rendered.len(),
{
    if rendered.len() == 0 {
        Seq::empty()
    } else {
        array_body(rendered.drop_last(), level)
            + (if rendered.len() == 1 { "\n"@ } else { ",\n"@ })
            + indent(level) + rendered.last()
    }
}

/// A JSON array whose opening bracket stands on a line at nesting
/// `level`.
pub open spec fn array(rendered: Seq<Seq<char>>, level: nat) -> Seq<char> {
    if rendered.len() == 0 {
        "[]"@
    } else {
        "["@ + array_body(rendered, level + 1) + "\n"@ + indent(level) + "]"@
    }
}

/// The element lines of the first `j` elements open the element lines of
/// all of them.
proof fn lemma_array_body_prefix(rendered: Seq<Seq<char>>, level: nat, j: int)
    requires
        0 <= j <= rendered.len(),
    ensures
        array_body(rendered.take(j), level).len() <= array_body(rendered, level).len(),
        array_body(rendered, level).subrange(0, array_body(rendered.take(j), level).len() as int)
            == array_body(rendered.take(j), level),
    decreases rendered.len(),
{
    if j == rendered.len() {
        assert(rendered.take(j) =~= rendered);
        assert(array_body(rendered, level).subrange(0, array_body(rendered, level).len() as int)
            =~= array_body(rendered, level));
    } else {
        lemma_array_body_prefix(rendered.drop_last(), level, j);
        assert(rendered.drop_last().take(j) =~= rendered.take(j));
        let p = array_body(rendered.take(j), level);
        let q = array_body(rendered.drop_last(), level);
        assert(array_body(rendered, level).subrange(0, p.len() as int) =~= q.subrange(0, p.len() as int));
    }
}

/// Where element `i` stands among the element lines.
pub open spec fn element_offset(rendered: Seq<Seq<char>>, level: nat, i: int) -> int {
    array_body(rendered.take(i), level).len() + (if i == 0 { 1int } else { 2int }) + indent(level).len()
}

proof fn lemma_array_body_element(rendered: Seq<Seq<char>>, level: nat, i: int)
    requires
        0 <= i < rendered.len(),
    ensures
        occurs_at(array_body(rendered, level), rendered[i], element_offset(rendered, level, i)),
        element_offset(rendered, level, i) + rendered[i].len() == array_body(rendered.take(i + 1), level).len(),
{
    reveal_strlit("\n");
    reveal_strlit(",\n");
    let t = rendered.take(i + 1);
    assert(t.drop_last() =~= rendered.take(i));
    assert(t.last() == rendered[i]);
    let sep = if i == 0 { "\n"@ } else { ",\n"@ };
    assert(array_body(t, level) =~= array_body(rendered.take(i), level) + sep + indent(level) + rendered[i]);
    lemma_array_body_prefix(rendered, level, i + 1);
    let o = element_offset(rendered, level, i);
    let l = rendered[i].len() as int;
    assert(array_body(rendered, level).subrange(o, o + l) =~= array_body(t, level).subrange(o, o + l));
    assert(array_body(t, level).subrange(o, o + l) =~= rendered[i]);
}

/// A JSON array holds its elements in their order, each once.
pub proof fn lemma_array_lists_elements(rendered: Seq<Seq<char>>, level: nat)
    ensures
        listed_in_order(array(rendered, level), rendered),
{
    let body = array_body(rendered, level + 1);
    let at = Seq::new(rendered.len(), |i: int| element_offset(rendered, level + 1, i));
    assert forall|i: int| 0 <= i < rendered.len() implies occurs_at(body, rendered[i], #[trigger] at[i]) by {
        lemma_array_body_element(rendered, level + 1, i);
    }
    assert forall|i: int, j: int| 0 <= i < j < rendered.len() implies #[trigger] at[i] + rendered[i].len() <= #[trigger] at[j] by {
        lemma_array_body_element(rendered, level + 1, i);
        lemma_array_body_prefix(rendered.take(j), level + 1, i + 1);
        assert(rendered.take(j).take(i + 1) =~= rendered.take(i + 1));
    }
    assert(placed_at(body, rendered, at));
    if rendered.len() == 0 {
        let none = Seq::<int>::empty();
        assert(placed_at(array(rendered, level), rendered, none));
    } else {
        lemma_listed_shift("["@, body, "\n"@ + indent(level) + "]"@, rendered);
        assert(array(rendered, level) =~= "["@ + body + ("\n"@ + indent(level) + "]"@));
    }
}

/// The strings `items`, each as a JSON string.
pub open spec fn quoted_all(items: Seq<Seq<char>>) -> Seq<Seq<char>> {
    items.map_values(|s: Seq<char>| quoted(s))
}

fn hex(d: u32) -> (c: char)
    requires
        d < 16,
    ensures
        c == hex_digit(d as int),
{
    if d == 0 { '0' }
    else if d == 1 { '1' }
    else if d == 2 { '2' }
    else if d == 3 { '3' }
    else if d == 4 { '4' }
    else if d == 5 { '5' }
    else if d == 6 { '6' }
    else if d == 7 { '7' }
    else if d == 8 { '8' }
    else if d == 9 { '9' }
    else if d == 10 { 'a' }
    else if d == 11 { 'b' }
    else if d == 12 { 'c' }
    else if d == 13 { 'd' }
    else if d == 14 { 'e' }
    else { 'f' }
}

fn push_escaped_char(s: &mut String, c: char)
    ensures
        final(s)@ == old(s)@ + escape_char(c),
{
    let ghost start = s@;
    if c == '"' {
        push_char(s, '\\');
        push_char(s, '"');
    } else if c == '\\' {
        push_char(s, '\\');
        push_char(s, '\\');
    } else if c == '\n' {
        push_char(s, '\\');
        push_char(s, 'n');
    } else if c == '\r' {
        push_char(s, '\\');
        push_char(s, 'r');
    } else if c == '\t' {
        push_char(s, '\\');
        push_char(s, 't');
    } else if c == '\x08' {
        push_char(s, '\\');
        push_char(s, 'b');
    } else if c == '\x0c' {
        push_char(s, '\\');
        push_char(s, 'f');
    } else if (c as u32) < 32 {
        let v = c as u32;
        push_char(s, '\\');
        push_char(s, 'u');
        push_char(s, '0');
        push_char(s, '0');
        push_char(s, hex(v / 16));
        push_char(s, hex(v % 16));
    } else {
        push_char(s, c);
    }
    assert(s@ =~= start + escape_char(c));
}

/// Appends `t` as a JSON string literal.
pub fn push_quoted(s: &mut String, t: &str)
    ensures
        final(s)@ == old(s)@ + quoted(t@),
{
    let ghost start = s@;
    let cs = chars_of(t);
    push_char(s, '"');
    let mut i: usize = 0;
    while i < cs.len()
        invariant
            cs@ == t@,
            i <= cs.len(),
            s@ == start + seq!['"'] + escape(t@.take(i as int)),
        decreases cs.len() - i,
    {
        push_escaped_char(s, cs[i]);
        assert(t@.take(i + 1).drop_last() =~= t@.take(i as int));
        i = i + 1;
    }
    assert(t@.take(cs.len() as int) =~= t@);
    push_char(s, '"');
    assert(s@ =~= start + quoted(t@));
}

/// Appends the indentation of nesting `level`.
pub fn push_indent(s: &mut String, level: usize)
    ensures
        final(s)@ == old(s)@ + indent(level as nat),
{
    let ghost start = s@;
    push_spaces(s, level);
    push_spaces(s, level);
    assert(s@ =~= start + indent(level as nat));
}

/// Appends a JSON array of the strings `items`, its opening bracket on a
/// line at nesting `level`.
pub fn push_str_array(s: &mut String, items: &Vec<String>, level: usize)
    requires
        level < usize::MAX,
    ensures
        final(s)@ == old(s)@ + array(quoted_all(strs(items@)), level as nat),
{
    let ghost start = s@;
    let ghost names = strs(items@);
    let ghost rendered = quoted_all(names);
    if items.len() == 0 {
        s.append("[]");
        return;
    }
    s.append("[");
    let mut i: usize = 0;
    while i < items.len()
        invariant
            i <= items.len(),
            level < usize::MAX,
            names == strs(items@),
            rendered == quoted_all(names),
            s@ == start + "["@ + array_body(rendered.take(i as int), (level + 1) as nat),
        decreases items.len() - i,
    {
        if i == 0 {
            s.append("\n");
        } else {
            s.append(",\n");
        }
        push_indent(s, level + 1);
        push_quoted(s, items[i].as_str());
        assert(rendered.take(i + 1).drop_last() =~= rendered.take(i as int));
        assert(rendered.take(i + 1).last() == quoted(items[i as int]@));
        i = i + 1;
    }
    assert(rendered.take(items.len() as int) =~= rendered);
    s.append("\n");
    push_indent(s, level);
    s.append("]");
}

} // verus!
