//! Rendering a task collection as the backing file's JSON text: an array of
//! objects with keys `id`, `description`, `completed`, in that order, with
//! string escaping as the JSON grammar demands.

use vstd::prelude::*;
use crate::{Task, TaskView, views};
use crate::strutil::{dec_digits, u32_digits, chars_to_string};

verus! {

/// Lowercase hexadecimal digit for a value below sixteen.
pub open spec fn hex_char(d: nat) -> char {
    if d < 10 {
        crate::strutil::digit_char(d)
    } else if d == 10 { 'a' } else if d == 11 { 'b' } else if d == 12 { 'c' } else if d == 13 {
        'd'
    } else if d == 14 { 'e' } else { 'f' }
}

/// Executable hexadecimal digit matching [`hex_char`].
pub fn hex_char_exec(d: u32) -> (c: char)
    requires
        d < 16,
    ensures
        c == hex_char(d as nat),
{
    if d < 10 {
        crate::strutil::digit_char_exec(d)
    } else {
        match d {
            10 => 'a',
            11 => 'b',
            12 => 'c',
            13 => 'd',
            14 => 'e',
            _ => 'f',
        }
    }
}

/// How one character appears inside a JSON string: itself, unless it needs
/// an escape — quote, backslash, or a control character (the named escapes
/// for backspace, form feed, newline, carriage return and tab, a `\u00..`
/// escape for the rest).
pub open spec fn esc_char(c: char) -> Seq<char> {
    if c == '"' {
        seq!['\\', '"']
    } else if c == '\\' {
        seq!['\\', '\\']
    } else if c == '\u{8}' {
        seq!['\\', 'b']
    } else if c == '\u{c}' {
        seq!['\\', 'f']
    } else if c == '\n' {
        seq!['\\', 'n']
    } else if c == '\r' {
        seq!['\\', 'r']
    } else if c == '\t' {
        seq!['\\', 't']
    } else if (c as u32) < 32 {
        seq!['\\', 'u', '0', '0', hex_char((c as u32 / 16) as nat), hex_char((c as u32 % 16) as nat)]
    } else {
        seq![c]
    }
}

/// The JSON rendering of a string's characters, escapes applied.
pub open spec fn escape(s: Seq<char>) -> Seq<char>
    decreases s.len(),
{
    if s.len() == 0 {
        Seq::empty()
    } else {
        esc_char(s[0]) + escape(s.drop_first())
    }
}

/// Escaping one more character appends its escape.
pub proof fn lemma_escape_snoc(s: Seq<char>, c: char)
    ensures
        escape(s.push(c)) == escape(s) + esc_char(c),
    decreases s.len(),
{
    let p = s.push(c);
    if s.len() == 0 {
        assert(p.drop_first() =~= Seq::<char>::empty());
        assert(p[0] == c);
        assert(escape(Seq::<char>::empty()) =~= Seq::<char>::empty());
        assert(escape(p) =~= esc_char(c));
        assert(escape(s) + esc_char(c) =~= esc_char(c));
    } else {
        assert(p.drop_first() =~= s.drop_first().push(c));
        lemma_escape_snoc(s.drop_first(), c);
        assert(escape(p) == esc_char(s[0]) + (escape(s.drop_first()) + esc_char(c)));
        assert(escape(s) + esc_char(c) =~= esc_char(s[0]) + (escape(s.drop_first()) + esc_char(
            c,
        )));
    }
}

/// The object text's fixed opening: `{"id":`.
pub open spec fn lit_task_open() -> Seq<char> {
    seq!['{', '"', 'i', 'd', '"', ':']
}

/// The fixed text between the id and the description: `,"description":"`.
pub open spec fn lit_desc() -> Seq<char> {
    seq![',', '"', 'd', 'e', 's', 'c', 'r', 'i', 'p', 't', 'i', 'o', 'n', '"', ':', '"']
}

/// The fixed text between the description and the flag: `","completed":`.
pub open spec fn lit_comp() -> Seq<char> {
    seq!['"', ',', '"', 'c', 'o', 'm', 'p', 'l', 'e', 't', 'e', 'd', '"', ':']
}

/// The literal `true`.
pub open spec fn lit_true() -> Seq<char> {
    seq!['t', 'r', 'u', 'e']
}

/// The literal `false`.
pub open spec fn lit_false() -> Seq<char> {
    seq!['f', 'a', 'l', 's', 'e']
}

/// One task as its JSON object text.
pub open spec fn spec_ser_task(t: TaskView) -> Seq<char> {
    lit_task_open() + dec_digits(t.id as nat) + lit_desc() + escape(t.description) + lit_comp() + (
    if t.completed {
        lit_true()
    } else {
        lit_false()
    }) + seq!['}']
}

/// The array elements, comma separated.
pub open spec fn spec_ser_elems(ts: Seq<TaskView>) -> Seq<char>
    decreases ts.len(),
{
    if ts.len() == 0 {
        Seq::empty()
    } else if ts.len() == 1 {
        spec_ser_task(ts[0])
    } else {
        spec_ser_task(ts[0]) + seq![','] + spec_ser_elems(ts.drop_first())
    }
}

/// One more element extends the list with a comma and its text.
pub proof fn lemma_ser_elems_snoc(ts: Seq<TaskView>, t: TaskView)
    ensures
        spec_ser_elems(ts.push(t)) == if ts.len() == 0 {
            spec_ser_task(t)
        } else {
            spec_ser_elems(ts) + seq![','] + spec_ser_task(t)
        },
    decreases ts.len(),
{
    let p = ts.push(t);
    if ts.len() == 0 {
        assert(p[0] == t);
    } else if ts.len() == 1 {
        assert(p.drop_first() =~= seq![t]);
        assert(p[0] == ts[0]);
        assert(spec_ser_elems(seq![t]) == spec_ser_task(t));
        assert(spec_ser_elems(p) =~= spec_ser_task(ts[0]) + seq![','] + spec_ser_task(t));
    } else {
        assert(p.drop_first() =~= ts.drop_first().push(t));
        lemma_ser_elems_snoc(ts.drop_first(), t);
        assert(spec_ser_elems(p) == spec_ser_task(ts[0]) + seq![','] + (spec_ser_elems(
            ts.drop_first(),
        ) + seq![','] + spec_ser_task(t)));
        assert(spec_ser_elems(ts) + seq![','] + spec_ser_task(t) =~= spec_ser_task(ts[0]) + seq![
            ',',
        ] + (spec_ser_elems(ts.drop_first()) + seq![','] + spec_ser_task(t)));
    }
}

/// The whole collection as its JSON array text.
pub open spec fn spec_ser_tasks(ts: Seq<TaskView>) -> Seq<char> {
    seq!['['] + spec_ser_elems(ts) + seq![']']
}

/// Appends the characters of a string slice.
fn push_str_chars(out: &mut Vec<char>, s: &str)
    ensures
        final(out)@ == old(out)@ + s@,
{
    let n = s.unicode_len();
    let mut i: usize = 0;
    while i < n
        invariant
            i <= n,
            n == s@.len(),
            out@ == old(out)@ + s@.take(i as int),
        decreases n - i,
    {
        out.push(s.get_char(i));
        proof {
            assert(s@.take(i + 1) =~= s@.take(i as int).push(s@[i as int]));
            assert(old(out)@ + s@.take(i + 1) =~= (old(out)@ + s@.take(i as int)).push(
                s@[i as int],
            ));
        }
        i = i + 1;
    }
    proof {
        assert(s@.take(n as int) =~= s@);
    }
}

/// Appends the escape of one character.
fn push_esc_char(out: &mut Vec<char>, c: char)
    ensures
        final(out)@ == old(out)@ + esc_char(c),
{
    let v = c as u32;
    if c == '"' {
        out.push('\\');
        out.push('"');
        assert(out@ =~= old(out)@ + esc_char(c));
    } else if c == '\\' {
        out.push('\\');
        out.push('\\');
        assert(out@ =~= old(out)@ + esc_char(c));
    } else if v == 8 {
        out.push('\\');
        out.push('b');
        assert(c == '\u{8}') by {
            assert(('\u{8}' as u32) == 8);
        }
        assert(out@ =~= old(out)@ + esc_char(c));
    } else if v == 12 {
        out.push('\\');
        out.push('f');
        assert(c == '\u{c}') by {
            assert(('\u{c}' as u32) == 12);
        }
        assert(out@ =~= old(out)@ + esc_char(c));
    } else if c == '\n' {
        out.push('\\');
        out.push('n');
        assert(out@ =~= old(out)@ + esc_char(c));
    } else if c == '\r' {
        out.push('\\');
        out.push('r');
        assert(out@ =~= old(out)@ + esc_char(c));
    } else if c == '\t' {
        out.push('\\');
        out.push('t');
        assert(out@ =~= old(out)@ + esc_char(c));
    } else if v < 32 {
        out.push('\\');
        out.push('u');
        out.push('0');
        out.push('0');
        out.push(hex_char_exec(v / 16));
        out.push(hex_char_exec(v % 16));
        assert(out@ =~= old(out)@ + esc_char(c));
    } else {
        out.push(c);
        assert(out@ =~= old(out)@ + esc_char(c));
    }
}

/// Appends the JSON rendering of a string's characters.
fn push_escaped(out: &mut Vec<char>, s: &str)
    ensures
        final(out)@ == old(out)@ + escape(s@),
{
    let v = crate::strutil::str_to_chars(s);
    let mut i: usize = 0;
    while i < v.len()
        invariant
            i <= v@.len(),
            v@ == s@,
            out@ == old(out)@ + escape(s@.take(i as int)),
        decreases v.len() - i,
    {
        push_esc_char(out, v[i]);
        proof {
            assert(s@.take(i + 1) =~= s@.take(i as int).push(s@[i as int]));
            lemma_escape_snoc(s@.take(i as int), s@[i as int]);
            assert(old(out)@ + escape(s@.take(i + 1)) =~= (old(out)@ + escape(s@.take(i as int)))
                + esc_char(s@[i as int]));
        }
        i = i + 1;
    }
    proof {
        assert(s@.take(v@.len() as int) =~= s@);
    }
}

/// Appends one task's JSON object text.
fn push_task(out: &mut Vec<char>, t: &Task)
    ensures
        final(out)@ == old(out)@ + spec_ser_task(t@),
{
    push_str_chars(out, "{\"id\":");
    proof {
        reveal_strlit("{\"id\":");
        assert("{\"id\":"@ =~= lit_task_open());
    }
    let mut dv = u32_digits(t.id);
    out.append(&mut dv);
    push_str_chars(out, ",\"description\":\"");
    proof {
        reveal_strlit(",\"description\":\"");
        assert(",\"description\":\""@ =~= lit_desc());
    }
    push_escaped(out, t.description.as_str());
    push_str_chars(out, "\",\"completed\":");
    proof {
        reveal_strlit("\",\"completed\":");
        assert("\",\"completed\":"@ =~= lit_comp());
    }
    if t.completed {
        push_str_chars(out, "true");
        proof {
            reveal_strlit("true");
            assert("true"@ =~= lit_true());
        }
    } else {
        push_str_chars(out, "false");
        proof {
            reveal_strlit("false");
            assert("false"@ =~= lit_false());
        }
    }
    out.push('}');
    proof {
        assert(out@ =~= old(out)@ + spec_ser_task(t@));
    }
}

/// Renders the whole collection as the backing file's JSON text, exactly
/// [`spec_ser_tasks`] of its model.
pub fn serialize_tasks(tasks: &Vec<Task>) -> (s: String)
    ensures
        s@ == spec_ser_tasks(views(tasks@)),
{
    let ghost vs = views(tasks@);
    let mut out: Vec<char> = Vec::new();
    out.push('[');
    assert(out@ =~= seq!['[']);
    let mut i: usize = 0;
    while i < tasks.len()
        invariant
            i <= tasks@.len(),
            vs == views(tasks@),
            vs.len() == tasks@.len(),
            out@ == seq!['['] + spec_ser_elems(vs.take(i as int)),
        decreases tasks.len() - i,
    {
        proof {
            assert(vs.take(i + 1) =~= vs.take(i as int).push(vs[i as int]));
            lemma_ser_elems_snoc(vs.take(i as int), vs[i as int]);
        }
        if i > 0 {
            out.push(',');
        }
        push_task(&mut out, &tasks[i]);
        proof {
            assert(vs[i as int] == tasks@[i as int]@);
            assert(out@ =~= seq!['['] + spec_ser_elems(vs.take(i + 1)));
        }
        i = i + 1;
    }
    out.push(']');
    proof {
        assert(vs.take(tasks@.len() as int) =~= vs);
        assert(out@ =~= spec_ser_tasks(vs));
    }
    chars_to_string(&out)
}

} // verus!
