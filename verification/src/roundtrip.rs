//! The round-trip law: loading the text that saving produced yields the
//! collection that was saved, for every collection.

use vstd::prelude::*;
use crate::TaskView;
use crate::strutil::{is_digit, digit_val, digits_val, all_digits, dec_digits, digit_char,
    lemma_dec_digits_are_digits, lemma_digits_val_dec};
use crate::ser::{esc_char, escape, hex_char, lit_task_open, lit_desc, lit_comp, lit_true,
    lit_false, spec_ser_task, spec_ser_elems, spec_ser_tasks};
use crate::parse::{is_ws, skip_ws, is_hex, hex_val, parse_string_body, Ctx, VState, skip_steps,
    spec_is_json, key_id, key_desc, key_comp, GFieldVal, GFields, empty_fields, upd_field,
    num_char, scan_num, parse_member_value, MPos, parse_members, EPos, parse_elements, StoreError,
    spec_load};

verus! {

/// A hexadecimal digit character carries its value.
proof fn lemma_hex_char_val(d: nat)
    requires
        d < 16,
    ensures
        is_hex(hex_char(d)),
        hex_val(hex_char(d)) == d,
{
}

/// A character that needs no escape stands for itself.
pub open spec fn plain_char(c: char) -> bool {
    c != '"' && c != '\\' && (c as u32) >= 32
}

/// All characters of the text need no escape.
pub open spec fn all_plain(s: Seq<char>) -> bool {
    forall|i: int| 0 <= i < s.len() ==> plain_char(#[trigger] s[i])
}

/// Reading a string body over plain text up to its closing quote yields
/// that text.
proof fn lemma_psb_plain(k: Seq<char>, rest: Seq<char>)
    requires
        all_plain(k),
    ensures
        parse_string_body(k + seq!['"'] + rest) == Some((k, rest)),
    decreases k.len(),
{
    let t = k + seq!['"'] + rest;
    if k.len() == 0 {
        assert(t[0] == '"');
        assert(t.drop_first() =~= rest);
    } else {
        let c = k[0];
        assert(t[0] == c);
        assert(plain_char(c));
        assert(t.drop_first() =~= k.drop_first() + seq!['"'] + rest);
        assert(all_plain(k.drop_first()));
        lemma_psb_plain(k.drop_first(), rest);
        assert(seq![c] + k.drop_first() =~= k);
    }
}

/// Reading a string body over an escaped text up to its closing quote
/// yields the original text, whatever characters it held.
proof fn lemma_psb_escape(d: Seq<char>, rest: Seq<char>)
    ensures
        parse_string_body(escape(d) + seq!['"'] + rest) == Some((d, rest)),
    decreases d.len(),
{
    let t = escape(d) + seq!['"'] + rest;
    if d.len() == 0 {
        assert(escape(d) =~= Seq::<char>::empty());
        assert(t[0] == '"');
        assert(t.drop_first() =~= rest);
        assert(d =~= Seq::<char>::empty());
    } else {
        let c = d[0];
        let e = esc_char(c);
        let tail = escape(d.drop_first()) + seq!['"'] + rest;
        assert(escape(d) == e + escape(d.drop_first()));
        assert(t =~= e + tail);
        lemma_psb_escape(d.drop_first(), rest);
        if c == '"' || c == '\\' {
            assert(e == seq!['\\', if c == '"' { '"' } else { '\\' }]);
            assert(t[0] == '\\');
            assert(t[1] == e[1]);
            assert(t.len() >= 2);
            assert(t.skip(2) =~= tail);
            assert(seq![c] + d.drop_first() =~= d);
        } else if c == '\u{8}' || c == '\u{c}' || c == '\n' || c == '\r' || c == '\t' {
            assert(t[0] == '\\');
            assert(t[1] == e[1]);
            assert(t[1] != 'u');
            assert(t.len() >= 2);
            assert(t.skip(2) =~= tail);
            assert(seq![c] + d.drop_first() =~= d);
        } else if (c as u32) < 32 {
            let cv = c as u32;
            assert(e == seq!['\\', 'u', '0', '0', hex_char((cv / 16) as nat), hex_char(
                (cv % 16) as nat,
            )]);
            assert(t[0] == '\\' && t[1] == 'u' && t[2] == '0' && t[3] == '0');
            assert(t[4] == hex_char((cv / 16) as nat) && t[5] == hex_char((cv % 16) as nat));
            lemma_hex_char_val((cv / 16) as nat);
            lemma_hex_char_val((cv % 16) as nat);
            assert(is_hex('0') && hex_val('0') == 0);
            let v = hex_val(t[2]) * 4096 + hex_val(t[3]) * 256 + hex_val(t[4]) * 16 + hex_val(t[5]);
            assert(v == (cv / 16) * 16 + cv % 16);
            assert(v == cv);
            assert(v < 0xD800);
            assert(t.len() >= 6);
            assert(t.skip(6) =~= tail);
            vstd::utf8::char_u32_cast(c, cv);
            assert((v as u32) as char == c);
            assert(seq![c] + d.drop_first() =~= d);
        } else {
            assert(e == seq![c]);
            assert(t[0] == c);
            assert(plain_char(c));
            assert(t.drop_first() =~= tail);
            assert(seq![c] + d.drop_first() =~= d);
        }
    }
}

/// The validator crosses a run of digits in the integer state and stands
/// after the number once something that cannot continue it follows.
proof fn lemma_numint_digits(ds: Seq<char>, rest: Seq<char>, stack: Seq<Ctx>)
    requires
        all_digits(ds),
        rest.len() > 0,
        !is_digit(rest[0]),
        rest[0] != '.',
        rest[0] != 'e',
        rest[0] != 'E',
    ensures
        skip_steps(ds + rest, stack, VState::NumInt) == skip_steps(rest, stack, VState::AfterValue),
    decreases ds.len(),
{
    let t = ds + rest;
    if ds.len() == 0 {
        assert(t =~= rest);
    } else {
        assert(t[0] == ds[0]);
        assert(is_digit(ds[0]));
        assert(t.drop_first() =~= ds.drop_first() + rest);
        assert(all_digits(ds.drop_first()));
        lemma_numint_digits(ds.drop_first(), rest, stack);
    }
}

/// The leading digit of a positive number's rendering is not zero.
proof fn lemma_dec_lead(n: nat)
    ensures
        n > 0 ==> digit_val(dec_digits(n)[0]) != 0,
    decreases n,
{
    if n >= 10 {
        lemma_dec_lead(n / 10);
        assert(dec_digits(n)[0] == dec_digits(n / 10)[0]);
    }
}

/// The validator crosses a rendered number from an expect-value state.
proof fn lemma_skip_number(n: nat, rest: Seq<char>, stack: Seq<Ctx>, st: VState)
    requires
        st is Value || st is ValueOrClose,
        rest.len() > 0,
        !is_digit(rest[0]),
        rest[0] != '.',
        rest[0] != 'e',
        rest[0] != 'E',
        !is_ws(rest[0]),
        rest[0] != ']',
    ensures
        skip_steps(dec_digits(n) + rest, stack, st) == skip_steps(rest, stack, VState::AfterValue),
{
    let ds = dec_digits(n);
    let t = ds + rest;
    lemma_dec_digits_are_digits(n);
    assert(t[0] == ds[0]);
    assert(is_digit(ds[0]));
    assert(!is_ws(t[0]));
    assert(t[0] != ']' && t[0] != '[' && t[0] != '{' && t[0] != '"' && t[0] != 't' && t[0] != 'f'
        && t[0] != 'n' && t[0] != '-') by {
        assert(48 <= ds[0] as u32 <= 57);
        assert((']' as u32) == 93 && ('[' as u32) == 91 && ('{' as u32) == 123 && ('"' as u32)
            == 34 && ('t' as u32) == 116 && ('f' as u32) == 102 && ('n' as u32) == 110 && (
        '-' as u32) == 45 && (' ' as u32) == 32);
    }
    if n == 0 {
        assert(ds =~= seq![digit_char(0)]);
        assert(t[0] == '0');
        assert(t.drop_first() =~= rest);
        assert(skip_steps(t, stack, st) == skip_steps(rest, stack, VState::NumZero));
        assert(skip_steps(rest, stack, VState::NumZero) == skip_steps(
            rest,
            stack,
            VState::AfterValue,
        ));
    } else {
        lemma_dec_lead(n);
        assert(digit_val(ds[0]) != 0);
        assert(t[0] != '0') by {
            if t[0] == '0' {
                assert(digit_val(ds[0]) == 0);
            }
        }
        assert(t.drop_first() =~= ds.drop_first() + rest);
        assert(skip_steps(t, stack, st) == skip_steps(
            ds.drop_first() + rest,
            stack,
            VState::NumInt,
        ));
        assert(all_digits(ds.drop_first()));
        lemma_numint_digits(ds.drop_first(), rest, stack);
    }
}

/// The fixed key texts hold no character that needs an escape.
proof fn lemma_keys_plain()
    ensures
        all_plain(key_id()),
        all_plain(key_desc()),
        all_plain(key_comp()),
{
    assert forall|i: int| 0 <= i < key_id().len() implies plain_char(#[trigger] key_id()[i]) by {
        assert(key_id()[i] == 'i' || key_id()[i] == 'd');
    }
    assert forall|i: int| 0 <= i < key_desc().len() implies plain_char(
        #[trigger] key_desc()[i],
    ) by {
        let c = key_desc()[i];
        assert(c == 'd' || c == 'e' || c == 's' || c == 'c' || c == 'r' || c == 'i' || c == 'p'
            || c == 't' || c == 'o' || c == 'n');
    }
    assert forall|i: int| 0 <= i < key_comp().len() implies plain_char(
        #[trigger] key_comp()[i],
    ) by {
        let c = key_comp()[i];
        assert(c == 'c' || c == 'o' || c == 'm' || c == 'p' || c == 'l' || c == 'e' || c == 't'
            || c == 'd');
    }
}

/// One step: an opening brace pushes the object context.
proof fn lemma_step_open_obj(r: Seq<char>, stack: Seq<Ctx>, st: VState)
    requires
        st is Value || st is ValueOrClose,
    ensures
        skip_steps(seq!['{'] + r, stack, st) == skip_steps(
            r,
            stack.push(Ctx::InObject),
            VState::KeyOrClose,
        ),
{
    let t = seq!['{'] + r;
    assert(t[0] == '{');
    assert(t.drop_first() =~= r);
}

/// One step: a quoted plain key moves to the colon state.
proof fn lemma_step_key(k: Seq<char>, r: Seq<char>, stack: Seq<Ctx>, st: VState)
    requires
        st is Key || st is KeyOrClose,
        all_plain(k),
    ensures
        skip_steps(seq!['"'] + k + seq!['"'] + r, stack, st) == skip_steps(r, stack, VState::Colon),
{
    let t = seq!['"'] + k + seq!['"'] + r;
    assert(t[0] == '"');
    assert(t.drop_first() =~= k + seq!['"'] + r);
    lemma_psb_plain(k, r);
}

/// One step: a colon asks for the member's value.
proof fn lemma_step_colon(r: Seq<char>, stack: Seq<Ctx>)
    ensures
        skip_steps(seq![':'] + r, stack, VState::Colon) == skip_steps(r, stack, VState::Value),
{
    let t = seq![':'] + r;
    assert(t[0] == ':');
    assert(t.drop_first() =~= r);
}

/// One step: a comma inside an object asks for the next key.
proof fn lemma_step_comma_obj(r: Seq<char>, stack: Seq<Ctx>)
    requires
        stack.len() > 0,
        stack.last() is InObject,
    ensures
        skip_steps(seq![','] + r, stack, VState::AfterValue) == skip_steps(r, stack, VState::Key),
{
    let t = seq![','] + r;
    assert(t[0] == ',');
    assert(t.drop_first() =~= r);
}

/// One step: a comma inside an array asks for the next value.
proof fn lemma_step_comma_arr(r: Seq<char>, stack: Seq<Ctx>)
    requires
        stack.len() > 0,
        stack.last() is InArray,
    ensures
        skip_steps(seq![','] + r, stack, VState::AfterValue) == skip_steps(r, stack, VState::Value),
{
    let t = seq![','] + r;
    assert(t[0] == ',');
    assert(t.drop_first() =~= r);
}

/// One step: a closing brace pops the object context.
proof fn lemma_step_close_obj(r: Seq<char>, stack: Seq<Ctx>)
    requires
        stack.len() > 0,
        stack.last() is InObject,
    ensures
        skip_steps(seq!['}'] + r, stack, VState::AfterValue) == skip_steps(
            r,
            stack.drop_last(),
            VState::AfterValue,
        ),
{
    let t = seq!['}'] + r;
    assert(t[0] == '}');
    assert(t.drop_first() =~= r);
}

/// One step: a closing bracket pops the array context.
proof fn lemma_step_close_arr(r: Seq<char>, stack: Seq<Ctx>)
    requires
        stack.len() > 0,
        stack.last() is InArray,
    ensures
        skip_steps(seq![']'] + r, stack, VState::AfterValue) == skip_steps(
            r,
            stack.drop_last(),
            VState::AfterValue,
        ),
{
    let t = seq![']'] + r;
    assert(t[0] == ']');
    assert(t.drop_first() =~= r);
}

/// One step: an escaped string as a value.
proof fn lemma_step_string_value(d: Seq<char>, r: Seq<char>, stack: Seq<Ctx>, st: VState)
    requires
        st is Value || st is ValueOrClose,
    ensures
        skip_steps(seq!['"'] + escape(d) + seq!['"'] + r, stack, st) == skip_steps(
            r,
            stack,
            VState::AfterValue,
        ),
{
    let t = seq!['"'] + escape(d) + seq!['"'] + r;
    assert(t[0] == '"');
    assert(t.drop_first() =~= escape(d) + seq!['"'] + r);
    lemma_psb_escape(d, r);
}

/// One step: a boolean literal as a value.
proof fn lemma_step_bool(b: bool, r: Seq<char>, stack: Seq<Ctx>, st: VState)
    requires
        st is Value || st is ValueOrClose,
    ensures
        skip_steps(
            (if b {
                lit_true()
            } else {
                lit_false()
            }) + r,
            stack,
            st,
        ) == skip_steps(r, stack, VState::AfterValue),
{
    if b {
        let t = lit_true() + r;
        assert(t[0] == 't' && t[1] == 'r' && t[2] == 'u' && t[3] == 'e');
        assert(t.len() >= 4);
        assert(t.skip(4) =~= r);
    } else {
        let t = lit_false() + r;
        assert(t[0] == 'f' && t[1] == 'a' && t[2] == 'l' && t[3] == 's' && t[4] == 'e');
        assert(t.len() >= 5);
        assert(t.skip(5) =~= r);
    }
}

/// The validator crosses one serialized task from an expect-value state.
#[verifier::rlimit(60)]
proof fn lemma_skip_task(t: TaskView, rest: Seq<char>, stack: Seq<Ctx>, st: VState)
    requires
        st is Value || st is ValueOrClose,
        rest.len() > 0,
        rest[0] == ',' || rest[0] == ']',
    ensures
        skip_steps(spec_ser_task(t) + rest, stack, st) == skip_steps(
            rest,
            stack,
            VState::AfterValue,
        ),
{
    lemma_keys_plain();
    let full = spec_ser_task(t) + rest;
    let d = dec_digits(t.id as nat);
    let e = escape(t.description);
    let f = if t.completed {
        lit_true()
    } else {
        lit_false()
    };
    let stack1 = stack.push(Ctx::InObject);
    let r12 = seq!['}'] + rest;
    let r11 = f + r12;
    let r10 = seq![':'] + r11;
    let r9 = seq!['"'] + key_comp() + seq!['"'] + r10;
    let r8 = seq![','] + r9;
    let r7 = seq!['"'] + e + seq!['"'] + r8;
    let r6 = seq![':'] + r7;
    let r5 = seq!['"'] + key_desc() + seq!['"'] + r6;
    let r4 = seq![','] + r5;
    let r3 = d + r4;
    let r2 = seq![':'] + r3;
    let r1 = seq!['"'] + key_id() + seq!['"'] + r2;
    assert(full =~= seq!['{'] + r1);
    lemma_step_open_obj(r1, stack, st);
    lemma_step_key(key_id(), r2, stack1, VState::KeyOrClose);
    lemma_step_colon(r3, stack1);
    assert(r4[0] == ',');
    assert(!is_digit(r4[0]) && !is_ws(r4[0]) && r4[0] != ']') by {
        assert((',' as u32) == 44);
    }
    lemma_skip_number(t.id as nat, r4, stack1, VState::Value);
    assert(stack1.last() is InObject);
    lemma_step_comma_obj(r5, stack1);
    lemma_step_key(key_desc(), r6, stack1, VState::Key);
    lemma_step_colon(r7, stack1);
    lemma_step_string_value(t.description, r8, stack1, VState::Value);
    lemma_step_comma_obj(r9, stack1);
    lemma_step_key(key_comp(), r10, stack1, VState::Key);
    lemma_step_colon(r11, stack1);
    lemma_step_bool(t.completed, r12, stack1, VState::Value);
    lemma_step_close_obj(rest, stack1);
    assert(stack1.drop_last() =~= stack);
}

/// The validator crosses the serialized elements and the closing bracket.
proof fn lemma_skip_elems(ts: Seq<TaskView>, rest: Seq<char>, stack: Seq<Ctx>, st: VState)
    requires
        ts.len() >= 1,
        st is Value || st is ValueOrClose,
    ensures
        skip_steps(spec_ser_elems(ts) + seq![']'] + rest, stack.push(Ctx::InArray), st)
            == skip_steps(rest, stack, VState::AfterValue),
    decreases ts.len(),
{
    let stack1 = stack.push(Ctx::InArray);
    assert(stack1.last() is InArray);
    assert(stack1.drop_last() =~= stack);
    if ts.len() == 1 {
        let after = seq![']'] + rest;
        assert(spec_ser_elems(ts) + seq![']'] + rest =~= spec_ser_task(ts[0]) + after);
        assert(after[0] == ']');
        lemma_skip_task(ts[0], after, stack1, st);
        lemma_step_close_arr(rest, stack1);
    } else {
        let tail = spec_ser_elems(ts.drop_first()) + seq![']'] + rest;
        let after = seq![','] + tail;
        assert(spec_ser_elems(ts) + seq![']'] + rest =~= spec_ser_task(ts[0]) + after);
        assert(after[0] == ',');
        lemma_skip_task(ts[0], after, stack1, st);
        lemma_step_comma_arr(tail, stack1);
        lemma_skip_elems(ts.drop_first(), rest, stack, VState::Value);
    }
}

/// The serialized collection is one JSON document, and the validator
/// leaves nothing behind it.
proof fn lemma_ser_is_json(ts: Seq<TaskView>)
    ensures
        skip_steps(spec_ser_tasks(ts), Seq::empty(), VState::Value) == Some(Seq::<char>::empty()),
        spec_is_json(spec_ser_tasks(ts)),
{
    let full = spec_ser_tasks(ts);
    let stack1 = Seq::empty().push(Ctx::InArray);
    let r1 = spec_ser_elems(ts) + seq![']'] + Seq::<char>::empty();
    assert(full[0] == '[');
    assert(full.drop_first() =~= r1);
    assert(skip_steps(full, Seq::empty(), VState::Value) == skip_steps(
        r1,
        stack1,
        VState::ValueOrClose,
    ));
    if ts.len() == 0 {
        assert(spec_ser_elems(ts) =~= Seq::<char>::empty());
        assert(r1[0] == ']');
        assert(r1.drop_first() =~= Seq::<char>::empty());
        assert(stack1.last() is InArray);
        assert(stack1.drop_last() =~= Seq::<Ctx>::empty());
        assert(skip_steps(r1, stack1, VState::ValueOrClose) == skip_steps(
            Seq::<char>::empty(),
            Seq::<Ctx>::empty(),
            VState::AfterValue,
        ));
    } else {
        lemma_skip_elems(ts, Seq::<char>::empty(), Seq::empty(), VState::ValueOrClose);
    }
    assert(skip_steps(Seq::<char>::empty(), Seq::<Ctx>::empty(), VState::AfterValue) == Some(
        Seq::<char>::empty(),
    ));
    assert(skip_ws(Seq::<char>::empty()).len() == 0);
}

/// The token scanner splits digits from what follows them.
proof fn lemma_scan_num_digits(a: Seq<char>, b: Seq<char>)
    requires
        forall|i: int| 0 <= i < a.len() ==> num_char(#[trigger] a[i]),
        b.len() > 0,
        !num_char(b[0]),
    ensures
        scan_num(a + b) == (a, b),
    decreases a.len(),
{
    let t = a + b;
    if a.len() == 0 {
        assert(t =~= b);
        assert(scan_num(t) == (Seq::<char>::empty(), t));
        assert(a =~= Seq::<char>::empty());
    } else {
        assert(t[0] == a[0]);
        assert(num_char(t[0]));
        assert(t.drop_first() =~= a.drop_first() + b);
        lemma_scan_num_digits(a.drop_first(), b);
        assert(seq![a[0]] + a.drop_first() =~= a);
    }
}

/// A rendered id read as a member value is that id.
proof fn lemma_member_value_num(n: u32, r: Seq<char>)
    requires
        r.len() > 0,
        r[0] == ',',
    ensures
        parse_member_value(dec_digits(n as nat) + r) == Some((GFieldVal::GU32(n), r)),
{
    let d = dec_digits(n as nat);
    let t = d + r;
    lemma_dec_digits_are_digits(n as nat);
    assert(t[0] == d[0]);
    assert(is_digit(t[0]));
    assert(t[0] != '"' && t[0] != 't' && t[0] != 'f' && t[0] != 'n' && t[0] != '{' && t[0] != '[')
        by {
        assert(48 <= d[0] as u32 <= 57);
        assert(('"' as u32) == 34 && ('t' as u32) == 116 && ('f' as u32) == 102 && ('n' as u32)
            == 110 && ('{' as u32) == 123 && ('[' as u32) == 91);
    }
    assert(num_char(t[0]));
    assert(!num_char(r[0])) by {
        assert((',' as u32) == 44);
    }
    assert(forall|i: int| 0 <= i < d.len() ==> num_char(#[trigger] d[i]));
    lemma_scan_num_digits(d, r);
    lemma_digits_val_dec(n as nat);
    assert(d.len() > 0 && all_digits(d) && digits_val(d) == n as nat);
}

/// An escaped string read as a member value is the original text.
proof fn lemma_member_value_str(dsc: Seq<char>, r: Seq<char>)
    ensures
        parse_member_value(seq!['"'] + escape(dsc) + seq!['"'] + r) == Some(
            (GFieldVal::GStr(dsc), r),
        ),
{
    let t = seq!['"'] + escape(dsc) + seq!['"'] + r;
    assert(t[0] == '"');
    assert(t.drop_first() =~= escape(dsc) + seq!['"'] + r);
    lemma_psb_escape(dsc, r);
}

/// A boolean literal read as a member value is that boolean.
proof fn lemma_member_value_bool(b: bool, r: Seq<char>)
    ensures
        parse_member_value(
            (if b {
                lit_true()
            } else {
                lit_false()
            }) + r,
        ) == Some((GFieldVal::GBool(b), r)),
{
    if b {
        let t = lit_true() + r;
        assert(t[0] == 't' && t[1] == 'r' && t[2] == 'u' && t[3] == 'e');
        assert(t.len() >= 4);
        assert(t.skip(4) =~= r);
    } else {
        let t = lit_false() + r;
        assert(t[0] == 'f' && t[1] == 'a' && t[2] == 'l' && t[3] == 's' && t[4] == 'e');
        assert(t.len() >= 5);
        assert(t.skip(5) =~= r);
    }
}

/// The member reader over one serialized task's body collects exactly its
/// three fields.
#[verifier::rlimit(60)]
proof fn lemma_members_task(t: TaskView, rest: Seq<char>)
    ensures
        parse_members(
            spec_ser_task(t).drop_first() + rest,
            empty_fields(),
            MPos::First,
        ) == Some(
            (
                GFields {
                    id: Some(t.id),
                    description: Some(t.description),
                    completed: Some(t.completed),
                },
                rest,
            ),
        ),
{
    lemma_keys_plain();
    let d = dec_digits(t.id as nat);
    let e = escape(t.description);
    let f = if t.completed {
        lit_true()
    } else {
        lit_false()
    };
    lemma_dec_digits_are_digits(t.id as nat);
    let r12 = seq!['}'] + rest;
    let r10 = seq![':'] + f + r12;
    let r9 = seq!['"'] + key_comp() + seq!['"'] + r10;
    let r8 = seq![','] + r9;
    let r6 = seq![':'] + (seq!['"'] + e + seq!['"'] + r8);
    let r5 = seq!['"'] + key_desc() + seq!['"'] + r6;
    let r4 = seq![','] + r5;
    let r2 = seq![':'] + (d + r4);
    let m = seq!['"'] + key_id() + seq!['"'] + r2;
    assert(spec_ser_task(t).drop_first() + rest =~= m);
    let f0 = empty_fields();
    // the id member
    assert(m[0] == '"');
    assert(!is_ws(m[0])) by {
        assert(('"' as u32) == 34);
    }
    assert(m.drop_first() =~= key_id() + seq!['"'] + r2);
    lemma_psb_plain(key_id(), r2);
    assert(r2[0] == ':' && !is_ws(r2[0]));
    assert(skip_ws(r2) == r2);
    assert(r2.drop_first() =~= d + r4);
    assert((d + r4)[0] == d[0] && is_digit(d[0]));
    assert(!is_ws((d + r4)[0])) by {
        assert(48 <= d[0] as u32 <= 57);
    }
    assert(skip_ws(d + r4) == d + r4);
    assert(r4[0] == ',');
    lemma_member_value_num(t.id, r4);
    let f1 = upd_field(f0, key_id(), GFieldVal::GU32(t.id));
    assert(f1 == GFields { id: Some(t.id), description: None, completed: None });
    assert(r4.len() < m.len()) by {
        assert(m.len() == 2 + key_id().len() + r2.len());
        assert(r2.len() == 1 + d.len() + r4.len());
    }
    assert(parse_members(m, f0, MPos::First) == parse_members(r4, f1, MPos::Sep));
    // the description member
    assert(!is_ws(r4[0])) by {
        assert((',' as u32) == 44);
    }
    assert(r4.drop_first() =~= r5);
    assert(parse_members(r4, f1, MPos::Sep) == parse_members(r5, f1, MPos::NextKey));
    assert(r5[0] == '"');
    assert(r5.drop_first() =~= key_desc() + seq!['"'] + r6);
    lemma_psb_plain(key_desc(), r6);
    assert(r6[0] == ':' && !is_ws(r6[0]));
    assert(skip_ws(r6) == r6);
    assert(r6.drop_first() =~= seq!['"'] + e + seq!['"'] + r8);
    assert((seq!['"'] + e + seq!['"'] + r8)[0] == '"');
    assert(!is_ws('"'));
    assert(skip_ws(seq!['"'] + e + seq!['"'] + r8) == seq!['"'] + e + seq!['"'] + r8);
    lemma_member_value_str(t.description, r8);
    assert(key_desc() != key_id()) by {
        assert(key_desc().len() != key_id().len());
    }
    let f2 = upd_field(f1, key_desc(), GFieldVal::GStr(t.description));
    assert(f2 == GFields { id: Some(t.id), description: Some(t.description), completed: None });
    assert(r8.len() < r5.len()) by {
        assert(r5.len() == 2 + key_desc().len() + r6.len());
        assert(r6.len() == 3 + e.len() + r8.len());
    }
    assert(parse_members(r5, f1, MPos::NextKey) == parse_members(r8, f2, MPos::Sep));
    // the completed member
    assert(r8[0] == ',' && !is_ws(r8[0]));
    assert(r8.drop_first() =~= r9);
    assert(parse_members(r8, f2, MPos::Sep) == parse_members(r9, f2, MPos::NextKey));
    assert(r9[0] == '"');
    assert(r9.drop_first() =~= key_comp() + seq!['"'] + r10);
    lemma_psb_plain(key_comp(), r10);
    assert(r10[0] == ':' && !is_ws(r10[0]));
    assert(skip_ws(r10) == r10);
    assert(r10.drop_first() =~= f + r12);
    assert((f + r12)[0] == f[0]);
    assert(f[0] == 't' || f[0] == 'f');
    assert(!is_ws((f + r12)[0]));
    assert(skip_ws(f + r12) == f + r12);
    lemma_member_value_bool(t.completed, r12);
    assert(key_comp() != key_id()) by {
        assert(key_comp().len() != key_id().len());
    }
    assert(key_comp() != key_desc()) by {
        assert(key_comp().len() != key_desc().len());
    }
    let f3 = upd_field(f2, key_comp(), GFieldVal::GBool(t.completed));
    assert(f3 == GFields {
        id: Some(t.id),
        description: Some(t.description),
        completed: Some(t.completed),
    });
    assert(r12.len() < r9.len()) by {
        assert(r9.len() == 2 + key_comp().len() + r10.len());
        assert(r10.len() == 1 + f.len() + r12.len());
    }
    assert(parse_members(r9, f2, MPos::NextKey) == parse_members(r12, f3, MPos::Sep));
    // the closing brace
    assert(r12[0] == '}' && !is_ws(r12[0]));
    assert(r12.drop_first() =~= rest);
    assert(parse_members(r12, f3, MPos::Sep) == Some((f3, rest)));
}

/// The element reader over the serialized elements collects exactly the
/// serialized tasks, appended to what it held.
proof fn lemma_elements_ser(ts: Seq<TaskView>, acc: Seq<TaskView>, pos: EPos)
    requires
        pos is First || (pos is NextElem && ts.len() >= 1),
    ensures
        parse_elements(spec_ser_elems(ts) + seq![']'], acc, pos) == Some(
            Result::<Seq<TaskView>, StoreError>::Ok(acc + ts),
        ),
    decreases ts.len(),
{
    let full = spec_ser_elems(ts) + seq![']'];
    if ts.len() == 0 {
        assert(full =~= seq![']']);
        assert(full[0] == ']' && !is_ws(full[0]));
        assert(acc + ts =~= acc);
    } else {
        let tail = if ts.len() == 1 {
            seq![']']
        } else {
            seq![','] + spec_ser_elems(ts.drop_first()) + seq![']']
        };
        assert(full =~= spec_ser_task(ts[0]) + tail);
        assert(spec_ser_task(ts[0])[0] == '{');
        assert(full[0] == '{');
        assert(!is_ws(full[0])) by {
            assert(('{' as u32) == 123);
        }
        assert(full.drop_first() =~= spec_ser_task(ts[0]).drop_first() + tail);
        lemma_members_task(ts[0], tail);
        let fv = GFields {
            id: Some(ts[0].id),
            description: Some(ts[0].description),
            completed: Some(ts[0].completed),
        };
        let tv = TaskView { id: ts[0].id, description: ts[0].description, completed: ts[0].completed };
        assert(tv == ts[0]);
        assert(tail.len() < full.len()) by {
            assert(full.len() == spec_ser_task(ts[0]).len() + tail.len());
            assert(spec_ser_task(ts[0]).len() >= lit_task_open().len());
        }
        assert(parse_elements(full, acc, pos) == parse_elements(tail, acc.push(ts[0]), EPos::Sep));
        if ts.len() == 1 {
            assert(tail[0] == ']' && !is_ws(tail[0]));
            assert(parse_elements(tail, acc.push(ts[0]), EPos::Sep) == Some(
                Result::<Seq<TaskView>, StoreError>::Ok(acc.push(ts[0])),
            ));
            assert(acc.push(ts[0]) =~= acc + ts);
        } else {
            assert(tail[0] == ',' && !is_ws(tail[0])) by {
                assert((',' as u32) == 44);
            }
            assert(tail.drop_first() =~= spec_ser_elems(ts.drop_first()) + seq![']']);
            assert(parse_elements(tail, acc.push(ts[0]), EPos::Sep) == parse_elements(
                spec_ser_elems(ts.drop_first()) + seq![']'],
                acc.push(ts[0]),
                EPos::NextElem,
            ));
            lemma_elements_ser(ts.drop_first(), acc.push(ts[0]), EPos::NextElem);
            assert(acc.push(ts[0]) + ts.drop_first() =~= acc + ts);
        }
    }
}

/// Law: saving and then loading round-trips. Loading the exact text that
/// serialization produced succeeds and yields the very collection that was
/// saved — same ids, descriptions, completion flags, same order — for
/// every collection.
pub proof fn lemma_save_load_roundtrip(ts: Seq<TaskView>)
    ensures
        spec_load(spec_ser_tasks(ts)) == Result::<Seq<TaskView>, StoreError>::Ok(ts),
{
    let s = spec_ser_tasks(ts);
    lemma_ser_is_json(ts);
    assert(s[0] == '[');
    assert(!is_ws(s[0])) by {
        assert(('[' as u32) == 91);
    }
    assert(skip_ws(s) == s);
    assert(s.len() > 0);
    assert(s.drop_first() =~= spec_ser_elems(ts) + seq![']']);
    lemma_elements_ser(ts, Seq::empty(), EPos::First);
    assert(Seq::<TaskView>::empty() + ts =~= ts);
}

} // verus!
