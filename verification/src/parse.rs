//! Reading the backing file's JSON text back into a task collection.
//!
//! Loading makes two passes, as the store's contract orders its failures:
//! first the whole text must be one valid JSON document (anything else is a
//! parse failure), then the document must be an array (else a schema
//! failure), and each element must carry the three fields (else a schema
//! failure naming the first field missing or invalid, elements in order).

use vstd::prelude::*;
use crate::{Task, TaskView, views};
use crate::strutil::{is_digit, digit_val, digits_val, all_digits, str_to_chars,
    lemma_digits_val_take_le, chars_to_string};

verus! {

/// Why a load failed: the text is not JSON, not an array, or an element
/// lacks a field (or carries it with the wrong type).
#[derive(PartialEq, Eq, Structural, Clone, Copy, Debug)]
pub enum StoreError {
    ParseFailure,
    NotAnArray,
    BadId,
    BadDescription,
    BadCompleted,
}

impl StoreError {
    /// The report for this failure.
    pub fn message(&self) -> (s: String)
        ensures
            (*self == StoreError::ParseFailure) ==> s@ == "Failed to parse JSON"@,
            (*self == StoreError::NotAnArray) ==> s@ == "JSON must be an array"@,
            (*self == StoreError::BadId) ==> s@ == "Missing or invalid id"@,
            (*self == StoreError::BadDescription) ==> s@ == "Missing or invalid description"@,
            (*self == StoreError::BadCompleted) ==> s@ == "Missing or invalid completed"@,
    {
        match self {
            StoreError::ParseFailure => {
                let mut s = String::new();
                s.append("Failed to parse JSON");
                s
            },
            StoreError::NotAnArray => {
                let mut s = String::new();
                s.append("JSON must be an array");
                s
            },
            StoreError::BadId => {
                let mut s = String::new();
                s.append("Missing or invalid id");
                s
            },
            StoreError::BadDescription => {
                let mut s = String::new();
                s.append("Missing or invalid description");
                s
            },
            StoreError::BadCompleted => {
                let mut s = String::new();
                s.append("Missing or invalid completed");
                s
            },
        }
    }
}

/// JSON whitespace.
pub open spec fn is_ws(c: char) -> bool {
    c == ' ' || c == '\t' || c == '\n' || c == '\r'
}

/// Executable whitespace test matching [`is_ws`].
pub fn is_ws_exec(c: char) -> (r: bool)
    ensures
        r == is_ws(c),
{
    c == ' ' || c == '\t' || c == '\n' || c == '\r'
}

/// The text with leading JSON whitespace removed.
pub open spec fn skip_ws(t: Seq<char>) -> Seq<char>
    decreases t.len(),
{
    if t.len() > 0 && is_ws(t[0]) {
        skip_ws(t.drop_first())
    } else {
        t
    }
}

/// Whether `c` is a hexadecimal digit.
pub open spec fn is_hex(c: char) -> bool {
    is_digit(c) || (97 <= c as u32 <= 102) || (65 <= c as u32 <= 70)
}

/// The value of a hexadecimal digit.
pub open spec fn hex_val(c: char) -> nat {
    if is_digit(c) {
        digit_val(c)
    } else if 97 <= c as u32 {
        (c as u32 - 87) as nat
    } else {
        (c as u32 - 55) as nat
    }
}

/// Parses a JSON string body, entered after the opening quote: the decoded
/// characters, and the text after the closing quote. Control characters
/// must be escaped; a `\u` escape takes four hexadecimal digits and must
/// not name a surrogate.
pub open spec fn parse_string_body(t: Seq<char>) -> Option<(Seq<char>, Seq<char>)>
    decreases t.len(),
{
    if t.len() == 0 {
        None
    } else if t[0] == '"' {
        Some((Seq::empty(), t.drop_first()))
    } else if t[0] == '\\' {
        if t.len() < 2 {
            None
        } else if t[1] == 'u' {
            if t.len() < 6 {
                None
            } else if is_hex(t[2]) && is_hex(t[3]) && is_hex(t[4]) && is_hex(t[5]) {
                let v = hex_val(t[2]) * 4096 + hex_val(t[3]) * 256 + hex_val(t[4]) * 16 + hex_val(
                    t[5],
                );
                if v < 0xD800 || v >= 0xE000 {
                    match parse_string_body(t.skip(6)) {
                        None => None,
                        Some((cs, r)) => Some((seq![(v as u32) as char] + cs, r)),
                    }
                } else {
                    None
                }
            } else {
                None
            }
        } else {
            let e = t[1];
            let dc: Option<char> = if e == '"' {
                Some('"')
            } else if e == '\\' {
                Some('\\')
            } else if e == '/' {
                Some('/')
            } else if e == 'b' {
                Some('\u{8}')
            } else if e == 'f' {
                Some('\u{c}')
            } else if e == 'n' {
                Some('\n')
            } else if e == 'r' {
                Some('\r')
            } else if e == 't' {
                Some('\t')
            } else {
                None
            };
            match dc {
                None => None,
                Some(c) => match parse_string_body(t.skip(2)) {
                    None => None,
                    Some((cs, r)) => Some((seq![c] + cs, r)),
                },
            }
        }
    } else if (t[0] as u32) < 32 {
        None
    } else {
        match parse_string_body(t.drop_first()) {
            None => None,
            Some((cs, r)) => Some((seq![t[0]] + cs, r)),
        }
    }
}

/// A successful string parse consumes at least one character.
pub proof fn lemma_psb_shrinks(t: Seq<char>)
    ensures
        parse_string_body(t) matches Some((cs, r)) ==> r.len() < t.len(),
    decreases t.len(),
{
    if t.len() == 0 {
    } else if t[0] == '"' {
    } else if t[0] == '\\' {
        if t.len() >= 6 {
            lemma_psb_shrinks(t.skip(6));
        }
        if t.len() >= 2 {
            lemma_psb_shrinks(t.skip(2));
        }
    } else {
        lemma_psb_shrinks(t.drop_first());
    }
}

/// What surrounds a value being read: an array or an object.
#[derive(Clone, Copy)]
pub enum Ctx {
    InArray,
    InObject,
}

/// What the validator expects next.
#[derive(Clone, Copy)]
pub enum VState {
    /// A value.
    Value,
    /// A value or the `]` of an empty array.
    ValueOrClose,
    /// A separator or the close of the surrounding container.
    AfterValue,
    /// An object key.
    Key,
    /// An object key or the `}` of an empty object.
    KeyOrClose,
    /// The `:` after a key.
    Colon,
    /// The first digit of a number, after a minus sign.
    NumStart,
    /// After a leading zero.
    NumZero,
    /// Inside the integer digits.
    NumInt,
    /// After the decimal point, a digit still owed.
    NumFrac0,
    /// Inside the fraction digits.
    NumFrac,
    /// After the exponent letter: a sign or digit owed.
    NumExp0,
    /// After the exponent sign, a digit still owed.
    NumExp1,
    /// Inside the exponent digits.
    NumExp,
}

/// Steps that consume nothing may only lower this rank.
pub open spec fn st_rank(st: VState) -> int {
    if st is AfterValue {
        0
    } else {
        1
    }
}

/// Runs the JSON validator over the text: consumes exactly one value (with
/// surrounding whitespace handling as the states say) and returns the rest,
/// or nothing when the text breaks the grammar. Called on the whole
/// document with an empty stack and `Value`.
pub open spec fn skip_steps(t: Seq<char>, stack: Seq<Ctx>, st: VState) -> Option<Seq<char>>
    decreases t.len(), st_rank(st),
    via skip_steps_dec
{
    if st is AfterValue && stack.len() == 0 {
        Some(t)
    } else {
        match st {
            VState::NumStart => {
                if t.len() > 0 && t[0] == '0' {
                    skip_steps(t.drop_first(), stack, VState::NumZero)
                } else if t.len() > 0 && is_digit(t[0]) {
                    skip_steps(t.drop_first(), stack, VState::NumInt)
                } else {
                    None
                }
            },
            VState::NumZero => {
                if t.len() > 0 && t[0] == '.' {
                    skip_steps(t.drop_first(), stack, VState::NumFrac0)
                } else if t.len() > 0 && (t[0] == 'e' || t[0] == 'E') {
                    skip_steps(t.drop_first(), stack, VState::NumExp0)
                } else {
                    skip_steps(t, stack, VState::AfterValue)
                }
            },
            VState::NumInt => {
                if t.len() > 0 && is_digit(t[0]) {
                    skip_steps(t.drop_first(), stack, VState::NumInt)
                } else if t.len() > 0 && t[0] == '.' {
                    skip_steps(t.drop_first(), stack, VState::NumFrac0)
                } else if t.len() > 0 && (t[0] == 'e' || t[0] == 'E') {
                    skip_steps(t.drop_first(), stack, VState::NumExp0)
                } else {
                    skip_steps(t, stack, VState::AfterValue)
                }
            },
            VState::NumFrac0 => {
                if t.len() > 0 && is_digit(t[0]) {
                    skip_steps(t.drop_first(), stack, VState::NumFrac)
                } else {
                    None
                }
            },
            VState::NumFrac => {
                if t.len() > 0 && is_digit(t[0]) {
                    skip_steps(t.drop_first(), stack, VState::NumFrac)
                } else if t.len() > 0 && (t[0] == 'e' || t[0] == 'E') {
                    skip_steps(t.drop_first(), stack, VState::NumExp0)
                } else {
                    skip_steps(t, stack, VState::AfterValue)
                }
            },
            VState::NumExp0 => {
                if t.len() > 0 && (t[0] == '+' || t[0] == '-') {
                    skip_steps(t.drop_first(), stack, VState::NumExp1)
                } else if t.len() > 0 && is_digit(t[0]) {
                    skip_steps(t.drop_first(), stack, VState::NumExp)
                } else {
                    None
                }
            },
            VState::NumExp1 => {
                if t.len() > 0 && is_digit(t[0]) {
                    skip_steps(t.drop_first(), stack, VState::NumExp)
                } else {
                    None
                }
            },
            VState::NumExp => {
                if t.len() > 0 && is_digit(t[0]) {
                    skip_steps(t.drop_first(), stack, VState::NumExp)
                } else {
                    skip_steps(t, stack, VState::AfterValue)
                }
            },
            VState::AfterValue => {
                if t.len() == 0 {
                    None
                } else if is_ws(t[0]) {
                    skip_steps(t.drop_first(), stack, VState::AfterValue)
                } else if t[0] == ',' {
                    match stack.last() {
                        Ctx::InArray => skip_steps(t.drop_first(), stack, VState::Value),
                        Ctx::InObject => skip_steps(t.drop_first(), stack, VState::Key),
                    }
                } else if t[0] == ']' && stack.last() is InArray {
                    skip_steps(t.drop_first(), stack.drop_last(), VState::AfterValue)
                } else if t[0] == '}' && stack.last() is InObject {
                    skip_steps(t.drop_first(), stack.drop_last(), VState::AfterValue)
                } else {
                    None
                }
            },
            VState::Key => {
                if t.len() == 0 {
                    None
                } else if is_ws(t[0]) {
                    skip_steps(t.drop_first(), stack, VState::Key)
                } else if t[0] == '"' {
                    match parse_string_body(t.drop_first()) {
                        None => None,
                        Some((cs, r)) => skip_steps(r, stack, VState::Colon),
                    }
                } else {
                    None
                }
            },
            VState::KeyOrClose => {
                if t.len() == 0 {
                    None
                } else if is_ws(t[0]) {
                    skip_steps(t.drop_first(), stack, VState::KeyOrClose)
                } else if t[0] == '"' {
                    match parse_string_body(t.drop_first()) {
                        None => None,
                        Some((cs, r)) => skip_steps(r, stack, VState::Colon),
                    }
                } else if t[0] == '}' && stack.len() > 0 && stack.last() is InObject {
                    skip_steps(t.drop_first(), stack.drop_last(), VState::AfterValue)
                } else {
                    None
                }
            },
            VState::Colon => {
                if t.len() == 0 {
                    None
                } else if is_ws(t[0]) {
                    skip_steps(t.drop_first(), stack, VState::Colon)
                } else if t[0] == ':' {
                    skip_steps(t.drop_first(), stack, VState::Value)
                } else {
                    None
                }
            },
            _ => {
                // Value and ValueOrClose
                if t.len() == 0 {
                    None
                } else if is_ws(t[0]) {
                    skip_steps(t.drop_first(), stack, st)
                } else if t[0] == ']' {
                    if st is ValueOrClose && stack.len() > 0 && stack.last() is InArray {
                        skip_steps(t.drop_first(), stack.drop_last(), VState::AfterValue)
                    } else {
                        None
                    }
                } else if t[0] == '[' {
                    skip_steps(t.drop_first(), stack.push(Ctx::InArray), VState::ValueOrClose)
                } else if t[0] == '{' {
                    skip_steps(t.drop_first(), stack.push(Ctx::InObject), VState::KeyOrClose)
                } else if t[0] == '"' {
                    match parse_string_body(t.drop_first()) {
                        None => None,
                        Some((cs, r)) => skip_steps(r, stack, VState::AfterValue),
                    }
                } else if t[0] == 't' {
                    if t.len() >= 4 && t[1] == 'r' && t[2] == 'u' && t[3] == 'e' {
                        skip_steps(t.skip(4), stack, VState::AfterValue)
                    } else {
                        None
                    }
                } else if t[0] == 'f' {
                    if t.len() >= 5 && t[1] == 'a' && t[2] == 'l' && t[3] == 's' && t[4] == 'e' {
                        skip_steps(t.skip(5), stack, VState::AfterValue)
                    } else {
                        None
                    }
                } else if t[0] == 'n' {
                    if t.len() >= 4 && t[1] == 'u' && t[2] == 'l' && t[3] == 'l' {
                        skip_steps(t.skip(4), stack, VState::AfterValue)
                    } else {
                        None
                    }
                } else if t[0] == '-' {
                    skip_steps(t.drop_first(), stack, VState::NumStart)
                } else if t[0] == '0' {
                    skip_steps(t.drop_first(), stack, VState::NumZero)
                } else if is_digit(t[0]) {
                    skip_steps(t.drop_first(), stack, VState::NumInt)
                } else {
                    None
                }
            },
        }
    }
}

#[via_fn]
proof fn skip_steps_dec(t: Seq<char>, stack: Seq<Ctx>, st: VState) {
    if t.len() > 0 {
        match parse_string_body(t.drop_first()) {
            Some((cs, r)) => lemma_psb_shrinks(t.drop_first()),
            None => {},
        }
    }
}

/// Whether the text is one JSON document: a single value surrounded by
/// whitespace only.
pub open spec fn spec_is_json(s: Seq<char>) -> bool {
    match skip_steps(s, Seq::empty(), VState::Value) {
        Some(rest) => skip_ws(rest).len() == 0,
        None => false,
    }
}

/// The key `id`.
pub open spec fn key_id() -> Seq<char> {
    seq!['i', 'd']
}

/// The key `description`.
pub open spec fn key_desc() -> Seq<char> {
    seq!['d', 'e', 's', 'c', 'r', 'i', 'p', 't', 'i', 'o', 'n']
}

/// The key `completed`.
pub open spec fn key_comp() -> Seq<char> {
    seq!['c', 'o', 'm', 'p', 'l', 'e', 't', 'e', 'd']
}

/// A member value as the store reads it: an integer that fits a task id,
/// a string, a boolean, or anything else.
pub enum GFieldVal {
    GU32(u32),
    GStr(Seq<char>),
    GBool(bool),
    GOther,
}

/// The three fields collected from one element; a later member with the
/// same key overwrites an earlier one, and a wrong type counts as missing.
pub struct GFields {
    pub id: Option<u32>,
    pub description: Option<Seq<char>>,
    pub completed: Option<bool>,
}

/// No field seen yet.
pub open spec fn empty_fields() -> GFields {
    GFields { id: None, description: None, completed: None }
}

/// Records one member into the collected fields.
pub open spec fn upd_field(f: GFields, k: Seq<char>, v: GFieldVal) -> GFields {
    if k == key_id() {
        GFields {
            id: match v {
                GFieldVal::GU32(n) => Some(n),
                _ => None,
            },
            ..f
        }
    } else if k == key_desc() {
        GFields {
            description: match v {
                GFieldVal::GStr(cs) => Some(cs),
                _ => None,
            },
            ..f
        }
    } else if k == key_comp() {
        GFields {
            completed: match v {
                GFieldVal::GBool(b) => Some(b),
                _ => None,
            },
            ..f
        }
    } else {
        f
    }
}

/// Characters that can continue a number token.
pub open spec fn num_char(c: char) -> bool {
    is_digit(c) || c == '-' || c == '+' || c == '.' || c == 'e' || c == 'E'
}

/// Greedy split of the leading number-shaped token from the rest.
pub open spec fn scan_num(t: Seq<char>) -> (Seq<char>, Seq<char>)
    decreases t.len(),
{
    if t.len() > 0 && num_char(t[0]) {
        let (a, b) = scan_num(t.drop_first());
        (seq![t[0]] + a, b)
    } else {
        (Seq::empty(), t)
    }
}

/// Reads one member value: its classification and the rest of the text.
/// Runs after the whole document was validated, so it may read numbers
/// leniently: a token of digits that fits a `u32` is an id candidate,
/// any other number shape is just a value of another kind.
pub open spec fn parse_member_value(t: Seq<char>) -> Option<(GFieldVal, Seq<char>)> {
    if t.len() == 0 {
        None
    } else if t[0] == '"' {
        match parse_string_body(t.drop_first()) {
            None => None,
            Some((cs, r)) => Some((GFieldVal::GStr(cs), r)),
        }
    } else if t[0] == 't' {
        if t.len() >= 4 && t[1] == 'r' && t[2] == 'u' && t[3] == 'e' {
            Some((GFieldVal::GBool(true), t.skip(4)))
        } else {
            None
        }
    } else if t[0] == 'f' {
        if t.len() >= 5 && t[1] == 'a' && t[2] == 'l' && t[3] == 's' && t[4] == 'e' {
            Some((GFieldVal::GBool(false), t.skip(5)))
        } else {
            None
        }
    } else if t[0] == 'n' {
        if t.len() >= 4 && t[1] == 'u' && t[2] == 'l' && t[3] == 'l' {
            Some((GFieldVal::GOther, t.skip(4)))
        } else {
            None
        }
    } else if t[0] == '{' || t[0] == '[' {
        match skip_steps(t, Seq::empty(), VState::Value) {
            None => None,
            Some(r) => Some((GFieldVal::GOther, r)),
        }
    } else if num_char(t[0]) {
        let (tok, rest) = scan_num(t);
        if tok.len() > 0 && all_digits(tok) && digits_val(tok) <= u32::MAX {
            Some((GFieldVal::GU32(digits_val(tok) as u32), rest))
        } else {
            Some((GFieldVal::GOther, rest))
        }
    } else {
        None
    }
}

/// Where the member reader stands.
#[derive(Clone, Copy)]
pub enum MPos {
    /// Expecting the first key or an immediate `}`.
    First,
    /// Expecting a `,` before another key, or the closing `}`.
    Sep,
    /// Expecting a key after a comma.
    NextKey,
}

/// Reads an object's members, entered after the `{`: the collected fields
/// and the text after the closing `}`.
pub open spec fn parse_members(t: Seq<char>, f: GFields, pos: MPos) -> Option<(GFields, Seq<char>)>
    decreases t.len(),
{
    if t.len() == 0 {
        None
    } else if is_ws(t[0]) {
        parse_members(t.drop_first(), f, pos)
    } else if pos is Sep {
        if t[0] == ',' {
            parse_members(t.drop_first(), f, MPos::NextKey)
        } else if t[0] == '}' {
            Some((f, t.drop_first()))
        } else {
            None
        }
    } else if t[0] == '}' && pos is First {
        Some((f, t.drop_first()))
    } else if t[0] == '"' {
        match parse_string_body(t.drop_first()) {
            None => None,
            Some((k, r1)) => {
                let r2 = skip_ws(r1);
                if r2.len() > 0 && r2[0] == ':' {
                    let r3 = skip_ws(r2.drop_first());
                    match parse_member_value(r3) {
                        None => None,
                        Some((v, r4)) => if r4.len() < t.len() {
                            parse_members(r4, upd_field(f, k, v), MPos::Sep)
                        } else {
                            None
                        },
                    }
                } else {
                    None
                }
            },
        }
    } else {
        None
    }
}

/// Where the element reader stands.
#[derive(Clone, Copy)]
pub enum EPos {
    /// Expecting the first element or an immediate `]`.
    First,
    /// Expecting a `,` before another element, or the closing `]`.
    Sep,
    /// Expecting an element after a comma.
    NextElem,
}

/// Reads the array's elements, entered after the `[`: the tasks collected
/// so far grow element by element; the first element whose fields fall
/// short decides the schema failure, fields checked in the order id,
/// description, completed. An element that is no object has none of the
/// fields, so it fails on the id.
pub open spec fn parse_elements(t: Seq<char>, acc: Seq<TaskView>, pos: EPos) -> Option<
    Result<Seq<TaskView>, StoreError>,
>
    decreases t.len(),
{
    if t.len() == 0 {
        None
    } else if is_ws(t[0]) {
        parse_elements(t.drop_first(), acc, pos)
    } else if pos is Sep {
        if t[0] == ',' {
            parse_elements(t.drop_first(), acc, EPos::NextElem)
        } else if t[0] == ']' {
            Some(Ok(acc))
        } else {
            None
        }
    } else if t[0] == ']' && pos is First {
        Some(Ok(acc))
    } else if t[0] == '{' {
        match parse_members(t.drop_first(), empty_fields(), MPos::First) {
            None => None,
            Some((f, r)) => {
                if f.id is None {
                    Some(Err(StoreError::BadId))
                } else if f.description is None {
                    Some(Err(StoreError::BadDescription))
                } else if f.completed is None {
                    Some(Err(StoreError::BadCompleted))
                } else {
                    let tv = TaskView {
                        id: f.id->0,
                        description: f.description->0,
                        completed: f.completed->0,
                    };
                    if r.len() < t.len() {
                        parse_elements(r, acc.push(tv), EPos::Sep)
                    } else {
                        None
                    }
                }
            },
        }
    } else {
        Some(Err(StoreError::BadId))
    }
}

/// What loading the file's text yields: the collection, or the first
/// failure in the order the store checks — valid JSON, then an array,
/// then each element's fields.
pub open spec fn spec_load(s: Seq<char>) -> Result<Seq<TaskView>, StoreError> {
    if !spec_is_json(s) {
        Err(StoreError::ParseFailure)
    } else {
        let t = skip_ws(s);
        if t.len() == 0 {
            Err(StoreError::ParseFailure)
        } else if t[0] != '[' {
            Err(StoreError::NotAnArray)
        } else {
            match parse_elements(t.drop_first(), Seq::empty(), EPos::First) {
                Some(res) => res,
                None => Err(StoreError::ParseFailure),
            }
        }
    }
}

/// Characters casting to the same scalar are the same character.
proof fn lemma_char_eq(a: char, b: char)
    requires
        a as u32 == b as u32,
    ensures
        a == b,
{
    vstd::utf8::char_u32_cast(a, a as u32);
    vstd::utf8::char_u32_cast(b, a as u32);
}

/// Advances past JSON whitespace.
pub fn skip_ws_at(v: &Vec<char>, i: usize) -> (j: usize)
    requires
        i <= v@.len(),
    ensures
        i <= j <= v@.len(),
        skip_ws(v@.skip(i as int)) == v@.skip(j as int),
{
    let mut j = i;
    while j < v.len() && is_ws_exec(v[j])
        invariant
            i <= j <= v@.len(),
            skip_ws(v@.skip(i as int)) == skip_ws(v@.skip(j as int)),
        decreases v@.len() - j,
    {
        proof {
            assert(v@.skip(j as int).drop_first() =~= v@.skip(j + 1));
        }
        j = j + 1;
    }
    proof {
        if j < v.len() {
            assert(!is_ws(v@.skip(j as int)[0]));
        }
        assert(skip_ws(v@.skip(j as int)) == v@.skip(j as int));
    }
    j
}

/// Relies on `char::from_u32`: yields a character exactly for values that
/// are not surrogates and not above the largest scalar, and that character
/// casts back to the value.
#[verifier::external_body]
fn char_from_u32(v: u32) -> (r: Option<char>)
    ensures
        (r is Some) == (v < 0xD800 || (0xE000 <= v && v <= 0x10FFFF)),
        r matches Some(c) ==> c as u32 == v,
{
    char::from_u32(v)
}

/// Executable hexadecimal digit test matching [`is_hex`].
fn is_hex_exec(c: char) -> (r: bool)
    ensures
        r == is_hex(c),
{
    let v = c as u32;
    (48 <= v && v <= 57) || (97 <= v && v <= 102) || (65 <= v && v <= 70)
}

/// Executable hexadecimal digit value matching [`hex_val`].
fn hex_val_exec(c: char) -> (r: u32)
    requires
        is_hex(c),
    ensures
        r == hex_val(c),
        r < 16,
{
    let v = c as u32;
    if v <= 57 {
        v - 48
    } else if v >= 97 {
        v - 87
    } else {
        v - 55
    }
}

/// Reads a JSON string body starting at `i` (just after the opening
/// quote), exactly as [`parse_string_body`] describes.
fn psb_at(v: &Vec<char>, i: usize) -> (r: Option<(Vec<char>, usize)>)
    requires
        i <= v@.len(),
    ensures
        match parse_string_body(v@.skip(i as int)) {
            None => r is None,
            Some((cs, rest)) => r matches Some((out, j)) && out@ == cs && v@.skip(j as int) == rest
                && i < j <= v@.len(),
        },
{
    let ghost t0 = v@.skip(i as int);
    let mut out: Vec<char> = Vec::new();
    let mut cur = i;
    loop
        invariant
            i <= cur <= v@.len(),
            t0 == v@.skip(i as int),
            match parse_string_body(v@.skip(cur as int)) {
                None => parse_string_body(t0) is None,
                Some((cs2, r2)) => parse_string_body(t0) matches Some((cs, r)) && cs == out@ + cs2
                    && r == r2,
            },
        decreases v@.len() - cur,
    {
        let ghost t = v@.skip(cur as int);
        if cur == v.len() {
            return None;
        }
        let c = v[cur];
        assert(t[0] == c);
        if c == '"' {
            proof {
                assert(t.drop_first() =~= v@.skip(cur + 1));
                assert(out@ + Seq::<char>::empty() =~= out@);
            }
            return Some((out, cur + 1));
        }
        if c == '\\' {
            if v.len() - cur < 2 {
                assert(t.len() < 2);
                return None;
            }
            let e = v[cur + 1];
            assert(t[1] == e);
            if e == 'u' {
                if v.len() - cur < 6 {
                    assert(t.len() < 6);
                    return None;
                }
                let h2 = v[cur + 2];
                let h3 = v[cur + 3];
                let h4 = v[cur + 4];
                let h5 = v[cur + 5];
                assert(t[2] == h2 && t[3] == h3 && t[4] == h4 && t[5] == h5);
                if !(is_hex_exec(h2) && is_hex_exec(h3) && is_hex_exec(h4) && is_hex_exec(h5)) {
                    return None;
                }
                let code = hex_val_exec(h2) * 4096 + hex_val_exec(h3) * 256 + hex_val_exec(h4) * 16
                    + hex_val_exec(h5);
                if !(code < 0xD800 || code >= 0xE000) {
                    return None;
                }
                match char_from_u32(code) {
                    Some(dc) => {
                        proof {
                            vstd::utf8::char_u32_cast(dc, code);
                            assert(t.skip(6) =~= v@.skip(cur + 6));
                        }
                        out.push(dc);
                        proof {
                            match parse_string_body(v@.skip(cur + 6)) {
                                Some((cs3, r3)) => {
                                    assert(parse_string_body(t) matches Some((a, b)) && a == seq![
                                        dc,
                                    ] + cs3 && b == r3);
                                    assert(out@ + cs3 =~= (out@.drop_last()) + (seq![dc] + cs3));
                                },
                                None => {},
                            }
                        }
                        cur = cur + 6;
                    },
                    None => {
                        assert(false);
                        return None;
                    },
                }
            } else {
                let dc: Option<char> = if e == '"' {
                    Some('"')
                } else if e == '\\' {
                    Some('\\')
                } else if e == '/' {
                    Some('/')
                } else if e == 'b' {
                    Some('\u{8}')
                } else if e == 'f' {
                    Some('\u{c}')
                } else if e == 'n' {
                    Some('\n')
                } else if e == 'r' {
                    Some('\r')
                } else if e == 't' {
                    Some('\t')
                } else {
                    None
                };
                match dc {
                    None => {
                        return None;
                    },
                    Some(d) => {
                        proof {
                            assert(t.skip(2) =~= v@.skip(cur + 2));
                        }
                        out.push(d);
                        proof {
                            match parse_string_body(v@.skip(cur + 2)) {
                                Some((cs3, r3)) => {
                                    assert(parse_string_body(t) matches Some((a, b)) && a == seq![
                                        d,
                                    ] + cs3 && b == r3);
                                    assert(out@ + cs3 =~= (out@.drop_last()) + (seq![d] + cs3));
                                },
                                None => {},
                            }
                        }
                        cur = cur + 2;
                    },
                }
            }
        } else if (c as u32) < 32 {
            return None;
        } else {
            proof {
                assert(t.drop_first() =~= v@.skip(cur + 1));
            }
            out.push(c);
            proof {
                match parse_string_body(v@.skip(cur + 1)) {
                    Some((cs3, r3)) => {
                        assert(parse_string_body(t) matches Some((a, b)) && a == seq![c] + cs3 && b
                            == r3);
                        assert(out@ + cs3 =~= (out@.drop_last()) + (seq![c] + cs3));
                    },
                    None => {},
                }
            }
            cur = cur + 1;
        }
    }
}

/// Runs the JSON validator from `i` with an empty context: the position
/// after one whole value, or nothing when the grammar is broken.
fn skip_json_value(v: &Vec<char>, i: usize) -> (r: Option<usize>)
    requires
        i <= v@.len(),
    ensures
        match skip_steps(v@.skip(i as int), Seq::empty(), VState::Value) {
            None => r is None,
            Some(rest) => r matches Some(j) && i <= j <= v@.len() && v@.skip(j as int) == rest,
        },
{
    let mut stack: Vec<Ctx> = Vec::new();
    let mut st = VState::Value;
    let mut j = i;
    loop
        invariant
            i <= j <= v@.len(),
            skip_steps(v@.skip(i as int), Seq::empty(), VState::Value) == skip_steps(
                v@.skip(j as int),
                stack@,
                st,
            ),
        decreases v@.len() - j, st_rank(st),
    {
        let ghost t = v@.skip(j as int);
        proof {
            if j < v@.len() {
                assert(t[0] == v@[j as int]);
                assert(t.drop_first() =~= v@.skip(j + 1));
            }
        }
        match st {
            VState::AfterValue => {
                if stack.len() == 0 {
                    return Some(j);
                }
                if j == v.len() {
                    return None;
                }
                let c = v[j];
                if is_ws_exec(c) {
                    j = j + 1;
                } else if c == ',' {
                    proof {
                        assert(stack@.last() == stack@[stack@.len() - 1]);
                    }
                    match stack[stack.len() - 1] {
                        Ctx::InArray => {
                            st = VState::Value;
                        },
                        Ctx::InObject => {
                            st = VState::Key;
                        },
                    }
                    j = j + 1;
                } else if c == ']' {
                    match stack[stack.len() - 1] {
                        Ctx::InArray => {
                            let ghost s0 = stack@;
                            stack.pop();
                            proof {
                                assert(stack@ =~= s0.drop_last());
                            }
                            j = j + 1;
                        },
                        Ctx::InObject => {
                            return None;
                        },
                    }
                } else if c == '}' {
                    match stack[stack.len() - 1] {
                        Ctx::InObject => {
                            let ghost s0 = stack@;
                            stack.pop();
                            proof {
                                assert(stack@ =~= s0.drop_last());
                            }
                            j = j + 1;
                        },
                        Ctx::InArray => {
                            return None;
                        },
                    }
                } else {
                    return None;
                }
            },
            VState::Key | VState::KeyOrClose => {
                if j == v.len() {
                    return None;
                }
                let c = v[j];
                if is_ws_exec(c) {
                    j = j + 1;
                } else if c == '"' {
                    match psb_at(v, j + 1) {
                        None => {
                            return None;
                        },
                        Some((_k, j2)) => {
                            st = VState::Colon;
                            j = j2;
                        },
                    }
                } else if c == '}' {
                    let close_ok = match st {
                        VState::KeyOrClose => stack.len() > 0,
                        _ => false,
                    };
                    if close_ok {
                        match stack[stack.len() - 1] {
                            Ctx::InObject => {
                                let ghost s0 = stack@;
                                stack.pop();
                                proof {
                                    assert(stack@ =~= s0.drop_last());
                                }
                                st = VState::AfterValue;
                                j = j + 1;
                            },
                            Ctx::InArray => {
                                return None;
                            },
                        }
                    } else {
                        return None;
                    }
                } else {
                    return None;
                }
            },
            VState::Colon => {
                if j == v.len() {
                    return None;
                }
                let c = v[j];
                if is_ws_exec(c) {
                    j = j + 1;
                } else if c == ':' {
                    st = VState::Value;
                    j = j + 1;
                } else {
                    return None;
                }
            },
            VState::Value | VState::ValueOrClose => {
                if j == v.len() {
                    return None;
                }
                let c = v[j];
                if is_ws_exec(c) {
                    j = j + 1;
                } else if c == ']' {
                    let close_ok = match st {
                        VState::ValueOrClose => stack.len() > 0,
                        _ => false,
                    };
                    if close_ok {
                        match stack[stack.len() - 1] {
                            Ctx::InArray => {
                                let ghost s0 = stack@;
                                stack.pop();
                                proof {
                                    assert(stack@ =~= s0.drop_last());
                                }
                                st = VState::AfterValue;
                                j = j + 1;
                            },
                            Ctx::InObject => {
                                return None;
                            },
                        }
                    } else {
                        return None;
                    }
                } else if c == '[' {
                    let ghost s0 = stack@;
                    stack.push(Ctx::InArray);
                    proof {
                        assert(stack@ =~= s0.push(Ctx::InArray));
                    }
                    st = VState::ValueOrClose;
                    j = j + 1;
                } else if c == '{' {
                    let ghost s0 = stack@;
                    stack.push(Ctx::InObject);
                    proof {
                        assert(stack@ =~= s0.push(Ctx::InObject));
                    }
                    st = VState::KeyOrClose;
                    j = j + 1;
                } else if c == '"' {
                    match psb_at(v, j + 1) {
                        None => {
                            return None;
                        },
                        Some((_cs, j2)) => {
                            st = VState::AfterValue;
                            j = j2;
                        },
                    }
                } else if c == 't' {
                    if v.len() - j >= 4 && v[j + 1] == 'r' && v[j + 2] == 'u' && v[j + 3] == 'e' {
                        proof {
                            assert(t.skip(4) =~= v@.skip(j + 4));
                        }
                        st = VState::AfterValue;
                        j = j + 4;
                    } else {
                        return None;
                    }
                } else if c == 'f' {
                    if v.len() - j >= 5 && v[j + 1] == 'a' && v[j + 2] == 'l' && v[j + 3] == 's'
                        && v[j + 4] == 'e' {
                        proof {
                            assert(t.skip(5) =~= v@.skip(j + 5));
                        }
                        st = VState::AfterValue;
                        j = j + 5;
                    } else {
                        return None;
                    }
                } else if c == 'n' {
                    if v.len() - j >= 4 && v[j + 1] == 'u' && v[j + 2] == 'l' && v[j + 3] == 'l' {
                        proof {
                            assert(t.skip(4) =~= v@.skip(j + 4));
                        }
                        st = VState::AfterValue;
                        j = j + 4;
                    } else {
                        return None;
                    }
                } else if c == '-' {
                    st = VState::NumStart;
                    j = j + 1;
                } else if c == '0' {
                    st = VState::NumZero;
                    j = j + 1;
                } else if 49 <= (c as u32) && (c as u32) <= 57 {
                    assert(is_digit(c));
                    st = VState::NumInt;
                    j = j + 1;
                } else {
                    proof {
                        if (t[0] as u32) == 48 {
                            lemma_char_eq(t[0], '0');
                        }
                        assert(!is_digit(t[0]));
                    }
                    return None;
                }
            },
            VState::NumStart => {
                if j < v.len() && v[j] == '0' {
                    st = VState::NumZero;
                    j = j + 1;
                } else if j < v.len() && 49 <= (v[j] as u32) && (v[j] as u32) <= 57 {
                    assert(is_digit(t[0]));
                    st = VState::NumInt;
                    j = j + 1;
                } else {
                    proof {
                        if j < v@.len() {
                            if (t[0] as u32) == 48 {
                                lemma_char_eq(t[0], '0');
                            }
                            assert(!is_digit(t[0]));
                        }
                    }
                    return None;
                }
            },
            VState::NumZero => {
                if j < v.len() && v[j] == '.' {
                    st = VState::NumFrac0;
                    j = j + 1;
                } else if j < v.len() && (v[j] == 'e' || v[j] == 'E') {
                    st = VState::NumExp0;
                    j = j + 1;
                } else {
                    st = VState::AfterValue;
                }
            },
            VState::NumInt => {
                if j < v.len() && 48 <= (v[j] as u32) && (v[j] as u32) <= 57 {
                    assert(is_digit(t[0]));
                    st = VState::NumInt;
                    j = j + 1;
                } else if j < v.len() && v[j] == '.' {
                    st = VState::NumFrac0;
                    j = j + 1;
                } else if j < v.len() && (v[j] == 'e' || v[j] == 'E') {
                    st = VState::NumExp0;
                    j = j + 1;
                } else {
                    proof {
                        if j < v@.len() {
                            assert(!is_digit(t[0]));
                        }
                    }
                    st = VState::AfterValue;
                }
            },
            VState::NumFrac0 => {
                if j < v.len() && 48 <= (v[j] as u32) && (v[j] as u32) <= 57 {
                    assert(is_digit(t[0]));
                    st = VState::NumFrac;
                    j = j + 1;
                } else {
                    proof {
                        if j < v@.len() {
                            assert(!is_digit(t[0]));
                        }
                    }
                    return None;
                }
            },
            VState::NumFrac => {
                if j < v.len() && 48 <= (v[j] as u32) && (v[j] as u32) <= 57 {
                    assert(is_digit(t[0]));
                    st = VState::NumFrac;
                    j = j + 1;
                } else if j < v.len() && (v[j] == 'e' || v[j] == 'E') {
                    st = VState::NumExp0;
                    j = j + 1;
                } else {
                    proof {
                        if j < v@.len() {
                            assert(!is_digit(t[0]));
                        }
                    }
                    st = VState::AfterValue;
                }
            },
            VState::NumExp0 => {
                if j < v.len() && (v[j] == '+' || v[j] == '-') {
                    st = VState::NumExp1;
                    j = j + 1;
                } else if j < v.len() && 48 <= (v[j] as u32) && (v[j] as u32) <= 57 {
                    assert(is_digit(t[0]));
                    st = VState::NumExp;
                    j = j + 1;
                } else {
                    proof {
                        if j < v@.len() {
                            assert(!is_digit(t[0]));
                        }
                    }
                    return None;
                }
            },
            VState::NumExp1 => {
                if j < v.len() && 48 <= (v[j] as u32) && (v[j] as u32) <= 57 {
                    assert(is_digit(t[0]));
                    st = VState::NumExp;
                    j = j + 1;
                } else {
                    proof {
                        if j < v@.len() {
                            assert(!is_digit(t[0]));
                        }
                    }
                    return None;
                }
            },
            VState::NumExp => {
                if j < v.len() && 48 <= (v[j] as u32) && (v[j] as u32) <= 57 {
                    assert(is_digit(t[0]));
                    st = VState::NumExp;
                    j = j + 1;
                } else {
                    proof {
                        if j < v@.len() {
                            assert(!is_digit(t[0]));
                        }
                    }
                    st = VState::AfterValue;
                }
            },
        }
    }
}

/// Whether the characters equal the string slice's characters.
fn chars_eq_str(k: &Vec<char>, s: &str) -> (r: bool)
    ensures
        r == (k@ == s@),
{
    let n = s.unicode_len();
    if k.len() != n {
        return false;
    }
    let mut i: usize = 0;
    while i < n
        invariant
            i <= n,
            n == s@.len(),
            n == k@.len(),
            forall|q: int| 0 <= q < i ==> k@[q] == s@[q],
        decreases n - i,
    {
        if k[i] != s.get_char(i) {
            return false;
        }
        i = i + 1;
    }
    proof {
        assert(k@ =~= s@);
    }
    true
}

/// Executable number-token character test matching [`num_char`].
fn num_char_exec(c: char) -> (r: bool)
    ensures
        r == num_char(c),
{
    let v = c as u32;
    (48 <= v && v <= 57) || c == '-' || c == '+' || c == '.' || c == 'e' || c == 'E'
}

/// The value of the digit run `v[i..j]`, if it is one and fits a `u32`.
fn digits_value(v: &Vec<char>, i: usize, j: usize) -> (r: Option<u32>)
    requires
        i <= j <= v@.len(),
    ensures
        ({
            let ds = v@.subrange(i as int, j as int);
            match r {
                Some(n) => all_digits(ds) && n == digits_val(ds),
                None => !(all_digits(ds) && digits_val(ds) <= u32::MAX),
            }
        }),
{
    let ghost ds = v@.subrange(i as int, j as int);
    let mut p: usize = i;
    let mut acc: u64 = 0;
    while p < j
        invariant
            i <= p <= j <= v@.len(),
            ds == v@.subrange(i as int, j as int),
            all_digits(ds.take(p - i)),
            acc == digits_val(ds.take(p - i)),
            acc <= u32::MAX,
        decreases j - p,
    {
        let c = v[p];
        let cv = c as u32;
        proof {
            assert(ds[p - i] == v@[p as int]);
        }
        if cv < 48 || cv > 57 {
            assert(!is_digit(ds[p - i]));
            return None;
        }
        proof {
            assert(ds.take(p - i + 1).drop_last() =~= ds.take(p - i));
            assert(ds.take(p - i + 1).last() == c);
        }
        let next: u64 = acc * 10 + ((cv - 48) as u64);
        assert(next == digits_val(ds.take(p - i + 1)));
        if next > 0xffff_ffff {
            proof {
                lemma_digits_val_take_le(ds, p - i + 1);
            }
            return None;
        }
        assert(forall|q: int| 0 <= q < p - i + 1 ==> is_digit(#[trigger] ds.take(p - i + 1)[q]));
        acc = next;
        p = p + 1;
    }
    proof {
        assert(ds.take(j - i) =~= ds);
    }
    Some(acc as u32)
}

/// A member value as the reader hands it on.
pub enum FieldValE {
    EU32(u32),
    EStr(String),
    EBool(bool),
    EOther,
}

/// The model of a read member value.
pub open spec fn fv_view(e: FieldValE) -> GFieldVal {
    match e {
        FieldValE::EU32(n) => GFieldVal::GU32(n),
        FieldValE::EStr(s) => GFieldVal::GStr(s@),
        FieldValE::EBool(b) => GFieldVal::GBool(b),
        FieldValE::EOther => GFieldVal::GOther,
    }
}

/// Reads one member value from `i`, exactly as [`parse_member_value`]
/// describes.
fn parse_member_value_at(v: &Vec<char>, i: usize) -> (r: Option<(FieldValE, usize)>)
    requires
        i <= v@.len(),
    ensures
        match parse_member_value(v@.skip(i as int)) {
            None => r is None,
            Some((gv, rest)) => r matches Some((ev, j)) && fv_view(ev) == gv && v@.skip(j as int)
                == rest && i <= j <= v@.len(),
        },
{
    let ghost t = v@.skip(i as int);
    if i == v.len() {
        return None;
    }
    let c = v[i];
    proof {
        assert(t[0] == c);
        assert(t.drop_first() =~= v@.skip(i + 1));
    }
    if c == '"' {
        match psb_at(v, i + 1) {
            None => None,
            Some((cs, j)) => {
                let d = chars_to_string(&cs);
                Some((FieldValE::EStr(d), j))
            },
        }
    } else if c == 't' {
        if v.len() - i >= 4 && v[i + 1] == 'r' && v[i + 2] == 'u' && v[i + 3] == 'e' {
            proof {
                assert(t.skip(4) =~= v@.skip(i + 4));
            }
            Some((FieldValE::EBool(true), i + 4))
        } else {
            None
        }
    } else if c == 'f' {
        if v.len() - i >= 5 && v[i + 1] == 'a' && v[i + 2] == 'l' && v[i + 3] == 's' && v[i + 4]
            == 'e' {
            proof {
                assert(t.skip(5) =~= v@.skip(i + 5));
            }
            Some((FieldValE::EBool(false), i + 5))
        } else {
            None
        }
    } else if c == 'n' {
        if v.len() - i >= 4 && v[i + 1] == 'u' && v[i + 2] == 'l' && v[i + 3] == 'l' {
            proof {
                assert(t.skip(4) =~= v@.skip(i + 4));
            }
            Some((FieldValE::EOther, i + 4))
        } else {
            None
        }
    } else if c == '{' || c == '[' {
        match skip_json_value(v, i) {
            None => None,
            Some(j) => Some((FieldValE::EOther, j)),
        }
    } else if num_char_exec(c) {
        let mut j = i;
        while j < v.len() && num_char_exec(v[j])
            invariant
                i <= j <= v@.len(),
                t == v@.skip(i as int),
                forall|q: int| i <= q < j ==> num_char(#[trigger] v@[q]),
                scan_num(t) == (v@.subrange(i as int, j as int) + scan_num(v@.skip(j as int)).0,
                    scan_num(v@.skip(j as int)).1),
            decreases v@.len() - j,
        {
            proof {
                assert(v@.skip(j as int)[0] == v@[j as int]);
                assert(v@.skip(j as int).drop_first() =~= v@.skip(j + 1));
                assert(v@.subrange(i as int, j + 1) =~= v@.subrange(i as int, j as int) + seq![
                    v@[j as int],
                ]);
                assert(v@.subrange(i as int, j + 1) + scan_num(v@.skip(j + 1)).0 =~= v@.subrange(
                    i as int,
                    j as int,
                ) + (seq![v@[j as int]] + scan_num(v@.skip(j + 1)).0));
            }
            j = j + 1;
        }
        proof {
            if j < v@.len() {
                assert(!num_char(v@.skip(j as int)[0]));
            }
            assert(scan_num(v@.skip(j as int)) == (Seq::<char>::empty(), v@.skip(j as int)));
            assert(v@.subrange(i as int, j as int) + Seq::<char>::empty() =~= v@.subrange(
                i as int,
                j as int,
            ));
            assert(scan_num(t).0 == v@.subrange(i as int, j as int));
            assert(scan_num(t).1 == v@.skip(j as int));
        }
        if j == i {
            // the first character is in the token set, so the token is never empty
            assert(false);
            return None;
        }
        match digits_value(v, i, j) {
            Some(n) => Some((FieldValE::EU32(n), j)),
            None => Some((FieldValE::EOther, j)),
        }
    } else {
        None
    }
}

/// The three fields as the reader collects them.
pub struct FieldsAcc {
    pub id: Option<u32>,
    pub description: Option<String>,
    pub completed: Option<bool>,
}

/// The model of collected fields.
pub open spec fn fields_view(f: FieldsAcc) -> GFields {
    GFields {
        id: f.id,
        description: match f.description {
            Some(s) => Some(s@),
            None => None,
        },
        completed: f.completed,
    }
}

/// Reads an object's members from `i` (just after the `{`), exactly as
/// [`parse_members`] describes.
fn parse_members_at(v: &Vec<char>, i: usize, f: FieldsAcc, pos: MPos) -> (r: Option<
    (FieldsAcc, usize),
>)
    requires
        i <= v@.len(),
    ensures
        match parse_members(v@.skip(i as int), fields_view(f), pos) {
            None => r is None,
            Some((g, rest)) => r matches Some((fo, j)) && fields_view(fo) == g && v@.skip(j as int)
                == rest && i <= j <= v@.len(),
        },
    decreases v@.len() - i,
{
    let ghost t = v@.skip(i as int);
    if i == v.len() {
        return None;
    }
    let c = v[i];
    proof {
        assert(t[0] == c);
        assert(t.drop_first() =~= v@.skip(i + 1));
    }
    if is_ws_exec(c) {
        return parse_members_at(v, i + 1, f, pos);
    }
    let at_sep = match pos {
        MPos::Sep => true,
        _ => false,
    };
    if at_sep {
        if c == ',' {
            parse_members_at(v, i + 1, f, MPos::NextKey)
        } else if c == '}' {
            Some((f, i + 1))
        } else {
            None
        }
    } else {
        let at_first = match pos {
            MPos::First => true,
            _ => false,
        };
        if c == '}' && at_first {
            Some((f, i + 1))
        } else if c == '"' {
            match psb_at(v, i + 1) {
                None => None,
                Some((k, j1)) => {
                    let j2 = skip_ws_at(v, j1);
                    if j2 < v.len() && v[j2] == ':' {
                        proof {
                            assert(v@.skip(j2 as int)[0] == v@[j2 as int]);
                            assert(v@.skip(j2 as int).drop_first() =~= v@.skip(j2 + 1));
                        }
                        let j3 = skip_ws_at(v, j2 + 1);
                        match parse_member_value_at(v, j3) {
                            None => None,
                            Some((ev, j4)) => {
                                proof {
                                    assert(v@.skip(j4 as int).len() < t.len());
                                }
                                let f2 = if chars_eq_str(&k, "id") {
                                    proof {
                                        reveal_strlit("id");
                                        assert("id"@ =~= key_id());
                                    }
                                    FieldsAcc {
                                        id: match ev {
                                            FieldValE::EU32(n) => Some(n),
                                            _ => None,
                                        },
                                        ..f
                                    }
                                } else if chars_eq_str(&k, "description") {
                                    proof {
                                        reveal_strlit("description");
                                        assert("description"@ =~= key_desc());
                                    }
                                    FieldsAcc {
                                        description: match ev {
                                            FieldValE::EStr(cs) => Some(cs),
                                            _ => None,
                                        },
                                        ..f
                                    }
                                } else if chars_eq_str(&k, "completed") {
                                    proof {
                                        reveal_strlit("completed");
                                        assert("completed"@ =~= key_comp());
                                    }
                                    FieldsAcc {
                                        completed: match ev {
                                            FieldValE::EBool(b) => Some(b),
                                            _ => None,
                                        },
                                        ..f
                                    }
                                } else {
                                    proof {
                                        reveal_strlit("id");
                                        reveal_strlit("description");
                                        reveal_strlit("completed");
                                        assert("id"@ =~= key_id());
                                        assert("description"@ =~= key_desc());
                                        assert("completed"@ =~= key_comp());
                                    }
                                    f
                                };
                                proof {
                                    assert(fields_view(f2) == upd_field(
                                        fields_view(f),
                                        k@,
                                        fv_view(ev),
                                    ));
                                }
                                parse_members_at(v, j4, f2, MPos::Sep)
                            },
                        }
                    } else {
                        proof {
                            if j2 < v@.len() {
                                assert(v@.skip(j2 as int)[0] == v@[j2 as int]);
                            }
                        }
                        None
                    }
                },
            }
        } else {
            None
        }
    }
}

/// Reads the array's elements from `i` (just after the `[`), exactly as
/// [`parse_elements`] describes.
fn parse_elements_at(v: &Vec<char>, i: usize, tasks: Vec<Task>, pos: EPos) -> (r: Option<
    Result<Vec<Task>, StoreError>,
>)
    requires
        i <= v@.len(),
    ensures
        match parse_elements(v@.skip(i as int), views(tasks@), pos) {
            None => r is None,
            Some(Ok(ts)) => r matches Some(Ok(out)) && views(out@) == ts,
            Some(Err(e)) => r == Some(Result::<Vec<Task>, StoreError>::Err(e)),
        },
    decreases v@.len() - i,
{
    let ghost t = v@.skip(i as int);
    if i == v.len() {
        return None;
    }
    let c = v[i];
    proof {
        assert(t[0] == c);
        assert(t.drop_first() =~= v@.skip(i + 1));
    }
    if is_ws_exec(c) {
        return parse_elements_at(v, i + 1, tasks, pos);
    }
    let at_sep = match pos {
        EPos::Sep => true,
        _ => false,
    };
    if at_sep {
        if c == ',' {
            parse_elements_at(v, i + 1, tasks, EPos::NextElem)
        } else if c == ']' {
            Some(Ok(tasks))
        } else {
            None
        }
    } else {
        let at_first = match pos {
            EPos::First => true,
            _ => false,
        };
        if c == ']' && at_first {
            Some(Ok(tasks))
        } else if c == '{' {
            match parse_members_at(
                v,
                i + 1,
                FieldsAcc { id: None, description: None, completed: None },
                MPos::First,
            ) {
                None => None,
                Some((f, j)) => {
                    proof {
                        assert(fields_view(
                            FieldsAcc { id: None, description: None, completed: None },
                        ) == empty_fields());
                    }
                    match f.id {
                        None => Some(Err(StoreError::BadId)),
                        Some(id) => match f.description {
                            None => Some(Err(StoreError::BadDescription)),
                            Some(description) => match f.completed {
                                None => Some(Err(StoreError::BadCompleted)),
                                Some(completed) => {
                                    let task = Task { id, description, completed };
                                    let mut tasks2 = tasks;
                                    let ghost vs0 = views(tasks2@);
                                    tasks2.push(task);
                                    proof {
                                        assert(v@.skip(j as int).len() < t.len());
                                        assert(views(tasks2@) =~= vs0.push(task@));
                                    }
                                    parse_elements_at(v, j, tasks2, EPos::Sep)
                                },
                            },
                        },
                    }
                },
            }
        } else {
            Some(Err(StoreError::BadId))
        }
    }
}

/// Reads the backing file's text into the task collection, or the first
/// failure, exactly as [`spec_load`] describes.
pub fn parse_tasks(s: &str) -> (r: Result<Vec<Task>, StoreError>)
    ensures
        match spec_load(s@) {
            Ok(ts) => r matches Ok(out) && views(out@) == ts,
            Err(e) => r == Result::<Vec<Task>, StoreError>::Err(e),
        },
{
    let v = str_to_chars(s);
    proof {
        assert(v@.skip(0) =~= v@);
    }
    let valid = match skip_json_value(&v, 0) {
        None => false,
        Some(j) => {
            let j2 = skip_ws_at(&v, j);
            j2 == v.len()
        },
    };
    proof {
        match skip_steps(v@, Seq::empty(), VState::Value) {
            Some(rest) => {
                assert(skip_ws(rest).len() == 0 ==> valid);
            },
            None => {},
        }
    }
    if !valid {
        return Err(StoreError::ParseFailure);
    }
    let t0 = skip_ws_at(&v, 0);
    if t0 == v.len() {
        return Err(StoreError::ParseFailure);
    }
    proof {
        assert(v@.skip(t0 as int)[0] == v@[t0 as int]);
        assert(v@.skip(t0 as int).drop_first() =~= v@.skip(t0 + 1));
    }
    if v[t0] != '[' {
        return Err(StoreError::NotAnArray);
    }
    let empty: Vec<Task> = Vec::new();
    proof {
        assert(views(empty@) =~= Seq::<TaskView>::empty());
    }
    match parse_elements_at(&v, t0 + 1, empty, EPos::First) {
        Some(res) => res,
        None => Err(StoreError::ParseFailure),
    }
}

/// Loads the collection from what the backing file held: a missing file is
/// an empty collection, not a failure; otherwise the text decides, as
/// [`spec_load`] describes.
pub fn load_tasks(content: Option<&str>) -> (r: Result<Vec<Task>, StoreError>)
    ensures
        content is None ==> (r matches Ok(out) && out@.len() == 0),
        content matches Some(s) ==> match spec_load(s@) {
            Ok(ts) => r matches Ok(out) && views(out@) == ts,
            Err(e) => r == Result::<Vec<Task>, StoreError>::Err(e),
        },
{
    match content {
        None => Ok(Vec::new()),
        Some(s) => parse_tasks(s),
    }
}

} // verus!
