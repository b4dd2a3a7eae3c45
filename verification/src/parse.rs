//! A parser for the wire text. It recognises JSON: whitespace between
//! tokens, the full escape set including `\uXXXX`, and any JSON value —
//! numbers, `null`, nested objects and arrays decode as the opaque value,
//! so unknown members of any shape pass through. Decoding never trusts
//! member order; the malformed-text error is reserved for text that is not
//! JSON at all, the schema errors are decided at the object layer.

use vstd::prelude::*;
use crate::json::{ValV, FieldV, JsonVal, JsonField, fields_view, esc_char, esc_str, hex_digit,
    str_lit, enc_items, enc_val, enc_field, enc_fields, enc_obj};
use crate::strutil::{push_char, char_from_u32};

verus! {

/// The four JSON whitespace characters.
pub open spec fn is_ws(c: char) -> bool {
    c == ' ' || c == '\t' || c == '\n' || c == '\r'
}

/// The text with its leading whitespace dropped.
pub open spec fn skip_ws(s: Seq<char>) -> Seq<char>
    decreases s.len(),
{
    if s.len() > 0 && is_ws(s[0]) {
        skip_ws(s.drop_first())
    } else {
        s
    }
}

/// Skipping whitespace never lengthens the text.
pub proof fn lemma_skip_ws_len(s: Seq<char>)
    ensures
        skip_ws(s).len() <= s.len(),
    decreases s.len(),
{
    if s.len() > 0 && is_ws(s[0]) {
        lemma_skip_ws_len(s.drop_first());
    }
}

/// A decimal digit.
pub open spec fn is_digit(c: char) -> bool {
    48 <= (c as u32) && (c as u32) <= 57
}

/// The value of a hexadecimal digit, either case.
pub open spec fn hex_val(c: char) -> Option<int> {
    if is_digit(c) {
        Some((c as u32) as int - 48)
    } else if 97 <= (c as u32) && (c as u32) <= 102 {
        Some((c as u32) as int - 87)
    } else if 65 <= (c as u32) && (c as u32) <= 70 {
        Some((c as u32) as int - 55)
    } else {
        None
    }
}

/// Reading back the emitted lowercase digit gives the value.
pub proof fn lemma_hex_val_digit(n: int)
    requires
        0 <= n < 16,
    ensures
        hex_val(hex_digit(n)) == Some(n),
{
}

/// The character a short escape stands for, if it is one.
pub open spec fn unesc(c: char) -> Option<char> {
    if c == '"' {
        Some('"')
    } else if c == '\\' {
        Some('\\')
    } else if c == '/' {
        Some('/')
    } else if c == 'n' {
        Some('\n')
    } else if c == 'r' {
        Some('\r')
    } else if c == 't' {
        Some('\t')
    } else if c == 'b' {
        Some('\u{0008}')
    } else if c == 'f' {
        Some('\u{000C}')
    } else {
        None
    }
}

/// The value of the four hex digits at the given offset, if all four are
/// hex digits.
pub open spec fn hex4_at(s: Seq<char>, i: int) -> Option<int> {
    if hex_val(s[i]) is Some && hex_val(s[i + 1]) is Some && hex_val(s[i + 2]) is Some
        && hex_val(s[i + 3]) is Some {
        Some(
            hex_val(s[i])->Some_0 * 4096 + hex_val(s[i + 1])->Some_0 * 256
                + hex_val(s[i + 2])->Some_0 * 16 + hex_val(s[i + 3])->Some_0,
        )
    } else {
        None
    }
}

/// Parses a string body up to and including its closing quote; yields the
/// unescaped content and the text after the quote. A `\uXXXX` escape must
/// name a Unicode scalar, or be a high surrogate completed by a low one;
/// a lone surrogate is malformed.
pub open spec fn sp_str_body(s: Seq<char>) -> Option<(Seq<char>, Seq<char>)>
    decreases s.len(),
{
    if s.len() == 0 {
        None
    } else if s[0] == '"' {
        Some((Seq::<char>::empty(), s.drop_first()))
    } else if s[0] == '\\' {
        if s.len() < 2 {
            None
        } else if s[1] == 'u' {
            if s.len() < 6 {
                None
            } else if hex4_at(s, 2) is Some {
                let code = hex4_at(s, 2)->Some_0;
                if code < 0xD800 || code >= 0xE000 {
                    match sp_str_body(s.skip(6)) {
                        Some(r) => Some((seq![((code as u32) as char)] + r.0, r.1)),
                        None => None,
                    }
                } else if code < 0xDC00 && s.len() >= 12 && s[6] == '\\' && s[7] == 'u'
                    && hex4_at(s, 8) is Some && 0xDC00 <= hex4_at(s, 8)->Some_0 < 0xE000 {
                    let scalar = 0x10000 + (code - 0xD800) * 0x400
                        + (hex4_at(s, 8)->Some_0 - 0xDC00);
                    match sp_str_body(s.skip(12)) {
                        Some(r) => Some((seq![((scalar as u32) as char)] + r.0, r.1)),
                        None => None,
                    }
                } else {
                    None
                }
            } else {
                None
            }
        } else {
            match unesc(s[1]) {
                Some(c) => match sp_str_body(s.skip(2)) {
                    Some(r) => Some((seq![c] + r.0, r.1)),
                    None => None,
                },
                None => None,
            }
        }
    } else {
        match sp_str_body(s.drop_first()) {
            Some(r) => Some((seq![s[0]] + r.0, r.1)),
            None => None,
        }
    }
}

/// Parses a quoted string literal.
pub open spec fn sp_string(s: Seq<char>) -> Option<(Seq<char>, Seq<char>)> {
    if s.len() > 0 && s[0] == '"' {
        sp_str_body(s.drop_first())
    } else {
        None
    }
}

/// A string body consumes at least its closing quote.
pub proof fn lemma_sp_str_body_len(s: Seq<char>)
    ensures
        sp_str_body(s) matches Some(r) ==> r.1.len() < s.len(),
    decreases s.len(),
{
    if s.len() == 0 {
    } else if s[0] == '"' {
    } else if s[0] == '\\' {
        if s.len() >= 12 {
            lemma_sp_str_body_len(s.skip(12));
        }
        if s.len() >= 6 {
            lemma_sp_str_body_len(s.skip(6));
        }
        if s.len() >= 2 {
            lemma_sp_str_body_len(s.skip(2));
        }
    } else {
        lemma_sp_str_body_len(s.drop_first());
    }
}

/// A string literal consumes at least its two quotes.
pub proof fn lemma_sp_string_len(s: Seq<char>)
    ensures
        sp_string(s) matches Some(r) ==> r.1.len() + 2 <= s.len(),
{
    if s.len() > 0 && s[0] == '"' {
        lemma_sp_str_body_len(s.drop_first());
    }
}

/// How many decimal digits the text begins with.
pub open spec fn digits_len(s: Seq<char>) -> int
    decreases s.len(),
{
    if s.len() > 0 && is_digit(s[0]) {
        1 + digits_len(s.drop_first())
    } else {
        0
    }
}

/// The digit count is bounded by the length.
pub proof fn lemma_digits_len(s: Seq<char>)
    ensures
        0 <= digits_len(s) <= s.len(),
    decreases s.len(),
{
    if s.len() > 0 && is_digit(s[0]) {
        lemma_digits_len(s.drop_first());
    }
}

/// The text after a fraction part, if the text is well-formed there.
pub open spec fn sp_frac(s: Seq<char>) -> Option<Seq<char>> {
    if s.len() >= 1 && s[0] == '.' {
        let t = s.drop_first();
        if t.len() > 0 && is_digit(t[0]) {
            Some(t.skip(digits_len(t)))
        } else {
            None
        }
    } else {
        Some(s)
    }
}

/// The text after an exponent part, if the text is well-formed there.
pub open spec fn sp_exp(s: Seq<char>) -> Option<Seq<char>> {
    if s.len() >= 1 && (s[0] == 'e' || s[0] == 'E') {
        let t0 = s.drop_first();
        let t = if t0.len() > 0 && (t0[0] == '+' || t0[0] == '-') {
            t0.drop_first()
        } else {
            t0
        };
        if t.len() > 0 && is_digit(t[0]) {
            Some(t.skip(digits_len(t)))
        } else {
            None
        }
    } else {
        Some(s)
    }
}

/// The text after a JSON number: optional sign, integer part without a
/// leading zero, optional fraction, optional exponent.
pub open spec fn sp_number(s: Seq<char>) -> Option<Seq<char>> {
    let t0 = if s.len() > 0 && s[0] == '-' {
        s.drop_first()
    } else {
        s
    };
    if t0.len() == 0 || !is_digit(t0[0]) {
        None
    } else {
        let t1 = if t0[0] == '0' {
            t0.drop_first()
        } else {
            t0.skip(digits_len(t0))
        };
        match sp_frac(t1) {
            Some(t2) => sp_exp(t2),
            None => None,
        }
    }
}

/// A number consumes at least one character.
pub proof fn lemma_sp_number_len(s: Seq<char>)
    ensures
        sp_number(s) matches Some(r) ==> r.len() < s.len(),
{
    let t0 = if s.len() > 0 && s[0] == '-' {
        s.drop_first()
    } else {
        s
    };
    if t0.len() > 0 && is_digit(t0[0]) {
        lemma_digits_len(t0);
        lemma_digits_len(t0.drop_first());
        assert(digits_len(t0) >= 1);
        let t1 = if t0[0] == '0' {
            t0.drop_first()
        } else {
            t0.skip(digits_len(t0))
        };
        assert(t1.len() < t0.len());
        match sp_frac(t1) {
            Some(t2) => {
                assert(t2.len() <= t1.len()) by {
                    if t1.len() >= 1 && t1[0] == '.' {
                        lemma_digits_len(t1.drop_first());
                    }
                }
                match sp_exp(t2) {
                    Some(t3) => {
                        assert(t3.len() <= t2.len()) by {
                            if t2.len() >= 1 && (t2[0] == 'e' || t2[0] == 'E') {
                                lemma_digits_len(t2.drop_first());
                                if t2.drop_first().len() > 0 && (t2.drop_first()[0] == '+'
                                    || t2.drop_first()[0] == '-') {
                                    lemma_digits_len(t2.drop_first().drop_first());
                                }
                            }
                        }
                    },
                    None => {},
                }
            },
            None => {},
        }
    }
}

/// The fixed literal `true` begins the text.
pub open spec fn is_lit_true(s: Seq<char>) -> bool {
    s.len() >= 4 && s[0] == 't' && s[1] == 'r' && s[2] == 'u' && s[3] == 'e'
}

/// The fixed literal `false` begins the text.
pub open spec fn is_lit_false(s: Seq<char>) -> bool {
    s.len() >= 5 && s[0] == 'f' && s[1] == 'a' && s[2] == 'l' && s[3] == 's' && s[4] == 'e'
}

/// The fixed literal `null` begins the text.
pub open spec fn is_lit_null(s: Seq<char>) -> bool {
    s.len() >= 4 && s[0] == 'n' && s[1] == 'u' && s[2] == 'l' && s[3] == 'l'
}

/// Every parsed element is a string.
pub open spec fn all_strings(vs: Seq<ValV>) -> bool {
    forall|i: int| 0 <= i < vs.len() ==> (#[trigger] vs[i]) is S
}

/// The value an array of parsed elements stands for: a string array when
/// every element is a string, the opaque value otherwise.
pub open spec fn arr_val(vs: Seq<ValV>) -> ValV {
    if all_strings(vs) {
        ValV::A(vs.map_values(|v: ValV| v->S_0))
    } else {
        ValV::O
    }
}

/// Parses one JSON value. Strings, booleans and all-string arrays carry
/// their content; numbers, null, nested objects and mixed arrays parse as
/// the opaque value.
pub open spec fn sp_value(s: Seq<char>) -> Option<(ValV, Seq<char>)>
    decreases s.len(), 0int,
    via sp_value_dec
{
    if s.len() == 0 {
        None
    } else if s[0] == '"' {
        match sp_string(s) {
            Some(r) => Some((ValV::S(r.0), r.1)),
            None => None,
        }
    } else if s[0] == '[' {
        let t = skip_ws(s.drop_first());
        if t.len() > 0 && t[0] == ']' {
            Some((ValV::A(Seq::<Seq<char>>::empty()), t.drop_first()))
        } else {
            match sp_elems(t) {
                Some(q) => if q.1.len() > 0 && q.1[0] == ']' {
                    Some((arr_val(q.0), q.1.drop_first()))
                } else {
                    None
                },
                None => None,
            }
        }
    } else if s[0] == '{' {
        match sp_obj_body(skip_ws(s.drop_first())) {
            Some(q) => Some((ValV::O, q.1)),
            None => None,
        }
    } else if is_lit_true(s) {
        Some((ValV::B(true), s.skip(4)))
    } else if is_lit_false(s) {
        Some((ValV::B(false), s.skip(5)))
    } else if is_lit_null(s) {
        Some((ValV::O, s.skip(4)))
    } else if s[0] == '-' || is_digit(s[0]) {
        match sp_number(s) {
            Some(rest) => Some((ValV::O, rest)),
            None => None,
        }
    } else {
        None
    }
}

#[via_fn]
proof fn sp_value_dec(s: Seq<char>) {
    if s.len() > 0 {
        lemma_skip_ws_len(s.drop_first());
    }
}

/// Parses one or more comma-separated values; the returned rest has its
/// leading whitespace already dropped.
pub open spec fn sp_elems(s: Seq<char>) -> Option<(Seq<ValV>, Seq<char>)>
    decreases s.len(), 1int,
    via sp_elems_dec
{
    match sp_value(s) {
        Some(r) => {
            let t = skip_ws(r.1);
            if t.len() > 0 && t[0] == ',' {
                let u = skip_ws(t.drop_first());
                if u.len() < s.len() {
                    match sp_elems(u) {
                        Some(q) => Some((seq![r.0] + q.0, q.1)),
                        None => None,
                    }
                } else {
                    None
                }
            } else {
                Some((seq![r.0], t))
            }
        },
        None => None,
    }
}

#[via_fn]
proof fn sp_elems_dec(s: Seq<char>) {
}

/// Parses one member: key, colon, value, with whitespace around the colon.
pub open spec fn sp_member(s: Seq<char>) -> Option<(FieldV, Seq<char>)>
    decreases s.len(), 1int,
    via sp_member_dec
{
    match sp_string(s) {
        Some(r) => {
            let t = skip_ws(r.1);
            if t.len() > 0 && t[0] == ':' {
                match sp_value(skip_ws(t.drop_first())) {
                    Some(q) => Some(((r.0, q.0), q.1)),
                    None => None,
                }
            } else {
                None
            }
        },
        None => None,
    }
}

#[via_fn]
proof fn sp_member_dec(s: Seq<char>) {
    lemma_sp_string_len(s);
    match sp_string(s) {
        Some(r) => {
            lemma_skip_ws_len(r.1);
            let t = skip_ws(r.1);
            if t.len() > 0 {
                lemma_skip_ws_len(t.drop_first());
            }
        },
        None => {},
    }
}

/// Parses one or more comma-separated members; the returned rest has its
/// leading whitespace already dropped.
pub open spec fn sp_members(s: Seq<char>) -> Option<(Seq<FieldV>, Seq<char>)>
    decreases s.len(), 2int,
    via sp_members_dec
{
    match sp_member(s) {
        Some(r) => {
            let t = skip_ws(r.1);
            if t.len() > 0 && t[0] == ',' {
                let u = skip_ws(t.drop_first());
                if u.len() < s.len() {
                    match sp_members(u) {
                        Some(q) => Some((seq![r.0] + q.0, q.1)),
                        None => None,
                    }
                } else {
                    None
                }
            } else {
                Some((seq![r.0], t))
            }
        },
        None => None,
    }
}

#[via_fn]
proof fn sp_members_dec(s: Seq<char>) {
}

/// Parses an object's inside after its opening brace and any whitespace,
/// up to and including the closing brace.
pub open spec fn sp_obj_body(s: Seq<char>) -> Option<(Seq<FieldV>, Seq<char>)>
    decreases s.len(), 3int,
{
    if s.len() > 0 && s[0] == '}' {
        Some((Seq::<FieldV>::empty(), s.drop_first()))
    } else {
        match sp_members(s) {
            Some(q) => if q.1.len() > 0 && q.1[0] == '}' {
                Some((q.0, q.1.drop_first()))
            } else {
                None
            },
            None => None,
        }
    }
}

/// Parses a whole object from the entire text; whitespace may surround it.
pub open spec fn sp_object(s: Seq<char>) -> Option<Seq<FieldV>> {
    let t = skip_ws(s);
    if t.len() > 0 && t[0] == '{' {
        match sp_obj_body(skip_ws(t.drop_first())) {
            Some(q) => if skip_ws(q.1).len() == 0 {
                Some(q.0)
            } else {
                None
            },
            None => None,
        }
    } else {
        None
    }
}

/// Text that does not begin with whitespace keeps itself.
pub proof fn lemma_skip_ws_id(s: Seq<char>)
    requires
        s.len() == 0 || !is_ws(s[0]),
    ensures
        skip_ws(s) == s,
{
}

/// String elements, as parsed values.
pub open spec fn strings_as_vals(xs: Seq<Seq<char>>) -> Seq<ValV> {
    xs.map_values(|x: Seq<char>| ValV::S(x))
}

/// A value's text is never empty and never begins with whitespace, a comma
/// or a closing bracket.
pub proof fn lemma_enc_val_head(v: ValV)
    ensures
        enc_val(v).len() > 0,
        !is_ws(enc_val(v)[0]),
        enc_val(v)[0] != ',',
{
    match v {
        ValV::B(b) => {},
        ValV::S(t) => {
            assert(enc_val(v)[0] == '"');
        },
        ValV::A(xs) => {
            assert(enc_val(v)[0] == '[');
        },
        ValV::O => {},
    }
}

/// Parsing inverts escaping: a printed string body parses back to its content.
pub proof fn lemma_parse_esc(v: Seq<char>, rest: Seq<char>)
    ensures
        sp_str_body(esc_str(v) + seq!['"'] + rest) == Some((v, rest)),
    decreases v.len(),
{
    let s = esc_str(v) + seq!['"'] + rest;
    if v.len() == 0 {
        assert(esc_str(v) =~= Seq::<char>::empty());
        assert(s =~= seq!['"'] + rest);
        assert(s[0] == '"');
        assert(s.drop_first() =~= rest);
        assert(Seq::<char>::empty() =~= v);
    } else {
        let c = v[0];
        let t = v.drop_first();
        assert(esc_str(v) == esc_char(c) + esc_str(t));
        lemma_parse_esc(t, rest);
        if c == '"' || c == '\\' || c == '\n' || c == '\r' || c == '\t' {
            let m = if c == '"' {
                '"'
            } else if c == '\\' {
                '\\'
            } else if c == '\n' {
                'n'
            } else if c == '\r' {
                'r'
            } else {
                't'
            };
            assert(esc_char(c) =~= seq!['\\', m]);
            assert(s =~= seq!['\\', m] + (esc_str(t) + seq!['"'] + rest));
            assert(s[0] == '\\');
            assert(s[1] == m);
            assert(m != 'u');
            assert(unesc(m) == Some(c));
            assert(s.skip(2) =~= esc_str(t) + seq!['"'] + rest);
            assert(seq![c] + t =~= v);
        } else if (c as u32) < 0x20 {
            let cu = (c as u32) as int;
            let hi = cu / 16;
            let lo = cu % 16;
            assert(esc_char(c) =~= seq!['\\', 'u', '0', '0', hex_digit(hi), hex_digit(lo)]);
            assert(s =~= seq!['\\', 'u', '0', '0', hex_digit(hi), hex_digit(lo)]
                + (esc_str(t) + seq!['"'] + rest));
            assert(s[0] == '\\');
            assert(s[1] == 'u');
            assert(s[2] == '0');
            assert(s[3] == '0');
            assert(s[4] == hex_digit(hi));
            assert(s[5] == hex_digit(lo));
            assert(hex_val('0') == Some(0int));
            assert(0 <= hi < 16 && 0 <= lo < 16);
            lemma_hex_val_digit(hi);
            lemma_hex_val_digit(lo);
            let code = hex_val(s[2])->Some_0 * 4096 + hex_val(s[3])->Some_0 * 256
                + hex_val(s[4])->Some_0 * 16 + hex_val(s[5])->Some_0;
            assert(code == hi * 16 + lo);
            assert(code == cu);
            assert(code < 0xD800);
            assert((code as u32) == c as u32);
            vstd::utf8::char_u32_cast(c, c as u32);
            assert(((code as u32) as char) == c);
            assert(s.skip(6) =~= esc_str(t) + seq!['"'] + rest);
            assert(seq![c] + t =~= v);
        } else {
            assert(esc_char(c) =~= seq![c]);
            assert(s =~= seq![c] + (esc_str(t) + seq!['"'] + rest));
            assert(s[0] == c);
            assert(s.drop_first() =~= esc_str(t) + seq!['"'] + rest);
            assert(seq![c] + t =~= v);
        }
    }
}

/// Parsing inverts printing for string literals.
pub proof fn lemma_parse_string(v: Seq<char>, rest: Seq<char>)
    ensures
        sp_string(str_lit(v) + rest) == Some((v, rest)),
{
    let s = str_lit(v) + rest;
    assert(s =~= seq!['"'] + (esc_str(v) + seq!['"'] + rest));
    assert(s[0] == '"');
    assert(s.drop_first() =~= esc_str(v) + seq!['"'] + rest);
    lemma_parse_esc(v, rest);
}

/// Parsing inverts printing for non-empty string-array bodies, as long as
/// the text that follows begins with neither a comma nor whitespace.
pub proof fn lemma_parse_elems_strings(xs: Seq<Seq<char>>, rest: Seq<char>)
    requires
        xs.len() >= 1,
        rest.len() > 0,
        rest[0] != ',',
        !is_ws(rest[0]),
    ensures
        sp_elems(enc_items(xs) + rest) == Some((strings_as_vals(xs), rest)),
    decreases xs.len(),
{
    let s = enc_items(xs) + rest;
    if xs.len() == 1 {
        assert(enc_items(xs) == str_lit(xs[0]));
        assert(s =~= str_lit(xs[0]) + rest);
        assert(s[0] == '"');
        lemma_parse_string(xs[0], rest);
        assert(sp_value(s) == Some((ValV::S(xs[0]), rest)));
        lemma_skip_ws_id(rest);
        assert(seq![ValV::S(xs[0])] =~= strings_as_vals(xs));
    } else {
        let r1 = seq![','] + enc_items(xs.drop_first()) + rest;
        assert(enc_items(xs) == str_lit(xs[0]) + seq![','] + enc_items(xs.drop_first()));
        assert(s =~= str_lit(xs[0]) + r1);
        assert(s[0] == '"');
        lemma_parse_string(xs[0], r1);
        assert(sp_value(s) == Some((ValV::S(xs[0]), r1)));
        lemma_skip_ws_id(r1);
        assert(r1[0] == ',');
        let u0 = r1.drop_first();
        assert(u0 =~= enc_items(xs.drop_first()) + rest);
        assert(str_lit(xs.drop_first()[0])[0] == '"');
        assert(enc_items(xs.drop_first())[0] == '"');
        assert(u0[0] == '"');
        lemma_skip_ws_id(u0);
        assert(str_lit(xs[0]).len() >= 2);
        assert(u0.len() < s.len());
        lemma_parse_elems_strings(xs.drop_first(), rest);
        assert(seq![ValV::S(xs[0])] + strings_as_vals(xs.drop_first())
            =~= strings_as_vals(xs));
    }
}

/// An all-string element list stands for exactly the string array.
pub proof fn lemma_arr_val_strings(xs: Seq<Seq<char>>)
    ensures
        arr_val(strings_as_vals(xs)) == ValV::A(xs),
{
    let vs = strings_as_vals(xs);
    assert(all_strings(vs));
    assert(vs.map_values(|v: ValV| v->S_0) =~= xs);
}

/// Parsing inverts printing for values.
pub proof fn lemma_parse_value(v: ValV, rest: Seq<char>)
    ensures
        sp_value(enc_val(v) + rest) == Some((v, rest)),
{
    let s = enc_val(v) + rest;
    match v {
        ValV::B(b) => {
            if b {
                assert(s =~= seq!['t', 'r', 'u', 'e'] + rest);
                assert(s[0] == 't');
                assert(is_lit_true(s));
                assert(s.skip(4) =~= rest);
            } else {
                assert(s =~= seq!['f', 'a', 'l', 's', 'e'] + rest);
                assert(s[0] == 'f');
                assert(!is_lit_true(s));
                assert(is_lit_false(s));
                assert(s.skip(5) =~= rest);
            }
        },
        ValV::S(t) => {
            assert(s =~= str_lit(t) + rest);
            assert(s[0] == '"');
            lemma_parse_string(t, rest);
        },
        ValV::O => {
            assert(s =~= seq!['n', 'u', 'l', 'l'] + rest);
            assert(s[0] == 'n');
            assert(!is_lit_true(s));
            assert(!is_lit_false(s));
            assert(is_lit_null(s));
            assert(s.skip(4) =~= rest);
        },
        ValV::A(xs) => {
            if xs.len() == 0 {
                assert(enc_items(xs) =~= Seq::<char>::empty());
                assert(s =~= seq!['[', ']'] + rest);
                assert(s[0] == '[');
                assert(s.drop_first() =~= seq![']'] + rest);
                lemma_skip_ws_id(s.drop_first());
                assert(s.drop_first()[0] == ']');
                assert((seq![']'] + rest).drop_first() =~= rest);
                assert(Seq::<Seq<char>>::empty() =~= xs);
            } else {
                let r2 = seq![']'] + rest;
                assert(enc_items(xs) == str_lit(xs[0]) + seq![','] + enc_items(xs.drop_first())
                    || enc_items(xs) == str_lit(xs[0]));
                assert(str_lit(xs[0])[0] == '"');
                assert(enc_items(xs)[0] == '"');
                assert(s =~= seq!['['] + (enc_items(xs) + r2));
                assert(s[0] == '[');
                assert(s.drop_first() =~= enc_items(xs) + r2);
                lemma_skip_ws_id(s.drop_first());
                assert((enc_items(xs) + r2)[0] == '"');
                assert(r2[0] == ']');
                lemma_parse_elems_strings(xs, r2);
                lemma_arr_val_strings(xs);
                assert(r2.drop_first() =~= rest);
            }
        },
    }
}

/// Parsing inverts printing for single members.
pub proof fn lemma_parse_member(f: FieldV, rest: Seq<char>)
    ensures
        sp_member(enc_field(f) + rest) == Some((f, rest)),
{
    let s = enc_field(f) + rest;
    let r1 = seq![':'] + enc_val(f.1) + rest;
    assert(s =~= str_lit(f.0) + r1);
    lemma_parse_string(f.0, r1);
    lemma_skip_ws_id(r1);
    assert(r1[0] == ':');
    assert(r1.drop_first() =~= enc_val(f.1) + rest);
    lemma_enc_val_head(f.1);
    assert((enc_val(f.1) + rest)[0] == enc_val(f.1)[0]);
    lemma_skip_ws_id(enc_val(f.1) + rest);
    lemma_parse_value(f.1, rest);
    assert((f.0, f.1) == f);
}

/// Parsing inverts printing for non-empty member lists, as long as the
/// text that follows begins with neither a comma nor whitespace.
pub proof fn lemma_parse_members(fs: Seq<FieldV>, rest: Seq<char>)
    requires
        fs.len() >= 1,
        rest.len() > 0,
        rest[0] != ',',
        !is_ws(rest[0]),
    ensures
        sp_members(enc_fields(fs) + rest) == Some((fs, rest)),
    decreases fs.len(),
{
    let s = enc_fields(fs) + rest;
    if fs.len() == 1 {
        assert(enc_fields(fs) == enc_field(fs[0]));
        lemma_parse_member(fs[0], rest);
        lemma_skip_ws_id(rest);
        assert(seq![fs[0]] =~= fs);
    } else {
        let r1 = seq![','] + enc_fields(fs.drop_first()) + rest;
        assert(enc_fields(fs) == enc_field(fs[0]) + seq![','] + enc_fields(fs.drop_first()));
        assert(s =~= enc_field(fs[0]) + r1);
        lemma_parse_member(fs[0], r1);
        lemma_skip_ws_id(r1);
        assert(r1[0] == ',');
        let u0 = r1.drop_first();
        assert(u0 =~= enc_fields(fs.drop_first()) + rest);
        assert(str_lit(fs.drop_first()[0].0)[0] == '"');
        assert(enc_field(fs.drop_first()[0])[0] == '"');
        assert(enc_fields(fs.drop_first())[0] == '"');
        assert(u0[0] == '"');
        lemma_skip_ws_id(u0);
        assert(str_lit(fs[0].0).len() >= 2);
        assert(u0.len() < s.len());
        lemma_parse_members(fs.drop_first(), rest);
        assert(seq![fs[0]] + fs.drop_first() =~= fs);
    }
}

/// Parsing inverts canonical printing: decoding what was encoded yields
/// exactly the encoded members.
pub proof fn lemma_parse_object(fs: Seq<FieldV>)
    ensures
        sp_object(enc_obj(fs)) == Some(fs),
{
    let s = enc_obj(fs);
    assert(s =~= seq!['{'] + (enc_fields(fs) + seq!['}']));
    assert(s[0] == '{');
    lemma_skip_ws_id(s);
    let inner = enc_fields(fs) + seq!['}'];
    assert(s.drop_first() =~= inner);
    assert(skip_ws(Seq::<char>::empty()).len() == 0);
    if fs.len() == 0 {
        assert(enc_fields(fs) =~= Seq::<char>::empty());
        assert(inner =~= seq!['}']);
        lemma_skip_ws_id(inner);
        assert(inner[0] == '}');
        assert(seq!['}'].drop_first() =~= Seq::<char>::empty());
        assert(Seq::<FieldV>::empty() =~= fs);
    } else {
        let r = seq!['}'];
        assert(enc_fields(fs) == enc_field(fs[0]) + seq![','] + enc_fields(fs.drop_first())
            || enc_fields(fs) == enc_field(fs[0]));
        assert(str_lit(fs[0].0)[0] == '"');
        assert(enc_field(fs[0])[0] == '"');
        assert(enc_fields(fs)[0] == '"');
        assert(inner[0] == '"');
        lemma_skip_ws_id(inner);
        assert(inner =~= enc_fields(fs) + r);
        lemma_parse_members(fs, r);
        assert(r.drop_first() =~= Seq::<char>::empty());
    }
}

/// Drops leading JSON whitespace.
pub fn trim_ws<'a>(s: &'a str) -> (r: &'a str)
    ensures
        r@ == skip_ws(s@),
        r@.len() <= s@.len(),
    decreases s@.len(),
{
    let n = s.unicode_len();
    if n == 0 {
        return s;
    }
    let c = s.get_char(0);
    if c == ' ' || c == '\t' || c == '\n' || c == '\r' {
        let t = s.substring_char(1, n);
        proof {
            assert(t@ =~= s@.drop_first());
        }
        trim_ws(t)
    } else {
        s
    }
}

/// The value of a hexadecimal digit character, if it is one.
fn hex_v(c: char) -> (r: Option<u32>)
    ensures
        match r {
            Some(v) => hex_val(c) == Some(v as int) && v < 16,
            None => hex_val(c) is None,
        },
{
    let u = c as u32;
    if 48 <= u && u <= 57 {
        Some(u - 48)
    } else if 97 <= u && u <= 102 {
        Some(u - 87)
    } else if 65 <= u && u <= 70 {
        Some(u - 55)
    } else {
        None
    }
}

/// Parses a string body after its opening quote.
fn parse_str_body<'a>(s: &'a str) -> (r: Option<(String, &'a str)>)
    ensures
        match r {
            Some(p) => sp_str_body(s@) == Some((p.0@, p.1@)),
            None => sp_str_body(s@) is None,
        },
    decreases s@.len(),
{
    let n = s.unicode_len();
    if n == 0 {
        return None;
    }
    let c = s.get_char(0);
    if c == '"' {
        let rest = s.substring_char(1, n);
        proof {
            assert(rest@ =~= s@.drop_first());
        }
        return Some((String::new(), rest));
    }
    if c == '\\' {
        if n < 2 {
            return None;
        }
        let e = s.get_char(1);
        if e == 'u' {
            if n < 6 {
                return None;
            }
            let h2 = match hex_v(s.get_char(2)) {
                Some(v) => v,
                None => {
                    return None;
                },
            };
            let h3 = match hex_v(s.get_char(3)) {
                Some(v) => v,
                None => {
                    return None;
                },
            };
            let h4 = match hex_v(s.get_char(4)) {
                Some(v) => v,
                None => {
                    return None;
                },
            };
            let h5 = match hex_v(s.get_char(5)) {
                Some(v) => v,
                None => {
                    return None;
                },
            };
            let code: u32 = h2 * 4096 + h3 * 256 + h4 * 16 + h5;
            proof {
                assert(hex4_at(s@, 2) == Some(code as int));
            }
            if code < 0xD800 || code >= 0xE000 {
                let d = match char_from_u32(code) {
                    Some(ch) => ch,
                    None => {
                        proof {
                            assert(false);
                        }
                        return None;
                    },
                };
                let tail = s.substring_char(6, n);
                proof {
                    assert(tail@ =~= s@.skip(6));
                }
                match parse_str_body(tail) {
                    Some(p) => {
                        let mut out = String::new();
                        push_char(&mut out, d);
                        out.append(p.0.as_str());
                        proof {
                            assert(out@ =~= seq![d] + p.0@);
                        }
                        Some((out, p.1))
                    },
                    None => None,
                }
            } else if code < 0xDC00 {
                if n < 12 {
                    return None;
                }
                if s.get_char(6) != '\\' || s.get_char(7) != 'u' {
                    return None;
                }
                let l8 = match hex_v(s.get_char(8)) {
                    Some(v) => v,
                    None => {
                        return None;
                    },
                };
                let l9 = match hex_v(s.get_char(9)) {
                    Some(v) => v,
                    None => {
                        return None;
                    },
                };
                let l10 = match hex_v(s.get_char(10)) {
                    Some(v) => v,
                    None => {
                        return None;
                    },
                };
                let l11 = match hex_v(s.get_char(11)) {
                    Some(v) => v,
                    None => {
                        return None;
                    },
                };
                let lo: u32 = l8 * 4096 + l9 * 256 + l10 * 16 + l11;
                proof {
                    assert(hex4_at(s@, 8) == Some(lo as int));
                }
                if !(0xDC00 <= lo && lo < 0xE000) {
                    return None;
                }
                let scalar: u32 = 0x10000 + (code - 0xD800) * 0x400 + (lo - 0xDC00);
                let d = match char_from_u32(scalar) {
                    Some(ch) => ch,
                    None => {
                        proof {
                            assert(false);
                        }
                        return None;
                    },
                };
                let tail = s.substring_char(12, n);
                proof {
                    assert(tail@ =~= s@.skip(12));
                }
                match parse_str_body(tail) {
                    Some(p) => {
                        let mut out = String::new();
                        push_char(&mut out, d);
                        out.append(p.0.as_str());
                        proof {
                            assert(out@ =~= seq![d] + p.0@);
                        }
                        Some((out, p.1))
                    },
                    None => None,
                }
            } else {
                None
            }
        } else {
            let d: char;
            if e == '"' {
                d = '"';
            } else if e == '\\' {
                d = '\\';
            } else if e == '/' {
                d = '/';
            } else if e == 'n' {
                d = '\n';
            } else if e == 'r' {
                d = '\r';
            } else if e == 't' {
                d = '\t';
            } else if e == 'b' {
                d = '\u{0008}';
            } else if e == 'f' {
                d = '\u{000C}';
            } else {
                return None;
            }
            let tail = s.substring_char(2, n);
            proof {
                assert(tail@ =~= s@.skip(2));
                assert(unesc(s@[1]) == Some(d));
            }
            match parse_str_body(tail) {
                Some(p) => {
                    let mut out = String::new();
                    push_char(&mut out, d);
                    out.append(p.0.as_str());
                    proof {
                        assert(out@ =~= seq![d] + p.0@);
                    }
                    Some((out, p.1))
                },
                None => None,
            }
        }
    } else {
        let tail = s.substring_char(1, n);
        proof {
            assert(tail@ =~= s@.drop_first());
        }
        match parse_str_body(tail) {
            Some(p) => {
                let mut out = String::new();
                push_char(&mut out, c);
                out.append(p.0.as_str());
                proof {
                    assert(out@ =~= seq![c] + p.0@);
                }
                Some((out, p.1))
            },
            None => None,
        }
    }
}

/// Parses a quoted string literal.
pub fn parse_string<'a>(s: &'a str) -> (r: Option<(String, &'a str)>)
    ensures
        match r {
            Some(p) => sp_string(s@) == Some((p.0@, p.1@)),
            None => sp_string(s@) is None,
        },
{
    let n = s.unicode_len();
    if n == 0 {
        return None;
    }
    if s.get_char(0) != '"' {
        return None;
    }
    let tail = s.substring_char(1, n);
    proof {
        assert(tail@ =~= s@.drop_first());
    }
    parse_str_body(tail)
}

/// Counts the decimal digits the text begins with.
fn count_digits(s: &str) -> (r: usize)
    ensures
        r as int == digits_len(s@),
        r <= s@.len(),
{
    let n = s.unicode_len();
    let mut i: usize = 0;
    proof {
        assert(s@.skip(0) =~= s@);
    }
    while i < n
        invariant
            i <= n,
            n == s@.len(),
            digits_len(s@) == i + digits_len(s@.skip(i as int)),
        decreases n - i,
    {
        let c = s.get_char(i);
        proof {
            assert(s@.skip(i as int)[0] == s@[i as int]);
            assert(s@.skip(i as int).drop_first() =~= s@.skip(i + 1));
        }
        if !(48 <= c as u32 && c as u32 <= 57) {
            proof {
                lemma_digits_len(s@.skip(i as int));
            }
            return i;
        }
        i = i + 1;
    }
    proof {
        assert(s@.skip(n as int) =~= Seq::<char>::empty());
    }
    i
}

/// Parses the optional fraction part.
fn parse_frac<'a>(s: &'a str) -> (r: Option<&'a str>)
    ensures
        match r {
            Some(t) => sp_frac(s@) == Some(t@) && t@.len() <= s@.len(),
            None => sp_frac(s@) is None,
        },
{
    let n = s.unicode_len();
    if n >= 1 && s.get_char(0) == '.' {
        let t = s.substring_char(1, n);
        proof {
            assert(t@ =~= s@.drop_first());
        }
        let tn = t.unicode_len();
        if tn == 0 {
            return None;
        }
        let c = t.get_char(0);
        if !(48 <= c as u32 && c as u32 <= 57) {
            return None;
        }
        let d = count_digits(t);
        let out = t.substring_char(d, tn);
        proof {
            assert(out@ =~= t@.skip(digits_len(t@)));
        }
        Some(out)
    } else {
        Some(s)
    }
}

/// Parses the optional exponent part.
fn parse_exp<'a>(s: &'a str) -> (r: Option<&'a str>)
    ensures
        match r {
            Some(t) => sp_exp(s@) == Some(t@) && t@.len() <= s@.len(),
            None => sp_exp(s@) is None,
        },
{
    let n = s.unicode_len();
    if n >= 1 {
        let c0 = s.get_char(0);
        if c0 == 'e' || c0 == 'E' {
            let t0 = s.substring_char(1, n);
            proof {
                assert(t0@ =~= s@.drop_first());
            }
            let n0 = t0.unicode_len();
            let t: &str;
            if n0 > 0 {
                let c1 = t0.get_char(0);
                if c1 == '+' || c1 == '-' {
                    t = t0.substring_char(1, n0);
                    proof {
                        assert(t@ =~= t0@.drop_first());
                    }
                } else {
                    t = t0;
                }
            } else {
                t = t0;
            }
            let tn = t.unicode_len();
            if tn == 0 {
                return None;
            }
            let c = t.get_char(0);
            if !(48 <= c as u32 && c as u32 <= 57) {
                return None;
            }
            let d = count_digits(t);
            let out = t.substring_char(d, tn);
            proof {
                assert(out@ =~= t@.skip(digits_len(t@)));
            }
            return Some(out);
        }
    }
    Some(s)
}

/// Parses a JSON number, yielding the text after it.
fn parse_number<'a>(s: &'a str) -> (r: Option<&'a str>)
    ensures
        match r {
            Some(rest) => sp_number(s@) == Some(rest@) && rest@.len() < s@.len(),
            None => sp_number(s@) is None,
        },
{
    proof {
        lemma_sp_number_len(s@);
    }
    let n = s.unicode_len();
    let t0: &str;
    if n > 0 && s.get_char(0) == '-' {
        t0 = s.substring_char(1, n);
        proof {
            assert(t0@ =~= s@.drop_first());
        }
    } else {
        t0 = s;
    }
    let n0 = t0.unicode_len();
    if n0 == 0 {
        return None;
    }
    let c0 = t0.get_char(0);
    if !(48 <= c0 as u32 && c0 as u32 <= 57) {
        return None;
    }
    let t1: &str;
    if c0 == '0' {
        t1 = t0.substring_char(1, n0);
        proof {
            assert(t1@ =~= t0@.drop_first());
        }
    } else {
        let d = count_digits(t0);
        t1 = t0.substring_char(d, n0);
        proof {
            assert(t1@ =~= t0@.skip(digits_len(t0@)));
        }
    }
    let t2 = match parse_frac(t1) {
        Some(t) => t,
        None => {
            return None;
        },
    };
    match parse_exp(t2) {
        Some(t3) => Some(t3),
        None => None,
    }
}

/// The shapes of parsed elements.
pub open spec fn vals_view(s: Seq<JsonVal>) -> Seq<ValV> {
    s.map_values(|v: JsonVal| v@)
}

/// The value an element vector stands for: a string array when every
/// element is a string, the opaque value otherwise.
fn arr_from_vals(vs: &Vec<JsonVal>) -> (r: JsonVal)
    ensures
        r@ == arr_val(vals_view(vs@)),
{
    let n = vs.len();
    let mut out: Vec<String> = Vec::new();
    let mut i: usize = 0;
    while i < n
        invariant
            i <= n,
            n == vs@.len(),
            out@.len() == i,
            forall|j: int| 0 <= j < i ==> (#[trigger] vals_view(vs@)[j]) is S,
            forall|j: int| 0 <= j < i ==> (#[trigger] out@[j])@ == vals_view(vs@)[j]->S_0,
        decreases n - i,
    {
        match &vs[i] {
            JsonVal::VStr(st) => {
                out.push(st.clone());
            },
            _ => {
                proof {
                    assert(!(vals_view(vs@)[i as int] is S));
                    assert(!all_strings(vals_view(vs@)));
                }
                return JsonVal::VOther;
            },
        }
        i = i + 1;
    }
    proof {
        assert(all_strings(vals_view(vs@)));
        assert forall|j: int| 0 <= j < n
            implies out.deep_view()[j]
                == vals_view(vs@).map_values(|v: ValV| v->S_0)[j] by {
            assert(out@[j]@ == vals_view(vs@)[j]->S_0);
        }
        assert(out.deep_view() =~= vals_view(vs@).map_values(|v: ValV| v->S_0));
    }
    JsonVal::VArr(out)
}

/// Parses one JSON value.
fn parse_value<'a>(s: &'a str) -> (r: Option<(JsonVal, &'a str)>)
    ensures
        match r {
            Some(p) => sp_value(s@) == Some((p.0@, p.1@)) && p.1@.len() < s@.len(),
            None => sp_value(s@) is None,
        },
    decreases s@.len(), 0int,
{
    let n = s.unicode_len();
    if n == 0 {
        return None;
    }
    let c = s.get_char(0);
    if c == '"' {
        proof {
            lemma_sp_string_len(s@);
        }
        match parse_string(s) {
            Some(p) => Some((JsonVal::VStr(p.0), p.1)),
            None => None,
        }
    } else if c == '[' {
        let inner = s.substring_char(1, n);
        proof {
            assert(inner@ =~= s@.drop_first());
        }
        let t = trim_ws(inner);
        let tn = t.unicode_len();
        if tn > 0 && t.get_char(0) == ']' {
            let rest = t.substring_char(1, tn);
            let empty: Vec<String> = Vec::new();
            proof {
                assert(rest@ =~= t@.drop_first());
                assert(empty.deep_view() =~= Seq::<Seq<char>>::empty());
            }
            Some((JsonVal::VArr(empty), rest))
        } else {
            match parse_elems(t) {
                Some(p) => {
                    let (vals, rest) = p;
                    let rl = rest.unicode_len();
                    if rl > 0 && rest.get_char(0) == ']' {
                        let rest2 = rest.substring_char(1, rl);
                        proof {
                            assert(rest2@ =~= rest@.drop_first());
                        }
                        let val = arr_from_vals(&vals);
                        Some((val, rest2))
                    } else {
                        None
                    }
                },
                None => None,
            }
        }
    } else if c == '{' {
        let inner = s.substring_char(1, n);
        proof {
            assert(inner@ =~= s@.drop_first());
        }
        let t = trim_ws(inner);
        match parse_obj_body(t) {
            Some(p) => Some((JsonVal::VOther, p.1)),
            None => None,
        }
    } else if c == 't' {
        if n >= 4 && s.get_char(1) == 'r' && s.get_char(2) == 'u' && s.get_char(3) == 'e' {
            let rest = s.substring_char(4, n);
            proof {
                assert(rest@ =~= s@.skip(4));
            }
            Some((JsonVal::VBool(true), rest))
        } else {
            None
        }
    } else if c == 'f' {
        if n >= 5 && s.get_char(1) == 'a' && s.get_char(2) == 'l' && s.get_char(3) == 's'
            && s.get_char(4) == 'e' {
            let rest = s.substring_char(5, n);
            proof {
                assert(rest@ =~= s@.skip(5));
            }
            Some((JsonVal::VBool(false), rest))
        } else {
            None
        }
    } else if c == 'n' {
        if n >= 4 && s.get_char(1) == 'u' && s.get_char(2) == 'l' && s.get_char(3) == 'l' {
            let rest = s.substring_char(4, n);
            proof {
                assert(rest@ =~= s@.skip(4));
            }
            Some((JsonVal::VOther, rest))
        } else {
            None
        }
    } else if c == '-' || (48 <= c as u32 && c as u32 <= 57) {
        match parse_number(s) {
            Some(rest) => Some((JsonVal::VOther, rest)),
            None => None,
        }
    } else {
        None
    }
}

/// Parses one or more comma-separated values.
fn parse_elems<'a>(s: &'a str) -> (r: Option<(Vec<JsonVal>, &'a str)>)
    ensures
        match r {
            Some(p) => sp_elems(s@) == Some((vals_view(p.0@), p.1@)) && p.1@.len() < s@.len(),
            None => sp_elems(s@) is None,
        },
    decreases s@.len(), 1int,
{
    match parse_value(s) {
        Some(p) => {
            let (v, rest0) = p;
            let t = trim_ws(rest0);
            let tn = t.unicode_len();
            if tn > 0 && t.get_char(0) == ',' {
                let after = t.substring_char(1, tn);
                proof {
                    assert(after@ =~= t@.drop_first());
                }
                let u = trim_ws(after);
                if u.unicode_len() < s.unicode_len() {
                    match parse_elems(u) {
                        Some(q) => {
                            let (vs, rest2) = q;
                            let ghost prev = vals_view(vs@);
                            let mut vs = vs;
                            vs.insert(0, v);
                            proof {
                                assert(vals_view(vs@) =~= seq![v@] + prev);
                            }
                            Some((vs, rest2))
                        },
                        None => None,
                    }
                } else {
                    None
                }
            } else {
                let mut out: Vec<JsonVal> = Vec::new();
                out.push(v);
                proof {
                    assert(vals_view(out@) =~= seq![v@]);
                }
                Some((out, t))
            }
        },
        None => None,
    }
}

/// Parses one member: key, colon, value.
fn parse_member<'a>(s: &'a str) -> (r: Option<(JsonField, &'a str)>)
    ensures
        match r {
            Some(p) => sp_member(s@) == Some((p.0@, p.1@)) && p.1@.len() < s@.len(),
            None => sp_member(s@) is None,
        },
    decreases s@.len(), 1int,
{
    match parse_string(s) {
        Some(p) => {
            let (k, rest0) = p;
            proof {
                lemma_sp_string_len(s@);
            }
            let t = trim_ws(rest0);
            let tn = t.unicode_len();
            if tn > 0 && t.get_char(0) == ':' {
                let after = t.substring_char(1, tn);
                proof {
                    assert(after@ =~= t@.drop_first());
                }
                let u = trim_ws(after);
                match parse_value(u) {
                    Some(q) => {
                        let (v, rest2) = q;
                        Some((JsonField { key: k, val: v }, rest2))
                    },
                    None => None,
                }
            } else {
                None
            }
        },
        None => None,
    }
}

/// Parses one or more comma-separated members.
fn parse_members<'a>(s: &'a str) -> (r: Option<(Vec<JsonField>, &'a str)>)
    ensures
        match r {
            Some(p) => sp_members(s@) == Some((fields_view(p.0@), p.1@))
                && p.1@.len() < s@.len(),
            None => sp_members(s@) is None,
        },
    decreases s@.len(), 2int,
{
    match parse_member(s) {
        Some(p) => {
            let (f, rest0) = p;
            let t = trim_ws(rest0);
            let tn = t.unicode_len();
            if tn > 0 && t.get_char(0) == ',' {
                let after = t.substring_char(1, tn);
                proof {
                    assert(after@ =~= t@.drop_first());
                }
                let u = trim_ws(after);
                if u.unicode_len() < s.unicode_len() {
                    match parse_members(u) {
                        Some(q) => {
                            let (fs, rest2) = q;
                            let ghost prev = fields_view(fs@);
                            let mut fs = fs;
                            fs.insert(0, f);
                            proof {
                                assert(fields_view(fs@) =~= seq![f@] + prev);
                            }
                            Some((fs, rest2))
                        },
                        None => None,
                    }
                } else {
                    None
                }
            } else {
                let mut out: Vec<JsonField> = Vec::new();
                out.push(f);
                proof {
                    assert(fields_view(out@) =~= seq![f@]);
                }
                Some((out, t))
            }
        },
        None => None,
    }
}

/// Parses an object's inside after its opening brace and any whitespace.
fn parse_obj_body<'a>(s: &'a str) -> (r: Option<(Vec<JsonField>, &'a str)>)
    ensures
        match r {
            Some(p) => sp_obj_body(s@) == Some((fields_view(p.0@), p.1@))
                && p.1@.len() < s@.len(),
            None => sp_obj_body(s@) is None,
        },
    decreases s@.len(), 3int,
{
    let n = s.unicode_len();
    if n > 0 && s.get_char(0) == '}' {
        let rest = s.substring_char(1, n);
        let empty: Vec<JsonField> = Vec::new();
        proof {
            assert(rest@ =~= s@.drop_first());
            assert(fields_view(empty@) =~= Seq::<FieldV>::empty());
        }
        Some((empty, rest))
    } else {
        match parse_members(s) {
            Some(p) => {
                let (fs, rest) = p;
                let rl = rest.unicode_len();
                if rl > 0 && rest.get_char(0) == '}' {
                    let rest2 = rest.substring_char(1, rl);
                    proof {
                        assert(rest2@ =~= rest@.drop_first());
                    }
                    Some((fs, rest2))
                } else {
                    None
                }
            },
            None => None,
        }
    }
}

/// Parses a whole object from the entire input text. `None` means the text
/// is not JSON; member order, surrounding whitespace and unknown members of
/// any shape are accepted.
pub fn parse_object(s: &str) -> (r: Option<Vec<JsonField>>)
    ensures
        match r {
            Some(fs) => sp_object(s@) == Some(fields_view(fs@)),
            None => sp_object(s@) is None,
        },
{
    let t = trim_ws(s);
    let tn = t.unicode_len();
    if tn == 0 {
        return None;
    }
    if t.get_char(0) != '{' {
        return None;
    }
    let after = t.substring_char(1, tn);
    proof {
        assert(after@ =~= t@.drop_first());
    }
    let inner = trim_ws(after);
    match parse_obj_body(inner) {
        Some(p) => {
            let (fs, rest) = p;
            let rtail = trim_ws(rest);
            if rtail.unicode_len() == 0 {
                Some(fs)
            } else {
                None
            }
        },
        None => None,
    }
}

} // verus!
