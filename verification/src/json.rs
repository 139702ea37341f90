//! A JSON value tree and a parser for it.
//!
//! Object members are kept as a sequence of key/value pairs in the order the
//! keys appear in the document text; nothing is sorted or hashed, so the
//! document's own ordering survives into the decoded entities.
//!
//! Numbers are read exactly when they are plain non-negative integers that
//! fit in 64 bits; any other number (negative, fractional, exponent form or
//! out of range) is kept only as the fact that a number stood there, which is
//! all the session format needs in order to drop unrecognized fields.

use vstd::prelude::*;
use vstd::string::StrSliceExecFns;

verus! {

broadcast use vstd::std_specs::vec::axiom_vec_index_decreases;

/// One member of a JSON object: its key and its value, in document order.
pub struct JsonMember {
    pub key: String,
    pub value: JsonValue,
}

/// A parsed JSON value.
pub enum JsonValue {
    Null,
    Bool(bool),
    /// A plain non-negative integer that fits in 64 bits.
    Int(u64),
    /// Any other number: negative, fractional, exponent form, or too large.
    NumOther,
    Str(String),
    Arr(Vec<JsonValue>),
    /// An object's members, in the order their keys appear in the text.
    Obj(Vec<JsonMember>),
}

/// Ghost image of a [`JsonValue`]: the same tree over ghost sequences, so
/// that spec functions can speak of whole parsed values.
pub ghost enum JVal {
    Null,
    Bool(bool),
    Int(u64),
    NumOther,
    Str(Seq<char>),
    Arr(Seq<JVal>),
    Obj(Seq<JMember>),
}

/// Ghost image of a [`JsonMember`].
pub ghost struct JMember {
    pub key: Seq<char>,
    pub value: JVal,
}

/// The ghost image of a parsed value.
pub open spec fn jval_of(v: JsonValue) -> JVal
    decreases v,
    via jval_of_decreases
{
    match v {
        JsonValue::Null => JVal::Null,
        JsonValue::Bool(b) => JVal::Bool(b),
        JsonValue::Int(u) => JVal::Int(u),
        JsonValue::NumOther => JVal::NumOther,
        JsonValue::Str(s) => JVal::Str(s@),
        JsonValue::Arr(es) => JVal::Arr(jvals_of(es@)),
        JsonValue::Obj(ms) => JVal::Obj(jmembers_of(ms@)),
    }
}

#[via_fn]
proof fn jval_of_decreases(v: JsonValue) {
    broadcast use vstd::std_specs::vec::group_vec_axioms;

    match v {
        JsonValue::Arr(es) => {
            assert(decreases_to!(v => es));
            assert(decreases_to!(es => es@));
        },
        JsonValue::Obj(ms) => {
            assert(decreases_to!(v => ms));
            assert(decreases_to!(ms => ms@));
        },
        _ => {
        },
    }
}

/// The ghost images of an element sequence, in order.
pub open spec fn jvals_of(es: Seq<JsonValue>) -> Seq<JVal>
    decreases es,
{
    if es.len() == 0 {
        Seq::empty()
    } else {
        seq![jval_of(es[0])] + jvals_of(es.drop_first())
    }
}

/// The ghost images of a member sequence, in order.
pub open spec fn jmembers_of(ms: Seq<JsonMember>) -> Seq<JMember>
    decreases ms,
{
    if ms.len() == 0 {
        Seq::empty()
    } else {
        seq![JMember { key: ms[0].key@, value: jval_of(ms[0].value) }] + jmembers_of(
            ms.drop_first(),
        )
    }
}

/// Element-wise reading of [`jvals_of`].
pub proof fn lemma_jvals_of(es: Seq<JsonValue>)
    ensures
        jvals_of(es).len() == es.len(),
        forall|i: int| 0 <= i < es.len() ==> jvals_of(es)[i] == jval_of(#[trigger] es[i]),
    decreases es.len(),
{
    if es.len() > 0 {
        lemma_jvals_of(es.drop_first());
        assert forall|i: int| 0 <= i < es.len() implies jvals_of(es)[i] == jval_of(
            #[trigger] es[i],
        ) by {
            if i > 0 {
                assert(es.drop_first()[i - 1] == es[i]);
            }
        }
    }
}

/// Element-wise reading of [`jmembers_of`].
pub proof fn lemma_jmembers_of(ms: Seq<JsonMember>)
    ensures
        jmembers_of(ms).len() == ms.len(),
        forall|i: int|
            0 <= i < ms.len() ==> jmembers_of(ms)[i] == (JMember {
                key: #[trigger] ms[i].key@,
                value: jval_of(ms[i].value),
            }),
    decreases ms.len(),
{
    if ms.len() > 0 {
        lemma_jmembers_of(ms.drop_first());
        assert forall|i: int| 0 <= i < ms.len() implies jmembers_of(ms)[i] == (JMember {
            key: #[trigger] ms[i].key@,
            value: jval_of(ms[i].value),
        }) by {
            if i > 0 {
                assert(ms.drop_first()[i - 1] == ms[i]);
            }
        }
    }
}

/// The character with the given code point.
pub open spec fn char_of(n: u32) -> char {
    choose|c: char| (#[trigger] (c as u32)) == n
}

/// The characters JSON counts as whitespace between tokens.
pub open spec fn is_json_ws(c: char) -> bool {
    c == ' ' || c == '\n' || c == '\r' || c == '\t'
}

/// The position after any run of JSON whitespace starting at `pos`.
pub open spec fn spec_skip_ws(t: Seq<char>, pos: int) -> int
    decreases t.len() - pos,
{
    if pos < 0 || pos >= t.len() {
        pos
    } else if is_json_ws(t[pos]) {
        spec_skip_ws(t, pos + 1)
    } else {
        pos
    }
}

/// Appending one member to a sequence appends its ghost image.
pub proof fn lemma_jmembers_push(ms: Seq<JsonMember>, m: JsonMember)
    ensures
        jmembers_of(ms.push(m)) == jmembers_of(ms).push(
            JMember { key: m.key@, value: jval_of(m.value) },
        ),
{
    lemma_jmembers_of(ms.push(m));
    lemma_jmembers_of(ms);
    assert forall|i: int| 0 <= i < ms.len() + 1 implies jmembers_of(ms.push(m))[i]
        == jmembers_of(ms).push(JMember { key: m.key@, value: jval_of(m.value) })[i] by {
        assert(jmembers_of(ms.push(m))[i] == (JMember {
            key: ms.push(m)[i].key@,
            value: jval_of(ms.push(m)[i].value),
        }));
        if i < ms.len() {
            assert(ms.push(m)[i] == ms[i]);
            assert(jmembers_of(ms)[i] == (JMember {
                key: ms[i].key@,
                value: jval_of(ms[i].value),
            }));
        } else {
            assert(ms.push(m)[i] == m);
        }
    }
    assert(jmembers_of(ms.push(m)) =~= jmembers_of(ms).push(
        JMember { key: m.key@, value: jval_of(m.value) },
    ));
}

/// Appending one element to a sequence appends its ghost image.
pub proof fn lemma_jvals_push(es: Seq<JsonValue>, e: JsonValue)
    ensures
        jvals_of(es.push(e)) == jvals_of(es).push(jval_of(e)),
{
    lemma_jvals_of(es.push(e));
    lemma_jvals_of(es);
    assert forall|i: int| 0 <= i < es.len() + 1 implies jvals_of(es.push(e))[i] == jvals_of(
        es,
    ).push(jval_of(e))[i] by {
        if i < es.len() {
            assert(es.push(e)[i] == es[i]);
        } else {
            assert(es.push(e)[i] == e);
        }
    }
    assert(jvals_of(es.push(e)) =~= jvals_of(es).push(jval_of(e)));
}

/// The value of one hexadecimal digit.
pub open spec fn spec_hex_val(c: char) -> Option<u32> {
    let u = c as u32;
    if 48 <= u && u <= 57 {
        Some((u - 48) as u32)
    } else if 97 <= u && u <= 102 {
        Some((u - 87) as u32)
    } else if 65 <= u && u <= 70 {
        Some((u - 55) as u32)
    } else {
        None
    }
}

/// Four hexadecimal digits starting at `pos`, as one number.
pub open spec fn spec_hex4(t: Seq<char>, pos: int) -> Result<u32, int> {
    if t.len() < 4 || pos < 0 || pos > t.len() - 4 {
        Err(pos)
    } else {
        match spec_hex_val(t[pos]) {
            None => Err(pos),
            Some(d0) => match spec_hex_val(t[pos + 1]) {
                None => Err(pos + 1),
                Some(d1) => match spec_hex_val(t[pos + 2]) {
                    None => Err(pos + 2),
                    Some(d2) => match spec_hex_val(t[pos + 3]) {
                        None => Err(pos + 3),
                        Some(d3) => Ok((d0 * 4096 + d1 * 256 + d2 * 16 + d3) as u32),
                    },
                },
            },
        }
    }
}

/// The body of a JSON string from `i` (just inside the opening quote), with
/// the characters decoded so far: the decoded string and the position after
/// the closing quote, or the position at which the string is malformed.
pub open spec fn spec_string_body(t: Seq<char>, i: int, acc: Seq<char>) -> Result<
    (Seq<char>, int),
    int,
>
    decreases t.len() - i,
{
    if i < 0 || i >= t.len() {
        Err(i)
    } else {
        let c = t[i];
        if c == '"' {
            Ok((acc, i + 1))
        } else if c == '\\' {
            if i + 1 >= t.len() {
                Err(i)
            } else {
                let e = t[i + 1];
                if e == '"' {
                    spec_string_body(t, i + 2, acc.push('"'))
                } else if e == '\\' {
                    spec_string_body(t, i + 2, acc.push('\\'))
                } else if e == '/' {
                    spec_string_body(t, i + 2, acc.push('/'))
                } else if e == 'b' {
                    spec_string_body(t, i + 2, acc.push('\u{0008}'))
                } else if e == 'f' {
                    spec_string_body(t, i + 2, acc.push('\u{000C}'))
                } else if e == 'n' {
                    spec_string_body(t, i + 2, acc.push('\n'))
                } else if e == 'r' {
                    spec_string_body(t, i + 2, acc.push('\r'))
                } else if e == 't' {
                    spec_string_body(t, i + 2, acc.push('\t'))
                } else if e == 'u' {
                    match spec_hex4(t, i + 2) {
                        Err(p) => Err(p),
                        Ok(hi) => if 0xD800 <= hi && hi < 0xDC00 {
                            if t.len() - i < 8 || t[i + 6] != '\\' || t[i + 7] != 'u' {
                                Err(i + 6)
                            } else {
                                match spec_hex4(t, i + 8) {
                                    Err(p) => Err(p),
                                    Ok(lo) => if lo < 0xDC00 || lo >= 0xE000 {
                                        Err(i + 8)
                                    } else {
                                        spec_string_body(
                                            t,
                                            i + 12,
                                            acc.push(
                                                char_of(
                                                    (0x10000 + (hi - 0xD800) * 0x400 + (lo
                                                        - 0xDC00)) as u32,
                                                ),
                                            ),
                                        )
                                    },
                                }
                            }
                        } else if 0xDC00 <= hi && hi < 0xE000 {
                            Err(i + 2)
                        } else {
                            spec_string_body(t, i + 6, acc.push(char_of(hi)))
                        },
                    }
                } else {
                    Err(i + 1)
                }
            }
        } else if (c as u32) < 0x20 {
            Err(i)
        } else {
            spec_string_body(t, i + 1, acc.push(c))
        }
    }
}

/// One JSON string whose opening quote stands at `pos`.
pub open spec fn spec_parse_string(t: Seq<char>, pos: int) -> Result<(Seq<char>, int), int> {
    if pos < 0 || pos >= t.len() {
        Err(pos)
    } else if t[pos] != '"' {
        Err(pos)
    } else {
        spec_string_body(t, pos + 1, Seq::empty())
    }
}

/// A run of decimal digits from `i`, accumulating the integer's value with
/// the same 64-bit cutoff the decoder applies: past the largest
/// representable value the number is no longer plain.
pub open spec fn spec_int_digits(t: Seq<char>, i: int, val: u64, plain: bool) -> (int, u64, bool)
    decreases t.len() - i,
{
    if i < 0 || i >= t.len() {
        (i, val, plain)
    } else {
        let u = t[i] as u32;
        if 48 <= u && u <= 57 {
            let d = (u - 48) as u64;
            if val < 1844674407370955161 || (val == 1844674407370955161 && d <= 5) {
                spec_int_digits(t, i + 1, (val * 10 + d) as u64, plain)
            } else {
                spec_int_digits(t, i + 1, 0u64, false)
            }
        } else {
            (i, val, plain)
        }
    }
}

/// The position after a run of decimal digits starting at `i`.
pub open spec fn spec_digit_run(t: Seq<char>, i: int) -> int
    decreases t.len() - i,
{
    if i < 0 || i >= t.len() {
        i
    } else if 48 <= (t[i] as u32) && (t[i] as u32) <= 57 {
        spec_digit_run(t, i + 1)
    } else {
        i
    }
}

/// The exponent part of a number, if one stands at `i`, and the finished
/// number value: with a fraction or exponent, or after the cutoff, the
/// number is kept only as a number.
pub open spec fn spec_number_exp(t: Seq<char>, i: int, val: u64, plain: bool) -> Result<
    (JVal, int),
    int,
> {
    if i < t.len() && (t[i] == 'e' || t[i] == 'E') {
        let s0 = i + 1;
        let s1 = if s0 < t.len() && (t[s0] == '+' || t[s0] == '-') {
            s0 + 1
        } else {
            s0
        };
        if s1 >= t.len() {
            Err(s1)
        } else if !(48 <= (t[s1] as u32) && (t[s1] as u32) <= 57) {
            Err(s1)
        } else {
            Ok((JVal::NumOther, spec_digit_run(t, s1)))
        }
    } else {
        if plain {
            Ok((JVal::Int(val), i))
        } else {
            Ok((JVal::NumOther, i))
        }
    }
}

/// One JSON number starting at `pos`.
pub open spec fn spec_parse_number(t: Seq<char>, pos: int) -> Result<(JVal, int), int> {
    if pos < 0 || pos >= t.len() {
        Err(pos)
    } else {
        let neg = t[pos] == '-';
        let i0 = if neg {
            pos + 1
        } else {
            pos
        };
        if i0 >= t.len() {
            Err(i0)
        } else {
            let first = t[i0] as u32;
            if !(48 <= first && first <= 57) {
                Err(i0)
            } else {
                let r = spec_int_digits(t, i0 + 1, ((first - 48) as u64), !neg);
                if r.0 - i0 > 1 && t[i0] == '0' {
                    Err(i0 + 1)
                } else {
                    if r.0 < t.len() && t[r.0] == '.' {
                        if r.0 + 1 >= t.len() {
                            Err(r.0 + 1)
                        } else if !(48 <= (t[r.0 + 1] as u32) && (t[r.0 + 1] as u32) <= 57) {
                            Err(r.0 + 1)
                        } else {
                            spec_number_exp(t, spec_digit_run(t, r.0 + 1), r.1, false)
                        }
                    } else {
                        spec_number_exp(t, r.0, r.1, r.2)
                    }
                }
            }
        }
    }
}

/// One JSON value starting at `pos` (no leading whitespace): its ghost
/// image and the position just after it, or the position at which the text
/// is malformed.
pub open spec fn spec_parse_value(t: Seq<char>, pos: int) -> Result<(JVal, int), int>
    decreases t.len() - pos, 0int,
{
    if pos < 0 || pos >= t.len() {
        Err(pos)
    } else {
        let c = t[pos];
        if c == '{' {
            match spec_object_body(t, pos + 1) {
                Ok((ms, p)) => Ok((JVal::Obj(ms), p)),
                Err(e) => Err(e),
            }
        } else if c == '[' {
            match spec_array_body(t, pos + 1) {
                Ok((es, p)) => Ok((JVal::Arr(es), p)),
                Err(e) => Err(e),
            }
        } else if c == '"' {
            match spec_parse_string(t, pos) {
                Ok((s, p)) => Ok((JVal::Str(s), p)),
                Err(e) => Err(e),
            }
        } else if c == 't' {
            if t.len() - pos >= 4 && t[pos + 1] == 'r' && t[pos + 2] == 'u' && t[pos + 3] == 'e' {
                Ok((JVal::Bool(true), pos + 4))
            } else {
                Err(pos)
            }
        } else if c == 'f' {
            if t.len() - pos >= 5 && t[pos + 1] == 'a' && t[pos + 2] == 'l' && t[pos + 3] == 's'
                && t[pos + 4] == 'e' {
                Ok((JVal::Bool(false), pos + 5))
            } else {
                Err(pos)
            }
        } else if c == 'n' {
            if t.len() - pos >= 4 && t[pos + 1] == 'u' && t[pos + 2] == 'l' && t[pos + 3] == 'l' {
                Ok((JVal::Null, pos + 4))
            } else {
                Err(pos)
            }
        } else if c == '-' || (48 <= (c as u32) && (c as u32) <= 57) {
            spec_parse_number(t, pos)
        } else {
            Err(pos)
        }
    }
}

/// The members of an object whose opening brace stands just before `pos`.
/// The two position tests only bound the measure; parsing never reaches
/// them, since skipping whitespace stays within the text.
pub open spec fn spec_object_body(t: Seq<char>, pos: int) -> Result<(Seq<JMember>, int), int>
    decreases t.len() - pos, 2int,
{
    let i = spec_skip_ws(t, pos);
    if i < pos || i > t.len() {
        Err(i)
    } else if i < t.len() && t[i] == '}' {
        Ok((Seq::empty(), i + 1))
    } else {
        spec_object_members(t, i, Seq::empty())
    }
}

/// A comma-separated run of `key: value` members from `i`, ending at a
/// closing brace. The extra position tests only bound the measure; parsing
/// never reaches them, since every member occupies at least one character.
pub open spec fn spec_object_members(t: Seq<char>, i: int, acc: Seq<JMember>) -> Result<
    (Seq<JMember>, int),
    int,
>
    decreases t.len() - i, 1int,
{
    match spec_parse_string(t, i) {
        Err(e) => Err(e),
        Ok((key, j)) => {
            let j2 = spec_skip_ws(t, j);
            if !(j2 < t.len() && t[j2] == ':') {
                Err(j2)
            } else {
                let j3 = spec_skip_ws(t, j2 + 1);
                if j3 < i || j3 > t.len() {
                    Err(j3)
                } else {
                    match spec_parse_value(t, j3) {
                        Err(e) => Err(e),
                        Ok((val, j4)) => {
                            let acc2 = acc.push(JMember { key, value: val });
                            let j5 = spec_skip_ws(t, j4);
                            if j5 < t.len() && t[j5] == ',' {
                                let i2 = spec_skip_ws(t, j5 + 1);
                                if i2 <= i || i2 > t.len() {
                                    Err(i2)
                                } else {
                                    spec_object_members(t, i2, acc2)
                                }
                            } else if j5 < t.len() && t[j5] == '}' {
                                Ok((acc2, j5 + 1))
                            } else {
                                Err(j5)
                            }
                        },
                    }
                }
            }
        },
    }
}

/// The elements of an array whose opening bracket stands just before
/// `pos`; the position tests bound the measure, as in objects.
pub open spec fn spec_array_body(t: Seq<char>, pos: int) -> Result<(Seq<JVal>, int), int>
    decreases t.len() - pos, 2int,
{
    let i = spec_skip_ws(t, pos);
    if i < pos || i > t.len() {
        Err(i)
    } else if i < t.len() && t[i] == ']' {
        Ok((Seq::empty(), i + 1))
    } else {
        spec_array_elems(t, i, Seq::empty())
    }
}

/// A comma-separated run of values from `i`, ending at a closing bracket.
pub open spec fn spec_array_elems(t: Seq<char>, i: int, acc: Seq<JVal>) -> Result<
    (Seq<JVal>, int),
    int,
>
    decreases t.len() - i, 1int,
{
    match spec_parse_value(t, i) {
        Err(e) => Err(e),
        Ok((val, j)) => {
            let acc2 = acc.push(val);
            let j2 = spec_skip_ws(t, j);
            if j2 < t.len() && t[j2] == ',' {
                let i2 = spec_skip_ws(t, j2 + 1);
                if i2 <= i || i2 > t.len() {
                    Err(i2)
                } else {
                    spec_array_elems(t, i2, acc2)
                }
            } else if j2 < t.len() && t[j2] == ']' {
                Ok((acc2, j2 + 1))
            } else {
                Err(j2)
            }
        },
    }
}

/// The single JSON value a whole text holds, with nothing but whitespace
/// around it: its ghost image, or the position at which parsing stops.
pub open spec fn spec_parse_json(t: Seq<char>) -> Result<JVal, int> {
    let i = spec_skip_ws(t, 0);
    match spec_parse_value(t, i) {
        Ok((v, p)) => {
            let p2 = spec_skip_ws(t, p);
            if p2 == t.len() {
                Ok(v)
            } else {
                Err(p2)
            }
        },
        Err(e) => Err(e),
    }
}

/// The characters a string of this crate is built from, in order.
pub fn chars_of(s: &str) -> (v: Vec<char>)
    ensures
        v@ == s@,
{
    let n = s.unicode_len();
    let mut v: Vec<char> = Vec::new();
    let mut i: usize = 0;
    while i < n
        invariant
            0 <= i <= n,
            n == s@.len(),
            v@ == s@.subrange(0, i as int),
        decreases n - i,
    {
        let c = s.get_char(i);
        v.push(c);
        proof {
            assert(v@ =~= s@.subrange(0, i + 1 as int));
        }
        i = i + 1;
    }
    proof {
        assert(v@ =~= s@);
    }
    v
}

/// Whether two string slices consist of the same characters.
pub fn str_eq_str(a: &str, b: &str) -> (r: bool)
    ensures
        r == (a@ == b@),
{
    let an = a.unicode_len();
    let bn = b.unicode_len();
    if an != bn {
        return false;
    }
    let mut i: usize = 0;
    while i < an
        invariant
            0 <= i <= an,
            an == a@.len(),
            an == b@.len(),
            forall|j: int| 0 <= j < i ==> a@[j] == b@[j],
        decreases an - i,
    {
        if a.get_char(i) != b.get_char(i) {
            return false;
        }
        i = i + 1;
    }
    proof {
        assert(a@ =~= b@);
    }
    true
}

/// Relies on `String::from_iter` over `char`: the resulting string consists
/// of exactly the given characters in the given order.
#[verifier::external_body]
fn string_from_chars(v: &Vec<char>) -> (s: String)
    ensures
        s@ == v@,
{
    v.iter().collect()
}

/// Relies on `char::from_u32`: it returns the character with the given code
/// point — the one [`char_of`] names — and returns `None` exactly for
/// surrogate code points and for values above the Unicode maximum.
#[verifier::external_body]
fn char_from_u32(n: u32) -> (r: Option<char>)
    ensures
        r matches Some(c) ==> c as u32 == n,
        r matches Some(c) ==> c == char_of(n),
        r is Some <==> (n < 0xD800 || (0xE000 <= n && n <= 0x10FFFF)),
{
    char::from_u32(n)
}

/// The position after any run of JSON whitespace starting at `pos`.
fn skip_ws(t: &Vec<char>, pos: usize) -> (p: usize)
    requires
        pos <= t@.len(),
    ensures
        pos <= p <= t@.len(),
        p as int == spec_skip_ws(t@, pos as int),
{
    let mut i: usize = pos;
    loop
        invariant_except_break
            pos <= i <= t@.len(),
            spec_skip_ws(t@, pos as int) == spec_skip_ws(t@, i as int),
        ensures
            pos <= i <= t@.len(),
            spec_skip_ws(t@, pos as int) == i,
        decreases t@.len() - i,
    {
        if i < t.len() {
            let c = t[i];
            if c == ' ' || c == '\n' || c == '\r' || c == '\t' {
                i = i + 1;
            } else {
                break ;
            }
        } else {
            break ;
        }
    }
    i
}

/// The value of one hexadecimal digit.
fn hex_val(c: char) -> (r: Option<u32>)
    ensures
        r matches Some(v) ==> v < 16,
        r == spec_hex_val(c),
{
    let u = c as u32;
    if u >= 48 && u <= 57 {
        Some(u - 48)
    } else if u >= 97 && u <= 102 {
        Some(u - 87)
    } else if u >= 65 && u <= 70 {
        Some(u - 55)
    } else {
        None
    }
}

/// Four hexadecimal digits starting at `pos`, as one number.
fn parse_hex4(t: &Vec<char>, pos: usize) -> (r: Result<u32, usize>)
    requires
        pos <= t@.len(),
    ensures
        r matches Ok(v) ==> v < 0x10000 && pos + 4 <= t@.len(),
        r matches Ok(v) ==> spec_hex4(t@, pos as int) == Ok::<u32, int>(v),
        r matches Err(p) ==> spec_hex4(t@, pos as int) == Err::<u32, int>(p as int),
{
    if t.len() < 4 || pos > t.len() - 4 {
        return Err(pos);
    }
    let d0 = match hex_val(t[pos]) {
        Some(d) => d,
        None => {
            return Err(pos);
        },
    };
    let d1 = match hex_val(t[pos + 1]) {
        Some(d) => d,
        None => {
            return Err(pos + 1);
        },
    };
    let d2 = match hex_val(t[pos + 2]) {
        Some(d) => d,
        None => {
            return Err(pos + 2);
        },
    };
    let d3 = match hex_val(t[pos + 3]) {
        Some(d) => d,
        None => {
            return Err(pos + 3);
        },
    };
    Ok(d0 * 4096 + d1 * 256 + d2 * 16 + d3)
}

/// One JSON string starting at the opening quote at `pos`; escape sequences
/// are resolved, surrogate pairs included. Returns the decoded string and
/// the position after the closing quote.
fn parse_string(t: &Vec<char>, pos: usize) -> (r: Result<(String, usize), usize>)
    requires
        pos <= t@.len(),
    ensures
        r matches Ok((s, p)) ==> pos + 2 <= p <= t@.len(),
        r matches Ok((s, p)) ==> spec_parse_string(t@, pos as int) == Ok::<(Seq<char>, int), int>(
            (s@, p as int),
        ),
        r matches Err(p) ==> spec_parse_string(t@, pos as int) == Err::<(Seq<char>, int), int>(
            p as int,
        ),
{
    if pos >= t.len() {
        return Err(pos);
    }
    if t[pos] != '"' {
        return Err(pos);
    }
    let mut out: Vec<char> = Vec::new();
    let mut i: usize = pos + 1;
    proof {
        assert(out@ =~= Seq::<char>::empty());
    }
    loop
        invariant
            pos < t@.len(),
            t@[pos as int] == '"',
            pos + 1 <= i <= t@.len(),
            spec_parse_string(t@, pos as int) == spec_string_body(t@, i as int, out@),
        decreases t@.len() - i,
    {
        if i >= t.len() {
            return Err(i);
        }
        let c = t[i];
        if c == '"' {
            let s = string_from_chars(&out);
            return Ok((s, i + 1));
        } else if c == '\\' {
            if i + 1 >= t.len() {
                return Err(i);
            }
            let e = t[i + 1];
            if e == '"' {
                out.push('"');
                i = i + 2;
            } else if e == '\\' {
                out.push('\\');
                i = i + 2;
            } else if e == '/' {
                out.push('/');
                i = i + 2;
            } else if e == 'b' {
                out.push('\u{0008}');
                i = i + 2;
            } else if e == 'f' {
                out.push('\u{000C}');
                i = i + 2;
            } else if e == 'n' {
                out.push('\n');
                i = i + 2;
            } else if e == 'r' {
                out.push('\r');
                i = i + 2;
            } else if e == 't' {
                out.push('\t');
                i = i + 2;
            } else if e == 'u' {
                let hi = match parse_hex4(t, i + 2) {
                    Ok(v) => v,
                    Err(p) => {
                        return Err(p);
                    },
                };
                if hi >= 0xD800 && hi < 0xDC00 {
                    // A high surrogate must be followed by an escaped low
                    // surrogate; together they name one code point.
                    if t.len() - i < 8 || t[i + 6] != '\\' || t[i + 7] != 'u' {
                        return Err(i + 6);
                    }
                    let lo = match parse_hex4(t, i + 8) {
                        Ok(v) => v,
                        Err(p) => {
                            return Err(p);
                        },
                    };
                    if lo < 0xDC00 || lo >= 0xE000 {
                        return Err(i + 8);
                    }
                    let cp: u32 = 0x10000 + (hi - 0xD800) * 0x400 + (lo - 0xDC00);
                    match char_from_u32(cp) {
                        Some(dc) => {
                            out.push(dc);
                            i = i + 12;
                        },
                        None => {
                            return Err(i);
                        },
                    }
                } else if hi >= 0xDC00 && hi < 0xE000 {
                    // A lone low surrogate names no character.
                    return Err(i + 2);
                } else {
                    match char_from_u32(hi) {
                        Some(dc) => {
                            out.push(dc);
                            i = i + 6;
                        },
                        None => {
                            return Err(i);
                        },
                    }
                }
            } else {
                return Err(i + 1);
            }
        } else if (c as u32) < 0x20 {
            // Unescaped control characters are not allowed inside strings.
            return Err(i);
        } else {
            out.push(c);
            i = i + 1;
        }
    }
}

/// One JSON number starting at `pos`. Plain non-negative integers that fit
/// in 64 bits come back exact; every other well-formed number is consumed
/// and recorded only as a number.
fn parse_number(t: &Vec<char>, pos: usize) -> (r: Result<(JsonValue, usize), usize>)
    requires
        pos < t@.len(),
    ensures
        r matches Ok((v, p)) ==> pos < p <= t@.len(),
        r matches Ok((v, p)) ==> spec_parse_number(t@, pos as int) == Ok::<(JVal, int), int>(
            (jval_of(v), p as int),
        ),
        r matches Err(p) ==> spec_parse_number(t@, pos as int) == Err::<(JVal, int), int>(
            p as int,
        ),
{
    let n = t.len();
    let mut i: usize = pos;
    let mut plain = true;
    if t[i] == '-' {
        plain = false;
        i = i + 1;
    }
    if i >= n {
        return Err(i);
    }
    let first = t[i] as u32;
    if !(first >= 48 && first <= 57) {
        return Err(i);
    }
    let int_start: usize = i;
    let mut val: u64 = (first - 48) as u64;
    i = i + 1;
    let ghost val0 = val;
    let ghost plain0 = plain;
    loop
        invariant_except_break
            int_start < i <= t@.len(),
            pos <= int_start,
            spec_int_digits(t@, int_start as int + 1, val0, plain0) == spec_int_digits(
                t@,
                i as int,
                val,
                plain,
            ),
        ensures
            int_start < i <= t@.len(),
            spec_int_digits(t@, int_start as int + 1, val0, plain0) == (i as int, val, plain),
        decreases t@.len() - i,
    {
        if i < t.len() {
            let u = t[i] as u32;
            if u >= 48 && u <= 57 {
                let d = (u - 48) as u64;
                // 1844674407370955161 is u64::MAX / 10, and u64::MAX % 10 is
                // 5: val * 10 + d fits in 64 bits exactly under this test.
                if val < 1844674407370955161 || (val == 1844674407370955161 && d <= 5) {
                    val = val * 10 + d;
                } else {
                    plain = false;
                    val = 0;
                }
                i = i + 1;
            } else {
                break ;
            }
        } else {
            break ;
        }
    }
    if i - int_start > 1 && t[int_start] == '0' {
        // A leading zero may only stand alone.
        return Err(int_start + 1);
    }
    if i < t.len() && t[i] == '.' {
        plain = false;
        i = i + 1;
        if i >= t.len() {
            return Err(i);
        }
        let fu = t[i] as u32;
        if !(fu >= 48 && fu <= 57) {
            return Err(i);
        }
        let ghost f0 = i as int;
        loop
            invariant_except_break
                pos < i <= t@.len(),
                spec_digit_run(t@, f0) == spec_digit_run(t@, i as int),
            ensures
                pos < i <= t@.len(),
                spec_digit_run(t@, f0) == i as int,
            decreases t@.len() - i,
        {
            if i < t.len() {
                let u = t[i] as u32;
                if u >= 48 && u <= 57 {
                    i = i + 1;
                } else {
                    break ;
                }
            } else {
                break ;
            }
        }
    }
    if i < t.len() && (t[i] == 'e' || t[i] == 'E') {
        plain = false;
        i = i + 1;
        if i < t.len() && (t[i] == '+' || t[i] == '-') {
            i = i + 1;
        }
        if i >= t.len() {
            return Err(i);
        }
        let eu = t[i] as u32;
        if !(eu >= 48 && eu <= 57) {
            return Err(i);
        }
        let ghost e0 = i as int;
        loop
            invariant_except_break
                pos < i <= t@.len(),
                spec_digit_run(t@, e0) == spec_digit_run(t@, i as int),
            ensures
                pos < i <= t@.len(),
                spec_digit_run(t@, e0) == i as int,
            decreases t@.len() - i,
        {
            if i < t.len() {
                let u = t[i] as u32;
                if u >= 48 && u <= 57 {
                    i = i + 1;
                } else {
                    break ;
                }
            } else {
                break ;
            }
        }
    }
    if plain {
        Ok((JsonValue::Int(val), i))
    } else {
        Ok((JsonValue::NumOther, i))
    }
}

/// One JSON value starting at `pos` (no leading whitespace). Returns the
/// value and the position just after it.
fn parse_value(t: &Vec<char>, pos: usize) -> (r: Result<(JsonValue, usize), usize>)
    requires
        pos <= t@.len(),
    ensures
        r matches Ok((v, p)) ==> pos < p <= t@.len(),
        r matches Ok((v, p)) ==> spec_parse_value(t@, pos as int) == Ok::<(JVal, int), int>(
            (jval_of(v), p as int),
        ),
        r matches Err(p) ==> spec_parse_value(t@, pos as int) == Err::<(JVal, int), int>(
            p as int,
        ),
    decreases t@.len() - pos, 0int,
{
    if pos >= t.len() {
        return Err(pos);
    }
    let c = t[pos];
    if c == '{' {
        match parse_object_body(t, pos + 1) {
            Ok((ms, p)) => Ok((JsonValue::Obj(ms), p)),
            Err(e) => Err(e),
        }
    } else if c == '[' {
        match parse_array_body(t, pos + 1) {
            Ok((es, p)) => Ok((JsonValue::Arr(es), p)),
            Err(e) => Err(e),
        }
    } else if c == '"' {
        match parse_string(t, pos) {
            Ok((s, p)) => Ok((JsonValue::Str(s), p)),
            Err(e) => Err(e),
        }
    } else if c == 't' {
        if t.len() - pos >= 4 && t[pos + 1] == 'r' && t[pos + 2] == 'u' && t[pos + 3] == 'e' {
            Ok((JsonValue::Bool(true), pos + 4))
        } else {
            Err(pos)
        }
    } else if c == 'f' {
        if t.len() - pos >= 5 && t[pos + 1] == 'a' && t[pos + 2] == 'l' && t[pos + 3] == 's'
            && t[pos + 4] == 'e' {
            Ok((JsonValue::Bool(false), pos + 5))
        } else {
            Err(pos)
        }
    } else if c == 'n' {
        if t.len() - pos >= 4 && t[pos + 1] == 'u' && t[pos + 2] == 'l' && t[pos + 3] == 'l' {
            Ok((JsonValue::Null, pos + 4))
        } else {
            Err(pos)
        }
    } else if c == '-' || ((c as u32) >= 48 && (c as u32) <= 57) {
        parse_number(t, pos)
    } else {
        Err(pos)
    }
}

/// The members of a JSON object whose opening brace stands just before
/// `pos`, up to and including the closing brace.
fn parse_object_body(t: &Vec<char>, pos: usize) -> (r: Result<(Vec<JsonMember>, usize), usize>)
    requires
        pos <= t@.len(),
    ensures
        r matches Ok((ms, p)) ==> pos < p <= t@.len(),
        r matches Ok((ms, p)) ==> spec_object_body(t@, pos as int) == Ok::<
            (Seq<JMember>, int),
            int,
        >((jmembers_of(ms@), p as int)),
        r matches Err(p) ==> spec_object_body(t@, pos as int) == Err::<(Seq<JMember>, int), int>(
            p as int,
        ),
    decreases t@.len() - pos, 1int,
{
    let mut ms: Vec<JsonMember> = Vec::new();
    let mut i: usize = skip_ws(t, pos);
    proof {
        assert(jmembers_of(ms@) =~= Seq::<JMember>::empty());
    }
    if i < t.len() && t[i] == '}' {
        return Ok((ms, i + 1));
    }
    loop
        invariant
            pos <= i <= t@.len(),
            spec_object_body(t@, pos as int) == spec_object_members(
                t@,
                i as int,
                jmembers_of(ms@),
            ),
        decreases t@.len() - i,
    {
        let (key, j) = match parse_string(t, i) {
            Ok(x) => x,
            Err(e) => {
                return Err(e);
            },
        };
        let j2 = skip_ws(t, j);
        if j2 >= t.len() || t[j2] != ':' {
            return Err(j2);
        }
        let j3 = skip_ws(t, j2 + 1);
        let (val, j4) = match parse_value(t, j3) {
            Ok(x) => x,
            Err(e) => {
                return Err(e);
            },
        };
        let ghost ms_old = ms@;
        ms.push(JsonMember { key, value: val });
        proof {
            lemma_jmembers_push(ms_old, ms@.last());
            assert(ms@ == ms_old.push(ms@.last()));
        }
        let j5 = skip_ws(t, j4);
        if j5 < t.len() && t[j5] == ',' {
            i = skip_ws(t, j5 + 1);
        } else if j5 < t.len() && t[j5] == '}' {
            return Ok((ms, j5 + 1));
        } else {
            return Err(j5);
        }
    }
}

/// The elements of a JSON array whose opening bracket stands just before
/// `pos`, up to and including the closing bracket.
fn parse_array_body(t: &Vec<char>, pos: usize) -> (r: Result<(Vec<JsonValue>, usize), usize>)
    requires
        pos <= t@.len(),
    ensures
        r matches Ok((es, p)) ==> pos < p <= t@.len(),
        r matches Ok((es, p)) ==> spec_array_body(t@, pos as int) == Ok::<(Seq<JVal>, int), int>(
            (jvals_of(es@), p as int),
        ),
        r matches Err(p) ==> spec_array_body(t@, pos as int) == Err::<(Seq<JVal>, int), int>(
            p as int,
        ),
    decreases t@.len() - pos, 1int,
{
    let mut es: Vec<JsonValue> = Vec::new();
    let mut i: usize = skip_ws(t, pos);
    proof {
        assert(jvals_of(es@) =~= Seq::<JVal>::empty());
    }
    if i < t.len() && t[i] == ']' {
        return Ok((es, i + 1));
    }
    loop
        invariant
            pos <= i <= t@.len(),
            spec_array_body(t@, pos as int) == spec_array_elems(t@, i as int, jvals_of(es@)),
        decreases t@.len() - i,
    {
        let (val, j) = match parse_value(t, i) {
            Ok(x) => x,
            Err(e) => {
                return Err(e);
            },
        };
        let ghost es_old = es@;
        es.push(val);
        proof {
            lemma_jvals_push(es_old, es@.last());
            assert(es@ == es_old.push(es@.last()));
        }
        let j2 = skip_ws(t, j);
        if j2 < t.len() && t[j2] == ',' {
            i = skip_ws(t, j2 + 1);
        } else if j2 < t.len() && t[j2] == ']' {
            return Ok((es, j2 + 1));
        } else {
            return Err(j2);
        }
    }
}

/// The single JSON value a whole text holds, with nothing but whitespace
/// around it. On failure the error carries the character position at which
/// parsing stopped.
pub fn parse_json(t: &Vec<char>) -> (r: Result<JsonValue, usize>)
    ensures
        r matches Ok(v) ==> spec_parse_json(t@) == Ok::<JVal, int>(jval_of(v)),
        r matches Err(p) ==> spec_parse_json(t@) == Err::<JVal, int>(p as int),
{
    let i = skip_ws(t, 0);
    match parse_value(t, i) {
        Ok((v, p)) => {
            let p2 = skip_ws(t, p);
            if p2 == t.len() {
                Ok(v)
            } else {
                Err(p2)
            }
        },
        Err(e) => Err(e),
    }
}

} // verus!
