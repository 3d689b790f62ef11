//! A JSON document model with a verified serializer and parser.
//!
//! Values are modeled by [`Json`]; numbers keep their decimal lexeme so a
//! value read off the wire can be written back unchanged. The serializer
//! renders exactly the spec-level [`ser_json`] (compact) and [`pretty_json`]
//! (two-space indented) forms; the parser accepts standard JSON text and is
//! proved to read back everything the serializer writes.

use vstd::prelude::*;
use crate::strutil::{dec_int, digit_char, i64_to_dec_chars, append_chars, chars_eq, str_to_chars};

verus! {

broadcast use vstd::seq::axiom_seq_index_decreases, vstd::std_specs::vec::axiom_vec_index_decreases;

/// A JSON value. A number holds its decimal lexeme; a string holds its
/// decoded characters.
#[derive(Debug)]
pub enum Json {
    Null,
    Bool(bool),
    Num(Vec<char>),
    Str(Vec<char>),
    Arr(Vec<Json>),
    Obj(Vec<(Vec<char>, Json)>),
}

/// The mathematical shape of a JSON value.
pub enum JsonV {
    Null,
    Bool(bool),
    Num(Seq<char>),
    Str(Seq<char>),
    Arr(Seq<JsonV>),
    Obj(Seq<(Seq<char>, JsonV)>),
}

pub open spec fn view_json(j: Json) -> JsonV
    decreases j,
{
    match j {
        Json::Null => JsonV::Null,
        Json::Bool(b) => JsonV::Bool(b),
        Json::Num(s) => JsonV::Num(s@),
        Json::Str(s) => JsonV::Str(s@),
        Json::Arr(items) => JsonV::Arr(
            Seq::new(
                items@.len(),
                |i: int|
                    if 0 <= i < items@.len() {
                        view_json(items@[i])
                    } else {
                        JsonV::Null
                    },
            ),
        ),
        Json::Obj(fields) => JsonV::Obj(
            Seq::new(
                fields@.len(),
                |i: int|
                    if 0 <= i < fields@.len() {
                        (fields@[i].0@, view_json(fields@[i].1))
                    } else {
                        (Seq::empty(), JsonV::Null)
                    },
            ),
        ),
    }
}

impl View for Json {
    type V = JsonV;

    open spec fn view(&self) -> JsonV {
        view_json(*self)
    }
}

/// The views of a sequence of values.
pub open spec fn views_of_json(s: Seq<Json>) -> Seq<JsonV> {
    Seq::new(s.len(), |i: int| view_json(s[i]))
}

/// The views of a sequence of object fields.
pub open spec fn views_of_fields(s: Seq<(Vec<char>, Json)>) -> Seq<(Seq<char>, JsonV)> {
    Seq::new(s.len(), |i: int| (s[i].0@, view_json(s[i].1)))
}

pub broadcast proof fn lemma_view_arr(items: Vec<Json>)
    ensures
        #[trigger] view_json(Json::Arr(items)) == JsonV::Arr(views_of_json(items@)),
{
    let v = view_json(Json::Arr(items));
    assert(v is Arr);
    assert forall|i: int| 0 <= i < items@.len() implies v->Arr_0[i] == views_of_json(
        items@,
    )[i] by {}
    assert(v->Arr_0 =~= views_of_json(items@));
}

pub broadcast proof fn lemma_view_obj(fields: Vec<(Vec<char>, Json)>)
    ensures
        #[trigger] view_json(Json::Obj(fields)) == JsonV::Obj(views_of_fields(fields@)),
{
    let v = view_json(Json::Obj(fields));
    assert(v is Obj);
    assert forall|i: int| 0 <= i < fields@.len() implies v->Obj_0[i] == views_of_fields(
        fields@,
    )[i] by {}
    assert(v->Obj_0 =~= views_of_fields(fields@));
}

/// An ASCII decimal digit.
pub open spec fn is_digit(c: char) -> bool {
    c == '0' || c == '1' || c == '2' || c == '3' || c == '4' || c == '5' || c == '6' || c == '7'
        || c == '8' || c == '9'
}

pub fn is_digit_char(c: char) -> (r: bool)
    ensures
        r == is_digit(c),
{
    c == '0' || c == '1' || c == '2' || c == '3' || c == '4' || c == '5' || c == '6' || c == '7'
        || c == '8' || c == '9'
}

/// A nonempty run of decimal digits.
pub open spec fn all_digits(s: Seq<char>) -> bool {
    s.len() > 0 && forall|k: int| 0 <= k < s.len() ==> is_digit(#[trigger] s[k])
}

/// The integer part of a number: digits with no superfluous leading zero.
pub open spec fn int_digits(s: Seq<char>) -> bool {
    all_digits(s) && (s[0] != '0' || s.len() == 1)
}

/// An optional fraction: nothing, or a point followed by digits.
pub open spec fn frac_wf(s: Seq<char>) -> bool {
    s.len() == 0 || (s[0] == '.' && all_digits(s.skip(1)))
}

/// The part of an exponent after its marker: an optional sign, then digits.
pub open spec fn exp_digits(s: Seq<char>) -> bool {
    all_digits(s) || (s.len() > 0 && (s[0] == '+' || s[0] == '-') && all_digits(s.skip(1)))
}

/// An optional exponent: nothing, or an e/E marker and its digits.
pub open spec fn exp_wf(s: Seq<char>) -> bool {
    s.len() == 0 || ((s[0] == 'e' || s[0] == 'E') && exp_digits(s.skip(1)))
}

/// One split of a number lexeme: an optional minus sign, the integer part up
/// to `a`, the fraction up to `b`, and the exponent after it.
pub open spec fn num_split(s: Seq<char>, a: int, b: int) -> bool {
    &&& s.len() > 0
    &&& {
        let m: int = if s[0] == '-' {
            1
        } else {
            0
        };
        &&& m < a <= b <= s.len()
        &&& int_digits(s.subrange(m, a))
        &&& frac_wf(s.subrange(a, b))
        &&& exp_wf(s.skip(b))
    }
}

/// Exactly the JSON number grammar: an optional minus sign, an integer part
/// without superfluous leading zeros, and optional fraction and exponent.
pub open spec fn num_wf(s: Seq<char>) -> bool {
    exists|a: int, b: int| #[trigger] num_split(s, a, b)
}

/// A well-formed number lexeme is nonempty and starts with its sign or a
/// digit.
pub proof fn lemma_num_wf_first(s: Seq<char>)
    requires
        num_wf(s),
    ensures
        s.len() > 0,
        s[0] == '-' || is_digit(s[0]),
{
    let (a, b) = choose|a: int, b: int| num_split(s, a, b);
    if s[0] != '-' {
        assert(s.subrange(0, a)[0] == s[0]);
    }
}

/// Every number lexeme in the value is well formed.
pub open spec fn wf_json(v: JsonV) -> bool
    decreases v,
{
    match v {
        JsonV::Null => true,
        JsonV::Bool(_) => true,
        JsonV::Num(s) => num_wf(s),
        JsonV::Str(_) => true,
        JsonV::Arr(items) => forall|i: int| 0 <= i < items.len() ==> wf_json(#[trigger] items[i]),
        JsonV::Obj(fields) => forall|i: int|
            0 <= i < fields.len() ==> wf_json(#[trigger] fields[i].1),
    }
}

impl Json {
    /// A string value holding the characters of `s`.
    pub fn of_str(s: &str) -> (r: Json)
        ensures
            r@ == JsonV::Str(s@),
            wf_json(r@),
    {
        Json::Str(str_to_chars(s))
    }

    /// A string value taking over `v`.
    pub fn of_chars(v: Vec<char>) -> (r: Json)
        ensures
            r@ == JsonV::Str(v@),
            wf_json(r@),
    {
        Json::Str(v)
    }

    /// A number value with the decimal rendering of `n` as its lexeme.
    pub fn of_i64(n: i64) -> (r: Json)
        ensures
            r@ == JsonV::Num(dec_int(n as int)),
            wf_json(r@),
    {
        let lex = i64_to_dec_chars(n);
        proof {
            let mag: int = if n < 0 {
                -(n as int)
            } else {
                n as int
            };
            lemma_dec_digits_are_digits(mag);
            let lx = lex@;
            let e = lx.len() as int;
            assert(lx.subrange(e, e) =~= Seq::<char>::empty());
            assert(lx.skip(e) =~= Seq::<char>::empty());
            if n < 0 {
                assert(lx.subrange(1, e) =~= crate::strutil::dec_digits(mag));
            } else {
                assert(is_digit(lx[0]));
                assert(lx.subrange(0, e) =~= crate::strutil::dec_digits(mag));
            }
            assert(num_split(lx, e, e));
        }
        Json::Num(lex)
    }

    /// Whether this value is `null`.
    pub fn is_null(&self) -> (r: bool)
        ensures
            r == (self@ is Null),
    {
        match self {
            Json::Null => true,
            _ => false,
        }
    }

    /// The characters of a string value.
    pub fn as_str(&self) -> (r: Option<&Vec<char>>)
        ensures
            match r {
                Some(v) => self@ == JsonV::Str(v@),
                None => !(self@ is Str),
            },
    {
        match self {
            Json::Str(s) => Some(s),
            _ => None,
        }
    }

    /// The elements of an array value.
    pub fn as_arr(&self) -> (r: Option<&Vec<Json>>)
        ensures
            match r {
                Some(v) => self@ == JsonV::Arr(views_of_json(v@)),
                None => !(self@ is Arr),
            },
    {
        match self {
            Json::Arr(items) => {
                proof {
                    lemma_view_arr(*items);
                }
                Some(items)
            },
            _ => None,
        }
    }

    /// The fields of an object value.
    pub fn as_obj(&self) -> (r: Option<&Vec<(Vec<char>, Json)>>)
        ensures
            match r {
                Some(v) => self@ == JsonV::Obj(views_of_fields(v@)),
                None => !(self@ is Obj),
            },
    {
        match self {
            Json::Obj(fields) => {
                proof {
                    lemma_view_obj(*fields);
                }
                Some(fields)
            },
            _ => None,
        }
    }

    /// The first field of an object named `key`, if any.
    pub fn get(&self, key: &str) -> (r: Option<&Json>)
        ensures
            match r {
                Some(v) => lookup_field(self@, key@) == Some(v@),
                None => lookup_field(self@, key@) is None,
            },
    {
        let k = str_to_chars(key);
        match self {
            Json::Obj(fields) => {
                proof {
                    lemma_view_obj(*fields);
                }
                proof {
                    assert(views_of_fields(fields@).skip(0) =~= views_of_fields(fields@));
                }
                let mut i: usize = 0;
                while i < fields.len()
                    invariant
                        i <= fields@.len(),
                        self@ == JsonV::Obj(views_of_fields(fields@)),
                        k@ == key@,
                        lookup_fields(views_of_fields(fields@).skip(i as int), key@)
                            == lookup_field(self@, key@),
                    decreases fields@.len() - i,
                {
                    let ghost fs = views_of_fields(fields@);
                    proof {
                        assert(fs.skip(i as int)[0] == fs[i as int]);
                        assert(fs.skip(i as int).drop_first() =~= fs.skip(i + 1));
                    }
                    if chars_eq(&fields[i].0, &k) {
                        return Some(&fields[i].1);
                    }
                    i += 1;
                }
                proof {
                    assert(views_of_fields(fields@).skip(i as int) =~= Seq::<(
                        Seq<char>,
                        JsonV,
                    )>::empty());
                }
                None
            },
            _ => None,
        }
    }

    /// A structurally identical copy of this value.
    #[verifier::loop_isolation(false)]
    pub fn dup(&self) -> (r: Json)
        ensures
            r@ == self@,
        decreases self,
    {
        match self {
            Json::Null => Json::Null,
            Json::Bool(b) => Json::Bool(*b),
            Json::Num(s) => Json::Num(dup_chars(s)),
            Json::Str(s) => Json::Str(dup_chars(s)),
            Json::Arr(items) => {
                let mut out: Vec<Json> = Vec::new();
                let mut i: usize = 0;
                while i < items.len()
                    invariant
                        i <= items@.len(),
                        out@.len() == i,
                        forall|j: int|
                            0 <= j < i ==> view_json(#[trigger] out@[j]) == view_json(items@[j]),
                    decreases items@.len() - i,
                {
                    proof {
                        assert(decreases_to!(*self => self->Arr_0));
                        assert(decreases_to!(self->Arr_0 => self->Arr_0@));
                        assert(decreases_to!(self->Arr_0@ => self->Arr_0@[i as int]));
                        assert(self->Arr_0@[i as int] == items@[i as int]);
                    }
                    let c = items[i].dup();
                    out.push(c);
                    i += 1;
                }
                proof {
                    lemma_view_arr(out);
                    lemma_view_arr(*items);
                    assert(views_of_json(out@) =~= views_of_json(items@));
                }
                Json::Arr(out)
            },
            Json::Obj(fields) => {
                let mut out: Vec<(Vec<char>, Json)> = Vec::new();
                let mut i: usize = 0;
                while i < fields.len()
                    invariant
                        i <= fields@.len(),
                        out@.len() == i,
                        forall|j: int|
                            0 <= j < i ==> (#[trigger] out@[j]).0@ == fields@[j].0@ && view_json(
                                out@[j].1,
                            ) == view_json(fields@[j].1),
                    decreases fields@.len() - i,
                {
                    proof {
                        assert(decreases_to!(*self => self->Obj_0));
                        assert(decreases_to!(self->Obj_0 => self->Obj_0@));
                        assert(decreases_to!(self->Obj_0@ => self->Obj_0@[i as int]));
                        assert(decreases_to!(self->Obj_0@[i as int] => self->Obj_0@[
                            i as int
                        ].1));
                        assert(self->Obj_0@[i as int].1 == fields@[i as int].1);
                    }
                    let kcopy = dup_chars(&fields[i].0);
                    let vcopy = fields[i].1.dup();
                    out.push((kcopy, vcopy));
                    i += 1;
                }
                proof {
                    lemma_view_obj(out);
                    lemma_view_obj(*fields);
                    assert(views_of_fields(out@) =~= views_of_fields(fields@));
                }
                Json::Obj(out)
            },
        }
    }
}

/// An object over the given fields.
pub fn obj_of(fields: Vec<(Vec<char>, Json)>) -> (r: Json)
    ensures
        r@ == JsonV::Obj(views_of_fields(fields@)),
{
    proof {
        lemma_view_obj(fields);
    }
    Json::Obj(fields)
}

/// An array over the given elements.
pub fn arr_of(items: Vec<Json>) -> (r: Json)
    ensures
        r@ == JsonV::Arr(views_of_json(items@)),
{
    proof {
        lemma_view_arr(items);
    }
    Json::Arr(items)
}

/// Appends the field `key: v` to an object under construction.
pub fn push_field(fields: &mut Vec<(Vec<char>, Json)>, key: &str, v: Json)
    ensures
        views_of_fields(final(fields)@) == views_of_fields(old(fields)@).push((key@, v@)),
{
    let k = str_to_chars(key);
    let ghost snap = fields@;
    fields.push((k, v));
    proof {
        assert(views_of_fields(fields@) =~= views_of_fields(snap).push((key@, v@)));
    }
}

/// Copies a character vector.
pub fn dup_chars(v: &Vec<char>) -> (r: Vec<char>)
    ensures
        r@ == v@,
{
    let mut out: Vec<char> = Vec::new();
    append_chars(&mut out, v);
    proof {
        assert(out@ =~= v@);
    }
    out
}

/// First-match lookup among object fields.
pub open spec fn lookup_fields(fields: Seq<(Seq<char>, JsonV)>, key: Seq<char>) -> Option<JsonV>
    decreases fields.len(),
{
    if fields.len() == 0 {
        None
    } else if fields[0].0 == key {
        Some(fields[0].1)
    } else {
        lookup_fields(fields.drop_first(), key)
    }
}

/// The value of field `key` of `v`, if `v` is an object that has one.
pub open spec fn lookup_field(v: JsonV, key: Seq<char>) -> Option<JsonV> {
    match v {
        JsonV::Obj(fields) => lookup_fields(fields, key),
        _ => None,
    }
}

/// The lowercase hexadecimal digit character for `d`.
pub open spec fn hex_digit(d: int) -> char {
    if d < 10 {
        digit_char(d)
    } else if d == 10 {
        'a'
    } else if d == 11 {
        'b'
    } else if d == 12 {
        'c'
    } else if d == 13 {
        'd'
    } else if d == 14 {
        'e'
    } else {
        'f'
    }
}

/// How a character is written inside a JSON string literal: quote and
/// backslash get a backslash escape, control characters get their short
/// escape or a `\u00XX` escape, and everything else stands as itself.
pub open spec fn esc_char(c: char) -> Seq<char> {
    if c == '"' {
        seq!['\\', '"']
    } else if c == '\\' {
        seq!['\\', '\\']
    } else if c == '\u{0008}' {
        seq!['\\', 'b']
    } else if c == '\u{000C}' {
        seq!['\\', 'f']
    } else if c == '\n' {
        seq!['\\', 'n']
    } else if c == '\r' {
        seq!['\\', 'r']
    } else if c == '\t' {
        seq!['\\', 't']
    } else if (c as u32) < 0x20 {
        seq!['\\', 'u', '0', '0', hex_digit(c as u32 as int / 16), hex_digit(c as u32 as int % 16)]
    } else {
        seq![c]
    }
}

/// The escaped body of a JSON string literal.
pub open spec fn ser_str_body(s: Seq<char>) -> Seq<char>
    decreases s.len(),
{
    if s.len() == 0 {
        Seq::empty()
    } else {
        esc_char(s[0]) + ser_str_body(s.drop_first())
    }
}

proof fn lemma_ser_str_body_snoc(s: Seq<char>, c: char)
    ensures
        ser_str_body(s.push(c)) == ser_str_body(s) + esc_char(c),
    decreases s.len(),
{
    if s.len() == 0 {
        assert(s.push(c)[0] == c);
        assert(s.push(c).drop_first() =~= Seq::<char>::empty());
        assert(ser_str_body(Seq::<char>::empty()) == Seq::<char>::empty());
        assert(ser_str_body(s.push(c)) =~= ser_str_body(s) + esc_char(c));
    } else {
        assert(s.push(c)[0] == s[0]);
        assert(s.push(c).drop_first() =~= s.drop_first().push(c));
        lemma_ser_str_body_snoc(s.drop_first(), c);
        assert(ser_str_body(s.push(c)) =~= ser_str_body(s) + esc_char(c));
    }
}

/// A JSON string literal for the characters `s`.
pub open spec fn ser_string(s: Seq<char>) -> Seq<char> {
    seq!['"'] + ser_str_body(s) + seq!['"']
}

/// The compact rendering of a value, as `serde_json::to_string` writes it.
pub open spec fn ser_json(v: JsonV) -> Seq<char>
    decreases v,
{
    match v {
        JsonV::Null => seq!['n', 'u', 'l', 'l'],
        JsonV::Bool(b) => if b {
            seq!['t', 'r', 'u', 'e']
        } else {
            seq!['f', 'a', 'l', 's', 'e']
        },
        JsonV::Num(s) => s,
        JsonV::Str(s) => ser_string(s),
        JsonV::Arr(items) => if items.len() == 0 {
            seq!['[', ']']
        } else {
            seq!['['] + ser_json(items[0]) + ser_arr_tail(items.drop_first()) + seq![']']
        },
        JsonV::Obj(fields) => if fields.len() == 0 {
            seq!['{', '}']
        } else {
            seq!['{'] + ser_string(fields[0].0) + seq![':'] + ser_json(fields[0].1)
                + ser_obj_tail(fields.drop_first()) + seq!['}']
        },
    }
}

/// The comma-prefixed elements that follow the first element of an array.
pub open spec fn ser_arr_tail(items: Seq<JsonV>) -> Seq<char>
    decreases items,
{
    if items.len() == 0 {
        Seq::empty()
    } else {
        seq![','] + ser_json(items[0]) + ser_arr_tail(items.drop_first())
    }
}

/// The comma-prefixed fields that follow the first field of an object.
pub open spec fn ser_obj_tail(fields: Seq<(Seq<char>, JsonV)>) -> Seq<char>
    decreases fields,
{
    if fields.len() == 0 {
        Seq::empty()
    } else {
        seq![','] + ser_string(fields[0].0) + seq![':'] + ser_json(fields[0].1) + ser_obj_tail(
            fields.drop_first(),
        )
    }
}

/// What a serialized value starts with: never whitespace, and a character
/// that identifies the variant.
pub proof fn lemma_ser_first(jv: JsonV)
    requires
        wf_json(jv),
    ensures
        ser_json(jv).len() > 0,
        !is_json_ws(ser_json(jv)[0]),
        (jv is Null <==> ser_json(jv)[0] == 'n'),
        (jv == JsonV::Bool(true) <==> ser_json(jv)[0] == 't'),
        (jv == JsonV::Bool(false) <==> ser_json(jv)[0] == 'f'),
        (jv is Str <==> ser_json(jv)[0] == '"'),
        (jv is Arr <==> ser_json(jv)[0] == '['),
        (jv is Obj <==> ser_json(jv)[0] == '{'),
        (jv is Num <==> (ser_json(jv)[0] == '-' || is_digit(ser_json(jv)[0]))),
{
    match jv {
        JsonV::Null => {},
        JsonV::Bool(b) => {},
        JsonV::Num(s) => {
            lemma_num_wf_first(s);
        },
        JsonV::Str(s) => {
            assert(ser_json(jv)[0] == '"');
        },
        JsonV::Arr(items) => {
            assert(ser_json(jv)[0] == '[');
        },
        JsonV::Obj(fields) => {
            assert(ser_json(jv)[0] == '{');
        },
    }
}

fn hex_digit_exec(d: u32) -> (r: char)
    requires
        d < 16,
    ensures
        r == hex_digit(d as int),
{
    match d {
        0 => '0',
        1 => '1',
        2 => '2',
        3 => '3',
        4 => '4',
        5 => '5',
        6 => '6',
        7 => '7',
        8 => '8',
        9 => '9',
        10 => 'a',
        11 => 'b',
        12 => 'c',
        13 => 'd',
        14 => 'e',
        _ => 'f',
    }
}

fn esc_push(c: char, out: &mut Vec<char>)
    ensures
        final(out)@ == old(out)@ + esc_char(c),
{
    if c == '"' {
        out.push('\\');
        out.push('"');
    } else if c == '\\' {
        out.push('\\');
        out.push('\\');
    } else if c == '\u{0008}' {
        out.push('\\');
        out.push('b');
    } else if c == '\u{000C}' {
        out.push('\\');
        out.push('f');
    } else if c == '\n' {
        out.push('\\');
        out.push('n');
    } else if c == '\r' {
        out.push('\\');
        out.push('r');
    } else if c == '\t' {
        out.push('\\');
        out.push('t');
    } else if (c as u32) < 0x20 {
        let u = c as u32;
        out.push('\\');
        out.push('u');
        out.push('0');
        out.push('0');
        out.push(hex_digit_exec(u / 16));
        out.push(hex_digit_exec(u % 16));
    } else {
        out.push(c);
    }
    proof {
        assert(out@ =~= old(out)@ + esc_char(c));
    }
}

fn write_string(s: &Vec<char>, out: &mut Vec<char>)
    ensures
        final(out)@ == old(out)@ + ser_string(s@),
{
    out.push('"');
    let mut i: usize = 0;
    while i < s.len()
        invariant
            i <= s@.len(),
            out@ == old(out)@ + seq!['"'] + ser_str_body(s@.take(i as int)),
        decreases s@.len() - i,
    {
        let ghost pre = s@.take(i as int);
        esc_push(s[i], out);
        i += 1;
        proof {
            lemma_ser_str_body_snoc(pre, s@[i - 1]);
            assert(s@.take(i as int) =~= pre.push(s@[i - 1]));
        }
    }
    out.push('"');
    proof {
        assert(s@.take(i as int) =~= s@);
        assert(out@ =~= old(out)@ + ser_string(s@));
    }
}

fn write_json(j: &Json, out: &mut Vec<char>)
    ensures
        final(out)@ == old(out)@ + ser_json(j@),
    decreases *j, 1int, 0int,
{
    match j {
        Json::Null => {
            out.push('n');
            out.push('u');
            out.push('l');
            out.push('l');
            proof {
                assert(out@ =~= old(out)@ + ser_json(j@));
            }
        },
        Json::Bool(b) => {
            if *b {
                out.push('t');
                out.push('r');
                out.push('u');
                out.push('e');
            } else {
                out.push('f');
                out.push('a');
                out.push('l');
                out.push('s');
                out.push('e');
            }
            proof {
                assert(out@ =~= old(out)@ + ser_json(j@));
            }
        },
        Json::Num(s) => {
            append_chars(out, s);
        },
        Json::Str(s) => {
            write_string(s, out);
        },
        Json::Arr(items) => {
            let ghost vs = views_of_json(items@);
            proof {
                lemma_view_arr(*items);
            }
            out.push('[');
            if items.len() > 0 {
                proof {
                    assert(decreases_to!(*j => j->Arr_0));
                    assert(decreases_to!(j->Arr_0 => j->Arr_0@));
                    assert(decreases_to!(j->Arr_0@ => j->Arr_0@[0]));
                }
                write_json(&items[0], out);
                write_arr_tail(items, 1, out);
                proof {
                    assert(vs[0] == view_json(items@[0]));
                    assert(vs.skip(1) =~= vs.drop_first());
                }
            }
            out.push(']');
            proof {
                assert(out@ =~= old(out)@ + ser_json(j@));
            }
        },
        Json::Obj(fields) => {
            let ghost fs = views_of_fields(fields@);
            proof {
                lemma_view_obj(*fields);
            }
            out.push('{');
            if fields.len() > 0 {
                write_string(&fields[0].0, out);
                out.push(':');
                proof {
                    assert(decreases_to!(*j => j->Obj_0));
                    assert(decreases_to!(j->Obj_0 => j->Obj_0@));
                    assert(decreases_to!(j->Obj_0@ => j->Obj_0@[0]));
                    assert(decreases_to!(j->Obj_0@[0] => j->Obj_0@[0].1));
                }
                write_json(&fields[0].1, out);
                write_obj_tail(fields, 1, out);
                proof {
                    assert(fs[0] == (fields@[0].0@, view_json(fields@[0].1)));
                    assert(fs.skip(1) =~= fs.drop_first());
                }
            }
            out.push('}');
            proof {
                assert(out@ =~= old(out)@ + ser_json(j@));
            }
        },
    }
}

fn write_arr_tail(items: &Vec<Json>, from: usize, out: &mut Vec<char>)
    requires
        1 <= from <= items@.len(),
    ensures
        final(out)@ == old(out)@ + ser_arr_tail(views_of_json(items@).skip(from as int)),
    decreases *items, 0int, items@.len() - from,
{
    let ghost vs = views_of_json(items@);
    if from == items.len() {
        proof {
            assert(vs.skip(from as int) =~= Seq::<JsonV>::empty());
            assert(out@ =~= out@ + ser_arr_tail(vs.skip(from as int)));
        }
        return ;
    }
    out.push(',');
    proof {
        assert(decreases_to!(*items => items@));
        assert(decreases_to!(items@ => items@[from as int]));
    }
    write_json(&items[from], out);
    write_arr_tail(items, from + 1, out);
    proof {
        assert(vs.skip(from as int)[0] == vs[from as int]);
        assert(vs[from as int] == view_json(items@[from as int]));
        assert(vs.skip(from as int).drop_first() =~= vs.skip(from + 1));
        assert(out@ =~= old(out)@ + ser_arr_tail(vs.skip(from as int)));
    }
}

fn write_obj_tail(fields: &Vec<(Vec<char>, Json)>, from: usize, out: &mut Vec<char>)
    requires
        1 <= from <= fields@.len(),
    ensures
        final(out)@ == old(out)@ + ser_obj_tail(views_of_fields(fields@).skip(from as int)),
    decreases *fields, 0int, fields@.len() - from,
{
    let ghost fs = views_of_fields(fields@);
    if from == fields.len() {
        proof {
            assert(fs.skip(from as int) =~= Seq::<(Seq<char>, JsonV)>::empty());
            assert(out@ =~= out@ + ser_obj_tail(fs.skip(from as int)));
        }
        return ;
    }
    out.push(',');
    write_string(&fields[from].0, out);
    out.push(':');
    proof {
        assert(decreases_to!(*fields => fields@));
        assert(decreases_to!(fields@ => fields@[from as int]));
        assert(decreases_to!(fields@[from as int] => fields@[from as int].1));
    }
    write_json(&fields[from].1, out);
    write_obj_tail(fields, from + 1, out);
    proof {
        assert(fs.skip(from as int)[0] == fs[from as int]);
        assert(fs[from as int] == (fields@[from as int].0@, view_json(fields@[from as int].1)));
        assert(fs.skip(from as int).drop_first() =~= fs.skip(from + 1));
        assert(out@ =~= old(out)@ + ser_obj_tail(fs.skip(from as int)));
    }
}

/// The compact text of `j`, as a character vector.
pub fn to_json_chars(j: &Json) -> (r: Vec<char>)
    ensures
        r@ == ser_json(j@),
{
    let mut out: Vec<char> = Vec::new();
    write_json(j, &mut out);
    proof {
        assert(out@ =~= ser_json(j@));
    }
    out
}

/// The compact text of `j`.
pub fn to_json_string(j: &Json) -> (r: String)
    ensures
        r@ == ser_json(j@),
{
    let chars = to_json_chars(j);
    crate::strutil::chars_to_string(&chars)
}

/// The pretty rendering of a value, as `serde_json::to_string_pretty` writes
/// it: two-space indentation, one element or field per line, and a space
/// after each field's colon. `pad` is the indentation of the line on which
/// the value's closing bracket sits.
pub open spec fn pretty_json(v: JsonV, pad: Seq<char>) -> Seq<char>
    decreases v,
{
    match v {
        JsonV::Arr(items) => if items.len() == 0 {
            seq!['[', ']']
        } else {
            seq!['[', '\n'] + (pad + seq![' ', ' ']) + pretty_json(
                items[0],
                pad + seq![' ', ' '],
            ) + pretty_arr_tail(items.drop_first(), pad + seq![' ', ' ']) + seq!['\n'] + pad
                + seq![']']
        },
        JsonV::Obj(fields) => if fields.len() == 0 {
            seq!['{', '}']
        } else {
            seq!['{', '\n'] + (pad + seq![' ', ' ']) + ser_string(fields[0].0) + seq![':', ' ']
                + pretty_json(fields[0].1, pad + seq![' ', ' ']) + pretty_obj_tail(
                fields.drop_first(),
                pad + seq![' ', ' '],
            ) + seq!['\n'] + pad + seq!['}']
        },
        _ => ser_json(v),
    }
}

/// The elements after the first in a pretty-printed array: each on its own
/// line at indentation `pad`.
pub open spec fn pretty_arr_tail(items: Seq<JsonV>, pad: Seq<char>) -> Seq<char>
    decreases items,
{
    if items.len() == 0 {
        Seq::empty()
    } else {
        seq![',', '\n'] + pad + pretty_json(items[0], pad) + pretty_arr_tail(
            items.drop_first(),
            pad,
        )
    }
}

/// The fields after the first in a pretty-printed object.
pub open spec fn pretty_obj_tail(fields: Seq<(Seq<char>, JsonV)>, pad: Seq<char>) -> Seq<char>
    decreases fields,
{
    if fields.len() == 0 {
        Seq::empty()
    } else {
        seq![',', '\n'] + pad + ser_string(fields[0].0) + seq![':', ' '] + pretty_json(
            fields[0].1,
            pad,
        ) + pretty_obj_tail(fields.drop_first(), pad)
    }
}

#[verifier::rlimit(30)]
fn write_pretty(j: &Json, pad: &Vec<char>, out: &mut Vec<char>)
    ensures
        final(out)@ == old(out)@ + pretty_json(j@, pad@),
    decreases *j, 1int, 0int,
{
    match j {
        Json::Arr(items) => {
            let ghost vs = views_of_json(items@);
            proof {
                lemma_view_arr(*items);
            }
            if items.len() == 0 {
                out.push('[');
                out.push(']');
                proof {
                    assert(out@ =~= old(out)@ + pretty_json(j@, pad@));
                }
                return ;
            }
            let mut inner = dup_chars(pad);
            inner.push(' ');
            inner.push(' ');
            proof {
                assert(inner@ =~= pad@ + seq![' ', ' ']);
            }
            out.push('[');
            out.push('\n');
            append_chars(out, &inner);
            proof {
                assert(decreases_to!(*j => j->Arr_0));
                assert(decreases_to!(j->Arr_0 => j->Arr_0@));
                assert(decreases_to!(j->Arr_0@ => j->Arr_0@[0]));
            }
            write_pretty(&items[0], &inner, out);
            write_pretty_arr_tail(items, 1, &inner, out);
            out.push('\n');
            append_chars(out, pad);
            out.push(']');
            proof {
                assert(vs[0] == view_json(items@[0]));
                assert(vs.skip(1) =~= vs.drop_first());
                assert(out@ =~= old(out)@ + pretty_json(j@, pad@));
            }
        },
        Json::Obj(fields) => {
            let ghost fs = views_of_fields(fields@);
            proof {
                lemma_view_obj(*fields);
            }
            if fields.len() == 0 {
                out.push('{');
                out.push('}');
                proof {
                    assert(out@ =~= old(out)@ + pretty_json(j@, pad@));
                }
                return ;
            }
            let mut inner = dup_chars(pad);
            inner.push(' ');
            inner.push(' ');
            proof {
                assert(inner@ =~= pad@ + seq![' ', ' ']);
            }
            out.push('{');
            out.push('\n');
            append_chars(out, &inner);
            write_string(&fields[0].0, out);
            out.push(':');
            out.push(' ');
            proof {
                assert(decreases_to!(*j => j->Obj_0));
                assert(decreases_to!(j->Obj_0 => j->Obj_0@));
                assert(decreases_to!(j->Obj_0@ => j->Obj_0@[0]));
                assert(decreases_to!(j->Obj_0@[0] => j->Obj_0@[0].1));
            }
            write_pretty(&fields[0].1, &inner, out);
            write_pretty_obj_tail(fields, 1, &inner, out);
            out.push('\n');
            append_chars(out, pad);
            out.push('}');
            proof {
                assert(fs[0] == (fields@[0].0@, view_json(fields@[0].1)));
                assert(fs.skip(1) =~= fs.drop_first());
                assert(out@ =~= old(out)@ + pretty_json(j@, pad@));
            }
        },
        _ => {
            write_json(j, out);
            proof {
                assert(pretty_json(j@, pad@) == ser_json(j@));
            }
        },
    }
}

fn write_pretty_arr_tail(items: &Vec<Json>, from: usize, pad: &Vec<char>, out: &mut Vec<char>)
    requires
        1 <= from <= items@.len(),
    ensures
        final(out)@ == old(out)@ + pretty_arr_tail(views_of_json(items@).skip(from as int), pad@),
    decreases *items, 0int, items@.len() - from,
{
    let ghost vs = views_of_json(items@);
    if from == items.len() {
        proof {
            assert(vs.skip(from as int) =~= Seq::<JsonV>::empty());
            assert(out@ =~= out@ + pretty_arr_tail(vs.skip(from as int), pad@));
        }
        return ;
    }
    out.push(',');
    out.push('\n');
    append_chars(out, pad);
    proof {
        assert(decreases_to!(*items => items@));
        assert(decreases_to!(items@ => items@[from as int]));
    }
    write_pretty(&items[from], pad, out);
    write_pretty_arr_tail(items, from + 1, pad, out);
    proof {
        assert(vs.skip(from as int)[0] == vs[from as int]);
        assert(vs[from as int] == view_json(items@[from as int]));
        assert(vs.skip(from as int).drop_first() =~= vs.skip(from + 1));
        assert(out@ =~= old(out)@ + pretty_arr_tail(vs.skip(from as int), pad@));
    }
}

fn write_pretty_obj_tail(
    fields: &Vec<(Vec<char>, Json)>,
    from: usize,
    pad: &Vec<char>,
    out: &mut Vec<char>,
)
    requires
        1 <= from <= fields@.len(),
    ensures
        final(out)@ == old(out)@ + pretty_obj_tail(
            views_of_fields(fields@).skip(from as int),
            pad@,
        ),
    decreases *fields, 0int, fields@.len() - from,
{
    let ghost fs = views_of_fields(fields@);
    if from == fields.len() {
        proof {
            assert(fs.skip(from as int) =~= Seq::<(Seq<char>, JsonV)>::empty());
            assert(out@ =~= out@ + pretty_obj_tail(fs.skip(from as int), pad@));
        }
        return ;
    }
    out.push(',');
    out.push('\n');
    append_chars(out, pad);
    write_string(&fields[from].0, out);
    out.push(':');
    out.push(' ');
    proof {
        assert(decreases_to!(*fields => fields@));
        assert(decreases_to!(fields@ => fields@[from as int]));
        assert(decreases_to!(fields@[from as int] => fields@[from as int].1));
    }
    write_pretty(&fields[from].1, pad, out);
    write_pretty_obj_tail(fields, from + 1, pad, out);
    proof {
        assert(fs.skip(from as int)[0] == fs[from as int]);
        assert(fs[from as int] == (fields@[from as int].0@, view_json(fields@[from as int].1)));
        assert(fs.skip(from as int).drop_first() =~= fs.skip(from + 1));
        assert(out@ =~= old(out)@ + pretty_obj_tail(fs.skip(from as int), pad@));
    }
}

/// The pretty text of `j`, starting at the left margin, as a character
/// vector.
pub fn to_pretty_chars(j: &Json) -> (r: Vec<char>)
    ensures
        r@ == pretty_json(j@, Seq::empty()),
{
    let pad: Vec<char> = Vec::new();
    let mut out: Vec<char> = Vec::new();
    write_pretty(j, &pad, &mut out);
    proof {
        assert(out@ =~= pretty_json(j@, Seq::empty()));
    }
    out
}

/// The pretty text of `j`.
pub fn to_pretty_string(j: &Json) -> (r: String)
    ensures
        r@ == pretty_json(j@, Seq::empty()),
{
    let chars = to_pretty_chars(j);
    crate::strutil::chars_to_string(&chars)
}

/// The whitespace JSON allows between tokens.
pub open spec fn is_json_ws(c: char) -> bool {
    c == ' ' || c == '\t' || c == '\n' || c == '\r'
}

#[verifier::loop_isolation(false)]
fn skip_json_ws(s: &Vec<char>, i: usize) -> (r: usize)
    requires
        i <= s@.len(),
    ensures
        i <= r <= s@.len(),
        forall|k: int| i <= k < r ==> is_json_ws(#[trigger] s@[k]),
        r == s@.len() || !is_json_ws(s@[r as int]),
{
    let mut p = i;
    while p < s.len() && (s[p] == ' ' || s[p] == '\t' || s[p] == '\n' || s[p] == '\r')
        invariant
            i <= p <= s@.len(),
            forall|k: int| i <= k < p ==> is_json_ws(#[trigger] s@[k]),
        decreases s@.len() - p,
    {
        p += 1;
    }
    p
}

/// Relies on `char::from_u32`: `Some` exactly on Unicode scalar values (all
/// code points except the surrogate range), returning the character with
/// that value.
pub assume_specification[ char::from_u32 ](u: u32) -> (r: Option<char>)
    ensures
        r is Some <==> (u < 0xD800 || (0xE000 <= u && u <= 0x10FFFF)),
        r matches Some(c) ==> c as u32 == u,
;

/// The value of a hexadecimal digit character, either case.
pub open spec fn hex_char_val(c: char) -> Option<int> {
    if c == '0' {
        Some(0)
    } else if c == '1' {
        Some(1)
    } else if c == '2' {
        Some(2)
    } else if c == '3' {
        Some(3)
    } else if c == '4' {
        Some(4)
    } else if c == '5' {
        Some(5)
    } else if c == '6' {
        Some(6)
    } else if c == '7' {
        Some(7)
    } else if c == '8' {
        Some(8)
    } else if c == '9' {
        Some(9)
    } else if c == 'a' || c == 'A' {
        Some(10)
    } else if c == 'b' || c == 'B' {
        Some(11)
    } else if c == 'c' || c == 'C' {
        Some(12)
    } else if c == 'd' || c == 'D' {
        Some(13)
    } else if c == 'e' || c == 'E' {
        Some(14)
    } else if c == 'f' || c == 'F' {
        Some(15)
    } else {
        None
    }
}

/// The hexadecimal digit emitted for `d` reads back as `d`.
pub proof fn lemma_hex_digit_val(d: int)
    requires
        0 <= d < 16,
    ensures
        hex_char_val(hex_digit(d)) == Some(d),
{
}

/// The value of the four hexadecimal digits at `i`, when they are there.
pub open spec fn spec_hex4(s: Seq<char>, i: int) -> Option<int> {
    if 0 <= i && i + 4 <= s.len() {
        match (hex_char_val(s[i]), hex_char_val(s[i + 1]), hex_char_val(s[i + 2]), hex_char_val(
            s[i + 3],
        )) {
            (Some(a), Some(b), Some(c), Some(d)) => Some(a * 4096 + b * 256 + c * 16 + d),
            _ => None,
        }
    } else {
        None
    }
}

fn hex_val(c: char) -> (r: Option<u32>)
    ensures
        match hex_char_val(c) {
            Some(v) => r == Some(v as u32) && v < 16,
            None => r is None,
        },
{
    match c {
        '0' => Some(0),
        '1' => Some(1),
        '2' => Some(2),
        '3' => Some(3),
        '4' => Some(4),
        '5' => Some(5),
        '6' => Some(6),
        '7' => Some(7),
        '8' => Some(8),
        '9' => Some(9),
        'a' | 'A' => Some(10),
        'b' | 'B' => Some(11),
        'c' | 'C' => Some(12),
        'd' | 'D' => Some(13),
        'e' | 'E' => Some(14),
        'f' | 'F' => Some(15),
        _ => None,
    }
}

/// Reads the four hex digits at `i`, if they are there.
fn hex4(s: &Vec<char>, i: usize) -> (r: Option<u32>)
    requires
        i <= s@.len(),
    ensures
        r matches Some(v) ==> v < 0x10000 && i + 4 <= s@.len(),
        match spec_hex4(s@, i as int) {
            Some(v) => r == Some(v as u32),
            None => r is None,
        },
{
    if s.len() - i < 4 {
        return None;
    }
    let a = hex_val(s[i]);
    let b = hex_val(s[i + 1]);
    let c = hex_val(s[i + 2]);
    let d = hex_val(s[i + 3]);
    match (a, b, c, d) {
        (Some(a), Some(b), Some(c), Some(d)) => Some(a * 4096 + b * 256 + c * 16 + d),
        _ => None,
    }
}

/// One step of reading a serialized string body: the escape of the next
/// character sits at `p`, and consuming it advances to the rest.
proof fn lemma_str_step(s: Seq<char>, p: int, t: Seq<char>, k: int, rest: Seq<char>)
    requires
        0 <= k < t.len(),
        0 <= p <= s.len(),
        s.skip(p) == ser_str_body(t.skip(k)) + seq!['"'] + rest,
    ensures
        ser_str_body(t.skip(k)) == esc_char(t[k]) + ser_str_body(t.skip(k + 1)),
        p + esc_char(t[k]).len() <= s.len(),
        forall|x: int| 0 <= x < esc_char(t[k]).len() ==> s[p + x] == #[trigger] esc_char(t[k])[x],
        s.skip(p + esc_char(t[k]).len()) == ser_str_body(t.skip(k + 1)) + seq!['"'] + rest,
        t.take(k + 1) == t.take(k).push(t[k]),
{
    assert(t.skip(k)[0] == t[k]);
    assert(t.skip(k).drop_first() =~= t.skip(k + 1));
    assert(ser_str_body(t.skip(k)) == esc_char(t[k]) + ser_str_body(t.skip(k + 1)));
    let e = esc_char(t[k]);
    let elen = e.len() as int;
    assert(s.skip(p).len() == s.len() - p);
    assert forall|x: int| 0 <= x < e.len() implies s[p + x] == e[x] by {
        assert(s.skip(p)[x] == s[p + x]);
    }
    assert forall|x: int|
        0 <= x < s.len() - p - elen implies #[trigger] s.skip(p + elen)[x] == (ser_str_body(
        t.skip(k + 1),
    ) + seq!['"'] + rest)[x] by {
        assert(s.skip(p + elen)[x] == s[p + elen + x]);
        assert(s.skip(p)[elen + x] == s[p + elen + x]);
    }
    assert(s.skip(p + elen) =~= ser_str_body(t.skip(k + 1)) + seq!['"'] + rest);
    assert(t.take(k + 1) =~= t.take(k).push(t[k]));
}

/// At the end of a serialized string body only the closing quote remains.
proof fn lemma_str_done(s: Seq<char>, p: int, t: Seq<char>, k: int, rest: Seq<char>)
    requires
        k == t.len(),
        0 <= p <= s.len(),
        s.skip(p) == ser_str_body(t.skip(k)) + seq!['"'] + rest,
    ensures
        p < s.len(),
        s[p] == '"',
        s.len() - rest.len() == p + 1,
{
    assert(t.skip(k) =~= Seq::<char>::empty());
    assert(ser_str_body(Seq::<char>::empty()) == Seq::<char>::empty());
    assert(s.skip(p).len() == 1 + rest.len());
    assert(s.skip(p).len() == s.len() - p);
    assert(s.skip(p)[0] == s[p]);
}

/// An escape never begins with a quote, and begins with a backslash exactly
/// for the characters that cannot stand raw.
proof fn lemma_esc_first(c: char)
    ensures
        esc_char(c).len() >= 1,
        esc_char(c)[0] != '"',
        esc_char(c)[0] == '\\' <==> (c == '"' || c == '\\' || (c as u32) < 0x20),
        esc_char(c)[0] != '\\' ==> esc_char(c) == seq![c],
{
}

/// Parses the string literal starting at the opening quote `s[i]`, returning
/// its decoded characters and the position after the closing quote.
#[verifier::loop_isolation(false)]
#[verifier::rlimit(100)]
#[verifier::spinoff_prover]
fn parse_string_at(s: &Vec<char>, i: usize) -> (r: Option<(Vec<char>, usize)>)
    requires
        i < s@.len(),
        s@[i as int] == '"',
    ensures
        r matches Some(p) ==> i < p.1 <= s@.len(),
        forall|t: Seq<char>, rest: Seq<char>|
            s@.skip(i as int) == #[trigger] (ser_string(t) + rest) ==> (r matches Some(p) && p.0@
                == t && p.1 == s@.len() - rest.len()),
{
    let n = s.len();
    let mut out: Vec<char> = Vec::new();
    let mut p = i + 1;
    proof {
        assert forall|t: Seq<char>, rest: Seq<char>|
            s@.skip(i as int) == #[trigger] (ser_string(t) + rest) implies s@.skip(p as int)
            == ser_str_body(t.skip(out@.len() as int)) + seq!['"'] + rest && out@ == t.take(
            out@.len() as int,
        ) by {
            assert(t.skip(0) =~= t);
            assert(out@ =~= t.take(0));
            assert forall|x: int|
                0 <= x < s@.len() - i - 1 implies #[trigger] s@.skip(i + 1)[x] == (ser_str_body(t)
                + seq!['"'] + rest)[x] by {
                assert(s@.skip(i + 1)[x] == s@[i + 1 + x]);
                assert(s@.skip(i as int)[1 + x] == s@[i + 1 + x]);
                let body = ser_str_body(t);
                assert(ser_string(t) == seq!['"'] + body + seq!['"']);
                assert(ser_string(t).len() == body.len() + 2);
                assert(s@.skip(i as int).len() == s@.len() - i);
                assert((ser_string(t) + rest).len() == ser_string(t).len() + rest.len());
                assert(1 + x < ser_string(t).len() + rest.len());
                if 1 + x < ser_string(t).len() {
                    assert((ser_string(t) + rest)[1 + x] == ser_string(t)[1 + x]);
                    if x < body.len() {
                        assert(ser_string(t)[1 + x] == body[x]);
                        assert((body + seq!['"'] + rest)[x] == body[x]);
                    } else {
                        assert(ser_string(t)[1 + x] == '"');
                        assert((body + seq!['"'] + rest)[x] == '"');
                    }
                } else {
                    assert((ser_string(t) + rest)[1 + x] == rest[1 + x - ser_string(t).len()]);
                    assert((body + seq!['"'] + rest)[x] == rest[x - body.len() - 1]);
                }
            }
            assert(s@.skip(i + 1).len() == s@.len() - i - 1);
            assert(s@.skip(i as int).len() == s@.len() - i);
            assert(ser_string(t) == seq!['"'] + ser_str_body(t) + seq!['"']);
            assert((ser_str_body(t) + seq!['"'] + rest).len() == s@.len() - i - 1);
            assert(s@.skip(i + 1) =~= ser_str_body(t) + seq!['"'] + rest);
        }
    }
    loop
        invariant
            n == s@.len(),
            i < p <= n,
            forall|t: Seq<char>, rest: Seq<char>|
                s@.skip(i as int) == #[trigger] (ser_string(t) + rest) ==> {
                    &&& out@.len() <= t.len()
                    &&& out@ == t.take(out@.len() as int)
                    &&& s@.skip(p as int) == ser_str_body(t.skip(out@.len() as int)) + seq!['"']
                        + rest
                },
        decreases n - p,
    {
        let ghost k = out@.len() as int;
        if p >= n {
            proof {
                assert forall|t: Seq<char>, rest: Seq<char>|
                    s@.skip(i as int) != #[trigger] (ser_string(t) + rest) by {
                    if s@.skip(i as int) == ser_string(t) + rest {
                        assert(s@.skip(p as int).len() == 0);
                    }
                }
            }
            return None;
        }
        let c = s[p];
        if c == '"' {
            proof {
                assert forall|t: Seq<char>, rest: Seq<char>|
                    s@.skip(i as int) == #[trigger] (ser_string(t) + rest) implies out@ == t && p
                    + 1 == s@.len() - rest.len() by {
                    if k < t.len() {
                        lemma_str_step(s@, p as int, t, k, rest);
                        lemma_esc_first(t[k]);
                        assert(s@[p as int] == esc_char(t[k])[0]);
                        assert(false);
                    }
                    lemma_str_done(s@, p as int, t, k, rest);
                    assert(t.take(k) =~= t);
                }
            }
            return Some((out, p + 1));
        }
        // under a serialized-text decomposition the escape of the next
        // character sits at p; each branch identifies that character
        proof {
            assert forall|t: Seq<char>, rest: Seq<char>|
                s@.skip(i as int) == #[trigger] (ser_string(t) + rest) implies k < t.len() by {
                if k >= t.len() {
                    lemma_str_done(s@, p as int, t, k, rest);
                }
            }
        }
        if c == '\\' {
            if n - p < 2 {
                proof {
                    assert forall|t: Seq<char>, rest: Seq<char>|
                        s@.skip(i as int) != #[trigger] (ser_string(t) + rest) by {
                        if s@.skip(i as int) == ser_string(t) + rest {
                            lemma_str_step(s@, p as int, t, k, rest);
                            lemma_esc_first(t[k]);
                            assert(esc_char(t[k])[0] == s@[p as int]);
                            assert(s@.skip(p as int).len() >= 3);
                        }
                    }
                }
                return None;
            }
            let e = s[p + 1];
            proof {
                assert forall|t: Seq<char>, rest: Seq<char>|
                    s@.skip(i as int) == #[trigger] (ser_string(t) + rest) implies esc_char(
                    t[k],
                )[0] == c && esc_char(t[k]).len() >= 2 && esc_char(t[k])[1] == e by {
                    lemma_str_step(s@, p as int, t, k, rest);
                    lemma_esc_first(t[k]);
                }
            }
            if e == '"' {
                out.push('"');
                proof {
                    assert forall|t: Seq<char>, rest: Seq<char>|
                        s@.skip(i as int) == #[trigger] (ser_string(t) + rest) implies {
                        &&& out@.len() <= t.len()
                        &&& out@ == t.take(out@.len() as int)
                        &&& s@.skip(p + 2) == ser_str_body(t.skip(out@.len() as int)) + seq!['"']
                            + rest
                    } by {
                        lemma_str_step(s@, p as int, t, k, rest);
                        assert(t[k] == '"');
                        assert(out@ =~= t.take(k).push(t[k]));
                    }
                }
                p += 2;
            } else if e == '\\' {
                out.push('\\');
                proof {
                    assert forall|t: Seq<char>, rest: Seq<char>|
                        s@.skip(i as int) == #[trigger] (ser_string(t) + rest) implies {
                        &&& out@.len() <= t.len()
                        &&& out@ == t.take(out@.len() as int)
                        &&& s@.skip(p + 2) == ser_str_body(t.skip(out@.len() as int)) + seq!['"']
                            + rest
                    } by {
                        lemma_str_step(s@, p as int, t, k, rest);
                        assert(t[k] == '\\');
                        assert(out@ =~= t.take(k).push(t[k]));
                    }
                }
                p += 2;
            } else if e == '/' {
                out.push('/');
                proof {
                    assert forall|t: Seq<char>, rest: Seq<char>|
                        s@.skip(i as int) != #[trigger] (ser_string(t) + rest) by {
                        if s@.skip(i as int) == ser_string(t) + rest {
                            lemma_str_step(s@, p as int, t, k, rest);
                        }
                    }
                }
                p += 2;
            } else if e == 'b' {
                out.push('\u{0008}');
                proof {
                    assert forall|t: Seq<char>, rest: Seq<char>|
                        s@.skip(i as int) == #[trigger] (ser_string(t) + rest) implies {
                        &&& out@.len() <= t.len()
                        &&& out@ == t.take(out@.len() as int)
                        &&& s@.skip(p + 2) == ser_str_body(t.skip(out@.len() as int)) + seq!['"']
                            + rest
                    } by {
                        lemma_str_step(s@, p as int, t, k, rest);
                        assert(t[k] == '\u{0008}');
                        assert(out@ =~= t.take(k).push(t[k]));
                    }
                }
                p += 2;
            } else if e == 'f' {
                out.push('\u{000C}');
                proof {
                    assert forall|t: Seq<char>, rest: Seq<char>|
                        s@.skip(i as int) == #[trigger] (ser_string(t) + rest) implies {
                        &&& out@.len() <= t.len()
                        &&& out@ == t.take(out@.len() as int)
                        &&& s@.skip(p + 2) == ser_str_body(t.skip(out@.len() as int)) + seq!['"']
                            + rest
                    } by {
                        lemma_str_step(s@, p as int, t, k, rest);
                        assert(t[k] == '\u{000C}');
                        assert(out@ =~= t.take(k).push(t[k]));
                    }
                }
                p += 2;
            } else if e == 'n' {
                out.push('\n');
                proof {
                    assert forall|t: Seq<char>, rest: Seq<char>|
                        s@.skip(i as int) == #[trigger] (ser_string(t) + rest) implies {
                        &&& out@.len() <= t.len()
                        &&& out@ == t.take(out@.len() as int)
                        &&& s@.skip(p + 2) == ser_str_body(t.skip(out@.len() as int)) + seq!['"']
                            + rest
                    } by {
                        lemma_str_step(s@, p as int, t, k, rest);
                        assert(t[k] == '\n');
                        assert(out@ =~= t.take(k).push(t[k]));
                    }
                }
                p += 2;
            } else if e == 'r' {
                out.push('\r');
                proof {
                    assert forall|t: Seq<char>, rest: Seq<char>|
                        s@.skip(i as int) == #[trigger] (ser_string(t) + rest) implies {
                        &&& out@.len() <= t.len()
                        &&& out@ == t.take(out@.len() as int)
                        &&& s@.skip(p + 2) == ser_str_body(t.skip(out@.len() as int)) + seq!['"']
                            + rest
                    } by {
                        lemma_str_step(s@, p as int, t, k, rest);
                        assert(t[k] == '\r');
                        assert(out@ =~= t.take(k).push(t[k]));
                    }
                }
                p += 2;
            } else if e == 't' {
                out.push('\t');
                proof {
                    assert forall|t: Seq<char>, rest: Seq<char>|
                        s@.skip(i as int) == #[trigger] (ser_string(t) + rest) implies {
                        &&& out@.len() <= t.len()
                        &&& out@ == t.take(out@.len() as int)
                        &&& s@.skip(p + 2) == ser_str_body(t.skip(out@.len() as int)) + seq!['"']
                            + rest
                    } by {
                        lemma_str_step(s@, p as int, t, k, rest);
                        assert(t[k] == '\t');
                        assert(out@ =~= t.take(k).push(t[k]));
                    }
                }
                p += 2;
            } else if e == 'u' {
                let hi = match hex4(s, p + 2) {
                    Some(v) => v,
                    None => {
                        proof {
                            assert forall|t: Seq<char>, rest: Seq<char>|
                                s@.skip(i as int) != #[trigger] (ser_string(t) + rest) by {
                                if s@.skip(i as int) == ser_string(t) + rest {
                                    lemma_u_escape(s@, p as int, t, k, rest);
                                }
                            }
                        }
                        return None;
                    },
                };
                proof {
                    assert forall|t: Seq<char>, rest: Seq<char>|
                        s@.skip(i as int) == #[trigger] (ser_string(t) + rest) implies hi as int
                        == t[k] as u32 as int && (t[k] as u32) < 0x20 by {
                        lemma_u_escape(s@, p as int, t, k, rest);
                    }
                }
                if 0xD800 <= hi && hi < 0xDC00 {
                    // a high surrogate must be followed by an escaped low
                    // surrogate; the pair encodes one supplementary character
                    proof {
                        assert forall|t: Seq<char>, rest: Seq<char>|
                            s@.skip(i as int) != #[trigger] (ser_string(t) + rest) by {}
                    }
                    if n - p < 8 {
                        return None;
                    }
                    if !(s[p + 6] == '\\' && s[p + 7] == 'u') {
                        return None;
                    }
                    let lo = match hex4(s, p + 8) {
                        Some(v) => v,
                        None => {
                            return None;
                        },
                    };
                    if !(0xDC00 <= lo && lo < 0xE000) {
                        return None;
                    }
                    let code: u32 = 0x10000 + (hi - 0xD800) * 0x400 + (lo - 0xDC00);
                    match char::from_u32(code) {
                        Some(ch) => {
                            out.push(ch);
                            p += 12;
                        },
                        None => {
                            return None;
                        },
                    }
                } else if 0xDC00 <= hi && hi < 0xE000 {
                    proof {
                        assert forall|t: Seq<char>, rest: Seq<char>|
                            s@.skip(i as int) != #[trigger] (ser_string(t) + rest) by {}
                    }
                    return None;
                } else {
                    match char::from_u32(hi) {
                        Some(ch) => {
                            out.push(ch);
                            proof {
                                assert forall|t: Seq<char>, rest: Seq<char>|
                                    s@.skip(i as int) == #[trigger] (ser_string(t) + rest) implies {
                                    &&& out@.len() <= t.len()
                                    &&& out@ == t.take(out@.len() as int)
                                    &&& s@.skip(p + 6) == ser_str_body(t.skip(out@.len() as int))
                                        + seq!['"'] + rest
                                } by {
                                    lemma_u_escape(s@, p as int, t, k, rest);
                                    lemma_str_step(s@, p as int, t, k, rest);
                                    assert(ch as u32 == t[k] as u32);
                                    vstd::utf8::char_u32_cast(ch, hi);
                                    vstd::utf8::char_u32_cast(t[k], hi);
                                    assert(ch == t[k]);
                                    assert(out@ =~= t.take(k).push(t[k]));
                                }
                            }
                            p += 6;
                        },
                        None => {
                            proof {
                                assert forall|t: Seq<char>, rest: Seq<char>|
                                    s@.skip(i as int) != #[trigger] (ser_string(t) + rest) by {
                                    if s@.skip(i as int) == ser_string(t) + rest {
                                        lemma_u_escape(s@, p as int, t, k, rest);
                                    }
                                }
                            }
                            return None;
                        },
                    }
                }
            } else {
                proof {
                    assert forall|t: Seq<char>, rest: Seq<char>|
                        s@.skip(i as int) != #[trigger] (ser_string(t) + rest) by {
                        if s@.skip(i as int) == ser_string(t) + rest {
                            lemma_str_step(s@, p as int, t, k, rest);
                        }
                    }
                }
                return None;
            }
        } else if (c as u32) < 0x20 {
            // raw control characters are not allowed inside a string literal
            proof {
                assert forall|t: Seq<char>, rest: Seq<char>|
                    s@.skip(i as int) != #[trigger] (ser_string(t) + rest) by {
                    if s@.skip(i as int) == ser_string(t) + rest {
                        lemma_str_step(s@, p as int, t, k, rest);
                        lemma_esc_first(t[k]);
                        assert(esc_char(t[k])[0] == c);
                    }
                }
            }
            return None;
        } else {
            out.push(c);
            proof {
                assert forall|t: Seq<char>, rest: Seq<char>|
                    s@.skip(i as int) == #[trigger] (ser_string(t) + rest) implies {
                    &&& out@.len() <= t.len()
                    &&& out@ == t.take(out@.len() as int)
                    &&& s@.skip(p + 1) == ser_str_body(t.skip(out@.len() as int)) + seq!['"']
                        + rest
                } by {
                    lemma_str_step(s@, p as int, t, k, rest);
                    lemma_esc_first(t[k]);
                    assert(esc_char(t[k])[0] == c);
                    assert(esc_char(t[k]) == seq![c]);
                    assert(out@ =~= t.take(k).push(t[k]));
                }
            }
            p += 1;
        }
    }
}

/// Under a serialized-text decomposition, a `\u` escape at `p` encodes a
/// control character: its four hex digits read back as that character's
/// value.
proof fn lemma_u_escape(s: Seq<char>, p: int, t: Seq<char>, k: int, rest: Seq<char>)
    requires
        0 <= k < t.len(),
        0 <= p <= s.len(),
        s.skip(p) == ser_str_body(t.skip(k)) + seq!['"'] + rest,
        p + 1 < s.len(),
        s[p] == '\\',
        s[p + 1] == 'u',
    ensures
        (t[k] as u32) < 0x20,
        esc_char(t[k]).len() == 6,
        spec_hex4(s, p + 2) == Some(t[k] as u32 as int),
        (t[k] as u32) < 0xD800,
{
    lemma_str_step(s, p, t, k, rest);
    lemma_esc_first(t[k]);
    let c = t[k];
    assert(esc_char(c)[0] == '\\');
    assert(esc_char(c)[1] == 'u');
    let u = c as u32 as int;
    assert(u < 0x20);
    assert(s[p + 2] == '0');
    assert(s[p + 3] == '0');
    assert(s[p + 4] == hex_digit(u / 16));
    assert(s[p + 5] == hex_digit(u % 16));
    lemma_hex_digit_val(u / 16);
    lemma_hex_digit_val(u % 16);
    assert(hex_char_val('0') == Some(0int));
    assert(p + 6 <= s.len());
    assert(spec_hex4(s, p + 2) == Some(0 * 4096 + 0 * 256 + (u / 16) * 16 + u % 16));
    assert((u / 16) * 16 + u % 16 == u);
}

/// A character that could extend a number lexeme: every character a lexeme
/// may contain. Completeness of number reading is stated for lexemes whose
/// following text starts with none of these.
pub open spec fn num_cont_char(c: char) -> bool {
    is_digit(c) || c == '.' || c == 'e' || c == 'E' || c == '+' || c == '-'
}

/// Two digit runs from the same start that both stop at a non-digit stop at
/// the same place.
proof fn lemma_run_end_unique(s: Seq<char>, lo: int, e1: int, e2: int)
    requires
        lo <= e1 <= s.len(),
        lo <= e2 <= s.len(),
        forall|k: int| lo <= k < e1 ==> is_digit(#[trigger] s[k]),
        forall|k: int| lo <= k < e2 ==> is_digit(#[trigger] s[k]),
        e1 == s.len() || !is_digit(s[e1]),
        e2 == s.len() || !is_digit(s[e2]),
    ensures
        e1 == e2,
{
    if e1 < e2 {
        assert(is_digit(s[e1]));
    }
    if e2 < e1 {
        assert(is_digit(s[e2]));
    }
}

/// Where the sections of a number lexeme sit inside the text it is read
/// from: the digit runs, their boundaries, and what follows each.
proof fn lemma_num_at_facts(s: Seq<char>, i: int, lex: Seq<char>, rest: Seq<char>) -> (ab: (
    int,
    int,
))
    requires
        0 <= i <= s.len(),
        s.skip(i) == lex + rest,
        num_wf(lex),
        rest.len() == 0 || !num_cont_char(rest[0]),
    ensures
        ({
            let a = ab.0;
            let b = ab.1;
            let m: int = if lex[0] == '-' {
                1
            } else {
                0
            };
            &&& i + lex.len() + rest.len() == s.len()
            &&& forall|k: int| i <= k < i + lex.len() ==> #[trigger] s[k] == lex[k - i]
            &&& m < a <= b <= lex.len()
            &&& forall|k: int| i + m <= k < i + a ==> is_digit(#[trigger] s[k])
            &&& (lex[m] == '0' ==> a == m + 1)
            &&& (i + a == s.len() || !is_digit(s[i + a]))
            &&& ((a < b) <==> (a < lex.len() && s[i + a] == '.'))
            &&& (a < b ==> b >= a + 2 && (forall|k: int|
                i + a + 1 <= k < i + b ==> is_digit(#[trigger] s[k])) && (i + b == s.len()
                || !is_digit(s[i + b])))
            &&& ((b < lex.len()) <==> (i + b < s.len() && (s[i + b] == 'e' || s[i + b] == 'E')))
            &&& (b == lex.len() ==> (i + b == s.len() || !num_cont_char(s[i + b])))
            &&& (b < lex.len() ==> {
                let es: int = if lex[b + 1] == '+' || lex[b + 1] == '-' {
                    b + 2
                } else {
                    b + 1
                };
                &&& ((s[i + b + 1] == '+' || s[i + b + 1] == '-') <==> es == b + 2)
                &&& es < lex.len()
                &&& forall|k: int| i + es <= k < i + lex.len() ==> is_digit(#[trigger] s[k])
                &&& (i + lex.len() == s.len() || !is_digit(s[i + lex.len()]))
            })
        }),
{
    let (a, b) = choose|a: int, b: int| num_split(lex, a, b);
    let m: int = if lex[0] == '-' {
        1
    } else {
        0
    };
    assert(s.skip(i).len() == s.len() - i);
    assert forall|k: int| i <= k < i + lex.len() implies #[trigger] s[k] == lex[k - i] by {
        assert(s.skip(i)[k - i] == s[k]);
        assert((lex + rest)[k - i] == lex[k - i]);
    }
    assert forall|y: int| 0 <= y < rest.len() implies s[i + lex.len() + y] == #[trigger] rest[y] by {
        assert(s.skip(i)[lex.len() + y] == s[i + lex.len() + y]);
        assert((lex + rest)[lex.len() + y] == rest[y]);
    }
    let ints = lex.subrange(m, a);
    assert forall|k: int| i + m <= k < i + a implies is_digit(#[trigger] s[k]) by {
        assert(s[k] == lex[k - i]);
        assert(ints[k - i - m] == lex[k - i]);
    }
    if lex[m] == '0' {
        assert(ints[0] == '0');
        assert(a == m + 1);
    }
    let frs = lex.subrange(a, b);
    let exs = lex.skip(b);
    // what stands at the end of the integer digits
    if a < b {
        assert(frs[0] == lex[a]);
        assert(lex[a] == '.');
        assert(s[i + a] == lex[a]);
    } else if b < lex.len() {
        assert(exs[0] == lex[b]);
        assert(lex[a] == 'e' || lex[a] == 'E');
        assert(s[i + a] == lex[a]);
    } else {
        if i + a < s.len() {
            assert(rest.len() > 0);
            assert(s[i + a] == rest[0]);
        }
    }
    // the fraction digits and their end
    if a < b {
        assert(all_digits(frs.skip(1)));
        assert(frs.skip(1).len() > 0);
        assert forall|k: int| i + a + 1 <= k < i + b implies is_digit(#[trigger] s[k]) by {
            assert(s[k] == lex[k - i]);
            assert(frs.skip(1)[k - i - a - 1] == lex[k - i]);
        }
        if b < lex.len() {
            assert(exs[0] == lex[b]);
            assert(lex[b] == 'e' || lex[b] == 'E');
            assert(s[i + b] == lex[b]);
        } else {
            if i + b < s.len() {
                assert(s[i + b] == rest[0]);
            }
        }
    }
    // the exponent marker, sign, and digits
    if b < lex.len() {
        assert(exs[0] == lex[b]);
        assert(lex[b] == 'e' || lex[b] == 'E');
        assert(s[i + b] == lex[b]);
        let et = exs.skip(1);
        assert(et.len() == lex.len() - b - 1);
        assert(exp_digits(et));
        assert forall|x: int| b + 1 <= x < lex.len() implies #[trigger] lex[x] == et[x - b - 1] by {
            assert(exs[x - b] == lex[x]);
            assert(et[x - b - 1] == exs[x - b]);
        }
        assert(s[i + b + 1] == lex[b + 1]);
        if et[0] == '+' || et[0] == '-' {
            assert(all_digits(et.skip(1)));
            assert forall|k: int| i + b + 2 <= k < i + lex.len() implies is_digit(
                #[trigger] s[k],
            ) by {
                assert(s[k] == lex[k - i]);
                assert(et.skip(1)[k - i - b - 2] == et[k - i - b - 1]);
            }
        } else {
            assert(all_digits(et));
            assert forall|k: int| i + b + 1 <= k < i + lex.len() implies is_digit(
                #[trigger] s[k],
            ) by {
                assert(s[k] == lex[k - i]);
                assert(is_digit(et[k - i - b - 1]));
            }
        }
        if i + lex.len() < s.len() {
            assert(s[i + lex.len()] == rest[0]);
        }
    }
    if b == lex.len() && i + b < s.len() {
        assert(s[i + b] == rest[0]);
    }
    (a, b)
}

/// Parses the number whose first character is `s[i]`, keeping its lexeme.
#[verifier::loop_isolation(false)]
#[verifier::rlimit(100)]
#[verifier::spinoff_prover]
#[verifier::loop_isolation(false)]
fn parse_number_at(s: &Vec<char>, i: usize) -> (r: Option<(Json, usize)>)
    requires
        i < s@.len(),
        s@[i as int] == '-' || is_digit(s@[i as int]),
    ensures
        r matches Some(p) ==> i < p.1 <= s@.len() && wf_json(p.0@),
        forall|lex: Seq<char>, rest: Seq<char>|
            (num_wf(lex) && s@.skip(i as int) == #[trigger] (lex + rest) && (rest.len() == 0
                || !num_cont_char(rest[0]))) ==> (r matches Some(p) && p.0@ == JsonV::Num(lex)
                && p.1 == s@.len() - rest.len()),
{
    let n = s.len();
    let mut p = i;
    let m: usize = if s[p] == '-' {
        1
    } else {
        0
    };
    p += m;
    // integer part: a single zero, or a nonzero digit followed by digits
    if p >= n {
        proof {
            assert forall|lex: Seq<char>, rest: Seq<char>|
                !(num_wf(lex) && s@.skip(i as int) == #[trigger] (lex + rest) && (rest.len() == 0
                    || !num_cont_char(rest[0]))) by {
                if num_wf(lex) && s@.skip(i as int) == lex + rest && (rest.len() == 0
                    || !num_cont_char(rest[0])) {
                    let (a, b) = lemma_num_at_facts(s@, i as int, lex, rest);
                    assert(lex[0] == s@[i as int]);
                    assert(is_digit(s@[i + m]));
                }
            }
        }
        return None;
    }
    if s[p] == '0' {
        p += 1;
    } else if is_digit_char(s[p]) {
        p += 1;
        while p < n && is_digit_char(s[p])
            invariant
                i + m < p <= n,
                forall|k: int| i + m <= k < p ==> is_digit(#[trigger] s@[k]),
            decreases n - p,
        {
            p += 1;
        }
    } else {
        proof {
            assert forall|lex: Seq<char>, rest: Seq<char>|
                !(num_wf(lex) && s@.skip(i as int) == #[trigger] (lex + rest) && (rest.len() == 0
                    || !num_cont_char(rest[0]))) by {
                if num_wf(lex) && s@.skip(i as int) == lex + rest && (rest.len() == 0
                    || !num_cont_char(rest[0])) {
                    let (a, b) = lemma_num_at_facts(s@, i as int, lex, rest);
                    assert(lex[0] == s@[i as int]);
                    assert(is_digit(s@[i + m]));
                }
            }
        }
        return None;
    }
    // digits of the integer part sit in s[i + m .. int_end)
    let int_end = p;
    // fraction
    if p < n && s[p] == '.' {
        p += 1;
        if p >= n || !is_digit_char(s[p]) {
            proof {
                assert forall|lex: Seq<char>, rest: Seq<char>|
                    !(num_wf(lex) && s@.skip(i as int) == #[trigger] (lex + rest) && (rest.len()
                        == 0 || !num_cont_char(rest[0]))) by {
                    if num_wf(lex) && s@.skip(i as int) == lex + rest && (rest.len() == 0
                        || !num_cont_char(rest[0])) {
                        let (aq, bq) = lemma_num_at_facts(s@, i as int, lex, rest);
                        let lexq = lex;
                        assert(lexq[0] == s@[i as int]);
                        assert(lexq[m as int] == s@[(i + m) as int]);
                        if s@[(i + m) as int] == '0' {
                            assert(aq == m + 1);
                        } else {
                            lemma_run_end_unique(s@, i + m, int_end as int, i + aq);
                        }
                        assert(int_end == i + aq);
                        if aq == lexq.len() {
                            assert(!num_cont_char(s@[i + aq]));
                        }
                        assert(aq < bq);
                        assert(is_digit(s@[i + aq + 1]));
                    }
                }
            }
            return None;
        }
        p += 1;
        while p < n && is_digit_char(s[p])
            invariant
                int_end + 1 < p <= n,
                forall|k: int| int_end + 1 <= k < p ==> is_digit(#[trigger] s@[k]),
            decreases n - p,
        {
            p += 1;
        }
    }
    let frac_end = p;
    // exponent
    let mut sgn: usize = 0;
    if p < n && (s[p] == 'e' || s[p] == 'E') {
        p += 1;
        if p < n && (s[p] == '+' || s[p] == '-') {
            sgn = 1;
        }
        p += sgn;
        if p >= n || !is_digit_char(s[p]) {
            proof {
                assert forall|lex: Seq<char>, rest: Seq<char>|
                    !(num_wf(lex) && s@.skip(i as int) == #[trigger] (lex + rest) && (rest.len()
                        == 0 || !num_cont_char(rest[0]))) by {
                    if num_wf(lex) && s@.skip(i as int) == lex + rest && (rest.len() == 0
                        || !num_cont_char(rest[0])) {
                        let (aq, bq) = lemma_num_at_facts(s@, i as int, lex, rest);
                        let lexq = lex;
                        assert(lexq[0] == s@[i as int]);
                        assert(lexq[m as int] == s@[(i + m) as int]);
                        if s@[(i + m) as int] == '0' {
                            assert(aq == m + 1);
                        } else {
                            lemma_run_end_unique(s@, i + m, int_end as int, i + aq);
                        }
                        assert(int_end == i + aq);
                        if frac_end > int_end {
                            if aq == lexq.len() {
                                assert(!num_cont_char(s@[i + aq]));
                            }
                            assert(aq < bq);
                            lemma_run_end_unique(s@, int_end + 1, frac_end as int, i + bq);
                        } else {
                            if aq < bq {
                                assert(s@[i + aq] == '.');
                                assert(false);
                            }
                        }
                        assert(frac_end == i + bq);
                        assert(bq < lexq.len());
                        let es: int = if lexq[bq + 1] == '+' || lexq[bq + 1] == '-' {
                            bq + 2
                        } else {
                            bq + 1
                        };
                        assert(lexq[bq + 1] == s@[i + bq + 1]);
                        assert(sgn == es - bq - 1);
                        assert(is_digit(s@[i + es]));
                    }
                }
            }
            return None;
        }
        p += 1;
        while p < n && is_digit_char(s[p])
            invariant
                frac_end + 1 + sgn < p <= n,
                forall|k: int| frac_end + 1 + sgn <= k < p ==> is_digit(#[trigger] s@[k]),
            decreases n - p,
        {
            p += 1;
        }
    }
    let lex = crate::strutil::subvec(s, i, p);
    proof {
        let lx = lex@;
        let a = int_end - i;
        let b = frac_end - i;
        assert(lx.len() == p - i);
        assert(forall|k: int| 0 <= k < lx.len() ==> #[trigger] lx[k] == s@[i + k]);
        // the integer digits, without a superfluous leading zero
        assert forall|k: int|
            0 <= k < lx.subrange(m as int, a) .len() implies is_digit(
            #[trigger] lx.subrange(m as int, a)[k],
        ) by {
            assert(lx.subrange(m as int, a)[k] == s@[i + m + k]);
        }
        assert(int_digits(lx.subrange(m as int, a))) by {
            if a - m > 1 {
                assert(lx.subrange(m as int, a)[0] == s@[(i + m) as int]);
            }
        }
        // the fraction, when there is one
        assert(frac_wf(lx.subrange(a, b))) by {
            if b > a {
                assert(lx.subrange(a, b)[0] == s@[int_end as int]);
                assert forall|k: int|
                    0 <= k < lx.subrange(a, b).skip(1).len() implies is_digit(
                    #[trigger] lx.subrange(a, b).skip(1)[k],
                ) by {
                    assert(lx.subrange(a, b).skip(1)[k] == s@[int_end + 1 + k]);
                }
            }
        }
        // the exponent, when there is one
        assert(exp_wf(lx.skip(b))) by {
            if p > frac_end {
                assert(lx.skip(b)[0] == s@[frac_end as int]);
                let tail = lx.skip(b).skip(1);
                assert forall|k: int| 1 <= k < tail.len() implies is_digit(#[trigger] tail[k]) by {
                    assert(tail[k] == s@[frac_end + 1 + k]);
                }
                assert(tail[0] == s@[frac_end + 1]);
                if tail[0] == '+' || tail[0] == '-' {
                    assert forall|k: int|
                        0 <= k < tail.skip(1).len() implies is_digit(#[trigger] tail.skip(1)[k]) by {
                        assert(tail.skip(1)[k] == s@[frac_end + 2 + k]);
                    }
                    assert(exp_digits(lx.skip(b).skip(1)));
                } else {
                    assert(is_digit(tail[0]));
                    assert(exp_digits(lx.skip(b).skip(1)));
                }
            } else {
                assert(lx.skip(b) =~= Seq::<char>::empty());
            }
        }
        assert(m == 1 <==> lx[0] == '-');
        assert(num_split(lx, a, b));
        // under a lexeme-plus-rest decomposition the scan stops exactly at
        // the lexeme's end, so what was read is that lexeme
        lemma_number_scan_pins(s@, i as int, m as int, int_end as int, frac_end as int, p as int, sgn as int);
        assert forall|lexq: Seq<char>, rest: Seq<char>|
            (num_wf(lexq) && s@.skip(i as int) == #[trigger] (lexq + rest) && (rest.len() == 0
                || !num_cont_char(rest[0]))) implies lx == lexq && p == s@.len() - rest.len() by {
            assert(lx =~= lexq);
        }
    }
    Some((Json::Num(lex), p))
}

/// A number scan with the given section boundaries stops exactly at the end
/// of any well-formed lexeme standing at `i`.
#[verifier::rlimit(100)]
#[verifier::spinoff_prover]
proof fn lemma_number_scan_pins(
    s: Seq<char>,
    i: int,
    m: int,
    int_end: int,
    frac_end: int,
    p: int,
    sgn: int,
)
    requires
        0 <= i < s.len(),
        m == 0 || m == 1,
        (m == 1) <==> s[i] == '-',
        i + m < int_end <= frac_end <= p <= s.len(),
        forall|k: int| i + m <= k < int_end ==> is_digit(#[trigger] s[k]),
        s[i + m] == '0' ==> int_end == i + m + 1,
        s[i + m] != '0' ==> (int_end == s.len() || !is_digit(s[int_end])),
        frac_end > int_end ==> s[int_end] == '.' && int_end + 1 < frac_end && (forall|k: int|
            int_end + 1 <= k < frac_end ==> is_digit(#[trigger] s[k])) && (frac_end == s.len()
            || !is_digit(s[frac_end])),
        frac_end == int_end ==> !(int_end < s.len() && s[int_end] == '.'),
        p > frac_end ==> (s[frac_end] == 'e' || s[frac_end] == 'E') && (sgn == 0 || sgn == 1) && (
        sgn == 1 ==> frac_end + 1 < s.len() && (s[frac_end + 1] == '+' || s[frac_end + 1] == '-'))
            && (sgn == 0 ==> !(frac_end + 1 < p && (s[frac_end + 1] == '+' || s[frac_end + 1]
            == '-'))) && frac_end + 1 + sgn < p && (forall|k: int|
            frac_end + 1 + sgn <= k < p ==> is_digit(#[trigger] s[k])) && (p == s.len()
            || !is_digit(s[p])),
        p == frac_end ==> !(frac_end < s.len() && (s[frac_end] == 'e' || s[frac_end] == 'E')),
    ensures
        forall|lexq: Seq<char>, rest: Seq<char>|
            (num_wf(lexq) && s.skip(i) == #[trigger] (lexq + rest) && (rest.len() == 0
                || !num_cont_char(rest[0]))) ==> lexq == s.subrange(i, p) && p == s.len()
                - rest.len(),
{
    assert forall|lexq: Seq<char>, rest: Seq<char>|
        (num_wf(lexq) && s.skip(i) == #[trigger] (lexq + rest) && (rest.len() == 0
            || !num_cont_char(rest[0]))) implies lexq == s.subrange(i, p) && p == s.len()
        - rest.len() by {
        let (aq, bq) = lemma_num_at_facts(s, i, lexq, rest);
        assert(lexq[0] == s[i]);
        assert(lexq[m] == s[i + m]);
        if s[i + m] == '0' {
            assert(aq == m + 1);
        } else {
            lemma_run_end_unique(s, i + m, int_end, i + aq);
        }
        assert(int_end == i + aq);
        if frac_end > int_end {
            if aq == lexq.len() {
                assert(!num_cont_char(s[i + aq]));
            }
            assert(aq < bq);
            lemma_run_end_unique(s, int_end + 1, frac_end, i + bq);
        } else {
            if aq < bq {
                assert(s[i + aq] == '.');
                assert(false);
            }
        }
        assert(frac_end == i + bq);
        if p > frac_end {
            assert(bq < lexq.len());
            let es: int = if lexq[bq + 1] == '+' || lexq[bq + 1] == '-' {
                bq + 2
            } else {
                bq + 1
            };
            assert(lexq[bq + 1] == s[i + bq + 1]);
            assert(sgn == es - bq - 1);
            lemma_run_end_unique(s, i + es, p, i + lexq.len());
        } else {
            if bq < lexq.len() {
                assert(s[i + bq] == 'e' || s[i + bq] == 'E');
                assert(false);
            }
        }
        assert(p == i + lexq.len());
        assert(lexq =~= s.subrange(i, p));
    }
}

/// Whether the literal `lit` occurs at position `i` of `s`.
#[verifier::loop_isolation(false)]
fn lit_at(s: &Vec<char>, i: usize, lit: &Vec<char>) -> (r: bool)
    requires
        i <= s@.len(),
    ensures
        r == (i + lit@.len() <= s@.len() && s@.subrange(i as int, i + lit@.len()) == lit@),
{
    if lit.len() > s.len() - i {
        proof {
            if s@.subrange(i as int, i + lit@.len()) == lit@ {
                assert(s@.subrange(i as int, i + lit@.len()).len() == lit@.len());
            }
        }
        return false;
    }
    let mut j: usize = 0;
    while j < lit.len()
        invariant
            i + lit@.len() <= s@.len(),
            j <= lit@.len(),
            forall|k: int| 0 <= k < j ==> s@[i + k] == lit@[k],
        decreases lit@.len() - j,
    {
        if s[i + j] != lit[j] {
            proof {
                if s@.subrange(i as int, i + lit@.len()) == lit@ {
                    assert(s@.subrange(i as int, i + lit@.len())[j as int] == s@[i + j]);
                }
            }
            return false;
        }
        j += 1;
    }
    proof {
        assert(s@.subrange(i as int, i + lit@.len()) =~= lit@);
    }
    true
}

/// Splitting text after a known prefix: the characters of the prefix sit at
/// `p`, and the rest of the text follows it.
proof fn lemma_skip_concat(s: Seq<char>, p: int, pre: Seq<char>, tail: Seq<char>)
    requires
        0 <= p <= s.len(),
        s.skip(p) == pre + tail,
    ensures
        p + pre.len() + tail.len() == s.len(),
        s.skip(p + pre.len()) == tail,
        forall|x: int| 0 <= x < pre.len() ==> s[p + x] == #[trigger] pre[x],
{
    assert(s.skip(p).len() == s.len() - p);
    assert forall|x: int| 0 <= x < pre.len() implies s[p + x] == #[trigger] pre[x] by {
        assert(s.skip(p)[x] == s[p + x]);
    }
    assert forall|x: int|
        0 <= x < tail.len() implies #[trigger] s.skip(p + pre.len() as int)[x] == tail[x] by {
        assert(s.skip(p + pre.len() as int)[x] == s[p + pre.len() + x]);
        assert(s.skip(p)[pre.len() + x] == s[p + pre.len() + x]);
        assert((pre + tail)[pre.len() + x] == tail[x]);
    }
    assert(s.skip(p + pre.len() as int) =~= tail);
}

/// A well-formed value serialized at position `i`, followed by text that
/// cannot extend a number lexeme: the premise under which parsing is
/// complete.
pub open spec fn ser_at(s: Seq<char>, i: int, jv: JsonV, rest: Seq<char>) -> bool {
    &&& wf_json(jv)
    &&& s.skip(i) == ser_json(jv) + rest
    &&& (rest.len() == 0 || !num_cont_char(rest[0]))
}

/// After one array element of a serialized array is consumed, a comma or
/// the closing bracket follows, and a comma is followed by the next element.
#[verifier::rlimit(100)]
#[verifier::spinoff_prover]
proof fn lemma_arr_step(
    s: Seq<char>,
    its: Seq<JsonV>,
    rest: Seq<char>,
    kk: int,
    p: int,
    k: int,
    q: int,
)
    requires
        0 <= kk < its.len(),
        0 <= p <= s.len(),
        s.skip(p) == ser_json(its[kk]) + (ser_arr_tail(its.skip(kk + 1)) + (seq![']'] + rest)),
        k == s.len() - (ser_arr_tail(its.skip(kk + 1)) + (seq![']'] + rest)).len(),
        k <= q <= s.len(),
        forall|x: int| k <= x < q ==> is_json_ws(#[trigger] s[x]),
        q == s.len() || !is_json_ws(s[q]),
    ensures
        q == k && k < s.len(),
        (s[q] == ',' <==> kk + 1 < its.len()),
        kk + 1 < its.len() ==> s.skip(q + 1) == ser_json(its[kk + 1]) + (ser_arr_tail(
            its.skip(kk + 2),
        ) + (seq![']'] + rest)),
        kk + 1 == its.len() ==> s[q] == ']' && q + 1 == s.len() - rest.len(),
{
    let rest2 = ser_arr_tail(its.skip(kk + 1)) + (seq![']'] + rest);
    lemma_skip_concat(s, p, ser_json(its[kk]), rest2);
    assert(s.skip(k) == rest2);
    assert(s.skip(k)[0] == s[k]);
    if its.skip(kk + 1).len() == 0 {
        assert(rest2[0] == ']');
    } else {
        assert(ser_arr_tail(its.skip(kk + 1))[0] == ',');
        assert(rest2[0] == ',');
    }
    if q > k {
        assert(is_json_ws(s[k]));
    }
    if kk + 1 < its.len() {
        let ts = its.skip(kk + 1);
        assert(ts[0] == its[kk + 1]);
        assert(ts.drop_first() =~= its.skip(kk + 2));
        assert(ser_arr_tail(ts) == seq![','] + ser_json(its[kk + 1]) + ser_arr_tail(
            its.skip(kk + 2),
        ));
        assert(rest2 =~= seq![','] + (ser_json(its[kk + 1]) + (ser_arr_tail(its.skip(kk + 2)) + (
        seq![']'] + rest))));
        lemma_skip_concat(
            s,
            k,
            seq![','],
            ser_json(its[kk + 1]) + (ser_arr_tail(its.skip(kk + 2)) + (seq![']'] + rest)),
        );
    } else {
        assert(its.skip(kk + 1) =~= Seq::<JsonV>::empty());
        assert(rest2 =~= seq![']'] + rest);
        assert(s.skip(k).len() == 1 + rest.len());
    }
}

/// After one field of a serialized object is consumed, a comma or the
/// closing brace follows, and a comma is followed by the next field's key.
#[verifier::rlimit(100)]
#[verifier::spinoff_prover]
proof fn lemma_obj_step(
    s: Seq<char>,
    fs: Seq<(Seq<char>, JsonV)>,
    rest: Seq<char>,
    kk: int,
    k3: int,
    q: int,
)
    requires
        0 <= kk < fs.len(),
        k3 == s.len() - (ser_obj_tail(fs.skip(kk + 1)) + (seq!['}'] + rest)).len(),
        0 <= k3 <= s.len(),
        s.skip(k3) == ser_obj_tail(fs.skip(kk + 1)) + (seq!['}'] + rest),
        k3 <= q <= s.len(),
        forall|x: int| k3 <= x < q ==> is_json_ws(#[trigger] s[x]),
        q == s.len() || !is_json_ws(s[q]),
    ensures
        q == k3 && k3 < s.len(),
        (s[q] == ',' <==> kk + 1 < fs.len()),
        kk + 1 < fs.len() ==> s.skip(q + 1) == ser_string(fs[kk + 1].0) + (seq![':'] + (ser_json(
            fs[kk + 1].1,
        ) + (ser_obj_tail(fs.skip(kk + 2)) + (seq!['}'] + rest)))),
        kk + 1 == fs.len() ==> s[q] == '}' && q + 1 == s.len() - rest.len(),
{
    let rest2 = ser_obj_tail(fs.skip(kk + 1)) + (seq!['}'] + rest);
    assert(s.skip(k3).len() == s.len() - k3);
    assert(s.skip(k3)[0] == s[k3]);
    if fs.skip(kk + 1).len() == 0 {
        assert(rest2[0] == '}');
    } else {
        assert(ser_obj_tail(fs.skip(kk + 1))[0] == ',');
        assert(rest2[0] == ',');
    }
    if q > k3 {
        assert(is_json_ws(s[k3]));
    }
    if kk + 1 < fs.len() {
        let ts = fs.skip(kk + 1);
        assert(ts[0] == fs[kk + 1]);
        assert(ts.drop_first() =~= fs.skip(kk + 2));
        assert(ser_obj_tail(ts) == seq![','] + ser_string(fs[kk + 1].0) + seq![':'] + ser_json(
            fs[kk + 1].1,
        ) + ser_obj_tail(fs.skip(kk + 2)));
        assert(rest2 =~= seq![','] + (ser_string(fs[kk + 1].0) + (seq![':'] + (ser_json(
            fs[kk + 1].1,
        ) + (ser_obj_tail(fs.skip(kk + 2)) + (seq!['}'] + rest))))));
        lemma_skip_concat(
            s,
            k3,
            seq![','],
            ser_string(fs[kk + 1].0) + (seq![':'] + (ser_json(fs[kk + 1].1) + (ser_obj_tail(
                fs.skip(kk + 2),
            ) + (seq!['}'] + rest)))),
        );
    } else {
        assert(fs.skip(kk + 1) =~= Seq::<(Seq<char>, JsonV)>::empty());
        assert(rest2 =~= seq!['}'] + rest);
        assert(s.skip(k3).len() == 1 + rest.len());
    }
}

/// Parses one JSON value beginning at or after `i` (leading whitespace is
/// skipped), returning it and the position just past it.
#[verifier::loop_isolation(false)]
#[verifier::rlimit(100)]
#[verifier::spinoff_prover]
#[verifier::loop_isolation(false)]
pub fn parse_value_at(s: &Vec<char>, i: usize) -> (r: Option<(Json, usize)>)
    requires
        i <= s@.len(),
    ensures
        r matches Some(p) ==> i < p.1 <= s@.len() && wf_json(p.0@),
        forall|jv: JsonV, rest: Seq<char>|
            #[trigger] ser_at(s@, i as int, jv, rest) ==> (r matches Some(p) && p.0@ == jv && p.1
                == s@.len() - rest.len()),
    decreases s@.len() - i, 1int,
{
    let n = s.len();
    let j = skip_json_ws(s, i);
    proof {
        assert forall|jv: JsonV, rest: Seq<char>|
            #[trigger] ser_at(s@, i as int, jv, rest) implies j == i && i < n && s@[i as int]
            == ser_json(jv)[0] by {
            lemma_ser_first(jv);
            lemma_skip_concat(s@, i as int, ser_json(jv), rest);
            if j > i {
                assert(is_json_ws(s@[i as int]));
            }
        }
    }
    if j >= n {
        return None;
    }
    let c = s[j];
    if c == 'n' {
        let lit = vec!['n', 'u', 'l', 'l'];
        proof {
            assert(lit@ =~= seq!['n', 'u', 'l', 'l']);
            assert forall|jv: JsonV, rest: Seq<char>|
                #[trigger] ser_at(s@, i as int, jv, rest) implies jv is Null && s@.subrange(
                j as int,
                j + 4,
            ) == lit@ && j + 4 == s@.len() - rest.len() by {
                lemma_ser_first(jv);
                lemma_skip_concat(s@, i as int, ser_json(jv), rest);
                assert(s@.subrange(j as int, j + 4) =~= lit@);
            }
        }
        if lit_at(s, j, &lit) {
            Some((Json::Null, j + 4))
        } else {
            None
        }
    } else if c == 't' {
        let lit = vec!['t', 'r', 'u', 'e'];
        proof {
            assert(lit@ =~= seq!['t', 'r', 'u', 'e']);
            assert forall|jv: JsonV, rest: Seq<char>|
                #[trigger] ser_at(s@, i as int, jv, rest) implies jv == JsonV::Bool(true)
                && s@.subrange(j as int, j + 4) == lit@ && j + 4 == s@.len() - rest.len() by {
                lemma_ser_first(jv);
                lemma_skip_concat(s@, i as int, ser_json(jv), rest);
                assert(s@.subrange(j as int, j + 4) =~= lit@);
            }
        }
        if lit_at(s, j, &lit) {
            Some((Json::Bool(true), j + 4))
        } else {
            None
        }
    } else if c == 'f' {
        let lit = vec!['f', 'a', 'l', 's', 'e'];
        proof {
            assert(lit@ =~= seq!['f', 'a', 'l', 's', 'e']);
            assert forall|jv: JsonV, rest: Seq<char>|
                #[trigger] ser_at(s@, i as int, jv, rest) implies jv == JsonV::Bool(false)
                && s@.subrange(j as int, j + 5) == lit@ && j + 5 == s@.len() - rest.len() by {
                lemma_ser_first(jv);
                lemma_skip_concat(s@, i as int, ser_json(jv), rest);
                assert(s@.subrange(j as int, j + 5) =~= lit@);
            }
        }
        if lit_at(s, j, &lit) {
            Some((Json::Bool(false), j + 5))
        } else {
            None
        }
    } else if c == '"' {
        proof {
            assert forall|jv: JsonV, rest: Seq<char>|
                #[trigger] ser_at(s@, i as int, jv, rest) implies jv is Str && s@.skip(j as int)
                == ser_string(jv->Str_0) + rest by {
                lemma_ser_first(jv);
            }
        }
        match parse_string_at(s, j) {
            Some((content, k)) => Some((Json::Str(content), k)),
            None => None,
        }
    } else if c == '-' || is_digit_char(c) {
        proof {
            assert forall|jv: JsonV, rest: Seq<char>|
                #[trigger] ser_at(s@, i as int, jv, rest) implies jv is Num && num_wf(jv->Num_0)
                && s@.skip(j as int) == jv->Num_0 + rest by {
                lemma_ser_first(jv);
            }
        }
        parse_number_at(s, j)
    } else if c == '[' {
        parse_arr_at(s, i, j)
    } else if c == '{' {
        parse_obj_at(s, i, j)
    } else {
        proof {
            assert forall|jv: JsonV, rest: Seq<char>|
                !#[trigger] ser_at(s@, i as int, jv, rest) by {
                if ser_at(s@, i as int, jv, rest) {
                    lemma_ser_first(jv);
                }
            }
        }
        None
    }
}


/// Parses the array whose opening bracket sits at `j`, after whitespace
/// from `i`.
#[verifier::rlimit(100)]
#[verifier::spinoff_prover]
#[verifier::loop_isolation(false)]
fn parse_arr_at(s: &Vec<char>, i: usize, j: usize) -> (r: Option<(Json, usize)>)
    requires
        i <= j < s@.len(),
        s@[j as int] == '[',
        forall|k: int| i <= k < j ==> is_json_ws(#[trigger] s@[k]),
    ensures
        r matches Some(p) ==> i < p.1 <= s@.len() && wf_json(p.0@),
        forall|jv: JsonV, rest: Seq<char>|
            #[trigger] ser_at(s@, i as int, jv, rest) ==> (r matches Some(p) && p.0@ == jv && p.1
                == s@.len() - rest.len()),
    decreases s@.len() - i, 0int,
{
    let n = s.len();
    proof {
        assert forall|jv: JsonV, rest: Seq<char>|
            #[trigger] ser_at(s@, i as int, jv, rest) implies j == i && s@[i as int] == ser_json(
            jv,
        )[0] by {
            lemma_ser_first(jv);
            lemma_skip_concat(s@, i as int, ser_json(jv), rest);
            if j > i {
                assert(is_json_ws(s@[i as int]));
            }
        }
    }
    let mut items: Vec<Json> = Vec::new();
    let mut p = skip_json_ws(s, j + 1);
    proof {
        assert forall|jv: JsonV, rest: Seq<char>|
            #[trigger] ser_at(s@, i as int, jv, rest) implies jv is Arr && p == j + 1 && j + 1
            <= n && (jv->Arr_0.len() == 0 ==> p < n && s@[p as int] == ']' && p + 1 == s@.len()
            - rest.len()) && (jv->Arr_0.len() > 0 ==> s@.skip(p as int) == ser_json(
            jv->Arr_0[0],
        ) + (ser_arr_tail(jv->Arr_0.skip(1)) + (seq![']'] + rest))) by {
            lemma_ser_first(jv);
            let its = jv->Arr_0;
            if its.len() == 0 {
                lemma_skip_concat(s@, i as int, ser_json(jv), rest);
                assert(s@[i + 1] == ']');
                if p > j + 1 {
                    assert(is_json_ws(s@[j + 1]));
                }
            } else {
                let tail0 = ser_json(its[0]) + (ser_arr_tail(its.skip(1)) + (seq![']']
                    + rest));
                assert(its.drop_first() =~= its.skip(1));
                assert(ser_json(jv) + rest =~= seq!['['] + tail0);
                lemma_skip_concat(s@, i as int, seq!['['], tail0);
                lemma_ser_first(its[0]);
                assert(tail0[0] == ser_json(its[0])[0]);
                assert(s@[i + 1] == tail0[0]);
                if p > j + 1 {
                    assert(is_json_ws(s@[j + 1]));
                }
                assert(s@.skip(j + 1) == tail0);
            }
        }
    }
    if p < n && s[p] == ']' {
        proof {
            lemma_view_arr(items);
            assert forall|jv: JsonV, rest: Seq<char>|
                #[trigger] ser_at(s@, i as int, jv, rest) implies view_json(Json::Arr(items))
                    == jv && p + 1 == s@.len() - rest.len() by {
                if jv->Arr_0.len() > 0 {
                    lemma_ser_first(jv->Arr_0[0]);
                    let tail0 = ser_json(jv->Arr_0[0]) + (ser_arr_tail(jv->Arr_0.skip(1)) + (
                    seq![']'] + rest));
                    assert(s@.skip(p as int)[0] == s@[p as int]);
                    assert(tail0[0] == ser_json(jv->Arr_0[0])[0]);
                    assert(s@[p as int] == ser_json(jv->Arr_0[0])[0]);
                    assert(false);
                }
                assert(views_of_json(items@) =~= jv->Arr_0);
            }
        }
        return Some((Json::Arr(items), p + 1));
    }
    loop
        invariant
            j < p <= s@.len(),
            n == s@.len(),
            forall|t: int| 0 <= t < items@.len() ==> wf_json(view_json(#[trigger] items@[t])),
            forall|jv: JsonV, rest: Seq<char>|
                #[trigger] ser_at(s@, i as int, jv, rest) ==> {
                    &&& jv is Arr
                    &&& items@.len() < jv->Arr_0.len()
                    &&& views_of_json(items@) == jv->Arr_0.take(items@.len() as int)
                    &&& s@.skip(p as int) == ser_json(jv->Arr_0[items@.len() as int]) + (
                    ser_arr_tail(jv->Arr_0.skip(items@.len() as int + 1)) + (seq![']'] + rest))
                },
        decreases s@.len() - p,
    {
        let ghost kk = items@.len() as int;
        proof {
            assert forall|jv: JsonV, rest: Seq<char>|
                #[trigger] ser_at(s@, i as int, jv, rest) implies ser_at(
                s@,
                p as int,
                jv->Arr_0[kk],
                ser_arr_tail(jv->Arr_0.skip(kk + 1)) + (seq![']'] + rest),
            ) by {
                let its = jv->Arr_0;
                let rest2 = ser_arr_tail(its.skip(kk + 1)) + (seq![']'] + rest);
                if its.skip(kk + 1).len() == 0 {
                    assert(rest2[0] == ']');
                } else {
                    assert(ser_arr_tail(its.skip(kk + 1))[0] == ',');
                    assert(rest2[0] == ',');
                }
            }
        }
        let (v, k) = match parse_value_at(s, p) {
            Some(x) => x,
            None => {
                return None;
            },
        };
        let ghost vv = v@;
        items.push(v);
        let q = skip_json_ws(s, k);
        proof {
            assert forall|jv: JsonV, rest: Seq<char>|
                #[trigger] ser_at(s@, i as int, jv, rest) implies {
                &&& vv == jv->Arr_0[kk]
                &&& views_of_json(items@) == jv->Arr_0.take(kk + 1)
                &&& q == k && k < n
                &&& (s@[q as int] == ',' <==> kk + 1 < jv->Arr_0.len())
                &&& (kk + 1 < jv->Arr_0.len() ==> s@.skip(q + 1) == ser_json(
                    jv->Arr_0[kk + 1],
                ) + (ser_arr_tail(jv->Arr_0.skip(kk + 2)) + (seq![']'] + rest)))
                &&& (kk + 1 == jv->Arr_0.len() ==> s@[q as int] == ']' && q + 1 == s@.len()
                    - rest.len())
            } by {
                let its = jv->Arr_0;
                let rest2 = ser_arr_tail(its.skip(kk + 1)) + (seq![']'] + rest);
                assert(ser_at(s@, p as int, its[kk], rest2));
                assert(vv == its[kk]);
                assert(views_of_json(items@) =~= its.take(kk + 1));
                assert(k == s@.len() - rest2.len());
                lemma_arr_step(s@, its, rest, kk, p as int, k as int, q as int);
            }
        }
        if q < n && s[q] == ',' {
            p = q + 1;
        } else if q < n && s[q] == ']' {
            proof {
                lemma_view_arr(items);
                assert forall|jv: JsonV, rest: Seq<char>|
                    #[trigger] ser_at(s@, i as int, jv, rest) implies view_json(
                    Json::Arr(items),
                ) == jv && q + 1 == s@.len() - rest.len() by {
                    if kk + 1 < jv->Arr_0.len() {
                        assert(s@[q as int] == ',');
                        assert(false);
                    }
                    assert(views_of_json(items@) =~= jv->Arr_0);
                }
            }
            return Some((Json::Arr(items), q + 1));
        } else {
            proof {
                assert forall|jv: JsonV, rest: Seq<char>|
                    !#[trigger] ser_at(s@, i as int, jv, rest) by {
                    if ser_at(s@, i as int, jv, rest) {
                        assert(q < n);
                    }
                }
            }
            return None;
        }
    }
}

/// Parses the object whose opening brace sits at `j`, after whitespace from
/// `i`.
#[verifier::rlimit(100)]
#[verifier::spinoff_prover]
#[verifier::loop_isolation(false)]
fn parse_obj_at(s: &Vec<char>, i: usize, j: usize) -> (r: Option<(Json, usize)>)
    requires
        i <= j < s@.len(),
        s@[j as int] == '{',
        forall|k: int| i <= k < j ==> is_json_ws(#[trigger] s@[k]),
    ensures
        r matches Some(p) ==> i < p.1 <= s@.len() && wf_json(p.0@),
        forall|jv: JsonV, rest: Seq<char>|
            #[trigger] ser_at(s@, i as int, jv, rest) ==> (r matches Some(p) && p.0@ == jv && p.1
                == s@.len() - rest.len()),
    decreases s@.len() - i, 0int,
{
    let n = s.len();
    proof {
        assert forall|jv: JsonV, rest: Seq<char>|
            #[trigger] ser_at(s@, i as int, jv, rest) implies j == i && s@[i as int] == ser_json(
            jv,
        )[0] by {
            lemma_ser_first(jv);
            lemma_skip_concat(s@, i as int, ser_json(jv), rest);
            if j > i {
                assert(is_json_ws(s@[i as int]));
            }
        }
    }
    let mut fields: Vec<(Vec<char>, Json)> = Vec::new();
    let mut p = skip_json_ws(s, j + 1);
    proof {
        assert forall|jv: JsonV, rest: Seq<char>|
            #[trigger] ser_at(s@, i as int, jv, rest) implies jv is Obj && p == j + 1 && j + 1
            <= n && (jv->Obj_0.len() == 0 ==> p < n && s@[p as int] == '}' && p + 1 == s@.len()
            - rest.len()) && (jv->Obj_0.len() > 0 ==> s@.skip(p as int) == ser_string(
            jv->Obj_0[0].0,
        ) + (seq![':'] + (ser_json(jv->Obj_0[0].1) + (ser_obj_tail(jv->Obj_0.skip(1)) + (
        seq!['}'] + rest))))) by {
            lemma_ser_first(jv);
            let fs = jv->Obj_0;
            if fs.len() == 0 {
                lemma_skip_concat(s@, i as int, ser_json(jv), rest);
                assert(s@[i + 1] == '}');
                if p > j + 1 {
                    assert(is_json_ws(s@[j + 1]));
                }
            } else {
                let tail0 = ser_string(fs[0].0) + (seq![':'] + (ser_json(fs[0].1) + (
                ser_obj_tail(fs.skip(1)) + (seq!['}'] + rest))));
                assert(fs.drop_first() =~= fs.skip(1));
                assert(ser_json(jv) + rest =~= seq!['{'] + tail0);
                lemma_skip_concat(s@, i as int, seq!['{'], tail0);
                assert(tail0[0] == ser_string(fs[0].0)[0]);
                assert(ser_string(fs[0].0)[0] == '"');
                assert(s@[i + 1] == tail0[0]);
                if p > j + 1 {
                    assert(is_json_ws(s@[j + 1]));
                }
                assert(s@.skip(j + 1) == tail0);
            }
        }
    }
    if p < n && s[p] == '}' {
        proof {
            lemma_view_obj(fields);
            assert forall|jv: JsonV, rest: Seq<char>|
                #[trigger] ser_at(s@, i as int, jv, rest) implies view_json(Json::Obj(fields))
                    == jv && p + 1 == s@.len() - rest.len() by {
                if jv->Obj_0.len() > 0 {
                    let ss = ser_string(jv->Obj_0[0].0);
                    let tl = seq![':'] + (ser_json(jv->Obj_0[0].1) + (ser_obj_tail(
                        jv->Obj_0.skip(1),
                    ) + (seq!['}'] + rest)));
                    assert(s@.skip(p as int) == ss + tl);
                    assert(s@.skip(p as int)[0] == s@[p as int]);
                    assert((ss + tl)[0] == ss[0]);
                    assert(ss[0] == '"');
                    assert(false);
                }
                assert(views_of_fields(fields@) =~= jv->Obj_0);
            }
        }
        return Some((Json::Obj(fields), p + 1));
    }
    loop
        invariant
            j < p <= s@.len(),
            n == s@.len(),
            forall|t: int|
                0 <= t < fields@.len() ==> wf_json(view_json(#[trigger] fields@[t].1)),
            forall|jv: JsonV, rest: Seq<char>|
                #[trigger] ser_at(s@, i as int, jv, rest) ==> {
                    &&& jv is Obj
                    &&& fields@.len() < jv->Obj_0.len()
                    &&& views_of_fields(fields@) == jv->Obj_0.take(fields@.len() as int)
                    &&& s@.skip(p as int) == ser_string(jv->Obj_0[fields@.len() as int].0) + (
                    seq![':'] + (ser_json(jv->Obj_0[fields@.len() as int].1) + (ser_obj_tail(
                        jv->Obj_0.skip(fields@.len() as int + 1),
                    ) + (seq!['}'] + rest))))
                },
        decreases s@.len() - p,
    {
        let ghost kk = fields@.len() as int;
        let kq = skip_json_ws(s, p);
        proof {
            assert forall|jv: JsonV, rest: Seq<char>|
                #[trigger] ser_at(s@, i as int, jv, rest) implies kq == p && p < n
                    && s@[p as int] == '"' && s@.skip(p as int) == ser_string(
                jv->Obj_0[kk].0,
            ) + (seq![':'] + (ser_json(jv->Obj_0[kk].1) + (ser_obj_tail(jv->Obj_0.skip(kk + 1))
                + (seq!['}'] + rest)))) by {
                assert(s@.skip(p as int).len() == s@.len() - p);
                assert(s@.skip(p as int)[0] == s@[p as int]);
                let ss = ser_string(jv->Obj_0[kk].0);
                assert(ss[0] == '"');
                assert((ss + (seq![':'] + (ser_json(jv->Obj_0[kk].1) + (ser_obj_tail(
                    jv->Obj_0.skip(kk + 1),
                ) + (seq!['}'] + rest)))))[0] == ss[0]);
                if kq > p {
                    assert(is_json_ws(s@[p as int]));
                }
            }
        }
        if !(kq < n && s[kq] == '"') {
            proof {
                assert forall|jv: JsonV, rest: Seq<char>|
                    !#[trigger] ser_at(s@, i as int, jv, rest) by {
                    if ser_at(s@, i as int, jv, rest) {
                        assert(s@[kq as int] == '"');
                    }
                }
            }
            return None;
        }
        let (key, k1) = match parse_string_at(s, kq) {
            Some(x) => x,
            None => {
                return None;
            },
        };
        let ghost keyv = key@;
        let k2 = skip_json_ws(s, k1);
        proof {
            assert forall|jv: JsonV, rest: Seq<char>|
                #[trigger] ser_at(s@, i as int, jv, rest) implies keyv == jv->Obj_0[kk].0 && k2
                == k1 && k1 < n && s@[k1 as int] == ':' && s@.skip(k1 + 1) == ser_json(
                jv->Obj_0[kk].1,
            ) + (ser_obj_tail(jv->Obj_0.skip(kk + 1)) + (seq!['}'] + rest)) by {
                let f0 = jv->Obj_0[kk];
                let tailk = seq![':'] + (ser_json(f0.1) + (ser_obj_tail(jv->Obj_0.skip(kk + 1))
                    + (seq!['}'] + rest)));
                assert(s@.skip(kq as int) == ser_string(f0.0) + tailk);
                assert(k1 == s@.len() - tailk.len());
                lemma_skip_concat(s@, kq as int, ser_string(f0.0), tailk);
                assert(s@.skip(k1 as int) == tailk);
                assert(s@[k1 as int] == tailk[0]);
                if k2 > k1 {
                    assert(is_json_ws(s@[k1 as int]));
                }
                lemma_skip_concat(
                    s@,
                    k1 as int,
                    seq![':'],
                    ser_json(f0.1) + (ser_obj_tail(jv->Obj_0.skip(kk + 1)) + (seq!['}']
                        + rest)),
                );
            }
        }
        if !(k2 < n && s[k2] == ':') {
            proof {
                assert forall|jv: JsonV, rest: Seq<char>|
                    !#[trigger] ser_at(s@, i as int, jv, rest) by {
                    if ser_at(s@, i as int, jv, rest) {
                        assert(s@[k2 as int] == ':');
                    }
                }
            }
            return None;
        }
        proof {
            assert forall|jv: JsonV, rest: Seq<char>|
                #[trigger] ser_at(s@, i as int, jv, rest) implies ser_at(
                s@,
                k2 + 1,
                jv->Obj_0[kk].1,
                ser_obj_tail(jv->Obj_0.skip(kk + 1)) + (seq!['}'] + rest),
            ) by {
                let rest2 = ser_obj_tail(jv->Obj_0.skip(kk + 1)) + (seq!['}'] + rest);
                if jv->Obj_0.skip(kk + 1).len() == 0 {
                    assert(rest2[0] == '}');
                } else {
                    assert(ser_obj_tail(jv->Obj_0.skip(kk + 1))[0] == ',');
                    assert(rest2[0] == ',');
                }
            }
        }
        let (v, k3) = match parse_value_at(s, k2 + 1) {
            Some(x) => x,
            None => {
                return None;
            },
        };
        let ghost vv = v@;
        fields.push((key, v));
        let q = skip_json_ws(s, k3);
        proof {
            assert forall|jv: JsonV, rest: Seq<char>|
                #[trigger] ser_at(s@, i as int, jv, rest) implies {
                &&& vv == jv->Obj_0[kk].1
                &&& views_of_fields(fields@) == jv->Obj_0.take(kk + 1)
                &&& q == k3 && k3 < n
                &&& (s@[q as int] == ',' <==> kk + 1 < jv->Obj_0.len())
                &&& (kk + 1 < jv->Obj_0.len() ==> s@.skip(q + 1) == ser_string(
                    jv->Obj_0[kk + 1].0,
                ) + (seq![':'] + (ser_json(jv->Obj_0[kk + 1].1) + (ser_obj_tail(
                    jv->Obj_0.skip(kk + 2),
                ) + (seq!['}'] + rest)))))
                &&& (kk + 1 == jv->Obj_0.len() ==> s@[q as int] == '}' && q + 1 == s@.len()
                    - rest.len())
            } by {
                let fs = jv->Obj_0;
                let rest2 = ser_obj_tail(fs.skip(kk + 1)) + (seq!['}'] + rest);
                assert(ser_at(s@, k2 + 1, fs[kk].1, rest2));
                assert(vv == fs[kk].1);
                assert(views_of_fields(fields@) =~= fs.take(kk + 1));
                assert(k3 == s@.len() - rest2.len());
                lemma_skip_concat(s@, k2 + 1, ser_json(fs[kk].1), rest2);
                lemma_obj_step(s@, fs, rest, kk, k3 as int, q as int);
            }
        }
        if q < n && s[q] == ',' {
            p = q + 1;
        } else if q < n && s[q] == '}' {
            proof {
                lemma_view_obj(fields);
                assert forall|jv: JsonV, rest: Seq<char>|
                    #[trigger] ser_at(s@, i as int, jv, rest) implies view_json(
                    Json::Obj(fields),
                ) == jv && q + 1 == s@.len() - rest.len() by {
                    if kk + 1 < jv->Obj_0.len() {
                        assert(s@[q as int] == ',');
                        assert(false);
                    }
                    assert(views_of_fields(fields@) =~= jv->Obj_0);
                }
            }
            return Some((Json::Obj(fields), q + 1));
        } else {
            proof {
                assert forall|jv: JsonV, rest: Seq<char>|
                    !#[trigger] ser_at(s@, i as int, jv, rest) by {
                    if ser_at(s@, i as int, jv, rest) {
                        assert(q < n);
                    }
                }
            }
            return None;
        }
    }
}

/// Parses a complete JSON document: one value with nothing but whitespace
/// around it, as `serde_json::from_str` accepts it.
pub fn parse_json_chars(s: &Vec<char>) -> (r: Option<Json>)
    ensures
        r matches Some(j) ==> wf_json(j@),
        forall|jv: JsonV|
            wf_json(jv) && s@ == #[trigger] ser_json(jv) ==> (r matches Some(j) && j@ == jv),
{
    proof {
        assert forall|jv: JsonV|
            wf_json(jv) && s@ == #[trigger] ser_json(jv) implies ser_at(
            s@,
            0,
            jv,
            Seq::empty(),
        ) by {
            assert(s@.skip(0) =~= ser_json(jv) + Seq::<char>::empty());
        }
    }
    let (v, k) = match parse_value_at(s, 0) {
        Some(x) => x,
        None => {
            return None;
        },
    };
    let e = skip_json_ws(s, k);
    if e == s.len() {
        Some(v)
    } else {
        proof {
            assert forall|jv: JsonV| !(wf_json(jv) && s@ == #[trigger] ser_json(jv)) by {
                if wf_json(jv) && s@ == ser_json(jv) {
                    assert(k == s@.len());
                }
            }
        }
        None
    }
}

/// Parses a complete JSON document from a string.
pub fn parse_json_str(s: &str) -> (r: Option<Json>)
    ensures
        r matches Some(j) ==> wf_json(j@),
        forall|jv: JsonV|
            wf_json(jv) && s@ == #[trigger] ser_json(jv) ==> (r matches Some(j) && j@ == jv),
{
    let chars = str_to_chars(s);
    parse_json_chars(&chars)
}

/// The fractional digits of a count of thousandths, trailing zeros dropped
/// but at least one digit kept: how a short decimal fraction prints.
pub open spec fn milli_frac(f: int) -> Seq<char> {
    if f == 0 {
        seq!['0']
    } else if f % 100 == 0 {
        seq![digit_char(f / 100)]
    } else if f % 10 == 0 {
        seq![digit_char(f / 100), digit_char((f / 10) % 10)]
    } else {
        seq![digit_char(f / 100), digit_char((f / 10) % 10), digit_char(f % 10)]
    }
}

/// The decimal rendering of `m` thousandths, with a decimal point: how
/// `serde_json` writes an `f64` that is an exact count of thousandths.
pub open spec fn milli_lexeme(m: int) -> Seq<char> {
    let mag = if m < 0 {
        -m
    } else {
        m
    };
    (if m < 0 {
        seq!['-']
    } else {
        Seq::<char>::empty()
    }) + crate::strutil::dec_digits(mag / 1000) + seq!['.'] + milli_frac(mag % 1000)
}

/// A number value holding `m` thousandths.
pub fn json_of_milli(m: i64) -> (r: Json)
    ensures
        r@ == JsonV::Num(milli_lexeme(m as int)),
        wf_json(r@),
{
    let mag: u64 = if m < 0 {
        (-(m as i128)) as u64
    } else {
        m as u64
    };
    let mut lex: Vec<char> = Vec::new();
    if m < 0 {
        lex.push('-');
    }
    crate::strutil::push_dec_u64(mag / 1000, &mut lex);
    lex.push('.');
    let f: u64 = mag % 1000;
    if f == 0 {
        lex.push('0');
    } else if f % 100 == 0 {
        lex.push(digit_char_exec_pub(f / 100));
    } else if f % 10 == 0 {
        lex.push(digit_char_exec_pub(f / 100));
        lex.push(digit_char_exec_pub((f / 10) % 10));
    } else {
        lex.push(digit_char_exec_pub(f / 100));
        lex.push(digit_char_exec_pub((f / 10) % 10));
        lex.push(digit_char_exec_pub(f % 10));
    }
    proof {
        lemma_dec_digits_are_digits(mag as int / 1000);
        assert(lex@ =~= milli_lexeme(m as int));
        let lx = lex@;
        let sign: int = if m < 0 {
            1
        } else {
            0
        };
        let ints = crate::strutil::dec_digits(mag as int / 1000);
        let fr = milli_frac(mag as int % 1000);
        let a = sign + ints.len() as int;
        let e = lx.len() as int;
        assert(1 <= fr.len() <= 3);
        assert forall|k: int| 0 <= k < fr.len() implies is_digit(#[trigger] fr[k]) by {
            let f = mag as int % 1000;
            if f == 0 {
            } else if f % 100 == 0 {
            } else if f % 10 == 0 {
            }
        }
        assert(lx.subrange(sign, a) =~= ints);
        assert(lx.subrange(a, e)[0] == '.');
        assert(lx.subrange(a, e).skip(1) =~= fr);
        assert(all_digits(lx.subrange(a, e).skip(1)));
        assert(frac_wf(lx.subrange(a, e)));
        assert(lx.skip(e) =~= Seq::<char>::empty());
        if m < 0 {
            assert(lx[0] == '-');
        } else {
            assert(is_digit(lx[0]));
        }
        assert(num_split(lx, a, e));
    }
    Json::Num(lex)
}

fn digit_char_exec_pub(d: u64) -> (r: char)
    requires
        d < 10,
    ensures
        r == digit_char(d as int),
        is_digit(r),
{
    match d {
        0 => '0',
        1 => '1',
        2 => '2',
        3 => '3',
        4 => '4',
        5 => '5',
        6 => '6',
        7 => '7',
        8 => '8',
        _ => '9',
    }
}

/// The numeric value of a decimal digit character.
pub open spec fn digit_val(c: char) -> int {
    if c == '0' {
        0
    } else if c == '1' {
        1
    } else if c == '2' {
        2
    } else if c == '3' {
        3
    } else if c == '4' {
        4
    } else if c == '5' {
        5
    } else if c == '6' {
        6
    } else if c == '7' {
        7
    } else if c == '8' {
        8
    } else {
        9
    }
}

/// The value of a string of decimal digits.
pub open spec fn dec_val(s: Seq<char>) -> int
    decreases s.len(),
{
    if s.len() == 0 {
        0
    } else {
        dec_val(s.drop_last()) * 10 + digit_val(s.last())
    }
}

/// The digits of an integer lexeme: everything after an optional minus sign.
pub open spec fn int_body(s: Seq<char>) -> Seq<char> {
    if s.len() > 0 && s[0] == '-' {
        s.drop_first()
    } else {
        s
    }
}

/// Whether `s` is the lexeme of a JSON integer: an optional minus sign, then
/// digits with no superfluous leading zero.
pub open spec fn int_lexeme(s: Seq<char>) -> bool {
    &&& s.len() > 0
    &&& int_body(s).len() > 0
    &&& forall|k: int| 0 <= k < int_body(s).len() ==> is_digit(#[trigger] int_body(s)[k])
    &&& (int_body(s)[0] != '0' || int_body(s).len() == 1)
}

/// The integer an integer lexeme denotes.
pub open spec fn int_val(s: Seq<char>) -> int {
    if s.len() > 0 && s[0] == '-' {
        -dec_val(s.drop_first())
    } else {
        dec_val(s)
    }
}

/// Ten to the `k`.
pub open spec fn pow10(k: int) -> int
    decreases k,
{
    if k <= 0 {
        1
    } else {
        10 * pow10(k - 1)
    }
}

proof fn lemma_dec_val_bounds(s: Seq<char>)
    requires
        forall|k: int| 0 <= k < s.len() ==> is_digit(#[trigger] s[k]),
    ensures
        0 <= dec_val(s) < pow10(s.len() as int),
        s.len() > 0 && s[0] != '0' ==> dec_val(s) >= pow10(s.len() - 1),
    decreases s.len(),
{
    if s.len() > 0 {
        lemma_dec_val_bounds(s.drop_last());
        assert(forall|k: int| 0 <= k < s.len() - 1 ==> s.drop_last()[k] == s[k]);
        assert(0 <= digit_val(s.last()) <= 9);
        if s.len() == 1 {
            assert(pow10(0) == 1);
            if s[0] != '0' {
                assert(digit_val(s.last()) >= 1);
            }
        } else {
            if s[0] != '0' {
                assert(s.drop_last()[0] == s[0]);
                assert(dec_val(s.drop_last()) >= pow10(s.len() - 2));
            }
        }
    }
}

/// What [`Json::as_i32`] returns: the value of an integer lexeme that fits
/// in an `i32`.
pub open spec fn spec_as_i32(v: JsonV) -> Option<i32> {
    match v {
        JsonV::Num(s) => if int_lexeme(s) && -0x8000_0000 <= int_val(s) <= 0x7fff_ffff {
            Some(int_val(s) as i32)
        } else {
            None
        },
        _ => None,
    }
}

impl Json {
    /// The value of this number, if it is an integer that fits in an `i32`.
    #[verifier::loop_isolation(false)]
    pub fn as_i32(&self) -> (r: Option<i32>)
        ensures
            r == spec_as_i32(self@),
    {
        let s = match self {
            Json::Num(s) => s,
            _ => {
                return None;
            },
        };
        let n = s.len();
        if n == 0 {
            return None;
        }
        let neg = s[0] == '-';
        let start: usize = if neg {
            1
        } else {
            0
        };
        let ghost body = int_body(s@);
        proof {
            assert(body.len() == n - start);
            assert(forall|k: int| 0 <= k < body.len() ==> body[k] == s@[start + k]);
        }
        if n == start {
            return None;
        }
        // reject non-digits and a superfluous leading zero
        if s[start] == '0' && n - start > 1 {
            return None;
        }
        let mut i = start;
        while i < n
            invariant
                start <= i <= n,
                forall|k: int| start <= k < i ==> is_digit(#[trigger] s@[k]),
            decreases n - i,
        {
            if !is_digit_char(s[i]) {
                proof {
                    assert(body[i - start] == s@[i as int]);
                    assert(!int_lexeme(s@));
                }
                return None;
            }
            i += 1;
        }
        proof {
            assert forall|k: int| 0 <= k < body.len() implies is_digit(#[trigger] body[k]) by {
                assert(body[k] == s@[start + k]);
            }
            assert(int_lexeme(s@));
            lemma_dec_val_bounds(body);
        }
        // more than ten digits cannot fit in an i32
        if n - start > 10 {
            proof {
                assert(body[0] == s@[start as int]);
                assert(dec_val(body) >= pow10(body.len() - 1));
                reveal_with_fuel(pow10, 12);
                assert(pow10(10) == 10000000000);
                assert(body.len() - 1 >= 10);
                lemma_pow10_mono(10, body.len() - 1);
            }
            return None;
        }
        let mut acc: u64 = 0;
        let mut i = start;
        while i < n
            invariant
                start <= i <= n,
                n - start <= 10,
                acc == dec_val(body.take(i - start)),
                acc < pow10(i - start),
            decreases n - i,
        {
            proof {
                reveal_with_fuel(pow10, 12);
                assert(pow10(10) == 10000000000);
                lemma_pow10_mono(i - start, 10);
                assert(body.take(i + 1 - start).drop_last() =~= body.take(i - start));
                assert(body.take(i + 1 - start).last() == body[i - start]);
                assert(body[i - start] == s@[i as int]);
            }
            let d: u64 = digit_val_exec(s[i]);
            acc = acc * 10 + d;
            i += 1;
        }
        proof {
            assert(body.take(n - start) =~= body);
        }
        if neg {
            if acc <= 0x8000_0000 {
                Some((-(acc as i64)) as i32)
            } else {
                None
            }
        } else {
            if acc <= 0x7fff_ffff {
                Some(acc as i32)
            } else {
                None
            }
        }
    }
}

proof fn lemma_pow10_mono(a: int, b: int)
    requires
        a <= b,
    ensures
        pow10(a) <= pow10(b),
        pow10(a) >= 1,
    decreases b - a,
{
    if a < b {
        lemma_pow10_mono(a, b - 1);
    } else {
        lemma_pow10_pos(a);
    }
}

proof fn lemma_pow10_pos(a: int)
    ensures
        pow10(a) >= 1,
    decreases a,
{
    if a > 0 {
        lemma_pow10_pos(a - 1);
    }
}

fn digit_val_exec(c: char) -> (r: u64)
    requires
        is_digit(c),
    ensures
        r == digit_val(c),
        r <= 9,
{
    match c {
        '0' => 0,
        '1' => 1,
        '2' => 2,
        '3' => 3,
        '4' => 4,
        '5' => 5,
        '6' => 6,
        '7' => 7,
        '8' => 8,
        _ => 9,
    }
}

proof fn lemma_dec_digits_are_digits(n: int)
    requires
        n >= 0,
    ensures
        crate::strutil::dec_digits(n).len() > 0,
        forall|k: int|
            0 <= k < crate::strutil::dec_digits(n).len() ==> is_digit(
                #[trigger] crate::strutil::dec_digits(n)[k],
            ),
        int_digits(crate::strutil::dec_digits(n)),
        n >= 1 ==> crate::strutil::dec_digits(n)[0] != '0',
    decreases n,
{
    if n >= 10 {
        lemma_dec_digits_are_digits(n / 10);
        assert(is_digit(digit_char(n % 10)));
        assert(crate::strutil::dec_digits(n)[0] == crate::strutil::dec_digits(n / 10)[0]);
    } else {
        assert(is_digit(digit_char(n)));
        if n >= 1 {
            assert(digit_char(n) != '0');
        }
    }
}

} // verus!
